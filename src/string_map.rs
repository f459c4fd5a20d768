use vstd::prelude::*;

verus! {

/// A finite map from strings to values, stored as a list of entries whose keys are distinct.
///
/// The list order is the insertion order; it carries no meaning, the map is what the
/// contracts speak of (`self@`).
#[derive(Debug)]
pub struct StringMap<V> {
    entries: Vec<(String, V)>,
}

spec fn keys_distinct<V>(s: Seq<(String, V)>) -> bool {
    forall|i: int, j: int|
        0 <= i < s.len() && 0 <= j < s.len() && i != j ==> s[i].0@ != s[j].0@
}

spec fn keys_of<V>(s: Seq<(String, V)>) -> Seq<Seq<char>> {
    s.map_values(|e: (String, V)| e.0@)
}

spec fn position<V>(s: Seq<(String, V)>, k: Seq<char>) -> int {
    choose|i: int| 0 <= i < s.len() && s[i].0@ == k
}

spec fn map_of<V: DeepView>(s: Seq<(String, V)>) -> Map<Seq<char>, V::V> {
    Map::new(|k: Seq<char>| keys_of(s).contains(k), |k: Seq<char>| s[position(s, k)].1.deep_view())
}

proof fn lemma_entry<V: DeepView>(s: Seq<(String, V)>, j: int)
    requires
        keys_distinct(s),
        0 <= j < s.len(),
    ensures
        map_of(s).contains_key(s[j].0@),
        map_of(s)[s[j].0@] == s[j].1.deep_view(),
        keys_of(s)[j] == s[j].0@,
{
    let k = s[j].0@;
    assert(keys_of(s)[j] == k);
    let i = position(s, k);
    assert(s[i].0@ == k);
}

proof fn lemma_absent<V: DeepView>(s: Seq<(String, V)>, k: Seq<char>)
    requires
        forall|j: int| 0 <= j < s.len() ==> s[j].0@ != k,
    ensures
        !map_of(s).contains_key(k),
{
    if keys_of(s).contains(k) {
        let j = choose|j: int| 0 <= j < keys_of(s).len() && keys_of(s)[j] == k;
        assert(s[j].0@ == k);
    }
}

proof fn lemma_key_list<V: DeepView>(s: Seq<(String, V)>)
    requires
        keys_distinct(s),
    ensures
        keys_of(s).no_duplicates(),
        keys_of(s).len() == map_of(s).len(),
        forall|k: Seq<char>| #[trigger] map_of(s).contains_key(k) <==> keys_of(s).contains(k),
{
    let ks = keys_of(s);
    assert forall|i: int, j: int| 0 <= i < ks.len() && 0 <= j < ks.len() && i != j implies ks[i]
        != ks[j] by {
        assert(ks[i] == s[i].0@);
        assert(ks[j] == s[j].0@);
    }
    ks.unique_seq_to_set();
    assert(map_of(s).dom() =~= ks.to_set());
}

/// Writing a new value at the position of an existing key updates that key alone.
proof fn lemma_update<V: DeepView>(s: Seq<(String, V)>, i: int, e: (String, V))
    requires
        keys_distinct(s),
        0 <= i < s.len(),
        s[i].0@ == e.0@,
    ensures
        keys_distinct(s.update(i, e)),
        map_of(s.update(i, e)) == map_of(s).insert(e.0@, e.1.deep_view()),
{
    let t = s.update(i, e);
    assert(keys_distinct(t));
    lemma_entry(t, i);
    assert forall|k: Seq<char>| #[trigger] map_of(t).contains_key(k) <==> map_of(s).insert(
        e.0@,
        e.1.deep_view(),
    ).contains_key(k) by {
        if map_of(t).contains_key(k) {
            let j = choose|j: int| 0 <= j < keys_of(t).len() && keys_of(t)[j] == k;
            assert(t[j].0@ == k);
            if j != i {
                lemma_entry(s, j);
            }
        }
        if map_of(s).contains_key(k) {
            let j = choose|j: int| 0 <= j < keys_of(s).len() && keys_of(s)[j] == k;
            assert(s[j].0@ == k);
            lemma_entry(t, j);
        }
    }
    assert forall|k: Seq<char>| #[trigger] map_of(t).contains_key(k) && k != e.0@ implies map_of(
        t,
    )[k] == map_of(s)[k] by {
        let j = choose|j: int| 0 <= j < keys_of(t).len() && keys_of(t)[j] == k;
        assert(t[j].0@ == k);
        lemma_entry(t, j);
        lemma_entry(s, j);
    }
    assert(map_of(t) =~= map_of(s).insert(e.0@, e.1.deep_view()));
}

/// Appending an entry with a fresh key adds that key.
proof fn lemma_push<V: DeepView>(s: Seq<(String, V)>, e: (String, V))
    requires
        keys_distinct(s),
        !map_of(s).contains_key(e.0@),
    ensures
        keys_distinct(s.push(e)),
        map_of(s.push(e)) == map_of(s).insert(e.0@, e.1.deep_view()),
{
    let t = s.push(e);
    assert forall|j: int| 0 <= j < s.len() implies s[j].0@ != e.0@ by {
        lemma_entry(s, j);
    }
    assert(keys_distinct(t));
    lemma_entry(t, s.len() as int);
    assert forall|k: Seq<char>| #[trigger] map_of(t).contains_key(k) <==> map_of(s).insert(
        e.0@,
        e.1.deep_view(),
    ).contains_key(k) by {
        if map_of(t).contains_key(k) {
            let j = choose|j: int| 0 <= j < keys_of(t).len() && keys_of(t)[j] == k;
            assert(t[j].0@ == k);
            if j < s.len() {
                lemma_entry(s, j);
            }
        }
        if map_of(s).contains_key(k) {
            let j = choose|j: int| 0 <= j < keys_of(s).len() && keys_of(s)[j] == k;
            assert(s[j].0@ == k);
            lemma_entry(t, j);
        }
    }
    assert forall|k: Seq<char>| #[trigger] map_of(t).contains_key(k) && k != e.0@ implies map_of(
        t,
    )[k] == map_of(s)[k] by {
        let j = choose|j: int| 0 <= j < keys_of(t).len() && keys_of(t)[j] == k;
        assert(t[j].0@ == k);
        lemma_entry(t, j);
        lemma_entry(s, j);
    }
    assert(map_of(t) =~= map_of(s).insert(e.0@, e.1.deep_view()));
}

/// Taking out the entry at `i` removes its key.
proof fn lemma_remove<V: DeepView>(s: Seq<(String, V)>, i: int)
    requires
        keys_distinct(s),
        0 <= i < s.len(),
    ensures
        keys_distinct(s.remove(i)),
        map_of(s.remove(i)) == map_of(s).remove(s[i].0@),
{
    let t = s.remove(i);
    let ki = s[i].0@;
    assert(keys_distinct(t)) by {
        assert forall|a: int, b: int| 0 <= a < t.len() && 0 <= b < t.len() && a != b implies t[a].0@
            != t[b].0@ by {
            let sa = if a < i { a } else { a + 1 };
            let sb = if b < i { b } else { b + 1 };
            assert(t[a] == s[sa]);
            assert(t[b] == s[sb]);
        }
    }
    assert forall|k: Seq<char>| #[trigger] map_of(t).contains_key(k) <==> map_of(s).remove(
        ki,
    ).contains_key(k) by {
        if map_of(t).contains_key(k) {
            let j = choose|j: int| 0 <= j < keys_of(t).len() && keys_of(t)[j] == k;
            assert(t[j].0@ == k);
            let sj = if j < i { j } else { j + 1 };
            assert(t[j] == s[sj]);
            lemma_entry(s, sj);
        }
        if map_of(s).contains_key(k) && k != ki {
            let j = choose|j: int| 0 <= j < keys_of(s).len() && keys_of(s)[j] == k;
            assert(s[j].0@ == k);
            let tj = if j < i { j } else { j - 1 };
            assert(t[tj] == s[j]);
            lemma_entry(t, tj);
        }
    }
    assert forall|k: Seq<char>| #[trigger] map_of(t).contains_key(k) implies map_of(t)[k] == map_of(
        s,
    )[k] by {
        let j = choose|j: int| 0 <= j < keys_of(t).len() && keys_of(t)[j] == k;
        assert(t[j].0@ == k);
        let sj = if j < i { j } else { j + 1 };
        assert(t[j] == s[sj]);
        lemma_entry(t, j);
        lemma_entry(s, sj);
    }
    assert(map_of(t) =~= map_of(s).remove(ki));
}

impl<V> StringMap<V> {
    #[verifier::type_invariant]
    spec fn wf(self) -> bool {
        keys_distinct(self.entries@)
    }
}

impl<V: DeepView> StringMap<V> {
    /// The keys of the entries, in the order in which `key_at` hands them out.
    pub closed spec fn key_list(&self) -> Seq<Seq<char>> {
        keys_of(self.entries@)
    }

    /// The map from each key to the view of its value.
    pub closed spec fn view(&self) -> Map<Seq<char>, V::V> {
        map_of(self.entries@)
    }

    pub fn new() -> (r: Self)
        ensures
            r@ == Map::<Seq<char>, V::V>::empty(),
            r.key_list() == Seq::<Seq<char>>::empty(),
    {
        let r = StringMap { entries: Vec::new() };
        assert(r@ =~= Map::<Seq<char>, V::V>::empty());
        assert(r.key_list() =~= Seq::<Seq<char>>::empty());
        r
    }

    /// The number of keys; also states that `key_list` lists each key of the map once.
    pub fn len(&self) -> (r: usize)
        ensures
            r == self.key_list().len(),
            r == self@.len(),
            self.key_list().no_duplicates(),
            forall|k: Seq<char>| #[trigger] self@.contains_key(k) <==> self.key_list().contains(k),
    {
        proof {
            use_type_invariant(self);
            lemma_key_list(self.entries@);
        }
        self.entries.len()
    }

    pub fn is_empty(&self) -> (r: bool)
        ensures
            r == (self@.len() == 0),
            r == (self@ == Map::<Seq<char>, V::V>::empty()),
    {
        proof {
            use_type_invariant(self);
            lemma_key_list(self.entries@);
            if self@.len() != 0 {
                let k = self.key_list()[0];
                assert(self@.contains_key(k));
                assert(!Map::<Seq<char>, V::V>::empty().contains_key(k));
            } else {
                assert(self@ =~= Map::<Seq<char>, V::V>::empty());
            }
        }
        self.entries.len() == 0
    }

    /// The key at position `i` of `key_list`.
    pub fn key_at(&self, i: usize) -> (r: &String)
        requires
            i < self.key_list().len(),
        ensures
            r@ == self.key_list()[i as int],
            self@.contains_key(r@),
    {
        proof {
            use_type_invariant(self);
            lemma_entry(self.entries@, i as int);
        }
        &self.entries[i].0
    }

    /// The value stored under the key at position `i` of `key_list`.
    pub fn value_at(&self, i: usize) -> (r: &V)
        requires
            i < self.key_list().len(),
        ensures
            self@.contains_key(self.key_list()[i as int]),
            r.deep_view() == self@[self.key_list()[i as int]],
    {
        proof {
            use_type_invariant(self);
            lemma_entry(self.entries@, i as int);
        }
        &self.entries[i].1
    }

    fn find(&self, k: &String) -> (r: Option<usize>)
        ensures
            match r {
                Some(i) => i < self.entries@.len() && self.entries@[i as int].0@ == k@,
                None => !self@.contains_key(k@),
            },
    {
        let mut i: usize = 0;
        while i < self.entries.len()
            invariant
                i <= self.entries@.len(),
                forall|j: int| 0 <= j < i ==> self.entries@[j].0@ != k@,
            decreases self.entries@.len() - i,
        {
            if self.entries[i].0 == *k {
                return Some(i);
            }
            i = i + 1;
        }
        proof {
            lemma_absent(self.entries@, k@);
        }
        None
    }

    pub fn contains_key(&self, k: &String) -> (r: bool)
        ensures
            r == self@.contains_key(k@),
    {
        proof {
            use_type_invariant(self);
        }
        match self.find(k) {
            Some(i) => {
                proof {
                    lemma_entry(self.entries@, i as int);
                }
                true
            },
            None => false,
        }
    }

    pub fn get(&self, k: &String) -> (r: Option<&V>)
        ensures
            match r {
                Some(v) => self@.contains_key(k@) && v.deep_view() == self@[k@],
                None => !self@.contains_key(k@),
            },
    {
        proof {
            use_type_invariant(self);
        }
        match self.find(k) {
            Some(i) => {
                proof {
                    lemma_entry(self.entries@, i as int);
                }
                Some(&self.entries[i].1)
            },
            None => None,
        }
    }

    /// Sets the value of `k` to `v`, adding the key when it is absent.
    pub fn insert(&mut self, k: String, v: V)
        ensures
            final(self)@ == old(self)@.insert(k@, v.deep_view()),
    {
        proof {
            use_type_invariant(&*self);
        }
        let pos = self.find(&k);
        let mut entries: Vec<(String, V)> = Vec::new();
        std::mem::swap(&mut entries, &mut self.entries);
        let ghost before = entries@;
        let ghost e = (k, v);
        match pos {
            Some(i) => {
                entries.set(i, (k, v));
                proof {
                    lemma_update(before, i as int, e);
                }
            },
            None => {
                entries.push((k, v));
                proof {
                    lemma_push(before, e);
                }
            },
        }
        self.entries = entries;
    }

    /// Takes `k` out of the map, handing back its value if it was there.
    pub fn remove(&mut self, k: &String) -> (r: Option<V>)
        ensures
            final(self)@ == old(self)@.remove(k@),
            match r {
                Some(v) => old(self)@.contains_key(k@) && v.deep_view() == old(self)@[k@],
                None => !old(self)@.contains_key(k@),
            },
    {
        proof {
            use_type_invariant(&*self);
        }
        match self.find(k) {
            Some(i) => {
                let mut entries: Vec<(String, V)> = Vec::new();
                std::mem::swap(&mut entries, &mut self.entries);
                let ghost before = entries@;
                proof {
                    lemma_entry(before, i as int);
                    lemma_remove(before, i as int);
                }
                let (_, v) = entries.remove(i);
                self.entries = entries;
                Some(v)
            },
            None => {
                proof {
                    assert(old(self)@.remove(k@) =~= old(self)@);
                }
                None
            },
        }
    }
}

impl StringMap<String> {
    /// An independent copy of the map.
    pub fn duplicate(&self) -> (r: StringMap<String>)
        ensures
            r@ == self@,
            r.key_list() == self.key_list(),
    {
        proof {
            use_type_invariant(self);
        }
        let mut entries: Vec<(String, String)> = Vec::new();
        let mut i: usize = 0;
        while i < self.entries.len()
            invariant
                i <= self.entries@.len(),
                entries@ == self.entries@.subrange(0, i as int),
            decreases self.entries@.len() - i,
        {
            let k = self.entries[i].0.clone();
            let v = self.entries[i].1.clone();
            entries.push((k, v));
            i = i + 1;
            proof {
                assert(entries@ =~= self.entries@.subrange(0, i as int));
            }
        }
        proof {
            assert(entries@ =~= self.entries@);
        }
        StringMap { entries }
    }

    /// Whether the two maps hold the same keys with the same values.
    pub fn same_as(&self, other: &StringMap<String>) -> (r: bool)
        ensures
            r == (self@ == other@),
    {
        let n = self.len();
        let mut i: usize = 0;
        while i < n
            invariant
                n == self.key_list().len(),
                i <= n,
                forall|k: Seq<char>| #[trigger] self@.contains_key(k) <==> self.key_list().contains(k),
                forall|a: int|
                    0 <= a < i ==> other@.contains_key(#[trigger] self.key_list()[a])
                        && other@[self.key_list()[a]] == self@[self.key_list()[a]],
            decreases n - i,
        {
            let k = self.key_at(i);
            let v = self.value_at(i);
            match other.get(k) {
                Some(ov) => {
                    if *ov != *v {
                        return false;
                    }
                },
                None => {
                    return false;
                },
            }
            i = i + 1;
        }
        let m = other.len();
        let mut j: usize = 0;
        while j < m
            invariant
                m == other.key_list().len(),
                j <= m,
                forall|k: Seq<char>| #[trigger] other@.contains_key(k) <==> other.key_list().contains(k),
                forall|b: int| 0 <= b < j ==> self@.contains_key(#[trigger] other.key_list()[b]),
            decreases m - j,
        {
            if !self.contains_key(other.key_at(j)) {
                return false;
            }
            j = j + 1;
        }
        proof {
            assert forall|k: Seq<char>| #[trigger] self@.contains_key(k) implies other@.contains_key(k)
                && other@[k] == self@[k] by {
                let a = choose|a: int| 0 <= a < n && self.key_list()[a] == k;
            }
            assert forall|k: Seq<char>| #[trigger] other@.contains_key(k) implies self@.contains_key(k) by {
                let b = choose|b: int| 0 <= b < m && other.key_list()[b] == k;
            }
            assert(self@ =~= other@);
        }
        true
    }
}

impl StringMap<u64> {
    /// An independent copy of the map.
    pub fn duplicate(&self) -> (r: StringMap<u64>)
        ensures
            r@ == self@,
            r.key_list() == self.key_list(),
    {
        proof {
            use_type_invariant(self);
        }
        let mut entries: Vec<(String, u64)> = Vec::new();
        let mut i: usize = 0;
        while i < self.entries.len()
            invariant
                i <= self.entries@.len(),
                entries@ == self.entries@.subrange(0, i as int),
            decreases self.entries@.len() - i,
        {
            let k = self.entries[i].0.clone();
            entries.push((k, self.entries[i].1));
            i = i + 1;
            proof {
                assert(entries@ =~= self.entries@.subrange(0, i as int));
            }
        }
        proof {
            assert(entries@ =~= self.entries@);
        }
        StringMap { entries }
    }

    /// Whether the two maps hold the same keys with the same values.
    pub fn same_as(&self, other: &StringMap<u64>) -> (r: bool)
        ensures
            r == (self@ == other@),
    {
        let n = self.len();
        let mut i: usize = 0;
        while i < n
            invariant
                n == self.key_list().len(),
                i <= n,
                forall|k: Seq<char>| #[trigger] self@.contains_key(k) <==> self.key_list().contains(k),
                forall|a: int|
                    0 <= a < i ==> other@.contains_key(#[trigger] self.key_list()[a])
                        && other@[self.key_list()[a]] == self@[self.key_list()[a]],
            decreases n - i,
        {
            let k = self.key_at(i);
            let v = self.value_at(i);
            match other.get(k) {
                Some(ov) => {
                    if *ov != *v {
                        return false;
                    }
                },
                None => {
                    return false;
                },
            }
            i = i + 1;
        }
        let m = other.len();
        let mut j: usize = 0;
        while j < m
            invariant
                m == other.key_list().len(),
                j <= m,
                forall|k: Seq<char>| #[trigger] other@.contains_key(k) <==> other.key_list().contains(k),
                forall|b: int| 0 <= b < j ==> self@.contains_key(#[trigger] other.key_list()[b]),
            decreases m - j,
        {
            if !self.contains_key(other.key_at(j)) {
                return false;
            }
            j = j + 1;
        }
        proof {
            assert forall|k: Seq<char>| #[trigger] self@.contains_key(k) implies other@.contains_key(k)
                && other@[k] == self@[k] by {
                let a = choose|a: int| 0 <= a < n && self.key_list()[a] == k;
            }
            assert forall|k: Seq<char>| #[trigger] other@.contains_key(k) implies self@.contains_key(k) by {
                let b = choose|b: int| 0 <= b < m && other.key_list()[b] == k;
            }
            assert(self@ =~= other@);
        }
        true
    }
}

} // verus!
