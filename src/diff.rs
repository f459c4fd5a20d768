use vstd::math::min;
use vstd::prelude::*;

use crate::node::{tree_list, Tree, VNode};
use crate::patch::{edit_list, Edit, Patch};
use crate::string_map::StringMap;

verus! {

/// The per-key changes that turn map `old` into map `new`: `Some(v)` for each key that is new
/// or holds another value in `new`, `None` for each key that `new` no longer has.
pub open spec fn map_changes<V>(old: Map<Seq<char>, V>, new: Map<Seq<char>, V>) -> Map<
    Seq<char>,
    Option<V>,
> {
    Map::new(
        |k: Seq<char>|
            if new.contains_key(k) {
                !old.contains_key(k) || old[k] != new[k]
            } else {
                old.contains_key(k)
            },
        |k: Seq<char>|
            if new.contains_key(k) {
                Some(new[k])
            } else {
                None
            },
    )
}

/// One batched attribute update, or nothing when no attribute changed.
pub open spec fn attribute_edits(
    old: Map<Seq<char>, Seq<char>>,
    new: Map<Seq<char>, Seq<char>>,
) -> Seq<Edit> {
    if map_changes(old, new) == Map::<Seq<char>, Option<Seq<char>>>::empty() {
        Seq::empty()
    } else {
        seq![Edit::UpdateAttributes(map_changes(old, new))]
    }
}

/// One batched handler update, or nothing when no handler changed.
pub open spec fn handler_edits(old: Map<Seq<char>, u64>, new: Map<Seq<char>, u64>) -> Seq<Edit> {
    if map_changes(old, new) == Map::<Seq<char>, Option<u64>>::empty() {
        Seq::empty()
    } else {
        seq![Edit::UpdateEventHandlers(map_changes(old, new))]
    }
}

/// The edits for the children past the shorter of the two lists: one `Remove` per surplus old
/// child, or one `Add` per surplus new child, in order.
pub open spec fn tail_edits(olds: Seq<Tree>, news: Seq<Tree>) -> Seq<Edit> {
    if olds.len() > news.len() {
        Seq::new((olds.len() - news.len()) as nat, |i: int| Edit::Remove)
    } else {
        Seq::new((news.len() - olds.len()) as nat, |i: int| Edit::Add(news[olds.len() + i]))
    }
}

/// The name of the one state slot that a component has.
pub open spec fn state_slot() -> Seq<char> {
    seq!['s', 't', 'a', 't', 'e']
}

/// The patches that turn tree `old` into tree `new`, depth first and by position.
pub open spec fn diff_trees(old: Tree, new: Tree) -> Seq<Edit>
    decreases old, 0int,
{
    match old {
        Tree::Element { tag: ot, attributes: oa, children: oc, handlers: oh } => match new {
            Tree::Element { tag: nt, attributes: na, children: nc, handlers: nh } => {
                if ot != nt {
                    seq![Edit::Replace(new)]
                } else {
                    attribute_edits(oa, na) + handler_edits(oh, nh) + diff_pairs(
                        oc,
                        nc,
                        min(oc.len() as int, nc.len() as int),
                    ) + tail_edits(oc, nc)
                }
            },
            _ => seq![Edit::Replace(new)],
        },
        Tree::Text(a) => match new {
            Tree::Text(b) => if a == b {
                Seq::empty()
            } else {
                seq![Edit::Replace(new)]
            },
            _ => seq![Edit::Replace(new)],
        },
        Tree::Fragment(oc) => match new {
            Tree::Fragment(nc) => diff_pairs(oc, nc, min(oc.len() as int, nc.len() as int))
                + tail_edits(oc, nc),
            _ => seq![Edit::Replace(new)],
        },
        Tree::Component { name: on, state: os, .. } => match new {
            Tree::Component { name: nn, state: ns, .. } => {
                if on != nn {
                    seq![Edit::Replace(new)]
                } else if os == ns {
                    Seq::empty()
                } else {
                    seq![Edit::UpdateState(state_slot(), ns)]
                }
            },
            _ => seq![Edit::Replace(new)],
        },
    }
}

/// The patches of the first `n` pairs of children, pair after pair.
pub open spec fn diff_pairs(olds: Seq<Tree>, news: Seq<Tree>, n: int) -> Seq<Edit>
    decreases olds, n,
{
    if n <= 0 || n > olds.len() || n > news.len() {
        Seq::empty()
    } else {
        diff_pairs(olds, news, n - 1) + diff_trees(olds[n - 1], news[n - 1])
    }
}

proof fn lemma_edit_list_append(a: Seq<Patch>, b: Seq<Patch>)
    ensures
        edit_list(a + b) == edit_list(a) + edit_list(b),
{
    assert(edit_list(a + b) =~= edit_list(a) + edit_list(b));
}

/// The attribute changes from `old` to `new`, as one map.
pub fn attribute_changes(old: &StringMap<String>, new: &StringMap<String>) -> (r: StringMap<
    Option<String>,
>)
    ensures
        r@ == map_changes(old@, new@),
{
    let mut r: StringMap<Option<String>> = StringMap::new();
    let n = new.len();
    let mut i: usize = 0;
    while i < n
        invariant
            n == new.key_list().len(),
            i <= n,
            forall|k: Seq<char>| #[trigger] new@.contains_key(k) <==> new.key_list().contains(k),
            forall|k: Seq<char>| #[trigger]
                r@.contains_key(k) ==> map_changes(old@, new@).contains_key(k) && r@[k]
                    == map_changes(old@, new@)[k],
            forall|m: int|
                0 <= m < i && map_changes(old@, new@).contains_key(#[trigger] new.key_list()[m])
                    ==> r@.contains_key(new.key_list()[m]),
        decreases n - i,
    {
        let k = new.key_at(i);
        let v = new.value_at(i);
        let changed = match old.get(k) {
            Some(ov) => *ov != *v,
            None => true,
        };
        if changed {
            r.insert(k.clone(), Some(v.clone()));
        }
        i = i + 1;
    }
    let m = old.len();
    let mut j: usize = 0;
    while j < m
        invariant
            n == new.key_list().len(),
            m == old.key_list().len(),
            j <= m,
            forall|k: Seq<char>| #[trigger] new@.contains_key(k) <==> new.key_list().contains(k),
            forall|k: Seq<char>| #[trigger] old@.contains_key(k) <==> old.key_list().contains(k),
            forall|k: Seq<char>| #[trigger]
                r@.contains_key(k) ==> map_changes(old@, new@).contains_key(k) && r@[k]
                    == map_changes(old@, new@)[k],
            forall|a: int|
                0 <= a < n && map_changes(old@, new@).contains_key(#[trigger] new.key_list()[a])
                    ==> r@.contains_key(new.key_list()[a]),
            forall|b: int|
                0 <= b < j && map_changes(old@, new@).contains_key(#[trigger] old.key_list()[b])
                    ==> r@.contains_key(old.key_list()[b]),
        decreases m - j,
    {
        let k = old.key_at(j);
        if !new.contains_key(k) {
            r.insert(k.clone(), None);
        }
        j = j + 1;
    }
    proof {
        let c = map_changes(old@, new@);
        assert forall|k: Seq<char>| #[trigger] c.contains_key(k) implies r@.contains_key(k) by {
            if new@.contains_key(k) {
                let a = choose|a: int| 0 <= a < n && new.key_list()[a] == k;
            } else {
                let b = choose|b: int| 0 <= b < m && old.key_list()[b] == k;
            }
        }
        assert(r@ =~= c);
    }
    r
}

/// The event handler changes from `old` to `new`, as one map.
pub fn handler_changes(old: &StringMap<u64>, new: &StringMap<u64>) -> (r: StringMap<Option<u64>>)
    ensures
        r@ == map_changes(old@, new@),
{
    let mut r: StringMap<Option<u64>> = StringMap::new();
    let n = new.len();
    let mut i: usize = 0;
    while i < n
        invariant
            n == new.key_list().len(),
            i <= n,
            forall|k: Seq<char>| #[trigger] new@.contains_key(k) <==> new.key_list().contains(k),
            forall|k: Seq<char>| #[trigger]
                r@.contains_key(k) ==> map_changes(old@, new@).contains_key(k) && r@[k]
                    == map_changes(old@, new@)[k],
            forall|m: int|
                0 <= m < i && map_changes(old@, new@).contains_key(#[trigger] new.key_list()[m])
                    ==> r@.contains_key(new.key_list()[m]),
        decreases n - i,
    {
        let k = new.key_at(i);
        let v = *new.value_at(i);
        let changed = match old.get(k) {
            Some(ov) => *ov != v,
            None => true,
        };
        if changed {
            r.insert(k.clone(), Some(v));
        }
        i = i + 1;
    }
    let m = old.len();
    let mut j: usize = 0;
    while j < m
        invariant
            n == new.key_list().len(),
            m == old.key_list().len(),
            j <= m,
            forall|k: Seq<char>| #[trigger] new@.contains_key(k) <==> new.key_list().contains(k),
            forall|k: Seq<char>| #[trigger] old@.contains_key(k) <==> old.key_list().contains(k),
            forall|k: Seq<char>| #[trigger]
                r@.contains_key(k) ==> map_changes(old@, new@).contains_key(k) && r@[k]
                    == map_changes(old@, new@)[k],
            forall|a: int|
                0 <= a < n && map_changes(old@, new@).contains_key(#[trigger] new.key_list()[a])
                    ==> r@.contains_key(new.key_list()[a]),
            forall|b: int|
                0 <= b < j && map_changes(old@, new@).contains_key(#[trigger] old.key_list()[b])
                    ==> r@.contains_key(old.key_list()[b]),
        decreases m - j,
    {
        let k = old.key_at(j);
        if !new.contains_key(k) {
            r.insert(k.clone(), None);
        }
        j = j + 1;
    }
    proof {
        let c = map_changes(old@, new@);
        assert forall|k: Seq<char>| #[trigger] c.contains_key(k) implies r@.contains_key(k) by {
            if new@.contains_key(k) {
                let a = choose|a: int| 0 <= a < n && new.key_list()[a] == k;
            } else {
                let b = choose|b: int| 0 <= b < m && old.key_list()[b] == k;
            }
        }
        assert(r@ =~= c);
    }
    r
}

/// The patches that turn `old` into `new`.
///
/// Nodes of different variants, elements with different tags and components with different
/// names are replaced whole. Otherwise an element yields one batched attribute update and one
/// batched handler update when anything changed, then the patches of its children; a text node
/// is replaced when its content changed; a component yields a state update when its state
/// changed. Children are compared by position.
pub fn diff(old: &VNode, new: &VNode) -> (r: Vec<Patch>)
    ensures
        edit_list(r@) == diff_trees(old@, new@),
    decreases old, 0int,
{
    proof {
        old.lemma_children_view();
        new.lemma_children_view();
    }
    match (old, new) {
        (
            VNode::Element { tag: ot, attributes: oa, children: oc, event_handlers: oh },
            VNode::Element { tag: nt, attributes: na, children: nc, event_handlers: nh },
        ) => {
            if *ot != *nt {
                let r = vec![Patch::Replace(new.duplicate())];
                proof {
                    assert(edit_list(r@) =~= diff_trees(old@, new@));
                }
                return r;
            }
            let mut patches: Vec<Patch> = Vec::new();
            let ac = attribute_changes(oa, na);
            if !ac.is_empty() {
                patches.push(Patch::UpdateAttributes(ac));
            }
            let hc = handler_changes(oh, nh);
            if !hc.is_empty() {
                patches.push(Patch::UpdateEventHandlers(hc));
            }
            proof {
                assert(edit_list(patches@) =~= attribute_edits(oa@, na@) + handler_edits(oh@, nh@));
            }
            let ghost head = patches@;
            let mut cp = diff_children(oc, nc);
            let ghost tail = cp@;
            patches.append(&mut cp);
            proof {
                lemma_edit_list_append(head, tail);
            }
            patches
        },
        (VNode::Text(a), VNode::Text(b)) => {
            if *a == *b {
                let r: Vec<Patch> = Vec::new();
                proof {
                    assert(edit_list(r@) =~= diff_trees(old@, new@));
                }
                r
            } else {
                let r = vec![Patch::Replace(new.duplicate())];
                proof {
                    assert(edit_list(r@) =~= diff_trees(old@, new@));
                }
                r
            }
        },
        (VNode::Fragment(oc), VNode::Fragment(nc)) => diff_children(oc, nc),
        (
            VNode::Component { name: on, state: os, .. },
            VNode::Component { name: nn, state: ns, .. },
        ) => {
            let r = if *on != *nn {
                vec![Patch::Replace(new.duplicate())]
            } else if *os == *ns {
                Vec::new()
            } else {
                let slot = "state".to_string();
                proof {
                    reveal_strlit("state");
                    assert(slot@ =~= state_slot());
                }
                vec![Patch::UpdateState(slot, ns.clone())]
            };
            proof {
                assert(edit_list(r@) =~= diff_trees(old@, new@));
            }
            r
        },
        _ => {
            let r = vec![Patch::Replace(new.duplicate())];
            proof {
                assert(edit_list(r@) =~= diff_trees(old@, new@));
            }
            r
        },
    }
}

/// The patches that turn child list `olds` into child list `news`: the patches of each pair of
/// children at the same position, then a `Remove` per surplus old child or an `Add` per surplus
/// new child.
pub fn diff_children(olds: &Vec<VNode>, news: &Vec<VNode>) -> (r: Vec<Patch>)
    ensures
        edit_list(r@) == diff_pairs(
            tree_list(olds@),
            tree_list(news@),
            min(olds@.len() as int, news@.len() as int),
        ) + tail_edits(tree_list(olds@), tree_list(news@)),
    decreases olds, 1int,
{
    let ghost ot = tree_list(olds@);
    let ghost nt = tree_list(news@);
    let common = if olds.len() < news.len() {
        olds.len()
    } else {
        news.len()
    };
    let mut patches: Vec<Patch> = Vec::new();
    let mut i: usize = 0;
    while i < common
        invariant
            common == min(olds@.len() as int, news@.len() as int),
            i <= common,
            ot == tree_list(olds@),
            nt == tree_list(news@),
            edit_list(patches@) == diff_pairs(ot, nt, i as int),
        decreases common - i,
    {
        assert(decreases_to!(olds => olds@[i as int]));
        let mut p = diff(&olds[i], &news[i]);
        let ghost head = patches@;
        let ghost tail = p@;
        patches.append(&mut p);
        proof {
            lemma_edit_list_append(head, tail);
            assert(ot[i as int] == olds@[i as int]@);
            assert(nt[i as int] == news@[i as int]@);
        }
        i = i + 1;
    }
    let ghost head = patches@;
    let mut extra: Vec<Patch> = Vec::new();
    if olds.len() > news.len() {
        let mut j: usize = news.len();
        while j < olds.len()
            invariant
                news@.len() <= j <= olds@.len(),
                extra@.len() == j - news@.len(),
                forall|a: int| 0 <= a < extra@.len() ==> extra@[a] is Remove,
            decreases olds@.len() - j,
        {
            extra.push(Patch::Remove);
            j = j + 1;
        }
    } else {
        let mut j: usize = olds.len();
        while j < news.len()
            invariant
                olds@.len() <= j <= news@.len(),
                nt == tree_list(news@),
                extra@.len() == j - olds@.len(),
                forall|a: int|
                    0 <= a < extra@.len() ==> #[trigger] edit_list(extra@)[a] == Edit::Add(
                        nt[olds@.len() + a],
                    ),
            decreases news@.len() - j,
        {
            let d = news[j].duplicate();
            let ghost before = extra@;
            extra.push(Patch::Add(d));
            proof {
                assert forall|a: int| 0 <= a < extra@.len() implies #[trigger] edit_list(extra@)[a]
                    == Edit::Add(nt[olds@.len() + a]) by {
                    if a < before.len() {
                        assert(edit_list(before)[a] == Edit::Add(nt[olds@.len() + a]));
                    }
                }
            }
            j = j + 1;
        }
    }
    proof {
        assert(edit_list(extra@) =~= tail_edits(ot, nt));
    }
    let ghost tail = extra@;
    patches.append(&mut extra);
    proof {
        lemma_edit_list_append(head, tail);
    }
    patches
}

/// Two trees are of the same variant (both elements, both texts, ...).
pub open spec fn same_variant(a: Tree, b: Tree) -> bool {
    (a is Element && b is Element) || (a is Text && b is Text) || (a is Fragment && b is Fragment)
        || (a is Component && b is Component)
}

proof fn lemma_no_changes<V>(m: Map<Seq<char>, V>)
    ensures
        map_changes(m, m) == Map::<Seq<char>, Option<V>>::empty(),
{
    assert(map_changes(m, m) =~= Map::<Seq<char>, Option<V>>::empty());
}

/// Diffing a tree against an identical tree yields no patch.
pub proof fn lemma_diff_identical(t: Tree)
    ensures
        diff_trees(t, t) == Seq::<Edit>::empty(),
    decreases t, 0int,
{
    match t {
        Tree::Element { attributes, children, handlers, .. } => {
            lemma_no_changes(attributes);
            lemma_no_changes(handlers);
            lemma_diff_pairs_identical(children, children.len() as int);
            assert(tail_edits(children, children) =~= Seq::<Edit>::empty());
            assert(diff_trees(t, t) =~= Seq::<Edit>::empty());
        },
        Tree::Fragment(children) => {
            lemma_diff_pairs_identical(children, children.len() as int);
            assert(tail_edits(children, children) =~= Seq::<Edit>::empty());
            assert(diff_trees(t, t) =~= Seq::<Edit>::empty());
        },
        _ => {},
    }
}

/// Diffing the first `n` pairs of a child list against itself yields no patch.
pub proof fn lemma_diff_pairs_identical(c: Seq<Tree>, n: int)
    ensures
        diff_pairs(c, c, n) == Seq::<Edit>::empty(),
    decreases c, n,
{
    if n > 0 && n <= c.len() {
        lemma_diff_pairs_identical(c, n - 1);
        lemma_diff_identical(c[n - 1]);
        assert(diff_pairs(c, c, n) =~= Seq::<Edit>::empty());
    }
}

/// Diffing two trees of different variants yields exactly one patch: the replacement by the
/// new tree.
pub proof fn lemma_diff_variant_change(old: Tree, new: Tree)
    requires
        !same_variant(old, new),
    ensures
        diff_trees(old, new) == seq![Edit::Replace(new)],
{
}

} // verus!
