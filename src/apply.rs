use vstd::prelude::*;

use crate::diff::map_changes;
use crate::node::{tree_list, Tree, VNode};
use crate::patch::{edit_list, Edit, Patch, PatchError};
use crate::string_map::StringMap;

verus! {

/// Map `m` after the per-key changes `c`: `Some(v)` sets a key to `v`, `None` deletes it.
pub open spec fn apply_changes<V>(m: Map<Seq<char>, V>, c: Map<Seq<char>, Option<V>>) -> Map<
    Seq<char>,
    V,
> {
    Map::new(
        |k: Seq<char>|
            if c.contains_key(k) {
                c[k] is Some
            } else {
                m.contains_key(k)
            },
        |k: Seq<char>|
            if c.contains_key(k) {
                c[k]->0
            } else {
                m[k]
            },
    )
}

/// A child list after one edit, or `None` when the edit addresses a last child that is missing
/// or of a variant it does not apply to.
///
/// `Replace` makes the list its one node, `Add` appends, `Remove` drops the last child (if any);
/// the updates act on the last child.
pub open spec fn apply_edit(cs: Seq<Tree>, e: Edit) -> Option<Seq<Tree>> {
    match e {
        Edit::Replace(t) => Some(seq![t]),
        Edit::Add(t) => Some(cs.push(t)),
        Edit::Remove => Some(
            if cs.len() == 0 {
                cs
            } else {
                cs.drop_last()
            },
        ),
        Edit::UpdateAttributes(c) => {
            if cs.len() > 0 && cs.last() is Element {
                let l = cs.last();
                Some(
                    cs.drop_last().push(
                        Tree::Element {
                            tag: l->tag,
                            attributes: apply_changes(l->attributes, c),
                            children: l->children,
                            handlers: l->handlers,
                        },
                    ),
                )
            } else {
                None
            }
        },
        Edit::UpdateEventHandlers(c) => {
            if cs.len() > 0 && cs.last() is Element {
                let l = cs.last();
                Some(
                    cs.drop_last().push(
                        Tree::Element {
                            tag: l->tag,
                            attributes: l->attributes,
                            children: l->children,
                            handlers: apply_changes(l->handlers, c),
                        },
                    ),
                )
            } else {
                None
            }
        },
        Edit::UpdateState(_, v) => {
            if cs.len() > 0 && cs.last() is Component {
                let l = cs.last();
                Some(
                    cs.drop_last().push(
                        Tree::Component {
                            name: l->name,
                            props: l->props,
                            state: v,
                            renderer: l->renderer,
                        },
                    ),
                )
            } else {
                None
            }
        },
    }
}

/// A child list after the edits `es` in order, and whether all of them applied. The first edit
/// that does not apply stops the run; the list is then as the edits before it left it.
pub open spec fn apply_edits(cs: Seq<Tree>, es: Seq<Edit>) -> (Seq<Tree>, bool)
    decreases es.len(),
{
    if es.len() == 0 {
        (cs, true)
    } else {
        match apply_edit(cs, es[0]) {
            Some(next) => apply_edits(next, es.drop_first()),
            None => (cs, false),
        }
    }
}

/// The child list of a container node.
pub open spec fn children_of(t: Tree) -> Seq<Tree> {
    match t {
        Tree::Element { children, .. } => children,
        Tree::Fragment(children) => children,
        _ => Seq::empty(),
    }
}

/// Tree `t` with its child list replaced by `cs`.
pub open spec fn with_children(t: Tree, cs: Seq<Tree>) -> Tree {
    match t {
        Tree::Element { tag, attributes, handlers, .. } => Tree::Element {
            tag,
            attributes,
            children: cs,
            handlers,
        },
        Tree::Fragment(_) => Tree::Fragment(cs),
        _ => t,
    }
}

pub open spec fn is_container(t: Tree) -> bool {
    t is Element || t is Fragment
}

/// Playing the changes from map `old` to map `new` on `old` yields `new`: the batched attribute
/// and handler updates of `diff` bring the old maps to the new ones.
pub proof fn lemma_changes_round_trip<V>(old: Map<Seq<char>, V>, new: Map<Seq<char>, V>)
    ensures
        apply_changes(old, map_changes(old, new)) == new,
{
    assert(apply_changes(old, map_changes(old, new)) =~= new);
}

/// Applies the per-key changes `c` to the string map `m`.
pub fn apply_attribute_changes(m: &mut StringMap<String>, c: &StringMap<Option<String>>)
    ensures
        final(m)@ == apply_changes(old(m)@, c@),
{
    let ghost m0 = m@;
    let n = c.len();
    let mut i: usize = 0;
    while i < n
        invariant
            n == c.key_list().len(),
            i <= n,
            c.key_list().no_duplicates(),
            forall|k: Seq<char>| #[trigger] c@.contains_key(k) <==> c.key_list().contains(k),
            m@ == apply_changes(m0, c@.restrict(c.key_list().subrange(0, i as int).to_set())),
        decreases n - i,
    {
        let k = c.key_at(i);
        let ghost before = c@.restrict(c.key_list().subrange(0, i as int).to_set());
        let ghost after = c@.restrict(c.key_list().subrange(0, i + 1).to_set());
        proof {
            assert(c.key_list().subrange(0, i + 1) =~= c.key_list().subrange(0, i as int).push(
                k@,
            ));
            assert(!c.key_list().subrange(0, i as int).contains(k@)) by {
                if c.key_list().subrange(0, i as int).contains(k@) {
                    let a = choose|a: int|
                        0 <= a < i && #[trigger] c.key_list().subrange(0, i as int)[a] == k@;
                    assert(c.key_list()[a] == c.key_list()[i as int]);
                }
            }
            c.key_list().subrange(0, i as int).lemma_push_to_set_commute(k@);
            assert(after =~= before.insert(k@, c@[k@]));
        }
        match c.value_at(i) {
            Some(v) => {
                m.insert(k.clone(), v.clone());
                proof {
                    assert(m@ =~= apply_changes(m0, after));
                }
            },
            None => {
                m.remove(k);
                proof {
                    assert(m@ =~= apply_changes(m0, after));
                }
            },
        }
        i = i + 1;
    }
    proof {
        assert(c.key_list().subrange(0, n as int) =~= c.key_list());
        assert(c@.restrict(c.key_list().to_set()) =~= c@);
    }
}

/// Applies the per-key changes `c` to the handler map `m`.
pub fn apply_handler_changes(m: &mut StringMap<u64>, c: &StringMap<Option<u64>>)
    ensures
        final(m)@ == apply_changes(old(m)@, c@),
{
    let ghost m0 = m@;
    let n = c.len();
    let mut i: usize = 0;
    while i < n
        invariant
            n == c.key_list().len(),
            i <= n,
            c.key_list().no_duplicates(),
            forall|k: Seq<char>| #[trigger] c@.contains_key(k) <==> c.key_list().contains(k),
            m@ == apply_changes(m0, c@.restrict(c.key_list().subrange(0, i as int).to_set())),
        decreases n - i,
    {
        let k = c.key_at(i);
        let ghost before = c@.restrict(c.key_list().subrange(0, i as int).to_set());
        let ghost after = c@.restrict(c.key_list().subrange(0, i + 1).to_set());
        proof {
            assert(c.key_list().subrange(0, i + 1) =~= c.key_list().subrange(0, i as int).push(
                k@,
            ));
            assert(!c.key_list().subrange(0, i as int).contains(k@)) by {
                if c.key_list().subrange(0, i as int).contains(k@) {
                    let a = choose|a: int|
                        0 <= a < i && #[trigger] c.key_list().subrange(0, i as int)[a] == k@;
                    assert(c.key_list()[a] == c.key_list()[i as int]);
                }
            }
            c.key_list().subrange(0, i as int).lemma_push_to_set_commute(k@);
            assert(after =~= before.insert(k@, c@[k@]));
        }
        match c.value_at(i) {
            Some(v) => {
                m.insert(k.clone(), *v);
                proof {
                    assert(m@ =~= apply_changes(m0, after));
                }
            },
            None => {
                m.remove(k);
                proof {
                    assert(m@ =~= apply_changes(m0, after));
                }
            },
        }
        i = i + 1;
    }
    proof {
        assert(c.key_list().subrange(0, n as int) =~= c.key_list());
        assert(c@.restrict(c.key_list().to_set()) =~= c@);
    }
}

proof fn lemma_tree_list_push(v: Seq<VNode>, x: VNode)
    ensures
        tree_list(v.push(x)) == tree_list(v).push(x@),
{
    assert(tree_list(v.push(x)) =~= tree_list(v).push(x@));
}

proof fn lemma_tree_list_drop_last(v: Seq<VNode>)
    requires
        v.len() > 0,
    ensures
        tree_list(v.drop_last()) == tree_list(v).drop_last(),
        tree_list(v).last() == v.last()@,
{
    assert(tree_list(v.drop_last()) =~= tree_list(v).drop_last());
}

/// Applies `patches` in order to the child list `children`. The first patch that addresses a
/// missing last child or one of the wrong variant stops the run with `InvalidPatchTarget`; the
/// list is then as the patches before it left it.
pub fn apply_to_children(children: &mut Vec<VNode>, patches: &[Patch]) -> (r: Result<
    (),
    PatchError,
>)
    ensures
        (tree_list(final(children)@), r is Ok) == apply_edits(
            tree_list(old(children)@),
            edit_list(patches@),
        ),
{
    let ghost es = edit_list(patches@);
    let ghost start = tree_list(children@);
    let mut i: usize = 0;
    proof {
        assert(es.subrange(0, es.len() as int) =~= es);
    }
    while i < patches.len()
        invariant
            i <= patches@.len(),
            es == edit_list(patches@),
            start == tree_list(old(children)@),
            apply_edits(tree_list(children@), es.subrange(i as int, es.len() as int))
                == apply_edits(start, es),
        decreases patches@.len() - i,
    {
        let ghost cs = tree_list(children@);
        let ghost rest = es.subrange(i as int, es.len() as int);
        proof {
            assert(rest[0] == patches@[i as int]@);
            assert(rest.drop_first() =~= es.subrange(i + 1, es.len() as int));
        }
        match &patches[i] {
            Patch::Replace(n) => {
                let d = n.duplicate();
                children.clear();
                children.push(d);
                proof {
                    assert(tree_list(children@) =~= seq![d@]);
                }
            },
            Patch::Add(n) => {
                let d = n.duplicate();
                proof {
                    lemma_tree_list_push(children@, d);
                }
                children.push(d);
            },
            Patch::Remove => {
                proof {
                    if children@.len() > 0 {
                        lemma_tree_list_drop_last(children@);
                    }
                }
                children.pop();
            },
            Patch::UpdateAttributes(c) => {
                let ghost before = children@;
                match children.pop() {
                    Some(VNode::Element { tag, attributes, children: grand, event_handlers }) => {
                        let ghost l = before.last();
                        let mut attributes = attributes;
                        apply_attribute_changes(&mut attributes, c);
                        let e = VNode::Element { tag, attributes, children: grand, event_handlers };
                        proof {
                            l.lemma_children_view();
                            e.lemma_children_view();
                            lemma_tree_list_drop_last(before);
                            lemma_tree_list_push(children@, e);
                        }
                        children.push(e);
                    },
                    Some(other) => {
                        children.push(other);
                        proof {
                            lemma_tree_list_drop_last(before);
                            before.last().lemma_children_view();
                            assert(children@ =~= before);
                        }
                        return Err(PatchError::InvalidPatchTarget);
                    },
                    None => {
                        proof {
                            assert(tree_list(children@) =~= cs);
                        }
                        return Err(PatchError::InvalidPatchTarget);
                    },
                }
            },
            Patch::UpdateEventHandlers(c) => {
                let ghost before = children@;
                match children.pop() {
                    Some(VNode::Element { tag, attributes, children: grand, event_handlers }) => {
                        let ghost l = before.last();
                        let mut event_handlers = event_handlers;
                        apply_handler_changes(&mut event_handlers, c);
                        let e = VNode::Element { tag, attributes, children: grand, event_handlers };
                        proof {
                            l.lemma_children_view();
                            e.lemma_children_view();
                            lemma_tree_list_drop_last(before);
                            lemma_tree_list_push(children@, e);
                        }
                        children.push(e);
                    },
                    Some(other) => {
                        children.push(other);
                        proof {
                            lemma_tree_list_drop_last(before);
                            before.last().lemma_children_view();
                            assert(children@ =~= before);
                        }
                        return Err(PatchError::InvalidPatchTarget);
                    },
                    None => {
                        proof {
                            assert(tree_list(children@) =~= cs);
                        }
                        return Err(PatchError::InvalidPatchTarget);
                    },
                }
            },
            Patch::UpdateState(_, v) => {
                let ghost before = children@;
                match children.pop() {
                    Some(VNode::Component { name, props, state: _, renderer }) => {
                        let e = VNode::Component { name, props, state: v.clone(), renderer };
                        proof {
                            lemma_tree_list_drop_last(before);
                            lemma_tree_list_push(children@, e);
                        }
                        children.push(e);
                    },
                    Some(other) => {
                        children.push(other);
                        proof {
                            lemma_tree_list_drop_last(before);
                            before.last().lemma_children_view();
                            assert(children@ =~= before);
                        }
                        return Err(PatchError::InvalidPatchTarget);
                    },
                    None => {
                        proof {
                            assert(tree_list(children@) =~= cs);
                        }
                        return Err(PatchError::InvalidPatchTarget);
                    },
                }
            },
        }
        i = i + 1;
    }
    proof {
        assert(es.subrange(i as int, es.len() as int) =~= Seq::<Edit>::empty());
    }
    Ok(())
}

/// Applies `patches` in order to the child list of the container `root` (an element or a
/// fragment).
///
/// A root that is no container is left as it is, with `InvalidPatchTarget`. Otherwise the
/// result is that of `apply_to_children` on its child list.
pub fn apply_patches(root: &mut VNode, patches: &[Patch]) -> (r: Result<(), PatchError>)
    ensures
        is_container(old(root)@) ==> final(root)@ == with_children(
            old(root)@,
            apply_edits(children_of(old(root)@), edit_list(patches@)).0,
        ) && (r is Ok <==> apply_edits(children_of(old(root)@), edit_list(patches@)).1),
        !is_container(old(root)@) ==> final(root)@ == old(root)@,
        !is_container(old(root)@) ==> r is Err,
{
    proof {
        root.lemma_children_view();
    }
    let r = match root {
        VNode::Element { children, .. } => apply_to_children(children, patches),
        VNode::Fragment(children) => apply_to_children(children, patches),
        _ => Err(PatchError::InvalidPatchTarget),
    };
    proof {
        root.lemma_children_view();
    }
    r
}

} // verus!
