use vstd::prelude::*;

use crate::string_map::StringMap;

verus! {

/// A node tree as the contracts see it: strings as character sequences, maps as `Map`s.
pub enum Tree {
    Element {
        tag: Seq<char>,
        attributes: Map<Seq<char>, Seq<char>>,
        children: Seq<Tree>,
        handlers: Map<Seq<char>, u64>,
    },
    Text(Seq<char>),
    Fragment(Seq<Tree>),
    Component { name: Seq<char>, props: Map<Seq<char>, Seq<char>>, state: Seq<char>, renderer: u64 },
}

/// One node of a UI tree. Each node owns its children, so a tree has no sharing and no cycles.
///
/// Event handlers and component render functions are not stored as closures: the embedding
/// application keeps them in a registry of its own, and a node holds their integer keys.
#[derive(Debug)]
pub enum VNode {
    Element {
        tag: String,
        attributes: StringMap<String>,
        children: Vec<VNode>,
        event_handlers: StringMap<u64>,
    },
    Text(String),
    Fragment(Vec<VNode>),
    Component { name: String, props: StringMap<String>, state: String, renderer: u64 },
}

/// A component renders a subtree from its props and state. The reconciler never calls it: it
/// compares component nodes by name and state only.
pub trait Component {
    fn render(&self) -> VNode;

    fn component_did_mount(&mut self) {
    }

    fn component_will_unmount(&mut self) {
    }
}

/// The trees of a list of nodes.
pub open spec fn tree_list(c: Seq<VNode>) -> Seq<Tree> {
    Seq::new(c.len(), |i: int| c[i]@)
}

impl VNode {
    pub open spec fn view(&self) -> Tree
        decreases self,
    {
        match self {
            VNode::Element { tag, attributes, children, event_handlers } => Tree::Element {
                tag: tag@,
                attributes: attributes@,
                children: Seq::new(
                    children@.len(),
                    |i: int|
                        if 0 <= i < children@.len() {
                            children@[i].view()
                        } else {
                            Tree::Text(Seq::empty())
                        },
                ),
                handlers: event_handlers@,
            },
            VNode::Text(s) => Tree::Text(s@),
            VNode::Fragment(children) => Tree::Fragment(
                Seq::new(
                    children@.len(),
                    |i: int|
                        if 0 <= i < children@.len() {
                            children@[i].view()
                        } else {
                            Tree::Text(Seq::empty())
                        },
                ),
            ),
            VNode::Component { name, props, state, renderer } => Tree::Component {
                name: name@,
                props: props@,
                state: state@,
                renderer: *renderer,
            },
        }
    }

    /// The children of a container's tree are the trees of its child nodes.
    pub proof fn lemma_children_view(&self)
        ensures
            self is Element ==> self@->children == tree_list(self->children@),
            self is Fragment ==> self@->Fragment_0 == tree_list(self->Fragment_0@),
            self is Element ==> self@ is Element,
            self is Fragment ==> self@ is Fragment,
            self is Text ==> self@ is Text,
            self is Component ==> self@ is Component,
    {
        match self {
            VNode::Element { children, .. } => {
                assert(self@->children =~= tree_list(children@));
            },
            VNode::Fragment(children) => {
                assert(self@->Fragment_0 =~= tree_list(children@));
            },
            _ => {},
        }
    }

    pub fn new_element(
        tag: &str,
        attributes: StringMap<String>,
        children: Vec<VNode>,
        event_handlers: StringMap<u64>,
    ) -> (r: VNode)
        ensures
            r@ == (Tree::Element {
                tag: tag@,
                attributes: attributes@,
                children: tree_list(children@),
                handlers: event_handlers@,
            }),
    {
        let r = VNode::Element { tag: tag.to_string(), attributes, children, event_handlers };
        proof {
            r.lemma_children_view();
        }
        r
    }

    pub fn new_text(text: &str) -> (r: VNode)
        ensures
            r@ == Tree::Text(text@),
    {
        VNode::Text(text.to_string())
    }

    pub fn new_fragment(children: Vec<VNode>) -> (r: VNode)
        ensures
            r@ == Tree::Fragment(tree_list(children@)),
    {
        let r = VNode::Fragment(children);
        proof {
            r.lemma_children_view();
        }
        r
    }

    pub fn new_component(name: &str, props: StringMap<String>, state: String, renderer: u64) -> (r:
        VNode)
        ensures
            r@ == (Tree::Component { name: name@, props: props@, state: state@, renderer }),
    {
        VNode::Component { name: name.to_string(), props, state, renderer }
    }

    /// Whether the two subtrees are structurally equal.
    pub fn same_tree(&self, other: &VNode) -> (r: bool)
        ensures
            r == (self@ == other@),
        decreases self,
    {
        proof {
            self.lemma_children_view();
            other.lemma_children_view();
        }
        match (self, other) {
            (
                VNode::Element { tag: at, attributes: aa, children: ac, event_handlers: ah },
                VNode::Element { tag: bt, attributes: ba, children: bc, event_handlers: bh },
            ) => {
                *at == *bt && aa.same_as(ba) && ah.same_as(bh) && same_tree_list(ac, bc)
            },
            (VNode::Text(a), VNode::Text(b)) => *a == *b,
            (VNode::Fragment(ac), VNode::Fragment(bc)) => same_tree_list(ac, bc),
            (
                VNode::Component { name: an, props: ap, state: ast, renderer: ar },
                VNode::Component { name: bn, props: bp, state: bst, renderer: br },
            ) => *an == *bn && ap.same_as(bp) && *ast == *bst && *ar == *br,
            _ => false,
        }
    }

    /// An independent copy of the whole subtree.
    pub fn duplicate(&self) -> (r: VNode)
        ensures
            r@ == self@,
        decreases self,
    {
        match self {
            VNode::Element { tag, attributes, children, event_handlers } => {
                let c = duplicate_list(children);
                let r = VNode::Element {
                    tag: tag.clone(),
                    attributes: attributes.duplicate(),
                    children: c,
                    event_handlers: event_handlers.duplicate(),
                };
                proof {
                    r.lemma_children_view();
                    self.lemma_children_view();
                }
                r
            },
            VNode::Text(s) => VNode::Text(s.clone()),
            VNode::Fragment(children) => {
                let c = duplicate_list(children);
                let r = VNode::Fragment(c);
                proof {
                    r.lemma_children_view();
                    self.lemma_children_view();
                }
                r
            },
            VNode::Component { name, props, state, renderer } => VNode::Component {
                name: name.clone(),
                props: props.duplicate(),
                state: state.clone(),
                renderer: *renderer,
            },
        }
    }
}

/// Independent copies of a list of nodes.
pub fn duplicate_list(c: &Vec<VNode>) -> (r: Vec<VNode>)
    ensures
        tree_list(r@) == tree_list(c@),
    decreases c,
{
    let mut r: Vec<VNode> = Vec::new();
    let mut i: usize = 0;
    while i < c.len()
        invariant
            i <= c@.len(),
            r@.len() == i,
            forall|j: int| 0 <= j < i ==> r@[j]@ == c@[j]@,
        decreases c@.len() - i,
    {
        assert(decreases_to!(c => c@[i as int]));
        let d = c[i].duplicate();
        r.push(d);
        i = i + 1;
    }
    proof {
        assert(tree_list(r@) =~= tree_list(c@));
    }
    r
}

/// Whether the two lists hold structurally equal trees, position by position.
pub fn same_tree_list(a: &Vec<VNode>, b: &Vec<VNode>) -> (r: bool)
    ensures
        r == (tree_list(a@) == tree_list(b@)),
    decreases a,
{
    if a.len() != b.len() {
        proof {
            assert(tree_list(a@).len() != tree_list(b@).len());
        }
        return false;
    }
    let mut i: usize = 0;
    while i < a.len()
        invariant
            a@.len() == b@.len(),
            i <= a@.len(),
            forall|j: int| 0 <= j < i ==> a@[j]@ == b@[j]@,
        decreases a@.len() - i,
    {
        assert(decreases_to!(a => a@[i as int]));
        if !a[i].same_tree(&b[i]) {
            proof {
                assert(tree_list(a@)[i as int] != tree_list(b@)[i as int]);
            }
            return false;
        }
        i = i + 1;
    }
    proof {
        assert(tree_list(a@) =~= tree_list(b@));
    }
    true
}

impl PartialEq for VNode {
    fn eq(&self, other: &VNode) -> (r: bool) {
        self.same_tree(other)
    }
}

impl vstd::std_specs::cmp::PartialEqSpecImpl for VNode {
    open spec fn obeys_eq_spec() -> bool {
        true
    }

    open spec fn eq_spec(&self, other: &VNode) -> bool {
        self@ == other@
    }
}

} // verus!
