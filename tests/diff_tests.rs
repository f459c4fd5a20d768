use vdom::apply_patches;
use vdom::diff;
use vdom::Patch;
use vdom::StringMap;
use vdom::VNode;

fn s(text: &str) -> String {
    text.to_string()
}

fn attrs(pairs: &[(&str, &str)]) -> StringMap<String> {
    let mut m = StringMap::new();
    for (k, v) in pairs {
        m.insert(s(k), s(v));
    }
    m
}

fn handlers(pairs: &[(&str, u64)]) -> StringMap<u64> {
    let mut m = StringMap::new();
    for (k, v) in pairs {
        m.insert(s(k), *v);
    }
    m
}

fn texts(items: &[&str]) -> Vec<VNode> {
    items.iter().map(|t| VNode::new_text(t)).collect()
}

fn element(tag: &str, children: Vec<VNode>) -> VNode {
    VNode::new_element(tag, StringMap::new(), children, StringMap::new())
}

fn sample_tree() -> VNode {
    let inner = VNode::new_element(
        "span",
        attrs(&[("class", "x")]),
        texts(&["hi"]),
        handlers(&[("click", 7)]),
    );
    let comp = VNode::new_component("Counter", attrs(&[("start", "1")]), s("3"), 11);
    let frag = VNode::new_fragment(vec![VNode::new_text("a"), comp]);
    VNode::new_element(
        "div",
        attrs(&[("id", "root"), ("title", "t")]),
        vec![inner, frag, VNode::new_text("tail")],
        handlers(&[("load", 1)]),
    )
}

#[test]
fn identical_trees_give_no_patch() {
    let t = sample_tree();
    let u = sample_tree();
    assert!(diff(&t, &u).is_empty());
    assert!(diff(&t, &t).is_empty());
    let f = VNode::new_fragment(texts(&["x", "y"]));
    assert!(diff(&f, &f).is_empty());
    let e = element("p", vec![]);
    assert!(diff(&e, &e).is_empty());
}

#[test]
fn variant_change_replaces() {
    let old = VNode::new_text("a");
    let new = element("div", texts(&["b"]));
    let patches = diff(&old, &new);
    assert_eq!(patches.len(), 1);
    match &patches[0] {
        Patch::Replace(n) => assert!(*n == new),
        other => panic!("unexpected patch {:?}", other),
    }
}

#[test]
fn fragment_against_component_replaces() {
    let old = VNode::new_fragment(texts(&["a"]));
    let new = VNode::new_component("C", StringMap::new(), s("s"), 1);
    let patches = diff(&old, &new);
    assert_eq!(patches.len(), 1);
    assert!(matches!(&patches[0], Patch::Replace(n) if *n == new));
}

#[test]
fn tag_change_replaces() {
    let old = element("div", texts(&["a"]));
    let new = element("span", texts(&["a"]));
    let patches = diff(&old, &new);
    assert_eq!(patches.len(), 1);
    assert!(matches!(&patches[0], Patch::Replace(n) if *n == new));
}

#[test]
fn attribute_changes_are_batched() {
    let old = VNode::new_element("div", attrs(&[("a", "1"), ("b", "2")]), vec![], StringMap::new());
    let new = VNode::new_element("div", attrs(&[("a", "1"), ("c", "3")]), vec![], StringMap::new());
    let patches = diff(&old, &new);
    assert_eq!(patches.len(), 1);
    match &patches[0] {
        Patch::UpdateAttributes(m) => {
            assert_eq!(m.len(), 2);
            assert_eq!(m.get(&s("b")), Some(&None));
            assert_eq!(m.get(&s("c")), Some(&Some(s("3"))));
            assert_eq!(m.get(&s("a")), None);
        }
        other => panic!("unexpected patch {:?}", other),
    }
}

#[test]
fn changed_attribute_value_is_set() {
    let old = VNode::new_element("div", attrs(&[("a", "1")]), vec![], StringMap::new());
    let new = VNode::new_element("div", attrs(&[("a", "2")]), vec![], StringMap::new());
    let patches = diff(&old, &new);
    assert_eq!(patches.len(), 1);
    match &patches[0] {
        Patch::UpdateAttributes(m) => {
            assert_eq!(m.len(), 1);
            assert_eq!(m.get(&s("a")), Some(&Some(s("2"))));
        }
        other => panic!("unexpected patch {:?}", other),
    }
}

#[test]
fn handler_changes_are_batched() {
    let old = VNode::new_element(
        "button",
        StringMap::new(),
        vec![],
        handlers(&[("click", 1), ("hover", 2), ("focus", 3)]),
    );
    let new = VNode::new_element(
        "button",
        StringMap::new(),
        vec![],
        handlers(&[("click", 1), ("hover", 5), ("blur", 4)]),
    );
    let patches = diff(&old, &new);
    assert_eq!(patches.len(), 1);
    match &patches[0] {
        Patch::UpdateEventHandlers(m) => {
            assert_eq!(m.len(), 3);
            assert_eq!(m.get(&s("hover")), Some(&Some(5)));
            assert_eq!(m.get(&s("blur")), Some(&Some(4)));
            assert_eq!(m.get(&s("focus")), Some(&None));
            assert_eq!(m.get(&s("click")), None);
        }
        other => panic!("unexpected patch {:?}", other),
    }
}

#[test]
fn attribute_patch_comes_before_handler_and_child_patches() {
    let old = VNode::new_element("div", attrs(&[("a", "1")]), texts(&["x"]), handlers(&[("k", 1)]));
    let new = VNode::new_element("div", attrs(&[("a", "2")]), texts(&["y"]), handlers(&[("k", 2)]));
    let patches = diff(&old, &new);
    assert_eq!(patches.len(), 3);
    assert!(matches!(&patches[0], Patch::UpdateAttributes(_)));
    assert!(matches!(&patches[1], Patch::UpdateEventHandlers(_)));
    assert!(matches!(&patches[2], Patch::Replace(n) if *n == VNode::new_text("y")));
}

#[test]
fn child_truncation_removes_surplus() {
    let old = element("ul", texts(&["x", "y", "z"]));
    let new = element("ul", texts(&["x"]));
    let patches = diff(&old, &new);
    assert_eq!(patches.len(), 2);
    assert!(matches!(&patches[0], Patch::Remove));
    assert!(matches!(&patches[1], Patch::Remove));
}

#[test]
fn child_growth_adds_new_children() {
    let old = element("ul", texts(&["x"]));
    let new = element("ul", texts(&["x", "y", "z"]));
    let patches = diff(&old, &new);
    assert_eq!(patches.len(), 2);
    assert!(matches!(&patches[0], Patch::Add(n) if *n == VNode::new_text("y")));
    assert!(matches!(&patches[1], Patch::Add(n) if *n == VNode::new_text("z")));
}

#[test]
fn empty_children_on_both_sides() {
    let old = element("ul", vec![]);
    let new = element("ul", vec![]);
    assert!(diff(&old, &new).is_empty());
    let f = VNode::new_fragment(vec![]);
    let g = VNode::new_fragment(vec![]);
    assert!(diff(&f, &g).is_empty());
}

#[test]
fn text_content_change() {
    let patches = diff(&VNode::new_text("hello"), &VNode::new_text("world"));
    assert_eq!(patches.len(), 1);
    assert!(matches!(&patches[0], Patch::Replace(n) if *n == VNode::new_text("world")));
    assert!(diff(&VNode::new_text("same"), &VNode::new_text("same")).is_empty());
}

#[test]
fn fragment_children_are_diffed_by_position() {
    let old = VNode::new_fragment(texts(&["a", "b"]));
    let new = VNode::new_fragment(texts(&["a", "c", "d"]));
    let patches = diff(&old, &new);
    assert_eq!(patches.len(), 2);
    assert!(matches!(&patches[0], Patch::Replace(n) if *n == VNode::new_text("c")));
    assert!(matches!(&patches[1], Patch::Add(n) if *n == VNode::new_text("d")));
}

#[test]
fn nested_patches_follow_depth_first_order() {
    let old = element("div", vec![element("p", texts(&["a", "b"])), VNode::new_text("q")]);
    let new = element("div", vec![element("p", texts(&["a2"])), VNode::new_text("q2")]);
    let patches = diff(&old, &new);
    assert_eq!(patches.len(), 3);
    assert!(matches!(&patches[0], Patch::Replace(n) if *n == VNode::new_text("a2")));
    assert!(matches!(&patches[1], Patch::Remove));
    assert!(matches!(&patches[2], Patch::Replace(n) if *n == VNode::new_text("q2")));
}

#[test]
fn component_state_change_updates_state() {
    let old = VNode::new_component("Counter", StringMap::new(), s("1"), 3);
    let new = VNode::new_component("Counter", StringMap::new(), s("2"), 3);
    let patches = diff(&old, &new);
    assert_eq!(patches.len(), 1);
    match &patches[0] {
        Patch::UpdateState(k, v) => {
            assert_eq!(k, "state");
            assert_eq!(v, "2");
        }
        other => panic!("unexpected patch {:?}", other),
    }
}

#[test]
fn component_with_same_state_gives_no_patch() {
    let old = VNode::new_component("Counter", attrs(&[("p", "1")]), s("1"), 3);
    let new = VNode::new_component("Counter", attrs(&[("p", "2")]), s("1"), 4);
    assert!(diff(&old, &new).is_empty());
}

#[test]
fn component_name_change_replaces() {
    let old = VNode::new_component("A", StringMap::new(), s("1"), 3);
    let new = VNode::new_component("B", StringMap::new(), s("1"), 3);
    let patches = diff(&old, &new);
    assert_eq!(patches.len(), 1);
    assert!(matches!(&patches[0], Patch::Replace(n) if *n == new));
}

#[test]
fn end_to_end_list_update() {
    let old = element("ul", texts(&["a", "b"]));
    let new = element("ul", texts(&["a", "c", "d"]));
    let patches = diff(&old, &new);
    assert_eq!(patches.len(), 2);
    assert!(matches!(&patches[0], Patch::Replace(n) if *n == VNode::new_text("c")));
    assert!(matches!(&patches[1], Patch::Add(n) if *n == VNode::new_text("d")));

    // A `Replace` played on a child list makes the list its one node, so the first child,
    // which had no patch, does not survive.
    let mut live = element("ul", texts(&["a", "b"]));
    assert_eq!(apply_patches(&mut live, &patches), Ok(()));
    assert!(live == element("ul", texts(&["c", "d"])));
    assert!(live != new);
}

#[test]
fn attribute_round_trip_through_a_fragment() {
    let old = VNode::new_fragment(vec![VNode::new_element(
        "div",
        attrs(&[("a", "1"), ("b", "2")]),
        texts(&["x"]),
        handlers(&[("click", 1)]),
    )]);
    let new = VNode::new_fragment(vec![VNode::new_element(
        "div",
        attrs(&[("a", "1"), ("c", "3")]),
        texts(&["x"]),
        handlers(&[("click", 2)]),
    )]);
    let patches = diff(&old, &new);
    assert_eq!(patches.len(), 2);
    let mut live = old.duplicate();
    assert_eq!(apply_patches(&mut live, &patches), Ok(()));
    assert!(live == new);
}

#[test]
fn copies_are_equal_and_independent() {
    let t = sample_tree();
    let mut c = t.duplicate();
    assert!(c == t);
    let patches = vec![Patch::Add(VNode::new_text("more"))];
    assert_eq!(apply_patches(&mut c, &patches), Ok(()));
    assert!(c != t);
    assert!(t == sample_tree());
}
