use vdom::apply_patches;
use vdom::diff;
use vdom::Patch;
use vdom::PatchError;
use vdom::StringMap;
use vdom::VNode;

fn s(text: &str) -> String {
    text.to_string()
}

fn attrs(pairs: &[(&str, &str)]) -> StringMap<String> {
    let mut m = StringMap::new();
    for (k, v) in pairs {
        m.insert(s(k), s(v));
    }
    m
}

fn handlers(pairs: &[(&str, u64)]) -> StringMap<u64> {
    let mut m = StringMap::new();
    for (k, v) in pairs {
        m.insert(s(k), *v);
    }
    m
}

fn texts(items: &[&str]) -> Vec<VNode> {
    items.iter().map(|t| VNode::new_text(t)).collect()
}

fn element(tag: &str, children: Vec<VNode>) -> VNode {
    VNode::new_element(tag, StringMap::new(), children, StringMap::new())
}

fn attribute_patch(pairs: &[(&str, Option<&str>)]) -> Patch {
    let mut m = StringMap::new();
    for (k, v) in pairs {
        m.insert(s(k), v.map(s));
    }
    Patch::UpdateAttributes(m)
}

#[test]
fn replace_makes_the_list_one_node() {
    let mut root = element("ul", texts(&["a", "b", "c"]));
    let r = apply_patches(&mut root, &[Patch::Replace(VNode::new_text("z"))]);
    assert_eq!(r, Ok(()));
    assert!(root == element("ul", texts(&["z"])));
}

#[test]
fn add_appends_and_remove_pops() {
    let mut root = VNode::new_fragment(texts(&["a"]));
    let patches = vec![
        Patch::Add(VNode::new_text("b")),
        Patch::Add(VNode::new_text("c")),
        Patch::Remove,
    ];
    assert_eq!(apply_patches(&mut root, &patches), Ok(()));
    assert!(root == VNode::new_fragment(texts(&["a", "b"])));
}

#[test]
fn remove_on_empty_list_changes_nothing() {
    let mut root = element("ul", vec![]);
    assert_eq!(apply_patches(&mut root, &[Patch::Remove]), Ok(()));
    assert!(root == element("ul", vec![]));
}

#[test]
fn attribute_update_sets_and_deletes_on_last_child() {
    let first = VNode::new_element("p", attrs(&[("a", "1")]), vec![], StringMap::new());
    let last = VNode::new_element("p", attrs(&[("a", "1"), ("b", "2")]), vec![], StringMap::new());
    let mut root = element("div", vec![first, last]);
    let patch = attribute_patch(&[("b", None), ("c", Some("3")), ("a", Some("9"))]);
    assert_eq!(apply_patches(&mut root, &[patch]), Ok(()));
    let first = VNode::new_element("p", attrs(&[("a", "1")]), vec![], StringMap::new());
    let last = VNode::new_element("p", attrs(&[("a", "9"), ("c", "3")]), vec![], StringMap::new());
    assert!(root == element("div", vec![first, last]));
}

#[test]
fn handler_update_sets_and_deletes() {
    let child = VNode::new_element("button", StringMap::new(), vec![], handlers(&[("click", 1), ("hover", 2)]));
    let mut root = VNode::new_fragment(vec![child]);
    let mut changes = StringMap::new();
    changes.insert(s("hover"), None);
    changes.insert(s("click"), Some(8));
    changes.insert(s("focus"), Some(4));
    assert_eq!(apply_patches(&mut root, &[Patch::UpdateEventHandlers(changes)]), Ok(()));
    let expected = VNode::new_element("button", StringMap::new(), vec![], handlers(&[("click", 8), ("focus", 4)]));
    assert!(root == VNode::new_fragment(vec![expected]));
}

#[test]
fn state_update_sets_component_state() {
    let comp = VNode::new_component("Counter", attrs(&[("p", "x")]), s("1"), 5);
    let mut root = VNode::new_fragment(vec![comp]);
    let patch = Patch::UpdateState(s("state"), s("2"));
    assert_eq!(apply_patches(&mut root, &[patch]), Ok(()));
    let expected = VNode::new_component("Counter", attrs(&[("p", "x")]), s("2"), 5);
    assert!(root == VNode::new_fragment(vec![expected]));
}

#[test]
fn component_state_round_trip() {
    let old = VNode::new_fragment(vec![VNode::new_component("C", StringMap::new(), s("1"), 2)]);
    let new = VNode::new_fragment(vec![VNode::new_component("C", StringMap::new(), s("2"), 2)]);
    let patches = diff(&old, &new);
    assert_eq!(patches.len(), 1);
    let mut live = old.duplicate();
    assert_eq!(apply_patches(&mut live, &patches), Ok(()));
    assert!(live == new);
}

#[test]
fn attribute_update_on_text_child_is_rejected() {
    let mut root = element("div", texts(&["a"]));
    let r = apply_patches(&mut root, &[attribute_patch(&[("a", Some("1"))])]);
    assert_eq!(r, Err(PatchError::InvalidPatchTarget));
    assert!(root == element("div", texts(&["a"])));
}

#[test]
fn handler_update_on_component_child_is_rejected() {
    let comp = VNode::new_component("C", StringMap::new(), s("1"), 2);
    let mut root = element("div", vec![comp]);
    let mut changes = StringMap::new();
    changes.insert(s("click"), Some(1));
    let r = apply_patches(&mut root, &[Patch::UpdateEventHandlers(changes)]);
    assert_eq!(r, Err(PatchError::InvalidPatchTarget));
}

#[test]
fn state_update_on_element_child_is_rejected() {
    let mut root = element("div", vec![element("p", vec![])]);
    let r = apply_patches(&mut root, &[Patch::UpdateState(s("state"), s("x"))]);
    assert_eq!(r, Err(PatchError::InvalidPatchTarget));
    assert!(root == element("div", vec![element("p", vec![])]));
}

#[test]
fn update_on_empty_list_is_rejected() {
    let mut root = VNode::new_fragment(vec![]);
    let r = apply_patches(&mut root, &[attribute_patch(&[("a", Some("1"))])]);
    assert_eq!(r, Err(PatchError::InvalidPatchTarget));
    assert!(root == VNode::new_fragment(vec![]));
}

#[test]
fn failure_keeps_the_earlier_patches() {
    let mut root = element("div", texts(&["a"]));
    let patches = vec![
        Patch::Add(VNode::new_text("b")),
        attribute_patch(&[("x", Some("1"))]),
        Patch::Add(VNode::new_text("c")),
    ];
    let r = apply_patches(&mut root, &patches);
    assert_eq!(r, Err(PatchError::InvalidPatchTarget));
    assert!(root == element("div", texts(&["a", "b"])));
}

#[test]
fn non_container_root_is_rejected() {
    let mut root = VNode::new_text("a");
    let r = apply_patches(&mut root, &[Patch::Add(VNode::new_text("b"))]);
    assert_eq!(r, Err(PatchError::InvalidPatchTarget));
    assert!(root == VNode::new_text("a"));
    let mut comp = VNode::new_component("C", StringMap::new(), s("1"), 2);
    assert_eq!(apply_patches(&mut comp, &[]), Err(PatchError::InvalidPatchTarget));
}

#[test]
fn no_patches_leave_a_container_unchanged() {
    let mut root = element("div", texts(&["a", "b"]));
    assert_eq!(apply_patches(&mut root, &[]), Ok(()));
    assert!(root == element("div", texts(&["a", "b"])));
}

#[test]
fn string_map_basics() {
    let mut m: StringMap<String> = StringMap::new();
    assert!(m.is_empty());
    m.insert(s("a"), s("1"));
    m.insert(s("b"), s("2"));
    m.insert(s("a"), s("3"));
    assert_eq!(m.len(), 2);
    assert!(!m.is_empty());
    assert_eq!(m.get(&s("a")), Some(&s("3")));
    assert!(m.contains_key(&s("b")));
    assert_eq!(m.remove(&s("b")), Some(s("2")));
    assert_eq!(m.remove(&s("b")), None);
    assert!(!m.contains_key(&s("b")));
    assert_eq!(m.len(), 1);
    assert_eq!(m.key_at(0), "a");
    assert_eq!(m.value_at(0), "3");
}

#[test]
fn string_map_equality_ignores_order() {
    let a = attrs(&[("x", "1"), ("y", "2")]);
    let b = attrs(&[("y", "2"), ("x", "1")]);
    let c = attrs(&[("x", "1"), ("y", "3")]);
    let d = attrs(&[("x", "1")]);
    assert!(a.same_as(&b));
    assert!(!a.same_as(&c));
    assert!(!a.same_as(&d));
    assert!(!d.same_as(&a));
    let h = handlers(&[("k", 1)]);
    assert!(h.same_as(&h.duplicate()));
    assert!(!h.same_as(&handlers(&[("k", 2)])));
}
