use focus_nav::classify::{parse_i64, AttrValue, Attribute, Focus};
use focus_nav::level::FocusLevel;
use focus_nav::navigator::FocusState;
use focus_nav::tree::FocusTree;
use std::cmp::Ordering;

fn tabindex(value: AttrValue) -> Vec<Attribute> {
    vec![Attribute { name: String::from("tabindex"), value }]
}

fn no_attrs() -> Vec<Attribute> {
    Vec::new()
}

fn listeners(names: &[&str]) -> Vec<String> {
    names.iter().map(|n| String::from(*n)).collect()
}

/// A,B,C tree of the navigation scenarios: A `Focusable` (id 1),
/// B `Ordered(1)` (id 2), C `Unfocusable` (id 3), traversal order A,B,C.
fn scenario_tree() -> FocusTree {
    let mut tree = FocusTree::new();
    tree.add_element(1, &tabindex(AttrValue::Int(0)), &listeners(&[]));
    tree.add_element(2, &tabindex(AttrValue::Int(1)), &listeners(&[]));
    tree.add_element(3, &no_attrs(), &listeners(&[]));
    tree
}

fn focused_ids(tree: &FocusTree, ids: &[u64]) -> Vec<u64> {
    ids.iter().copied().filter(|id| tree.is_focused(*id)).collect()
}

#[test]
fn level_order_is_total_and_quirky() {
    let u = FocusLevel::Unfocusable;
    let f = FocusLevel::Focusable;
    assert_eq!(u.partial_cmp(&f), Some(Ordering::Less));
    assert_eq!(f.partial_cmp(&u), Some(Ordering::Greater));
    assert_eq!(u.partial_cmp(&u), Some(Ordering::Equal));
    // every Ordered level ranks above plain Focusable, whatever its index
    assert_eq!(f.partial_cmp(&FocusLevel::Ordered(1)), Some(Ordering::Less));
    assert_eq!(f.partial_cmp(&FocusLevel::Ordered(65535)), Some(Ordering::Less));
    assert_eq!(FocusLevel::Ordered(1).partial_cmp(&f), Some(Ordering::Greater));
    assert_eq!(
        FocusLevel::Ordered(2).partial_cmp(&FocusLevel::Ordered(10)),
        Some(Ordering::Less)
    );
    assert_eq!(
        FocusLevel::Ordered(10).partial_cmp(&FocusLevel::Ordered(10)),
        Some(Ordering::Equal)
    );
    assert!(u < f && f < FocusLevel::Ordered(1) && u < FocusLevel::Ordered(1));
}

#[test]
fn focusable_levels() {
    assert!(!FocusLevel::Unfocusable.focusable());
    assert!(FocusLevel::Focusable.focusable());
    assert!(FocusLevel::Ordered(7).focusable());
}

#[test]
fn classify_from_numeric_tabindex() {
    let ls = listeners(&[]);
    assert_eq!(
        Focus::create(&tabindex(AttrValue::Int(-1)), &ls).level,
        FocusLevel::Unfocusable
    );
    assert_eq!(
        Focus::create(&tabindex(AttrValue::Int(0)), &ls).level,
        FocusLevel::Focusable
    );
    assert_eq!(
        Focus::create(&tabindex(AttrValue::Int(5)), &ls).level,
        FocusLevel::Ordered(5)
    );
    assert_eq!(
        Focus::create(&tabindex(AttrValue::Int(65535)), &ls).level,
        FocusLevel::Ordered(65535)
    );
}

#[test]
fn classify_from_text_tabindex() {
    let ls = listeners(&[]);
    assert_eq!(
        Focus::create(&tabindex(AttrValue::Text(String::from("7"))), &ls).level,
        FocusLevel::Ordered(7)
    );
    assert_eq!(
        Focus::create(&tabindex(AttrValue::Text(String::from("+3"))), &ls).level,
        FocusLevel::Ordered(3)
    );
    assert_eq!(
        Focus::create(&tabindex(AttrValue::Text(String::from("-2"))), &ls).level,
        FocusLevel::Unfocusable
    );
    assert_eq!(
        Focus::create(&tabindex(AttrValue::Text(String::from("0"))), &ls).level,
        FocusLevel::Focusable
    );
    // unparseable text behaves like no integer at all
    assert_eq!(
        Focus::create(&tabindex(AttrValue::Text(String::from("first"))), &ls).level,
        FocusLevel::Unfocusable
    );
}

#[test]
fn classify_from_key_listeners() {
    let attrs = no_attrs();
    assert_eq!(
        Focus::create(&attrs, &listeners(&["keydown"])).level,
        FocusLevel::Focusable
    );
    assert_eq!(
        Focus::create(&attrs, &listeners(&["keypress"])).level,
        FocusLevel::Focusable
    );
    assert_eq!(
        Focus::create(&attrs, &listeners(&["click", "keyup"])).level,
        FocusLevel::Focusable
    );
    assert_eq!(
        Focus::create(&attrs, &listeners(&["click", "mousemove"])).level,
        FocusLevel::Unfocusable
    );
    assert_eq!(Focus::create(&attrs, &listeners(&[])).level, FocusLevel::Unfocusable);
    // a tabindex attribute with an integer value wins over listeners
    assert_eq!(
        Focus::create(&tabindex(AttrValue::Int(-1)), &listeners(&["keydown"])).level,
        FocusLevel::Unfocusable
    );
    // a tabindex value that yields no integer falls through to the
    // listener rule
    assert_eq!(
        Focus::create(&tabindex(AttrValue::Other), &listeners(&["keydown"])).level,
        FocusLevel::Focusable
    );
    assert_eq!(
        Focus::create(&tabindex(AttrValue::Text(String::from("auto"))), &listeners(&["keyup"]))
            .level,
        FocusLevel::Focusable
    );
    assert_eq!(
        Focus::create(&tabindex(AttrValue::Other), &listeners(&["click"])).level,
        FocusLevel::Unfocusable
    );
}

#[test]
fn classification_is_idempotent() {
    let attrs = tabindex(AttrValue::Int(3));
    let ls = listeners(&["keydown"]);
    let mut focus = Focus::default();
    let first = focus.update(&attrs, &ls);
    assert!(first);
    assert_eq!(focus.level, FocusLevel::Ordered(3));
    let second = focus.update(&attrs, &ls);
    assert!(!second);
    assert_eq!(focus.level, FocusLevel::Ordered(3));
}

#[test]
fn parse_i64_exact_values() {
    assert_eq!(parse_i64("0"), Some(0));
    assert_eq!(parse_i64("0012"), Some(12));
    assert_eq!(parse_i64("-0"), Some(0));
    assert_eq!(parse_i64("9223372036854775807"), Some(i64::MAX));
    assert_eq!(parse_i64("9223372036854775808"), None);
    assert_eq!(parse_i64("-9223372036854775808"), Some(i64::MIN));
    assert_eq!(parse_i64("-9223372036854775809"), None);
    assert_eq!(parse_i64(""), None);
    assert_eq!(parse_i64("+"), None);
    assert_eq!(parse_i64("-"), None);
    assert_eq!(parse_i64(" 1"), None);
    assert_eq!(parse_i64("1 "), None);
    assert_eq!(parse_i64("1_0"), None);
    assert_eq!(parse_i64("+-3"), None);
    assert_eq!(parse_i64("十"), None);
}

#[test]
fn forward_cycle_over_buckets() {
    let mut tree = scenario_tree();
    let mut state = FocusState::create(&tree);

    // first call: the wrap finds Focusable as the closest bucket; A wins
    state.progress(&mut tree, true);
    assert_eq!(focused_ids(&tree, &[1, 2, 3]), vec![1]);

    // second call: next bucket is Ordered(1); B wins
    state.progress(&mut tree, true);
    assert_eq!(focused_ids(&tree, &[1, 2, 3]), vec![2]);

    // third call: nothing above Ordered(1); the bucket wraps to the lowest
    // and climbs back to Focusable; A again
    state.progress(&mut tree, true);
    assert_eq!(focused_ids(&tree, &[1, 2, 3]), vec![1]);
}

#[test]
fn forward_then_backward_returns_to_same_element() {
    let mut tree = scenario_tree();
    let mut state = FocusState::create(&tree);
    state.progress(&mut tree, true);
    assert_eq!(focused_ids(&tree, &[1, 2, 3]), vec![1]);
    state.progress(&mut tree, false);
    assert_eq!(focused_ids(&tree, &[1, 2, 3]), vec![1]);
}

#[test]
fn backward_from_fresh_state() {
    let mut tree = scenario_tree();
    let mut state = FocusState::create(&tree);
    state.progress(&mut tree, false);
    // the backward wrap resets the bucket to Focusable; scanning back from
    // the tree's end, A is the first element at exactly that level
    assert_eq!(focused_ids(&tree, &[1, 2, 3]), vec![1]);
}

#[test]
fn single_focusable_element_is_reselected() {
    let mut tree = FocusTree::new();
    tree.add_element(10, &no_attrs(), &listeners(&[]));
    tree.add_element(11, &no_attrs(), &listeners(&["keydown"]));
    tree.add_element(12, &no_attrs(), &listeners(&[]));
    let mut state = FocusState::create(&tree);
    for _ in 0..4 {
        state.progress(&mut tree, true);
        assert_eq!(focused_ids(&tree, &[10, 11, 12]), vec![11]);
    }
    let drained = state.clean();
    assert!(drained.items().contains(&11));
}

#[test]
fn no_focusable_elements_selects_nothing() {
    let mut tree = FocusTree::new();
    tree.add_element(5, &no_attrs(), &listeners(&[]));
    tree.add_element(6, &tabindex(AttrValue::Int(-7)), &listeners(&[]));
    let mut state = FocusState::create(&tree);
    state.progress(&mut tree, true);
    state.progress(&mut tree, false);
    assert_eq!(focused_ids(&tree, &[5, 6]), Vec::<u64>::new());
    assert!(state.clean().items().is_empty());
}

#[test]
fn empty_tree_is_safe() {
    let mut tree = FocusTree::new();
    let mut state = FocusState::create(&tree);
    state.progress(&mut tree, true);
    state.progress(&mut tree, false);
    assert!(state.clean().items().is_empty());
}

#[test]
fn prevent_default_guard_keeps_focus() {
    let mut tree = scenario_tree();
    let mut state = FocusState::create(&tree);
    state.progress(&mut tree, true);
    assert!(tree.is_focused(1));
    // drain what the first selection recorded
    let _ = state.clean();
    // the focused element claims key-down for itself
    tree.set_prevent_keydown(1, true);
    state.progress(&mut tree, true);
    assert!(tree.is_focused(1));
    assert!(state.clean().items().is_empty());
    // clearing the marker lets navigation move on again
    tree.set_prevent_keydown(1, false);
    state.progress(&mut tree, true);
    assert!(tree.is_focused(2));
}

#[test]
fn set_focus_overrides_order() {
    let mut tree = scenario_tree();
    let mut state = FocusState::create(&tree);
    // C is Unfocusable, yet an explicit request focuses it
    state.set_focus(&mut tree, 3);
    assert_eq!(focused_ids(&tree, &[1, 2, 3]), vec![3]);
    let drained = state.clean();
    assert!(drained.items().contains(&3));
    // navigation resumes from C's position
    state.progress(&mut tree, true);
    assert_eq!(focused_ids(&tree, &[1, 2, 3]), vec![1]);
}

#[test]
fn set_focus_repositions_the_sweep() {
    // three equally focusable elements: navigation after an explicit focus
    // continues from that element's position, not from the old cursor
    let mut tree = FocusTree::new();
    tree.add_element(21, &tabindex(AttrValue::Int(0)), &listeners(&[]));
    tree.add_element(22, &tabindex(AttrValue::Int(0)), &listeners(&[]));
    tree.add_element(23, &tabindex(AttrValue::Int(0)), &listeners(&[]));
    let mut state = FocusState::create(&tree);
    state.set_focus(&mut tree, 22);
    state.progress(&mut tree, true);
    assert_eq!(focused_ids(&tree, &[21, 22, 23]), vec![23]);
    state.progress(&mut tree, true);
    assert_eq!(focused_ids(&tree, &[21, 22, 23]), vec![21]);
}

#[test]
fn dirty_set_records_focus_changes() {
    let mut tree = scenario_tree();
    let mut state = FocusState::create(&tree);
    state.progress(&mut tree, true);
    state.progress(&mut tree, true);
    let mut drained = state.clean().items();
    drained.sort();
    // A was focused and then replaced by B: both changed
    assert_eq!(drained, vec![1, 2]);
    // draining leaves the set empty until the next change
    assert!(state.clean().items().is_empty());
    state.progress(&mut tree, true);
    let mut drained = state.clean().items();
    drained.sort();
    assert_eq!(drained, vec![1, 2]);
}

#[test]
fn update_element_reclassifies_and_reports_change() {
    let mut tree = FocusTree::new();
    tree.add_element(7, &tabindex(AttrValue::Int(0)), &listeners(&[]));
    assert_eq!(tree.level_of(7), FocusLevel::Focusable);
    let changed = tree.update_element(7, &tabindex(AttrValue::Int(4)), &listeners(&[]));
    assert!(changed);
    assert_eq!(tree.level_of(7), FocusLevel::Ordered(4));
    let unchanged = tree.update_element(7, &tabindex(AttrValue::Int(4)), &listeners(&[]));
    assert!(!unchanged);
    assert_eq!(tree.level_of(7), FocusLevel::Ordered(4));
}

#[test]
fn removal_keeps_the_rest_navigable() {
    let mut tree = FocusTree::new();
    tree.add_element(31, &tabindex(AttrValue::Int(0)), &listeners(&[]));
    tree.add_element(32, &no_attrs(), &listeners(&[]));
    tree.add_element(33, &tabindex(AttrValue::Int(0)), &listeners(&[]));
    let mut state = FocusState::create(&tree);
    state.progress(&mut tree, true);
    assert!(tree.is_focused(31));
    // an element elsewhere in the tree disappears; the cursor survives
    tree.remove_element(32);
    assert!(!tree.has_id(32));
    state.progress(&mut tree, true);
    assert!(tree.is_focused(33));
    state.progress(&mut tree, true);
    assert!(tree.is_focused(31));
}

#[test]
fn removing_the_focused_element_unsets_focus() {
    let mut tree = FocusTree::new();
    tree.add_element(41, &tabindex(AttrValue::Int(0)), &listeners(&[]));
    tree.add_element(42, &tabindex(AttrValue::Int(0)), &listeners(&[]));
    let mut state = FocusState::create(&tree);
    state.progress(&mut tree, true);
    assert!(tree.is_focused(41));
    state.element_removed(&mut tree, 41);
    assert_eq!(state.last_focused_id, None);
    assert!(!tree.has_id(41));
    assert!(!tree.is_focused(42));
    // navigation still works on what is left
    state.progress(&mut tree, true);
    assert!(tree.is_focused(42));
}

#[test]
fn default_level_is_unfocusable() {
    assert_eq!(FocusLevel::default(), FocusLevel::Unfocusable);
    assert_eq!(Focus::default().level, FocusLevel::Unfocusable);
}
