use rlvgl_core::focus::{
    collect_eligible_paths, drop_focus, find_focused_path, node_at_path, FocusEvent, FocusGroup,
    FocusNode, FocusPolicy,
};

fn make_node(tag: &'static str) -> FocusNode {
    FocusNode::new(tag, false)
}

fn focusable(tag: &'static str) -> FocusNode {
    FocusNode::new(tag, true)
}

fn focused_tag(root: &FocusNode) -> Option<&'static str> {
    if root.focused {
        return Some(root.tag);
    }
    for c in &root.children {
        if let Some(t) = focused_tag(c) {
            return Some(t);
        }
    }
    None
}

fn count_focused(node: &FocusNode) -> usize {
    let own = if node.focused { 1 } else { 0 };
    own + node.children.iter().map(count_focused).sum::<usize>()
}

fn three_children() -> FocusNode {
    let mut root = make_node("root");
    root.append_child(focusable("a"));
    root.append_child(focusable("b"));
    root.append_child(focusable("c"));
    root
}

#[test]
fn focus_next_visits_in_tree_order() {
    let mut root = three_children();
    let fg = FocusGroup::new();

    assert!(fg.focus_next(&mut root));
    assert_eq!(focused_tag(&root), Some("a"));
    assert!(fg.focus_next(&mut root));
    assert_eq!(focused_tag(&root), Some("b"));
    assert!(fg.focus_next(&mut root));
    assert_eq!(focused_tag(&root), Some("c"));
    assert!(fg.focus_next(&mut root));
    assert_eq!(focused_tag(&root), Some("a"));
}

#[test]
fn focus_prev_visits_in_reverse_tree_order() {
    let mut root = make_node("root");
    root.append_child(focusable("a"));
    root.append_child(focusable("b"));

    let fg = FocusGroup::new();
    assert!(fg.focus_next(&mut root));
    assert!(fg.focus_prev(&mut root));
    assert_eq!(focused_tag(&root), Some("b"));
}

#[test]
fn focus_next_no_wrap_stops_at_end() {
    let mut root = make_node("root");
    root.append_child(focusable("a"));
    root.append_child(focusable("b"));

    let mut fg = FocusGroup::new();
    fg.set_wrap(false);

    fg.focus_next(&mut root);
    fg.focus_next(&mut root);
    let moved = fg.focus_next(&mut root);
    assert!(!moved, "should not move past end without wrap");
    assert_eq!(focused_tag(&root), Some("b"));
}

#[test]
fn focus_next_skips_hidden_nodes() {
    let mut root = three_children();
    root.children[1].hidden = true;

    let fg = FocusGroup::new();
    fg.focus_next(&mut root);
    fg.focus_next(&mut root);
    assert_eq!(focused_tag(&root), Some("c"));
}

#[test]
fn focus_next_skips_disabled_flag_nodes() {
    let mut root = three_children();
    root.children[1].disabled = true;

    let fg = FocusGroup::new();
    fg.focus_next(&mut root);
    fg.focus_next(&mut root);
    assert_eq!(focused_tag(&root), Some("c"));
}

#[test]
fn focus_next_skips_disabled_state_nodes() {
    let mut root = three_children();
    root.children[1].state_disabled = true;

    let fg = FocusGroup::new();
    fg.focus_next(&mut root);
    fg.focus_next(&mut root);
    assert_eq!(focused_tag(&root), Some("c"));
}

#[test]
fn focus_next_skips_detached_nodes() {
    let mut root = three_children();
    root.children[1].detached = true;

    let fg = FocusGroup::new();
    fg.focus_next(&mut root);
    fg.focus_next(&mut root);
    assert_eq!(focused_tag(&root), Some("c"));
}

#[test]
fn single_focused_invariant() {
    let mut root = make_node("root");
    root.append_child(focusable("a"));
    root.append_child(focusable("b"));

    let fg = FocusGroup::new();
    fg.focus_next(&mut root);
    fg.focus_next(&mut root);

    assert_eq!(count_focused(&root), 1, "exactly one node should have FOCUSED");
}

#[test]
fn focus_move_delivers_defocused_then_focused_events() {
    let mut root = make_node("root");
    root.append_child(focusable("a"));
    root.append_child(focusable("b"));

    let fg = FocusGroup::new();
    fg.focus_next(&mut root);
    fg.focus_next(&mut root);

    assert_eq!(
        root.children[0].events,
        vec![FocusEvent::Focused, FocusEvent::Defocused]
    );
    assert_eq!(root.children[1].events, vec![FocusEvent::Focused]);
}

#[test]
fn focus_path_addresses_correct_node() {
    let mut root = make_node("root");
    root.append_child(focusable("a"));
    let mut b = make_node("b");
    b.append_child(focusable("b0"));
    root.append_child(b);

    let fg = FocusGroup::new();
    assert!(fg.focus_path(&mut root, &[1, 0]));
    assert_eq!(focused_tag(&root), Some("b0"));
}

#[test]
fn focus_path_rejects_out_of_bounds() {
    let mut root = make_node("root");
    root.append_child(focusable("a"));

    let fg = FocusGroup::new();
    assert!(!fg.focus_path(&mut root, &[5]));
    assert_eq!(focused_tag(&root), None);
}

#[test]
fn focus_path_rejects_non_eligible_target() {
    let mut root = make_node("root");
    root.append_child(make_node("a"));

    let fg = FocusGroup::new();
    assert!(!fg.focus_path(&mut root, &[0]));
}

#[test]
fn drop_focus_clears_focused_state() {
    let mut root = make_node("root");
    root.append_child(focusable("a"));

    let fg = FocusGroup::new();
    fg.focus_next(&mut root);
    assert_eq!(focused_tag(&root), Some("a"));

    drop_focus(&mut root);
    assert_eq!(focused_tag(&root), None);
}

#[test]
fn drop_focus_delivers_defocused_event() {
    let mut root = make_node("root");
    root.append_child(focusable("a"));

    let fg = FocusGroup::new();
    fg.focus_next(&mut root);
    drop_focus(&mut root);

    assert_eq!(
        root.children[0].events,
        vec![FocusEvent::Focused, FocusEvent::Defocused]
    );
    assert_eq!(count_focused(&root), 0);
}

#[test]
fn set_editing_sets_edited_state_on_focused_node() {
    let mut root = make_node("root");
    root.append_child(focusable("a"));

    let mut fg = FocusGroup::new();
    fg.focus_next(&mut root);
    fg.set_editing(&mut root, true);
    assert!(root.children[0].edited);
    assert!(fg.policy().editing);

    fg.set_editing(&mut root, false);
    assert!(!root.children[0].edited);
}

#[test]
fn focus_prev_from_nothing_starts_at_last_and_no_wrap_stops_at_first() {
    let mut root = three_children();
    let mut fg = FocusGroup::new();
    fg.set_wrap(false);
    assert!(fg.focus_prev(&mut root));
    assert_eq!(focused_tag(&root), Some("c"));
    assert!(fg.focus_prev(&mut root));
    assert!(fg.focus_prev(&mut root));
    assert_eq!(focused_tag(&root), Some("a"));
    assert!(!fg.focus_prev(&mut root));
    assert_eq!(focused_tag(&root), Some("a"));
}

#[test]
fn hidden_ancestor_hides_descendants_but_disabled_ancestor_does_not() {
    let mut root = make_node("root");
    let mut hidden_group = make_node("hg");
    hidden_group.hidden = true;
    hidden_group.append_child(focusable("x"));
    let mut disabled_group = focusable("dg");
    disabled_group.disabled = true;
    disabled_group.append_child(focusable("y"));
    root.append_child(hidden_group);
    root.append_child(disabled_group);

    assert_eq!(collect_eligible_paths(&root), vec![vec![1usize, 0]]);
    let fg = FocusGroup::new();
    assert!(fg.focus_next(&mut root));
    assert_eq!(focused_tag(&root), Some("y"));
    // A single eligible node: stepping again lands on the same node, no move.
    assert!(!fg.focus_next(&mut root));
    assert_eq!(root.children[1].children[0].events, vec![FocusEvent::Focused]);
}

#[test]
fn focus_path_on_focused_node_refocuses_it() {
    let mut root = three_children();
    let fg = FocusGroup::new();
    assert!(fg.focus_path(&mut root, &[2]));
    assert!(fg.focus_path(&mut root, &[2]));
    assert_eq!(count_focused(&root), 1);
    assert_eq!(
        root.children[2].events,
        vec![FocusEvent::Focused, FocusEvent::Defocused, FocusEvent::Focused]
    );
}

#[test]
fn leaving_focus_clears_editing_and_paths_lookup() {
    let mut root = three_children();
    let mut fg = FocusGroup::new();
    fg.focus_next(&mut root);
    fg.set_editing(&mut root, true);
    assert!(root.children[0].edited);
    fg.focus_next(&mut root);
    assert!(!root.children[0].edited);
    assert_eq!(find_focused_path(&root), Some(vec![1usize]));
    assert_eq!(node_at_path(&root, &[1]).map(|n| n.tag), Some("b"));
    assert!(node_at_path(&root, &[3]).is_none());
}

#[test]
fn focus_policy_defaults() {
    let p = FocusPolicy::default();
    assert!(p.wrap);
    assert!(!p.editing);
    let mut g = FocusGroup::default();
    g.policy_mut().wrap = false;
    assert!(!g.policy().wrap);
}

#[test]
fn focus_path_rejects_targets_under_hidden_or_detached_ancestors() {
    let mut root = make_node("root");
    let mut group = make_node("g");
    group.append_child(focusable("inner"));
    root.append_child(group);
    let fg = FocusGroup::new();

    root.children[0].hidden = true;
    assert!(!fg.focus_path(&mut root, &[0, 0]));
    assert_eq!(focused_tag(&root), None);

    root.children[0].hidden = false;
    root.children[0].detached = true;
    assert!(!fg.focus_path(&mut root, &[0, 0]));

    root.children[0].detached = false;
    assert!(fg.focus_path(&mut root, &[0, 0]));
    assert_eq!(focused_tag(&root), Some("inner"));
}
