//! Focus traversal and group policy over an object tree.
//!
//! Focus lives in the tree as the `focused` state of at most one node. A
//! [`FocusGroup`] is a policy object (wrap on/off, editing mode) that holds
//! no node references; every operation is a deterministic tree walk, and
//! nodes are addressed by structural paths of child indices from the root.
//!
//! A node is focus-eligible when it is focusable, neither hidden, disabled
//! (by flag or by state) nor detached, and no ancestor is hidden or
//! detached.
use vstd::prelude::*;

verus! {

/// Focus notification delivered to a node.
#[derive(Clone, Copy, Debug, PartialEq, Eq, Structural)]
pub enum FocusEvent {
    /// The node gained focus.
    Focused,
    /// The node lost focus.
    Defocused,
}

/// The focus-relevant flags, states and children of one object node, and
/// the focus events delivered to it so far.
pub struct FocusNode {
    /// Diagnostic tag.
    pub tag: &'static str,
    /// The `FOCUSABLE` flag.
    pub focusable: bool,
    /// The `HIDDEN` flag.
    pub hidden: bool,
    /// The `DISABLED` flag.
    pub disabled: bool,
    /// The `DISABLED` state.
    pub state_disabled: bool,
    /// Whether the node is detached from the rendered tree.
    pub detached: bool,
    /// The `FOCUSED` state.
    pub focused: bool,
    /// The `EDITED` state.
    pub edited: bool,
    /// Focus events delivered to this node, oldest first.
    pub events: Vec<FocusEvent>,
    /// Child nodes in order.
    pub children: Vec<FocusNode>,
}

impl FocusNode {
    /// A visible, enabled, attached, unfocused node with no children.
    pub fn new(tag: &'static str, focusable: bool) -> (r: Self)
        ensures
            r.tag == tag,
            r.focusable == focusable,
            !r.hidden && !r.disabled && !r.state_disabled && !r.detached,
            !r.focused && !r.edited,
            r.events@.len() == 0,
            r.children@.len() == 0,
    {
        FocusNode {
            tag,
            focusable,
            hidden: false,
            disabled: false,
            state_disabled: false,
            detached: false,
            focused: false,
            edited: false,
            events: Vec::new(),
            children: Vec::new(),
        }
    }

    /// Append `child` as the last child.
    pub fn append_child(&mut self, child: FocusNode)
        ensures
            final(self).children@ == old(self).children@.push(child),
            same_shape(*old(self), *final(self)),
            final(self).focused == old(self).focused,
            final(self).edited == old(self).edited,
            final(self).events@ == old(self).events@,
    {
        self.children.push(child);
    }
}

/// No node of this subtree is eligible: the node is hidden or detached.
pub open spec fn subtree_invisible(n: FocusNode) -> bool {
    n.hidden || n.detached
}

/// The node itself may take focus.
pub open spec fn eligible_local(n: FocusNode) -> bool {
    n.focusable && !n.hidden && !n.disabled && !n.state_disabled && !n.detached
}

/// Paths of the focus-eligible nodes of the subtree at `n` (reached by
/// `prefix`), in depth-first pre-order.
pub open spec fn eligible_paths(n: FocusNode, prefix: Seq<usize>) -> Seq<Seq<usize>>
    decreases n, 0int,
{
    if subtree_invisible(n) {
        Seq::empty()
    } else {
        (if eligible_local(n) { seq![prefix] } else { Seq::empty() }) + eligible_children(
            n.children@,
            n.children@.len() as int,
            prefix,
        )
    }
}

/// Eligible paths of the first `k` children `cs`, in order.
pub open spec fn eligible_children(cs: Seq<FocusNode>, k: int, prefix: Seq<usize>) -> Seq<Seq<usize>>
    decreases cs, k,
{
    if k <= 0 || k > cs.len() {
        Seq::empty()
    } else {
        eligible_children(cs, k - 1, prefix) + eligible_paths(cs[k - 1], prefix.push((k - 1) as usize))
    }
}

/// Path of the first focused node of the subtree at `n`, in pre-order.
pub open spec fn first_focused(n: FocusNode, prefix: Seq<usize>) -> Option<Seq<usize>>
    decreases n, 0int,
{
    if n.focused {
        Some(prefix)
    } else {
        first_focused_children(n.children@, 0, prefix)
    }
}

/// Path of the first focused node among the children `cs[i..]`.
pub open spec fn first_focused_children(cs: Seq<FocusNode>, i: int, prefix: Seq<usize>) -> Option<Seq<usize>>
    decreases cs, cs.len() - i,
{
    if i < 0 || i >= cs.len() {
        None
    } else {
        match first_focused(cs[i], prefix.push(i as usize)) {
            Some(p) => Some(p),
            None => first_focused_children(cs, i + 1, prefix),
        }
    }
}

/// The node at `path` below `n`, if the path stays within the tree.
pub open spec fn node_at(n: FocusNode, path: Seq<usize>) -> Option<FocusNode>
    decreases path.len(),
{
    if path.len() == 0 {
        Some(n)
    } else if path[0] < n.children@.len() {
        node_at(n.children@[path[0] as int], path.drop_first())
    } else {
        None
    }
}

/// Number of focused nodes in the subtree at `n`.
pub open spec fn focused_count(n: FocusNode) -> int
    decreases n, 0int,
{
    (if n.focused { 1int } else { 0int }) + focused_count_children(n.children@, n.children@.len() as int)
}

/// Number of focused nodes in the first `k` children subtrees.
pub open spec fn focused_count_children(cs: Seq<FocusNode>, k: int) -> int
    decreases cs, k,
{
    if k <= 0 || k > cs.len() {
        0
    } else {
        focused_count_children(cs, k - 1) + focused_count(cs[k - 1])
    }
}

/// Deep view of a list of paths.
pub open spec fn paths_view(v: Seq<Vec<usize>>) -> Seq<Seq<usize>> {
    v.map_values(|p: Vec<usize>| p@)
}

/// Append the eligible paths of the subtree at `node`, reached by `path`.
fn collect_eligible(node: &FocusNode, path: &mut Vec<usize>, out: &mut Vec<Vec<usize>>)
    ensures
        final(path)@ == old(path)@,
        paths_view(final(out)@) == paths_view(old(out)@) + eligible_paths(*node, old(path)@),
    decreases *node,
{
    let ghost prefix = path@;
    let ghost base = paths_view(out@);
    if node.hidden || node.detached {
        proof {
            assert(paths_view(out@) =~= base + eligible_paths(*node, prefix));
        }
        return;
    }
    if node.focusable && !node.disabled && !node.state_disabled {
        let copy = path.clone();
        proof {
            assert(copy@ =~= prefix);
        }
        out.push(copy);
    }
    let ghost own = if eligible_local(*node) { seq![prefix] } else { Seq::<Seq<usize>>::empty() };
    proof {
        assert(paths_view(out@) =~= base + own);
        assert(eligible_children(node.children@, 0, prefix) =~= Seq::<Seq<usize>>::empty());
    }
    let mut i: usize = 0;
    while i < node.children.len()
        invariant
            path@ == prefix,
            i <= node.children@.len(),
            paths_view(out@) == base + own + eligible_children(node.children@, i as int, prefix),
        decreases node.children@.len() - i,
    {
        path.push(i);
        let ghost pushed = path@;
        proof {
            assert(pushed == prefix.push(i));
        }
        collect_eligible(&node.children[i], path, out);
        path.pop();
        proof {
            assert(path@ =~= prefix);
            assert(base + own + eligible_children(node.children@, i + 1, prefix) =~= base + own
                + eligible_children(node.children@, i as int, prefix) + eligible_paths(
                node.children@[i as int],
                prefix.push(i),
            ));
        }
        i = i + 1;
    }
    proof {
        assert(paths_view(out@) =~= base + eligible_paths(*node, prefix));
    }
}

/// Paths of all focus-eligible nodes below `root`, in depth-first pre-order.
pub fn collect_eligible_paths(root: &FocusNode) -> (r: Vec<Vec<usize>>)
    ensures
        paths_view(r@) == eligible_paths(*root, Seq::empty()),
{
    let mut out: Vec<Vec<usize>> = Vec::new();
    let mut path: Vec<usize> = Vec::new();
    proof {
        assert(paths_view(out@) =~= Seq::<Seq<usize>>::empty());
        assert(path@ =~= Seq::<usize>::empty());
    }
    collect_eligible(root, &mut path, &mut out);
    proof {
        assert(paths_view(out@) =~= eligible_paths(*root, Seq::empty()));
    }
    out
}

/// Path of the first focused node of the subtree at `node`, reached by `path`.
fn find_focused(node: &FocusNode, path: &mut Vec<usize>) -> (r: Option<Vec<usize>>)
    ensures
        final(path)@ == old(path)@,
        match r {
            Some(p) => first_focused(*node, old(path)@) == Some(p@),
            None => first_focused(*node, old(path)@) is None,
        },
    decreases *node,
{
    let ghost prefix = path@;
    if node.focused {
        let copy = path.clone();
        proof {
            assert(copy@ =~= prefix);
        }
        return Some(copy);
    }
    let mut i: usize = 0;
    while i < node.children.len()
        invariant
            path@ == prefix,
            prefix == old(path)@,
            !node.focused,
            i <= node.children@.len(),
            first_focused(*node, prefix) == first_focused_children(node.children@, i as int, prefix),
        decreases node.children@.len() - i,
    {
        path.push(i);
        proof {
            assert(path@ == prefix.push(i));
        }
        let found = find_focused(&node.children[i], path);
        path.pop();
        proof {
            assert(path@ =~= prefix);
        }
        match found {
            Some(p) => {
                proof {
                    assert(first_focused(node.children@[i as int], prefix.push(i)) == Some(p@));
                    assert(first_focused_children(node.children@, i as int, prefix) == Some(p@));
                }
                return Some(p);
            },
            None => {
                proof {
                    assert(first_focused_children(node.children@, i as int, prefix)
                        == first_focused_children(node.children@, i + 1, prefix));
                }
            },
        }
        i = i + 1;
    }
    None
}

/// Path of the currently focused node (the first one, in pre-order).
pub fn find_focused_path(root: &FocusNode) -> (r: Option<Vec<usize>>)
    ensures
        match r {
            Some(p) => first_focused(*root, Seq::empty()) == Some(p@),
            None => first_focused(*root, Seq::empty()) is None,
        },
{
    let mut path: Vec<usize> = Vec::new();
    proof {
        assert(path@ =~= Seq::<usize>::empty());
    }
    find_focused(root, &mut path)
}

/// The node addressed by `path` below `root`, if the path stays in the tree.
pub fn node_at_path<'a>(root: &'a FocusNode, path: &[usize]) -> (r: Option<&'a FocusNode>)
    ensures
        match r {
            Some(n) => node_at(*root, path@) == Some(*n),
            None => node_at(*root, path@) is None,
        },
{
    let mut current = root;
    let mut k: usize = 0;
    proof {
        assert(path@.skip(0) =~= path@);
    }
    while k < path.len()
        invariant
            k <= path@.len(),
            node_at(*root, path@) == node_at(*current, path@.skip(k as int)),
        decreases path@.len() - k,
    {
        let idx = path[k];
        proof {
            assert(path@.skip(k as int).drop_first() =~= path@.skip(k + 1));
            assert(path@.skip(k as int)[0] == idx);
        }
        if idx >= current.children.len() {
            return None;
        }
        current = &current.children[idx];
        k = k + 1;
    }
    proof {
        assert(path@.skip(k as int) =~= Seq::<usize>::empty());
    }
    Some(current)
}

/// The node at `path` below `n` exists and may take focus: it is locally
/// eligible and no node on the way from `n` to it is hidden or detached.
pub open spec fn path_eligible(n: FocusNode, path: Seq<usize>) -> bool
    decreases path.len(),
{
    if subtree_invisible(n) {
        false
    } else if path.len() == 0 {
        eligible_local(n)
    } else if path[0] < n.children@.len() {
        path_eligible(n.children@[path[0] as int], path.drop_first())
    } else {
        false
    }
}

proof fn lemma_path_eligible_exists(n: FocusNode, path: Seq<usize>)
    requires
        path_eligible(n, path),
    ensures
        node_at(n, path) is Some,
    decreases path.len(),
{
    if path.len() > 0 {
        lemma_path_eligible_exists(n.children@[path[0] as int], path.drop_first());
    }
}

/// Whether the node at `path` below `root` exists and may take focus.
fn is_path_eligible(root: &FocusNode, path: &[usize]) -> (r: bool)
    ensures
        r == path_eligible(*root, path@),
{
    let mut current = root;
    let mut k: usize = 0;
    proof {
        assert(path@.skip(0) =~= path@);
    }
    while k < path.len()
        invariant
            k <= path@.len(),
            path_eligible(*root, path@) == path_eligible(*current, path@.skip(k as int)),
        decreases path@.len() - k,
    {
        let idx = path[k];
        proof {
            assert(path@.skip(k as int).drop_first() =~= path@.skip(k + 1));
            assert(path@.skip(k as int)[0] == idx);
        }
        if current.hidden || current.detached {
            return false;
        }
        if idx >= current.children.len() {
            return false;
        }
        current = &current.children[idx];
        k = k + 1;
    }
    proof {
        assert(path@.skip(k as int) =~= Seq::<usize>::empty());
    }
    is_focus_eligible(current)
}

/// A change to one node's focus state or delivered events.
#[derive(Clone, Copy, Debug, PartialEq, Eq, Structural)]
pub enum FocusUpdate {
    /// Clear `focused` and `edited`.
    ClearFocus,
    /// Set `focused`.
    SetFocus,
    /// Set `edited` to the given value.
    SetEdited(bool),
    /// Deliver the given event.
    Deliver(FocusEvent),
}

/// Flags, tag and children are the same in `a` and `b`.
pub open spec fn same_shape(a: FocusNode, b: FocusNode) -> bool {
    &&& b.tag == a.tag
    &&& b.focusable == a.focusable
    &&& b.hidden == a.hidden
    &&& b.disabled == a.disabled
    &&& b.state_disabled == a.state_disabled
    &&& b.detached == a.detached
}

/// `new` is `old` with the update `u` applied to the node itself.
pub open spec fn applied(old: FocusNode, new: FocusNode, u: FocusUpdate) -> bool {
    &&& same_shape(old, new)
    &&& new.children@ == old.children@
    &&& match u {
        FocusUpdate::ClearFocus => !new.focused && !new.edited && new.events@ == old.events@,
        FocusUpdate::SetFocus => new.focused && new.edited == old.edited && new.events@ == old.events@,
        FocusUpdate::SetEdited(b) => new.edited == b && new.focused == old.focused && new.events@ == old.events@,
        FocusUpdate::Deliver(e) => new.events@ == old.events@.push(e) && new.focused == old.focused
            && new.edited == old.edited,
    }
}

/// `new` is `old` with the update `u` applied to the node at `path`, and
/// every other node unchanged.
pub open spec fn updated_at(old: FocusNode, new: FocusNode, path: Seq<usize>, u: FocusUpdate) -> bool
    decreases path.len(),
{
    if path.len() == 0 {
        applied(old, new, u)
    } else {
        let j = path[0] as int;
        &&& same_shape(old, new)
        &&& new.focused == old.focused
        &&& new.edited == old.edited
        &&& new.events@ == old.events@
        &&& j < old.children@.len()
        &&& new.children@.len() == old.children@.len()
        &&& forall|i: int| 0 <= i < old.children@.len() && i != j ==> #[trigger] new.children@[i] == old.children@[i]
        &&& updated_at(old.children@[j], new.children@[j], path.drop_first(), u)
    }
}

/// Apply `u` to the node at `path[k..]` below `node`.
fn update_at(node: &mut FocusNode, path: &[usize], k: usize, u: FocusUpdate)
    requires
        k <= path@.len(),
        node_at(*old(node), path@.skip(k as int)) is Some,
    ensures
        updated_at(*old(node), *final(node), path@.skip(k as int), u),
    decreases path@.len() - k,
{
    if k == path.len() {
        match u {
            FocusUpdate::ClearFocus => {
                node.focused = false;
                node.edited = false;
            },
            FocusUpdate::SetFocus => {
                node.focused = true;
            },
            FocusUpdate::SetEdited(b) => {
                node.edited = b;
            },
            FocusUpdate::Deliver(e) => {
                node.events.push(e);
            },
        }
        proof {
            assert(path@.skip(k as int) =~= Seq::<usize>::empty());
        }
        return;
    }
    let idx = path[k];
    proof {
        assert(path@.skip(k as int)[0] == idx);
        assert(path@.skip(k as int).drop_first() =~= path@.skip(k + 1));
    }
    let ghost before = node.children@;
    let mut child = node.children.remove(idx);
    update_at(&mut child, path, k + 1, u);
    node.children.insert(idx, child);
    proof {
        assert(node.children@ =~= before.update(idx as int, child));
    }
}

/// The focus move from `old_path` (if any) to `new_path`: clear the old
/// node's focus and editing, focus the new node, then deliver `Defocused`
/// to the old node and `Focused` to the new one.
pub open spec fn focus_moved(old: FocusNode, new: FocusNode, old_path: Option<Seq<usize>>, new_path: Seq<usize>) -> bool {
    match old_path {
        Some(op) => exists|t1: FocusNode, t2: FocusNode, t3: FocusNode|
            updated_at(old, t1, op, FocusUpdate::ClearFocus)
                && updated_at(t1, t2, new_path, FocusUpdate::SetFocus)
                && updated_at(t2, t3, op, FocusUpdate::Deliver(FocusEvent::Defocused))
                && updated_at(t3, new, new_path, FocusUpdate::Deliver(FocusEvent::Focused)),
        None => exists|t2: FocusNode|
            updated_at(old, t2, new_path, FocusUpdate::SetFocus)
                && updated_at(t2, new, new_path, FocusUpdate::Deliver(FocusEvent::Focused)),
    }
}

/// Updates keep the tree's paths.
proof fn lemma_update_keeps_paths(old: FocusNode, new: FocusNode, path: Seq<usize>, u: FocusUpdate, q: Seq<usize>)
    requires
        updated_at(old, new, path, u),
    ensures
        node_at(new, q) is Some <==> node_at(old, q) is Some,
    decreases q.len(),
{
    if q.len() > 0 && path.len() > 0 && q[0] < old.children@.len() {
        if q[0] == path[0] {
            lemma_update_keeps_paths(old.children@[q[0] as int], new.children@[q[0] as int], path.drop_first(), u, q.drop_first());
        } else {
            assert(new.children@[q[0] as int] == old.children@[q[0] as int]);
        }
    }
}

/// 1 when the node holds the focused state, else 0.
pub open spec fn focus_bit(n: FocusNode) -> int {
    if n.focused { 1 } else { 0 }
}

proof fn lemma_count_nonneg(n: FocusNode)
    ensures
        focused_count(n) >= 0,
    decreases n, 0int,
{
    lemma_count_children_bounds(n.children@, n.children@.len() as int);
}

/// The children sum is nonnegative and at least each summed child's count.
proof fn lemma_count_children_bounds(cs: Seq<FocusNode>, k: int)
    ensures
        focused_count_children(cs, k) >= 0,
        forall|j: int| 0 <= j < k <= cs.len() ==> focused_count_children(cs, k) >= #[trigger] focused_count(cs[j]),
    decreases cs, k,
{
    if k > 0 && k <= cs.len() {
        lemma_count_children_bounds(cs, k - 1);
        lemma_count_nonneg(cs[k - 1]);
    }
}

/// A focused node anywhere in the tree makes the count positive.
proof fn lemma_focused_node_counts(n: FocusNode, q: Seq<usize>)
    requires
        node_at(n, q) matches Some(m) && m.focused,
    ensures
        focused_count(n) >= 1,
    decreases q.len(),
{
    lemma_count_children_bounds(n.children@, n.children@.len() as int);
    if q.len() > 0 {
        let j = q[0] as int;
        lemma_focused_node_counts(n.children@[j], q.drop_first());
    }
}

/// Replacing one child changes the children sum by the difference of counts.
proof fn lemma_count_children_update(cs: Seq<FocusNode>, j: int, c: FocusNode, k: int)
    requires
        0 <= j < cs.len(),
        0 <= k <= cs.len(),
    ensures
        focused_count_children(cs.update(j, c), k) == focused_count_children(cs, k) + (if j < k {
            focused_count(c) - focused_count(cs[j])
        } else {
            0
        }),
    decreases k,
{
    if k > 0 {
        lemma_count_children_update(cs, j, c, k - 1);
    }
}

/// An update reaches an existing node, applies to it, and changes the
/// focused count by exactly that node's change.
proof fn lemma_update_count(old: FocusNode, new: FocusNode, path: Seq<usize>, u: FocusUpdate)
    requires
        updated_at(old, new, path, u),
    ensures
        node_at(old, path) is Some,
        node_at(new, path) is Some,
        applied(node_at(old, path).unwrap(), node_at(new, path).unwrap(), u),
        focused_count(new) == focused_count(old) - focus_bit(node_at(old, path).unwrap()) + focus_bit(
            node_at(new, path).unwrap(),
        ),
    decreases path.len(),
{
    if path.len() > 0 {
        let j = path[0] as int;
        let cs = old.children@;
        let c = new.children@[j];
        lemma_update_count(cs[j], c, path.drop_first(), u);
        assert(new.children@ =~= cs.update(j, c));
        lemma_count_children_update(cs, j, c, cs.len() as int);
    }
}

/// An update at `path` leaves the focused state of every other node alone.
proof fn lemma_update_other(old: FocusNode, new: FocusNode, path: Seq<usize>, u: FocusUpdate, q: Seq<usize>)
    requires
        updated_at(old, new, path, u),
        node_at(old, q) is Some,
        q != path,
    ensures
        node_at(new, q) is Some,
        node_at(new, q).unwrap().focused == node_at(old, q).unwrap().focused,
    decreases q.len(),
{
    if q.len() > 0 && path.len() > 0 {
        let j = q[0] as int;
        if q[0] == path[0] {
            if q.drop_first() == path.drop_first() {
                assert(q.len() == path.len());
                assert forall|t: int| 0 <= t < q.len() implies q[t] == path[t] by {
                    if t > 0 {
                        assert(q.drop_first()[t - 1] == q[t]);
                        assert(path.drop_first()[t - 1] == path[t]);
                    }
                }
                assert(q =~= path);
            }
            lemma_update_other(old.children@[j], new.children@[j], path.drop_first(), u, q.drop_first());
        } else {
            assert(new.children@[j] == old.children@[j]);
        }
    } else if q.len() > 0 {
        assert(new.children@ == old.children@);
        assert(node_at(new, q) == node_at(new.children@[q[0] as int], q.drop_first()));
    } else {
        if path.len() == 0 {
            assert(q =~= path);
        }
    }
}

/// Paths of eligible nodes lead to eligible nodes below the prefix.
proof fn lemma_eligible_path_node(n: FocusNode, prefix: Seq<usize>, i: int)
    requires
        0 <= i < eligible_paths(n, prefix).len(),
    ensures
        prefix.len() <= eligible_paths(n, prefix)[i].len(),
        eligible_paths(n, prefix)[i].take(prefix.len() as int) == prefix,
        node_at(n, eligible_paths(n, prefix)[i].skip(prefix.len() as int)) matches Some(m) && eligible_local(m),
    decreases n, 0int,
{
    let cs = n.children@;
    let own = if eligible_local(n) { seq![prefix] } else { Seq::<Seq<usize>>::empty() };
    let rest = eligible_children(cs, cs.len() as int, prefix);
    let p = eligible_paths(n, prefix)[i];
    let len = prefix.len() as int;
    assert(eligible_paths(n, prefix) == own + rest);
    if i < own.len() {
        assert(p == prefix);
        assert(p.take(len) =~= prefix);
        assert(p.skip(len) =~= Seq::<usize>::empty());
    } else {
        let j = lemma_eligible_children_node(cs, cs.len() as int, prefix, i - own.len());
        assert(cs.len() == n.children.len());
        assert(p == rest[i - own.len()]);
        assert forall|t: int| 0 <= t < len implies p.take(len)[t] == prefix[t] by {
            assert(p.take(len + 1)[t] == p[t]);
            assert(prefix.push(j as usize)[t] == prefix[t]);
        }
        assert(p.take(len) =~= prefix);
        assert(p.take(len + 1)[len] == p[len]);
        assert(p[len] == j);
        assert(p.skip(len).drop_first() =~= p.skip(len + 1));
        assert(p.skip(len)[0] == p[len]);
    }
}

/// The `i`-th eligible path among the first `k` children goes through child
/// `j`, and leads to an eligible node there.
proof fn lemma_eligible_children_node(cs: Seq<FocusNode>, k: int, prefix: Seq<usize>, i: int) -> (j: int)
    requires
        0 <= i < eligible_children(cs, k, prefix).len(),
    ensures
        0 <= j < k <= cs.len(),
        prefix.len() + 1 <= eligible_children(cs, k, prefix)[i].len(),
        eligible_children(cs, k, prefix)[i].take(prefix.len() + 1int) == prefix.push(j as usize),
        node_at(cs[j], eligible_children(cs, k, prefix)[i].skip(prefix.len() + 1int)) matches Some(m)
            && eligible_local(m),
    decreases cs, k,
{
    let left = eligible_children(cs, k - 1, prefix);
    let right = eligible_paths(cs[k - 1], prefix.push((k - 1) as usize));
    assert(eligible_children(cs, k, prefix) == left + right);
    if i < left.len() {
        lemma_eligible_children_node(cs, k - 1, prefix, i)
    } else {
        lemma_eligible_path_node(cs[k - 1], prefix.push((k - 1) as usize), i - left.len());
        k - 1
    }
}

/// The first focused path leads to a focused node below the prefix.
proof fn lemma_first_focused_node(n: FocusNode, prefix: Seq<usize>)
    requires
        first_focused(n, prefix) is Some,
    ensures
        prefix.len() <= first_focused(n, prefix).unwrap().len(),
        first_focused(n, prefix).unwrap().take(prefix.len() as int) == prefix,
        node_at(n, first_focused(n, prefix).unwrap().skip(prefix.len() as int)) matches Some(m) && m.focused,
    decreases n, 0int,
{
    let p = first_focused(n, prefix).unwrap();
    let len = prefix.len() as int;
    if n.focused {
        assert(p.take(len) =~= prefix);
        assert(p.skip(len) =~= Seq::<usize>::empty());
    } else {
        let j = lemma_first_focused_children_node(n.children@, 0, prefix);
        assert(n.children@.len() == n.children.len());
        assert forall|t: int| 0 <= t < len implies p.take(len)[t] == prefix[t] by {
            assert(p.take(len + 1)[t] == p[t]);
            assert(prefix.push(j as usize)[t] == prefix[t]);
        }
        assert(p.take(len) =~= prefix);
        assert(p.take(len + 1)[len] == p[len]);
        assert(p.skip(len).drop_first() =~= p.skip(len + 1));
        assert(p.skip(len)[0] == p[len]);
    }
}

/// The first focused path among `cs[i..]` goes through child `j`.
proof fn lemma_first_focused_children_node(cs: Seq<FocusNode>, i: int, prefix: Seq<usize>) -> (j: int)
    requires
        first_focused_children(cs, i, prefix) is Some,
    ensures
        i <= j < cs.len(),
        prefix.len() + 1 <= first_focused_children(cs, i, prefix).unwrap().len(),
        first_focused_children(cs, i, prefix).unwrap().take(prefix.len() + 1int) == prefix.push(j as usize),
        node_at(cs[j], first_focused_children(cs, i, prefix).unwrap().skip(prefix.len() + 1int)) matches Some(m)
            && m.focused,
    decreases cs, cs.len() - i,
{
    if first_focused(cs[i], prefix.push(i as usize)) is Some {
        lemma_first_focused_node(cs[i], prefix.push(i as usize));
        i
    } else {
        lemma_first_focused_children_node(cs, i + 1, prefix)
    }
}

/// No focused path means no focused node.
proof fn lemma_no_focus_zero(n: FocusNode, prefix: Seq<usize>)
    requires
        first_focused(n, prefix) is None,
    ensures
        focused_count(n) == 0,
    decreases n, 0int,
{
    lemma_no_focus_children(n.children@, 0, prefix);
    lemma_zero_children_sum(n.children@, n.children@.len() as int, prefix);
}

/// No focused path among `cs[i..]` means none in any of those children.
proof fn lemma_no_focus_children(cs: Seq<FocusNode>, i: int, prefix: Seq<usize>)
    requires
        0 <= i,
        first_focused_children(cs, i, prefix) is None,
    ensures
        forall|j: int| i <= j < cs.len() ==> #[trigger] first_focused(cs[j], prefix.push(j as usize)) is None,
    decreases cs.len() - i,
{
    if i < cs.len() {
        lemma_no_focus_children(cs, i + 1, prefix);
    }
}

/// Children without a focused path add nothing to the count.
proof fn lemma_zero_children_sum(cs: Seq<FocusNode>, k: int, prefix: Seq<usize>)
    requires
        forall|j: int| 0 <= j < cs.len() ==> #[trigger] first_focused(cs[j], prefix.push(j as usize)) is None,
    ensures
        focused_count_children(cs, k) == 0,
    decreases cs, k,
{
    if k > 0 && k <= cs.len() {
        assert(first_focused(cs[k - 1], prefix.push((k - 1) as usize)) is None);
        lemma_no_focus_zero(cs[k - 1], prefix.push((k - 1) as usize));
        lemma_zero_children_sum(cs, k - 1, prefix);
    }
}

/// Perform a focus move; see [`focus_moved`].
fn move_focus(root: &mut FocusNode, old_path: Option<&[usize]>, new_path: &[usize])
    requires
        node_at(*old(root), new_path@) is Some,
        old_path matches Some(p) ==> node_at(*old(root), p@) is Some,
    ensures
        focus_moved(*old(root), *final(root), match old_path { Some(p) => Some(p@), None => None }, new_path@),
{
    let ghost t0 = *root;
    proof {
        assert(new_path@.skip(0) =~= new_path@);
    }
    match old_path {
        Some(op) => {
            proof {
                assert(op@.skip(0) =~= op@);
            }
            update_at(root, op, 0, FocusUpdate::ClearFocus);
            let ghost t1 = *root;
            proof {
                lemma_update_keeps_paths(t0, t1, op@, FocusUpdate::ClearFocus, new_path@);
            }
            update_at(root, new_path, 0, FocusUpdate::SetFocus);
            let ghost t2 = *root;
            proof {
                lemma_update_keeps_paths(t0, t1, op@, FocusUpdate::ClearFocus, op@);
                lemma_update_keeps_paths(t1, t2, new_path@, FocusUpdate::SetFocus, op@);
                lemma_update_keeps_paths(t1, t2, new_path@, FocusUpdate::SetFocus, new_path@);
            }
            update_at(root, op, 0, FocusUpdate::Deliver(FocusEvent::Defocused));
            let ghost t3 = *root;
            proof {
                lemma_update_keeps_paths(t2, t3, op@, FocusUpdate::Deliver(FocusEvent::Defocused), new_path@);
            }
            update_at(root, new_path, 0, FocusUpdate::Deliver(FocusEvent::Focused));
            proof {
                assert(updated_at(t0, t1, op@, FocusUpdate::ClearFocus));
                assert(updated_at(t3, *root, new_path@, FocusUpdate::Deliver(FocusEvent::Focused)));
            }
        },
        None => {
            update_at(root, new_path, 0, FocusUpdate::SetFocus);
            let ghost t2 = *root;
            proof {
                lemma_update_keeps_paths(t0, t2, new_path@, FocusUpdate::SetFocus, new_path@);
            }
            update_at(root, new_path, 0, FocusUpdate::Deliver(FocusEvent::Focused));
        },
    }
}


/// A focus move out of a tree in which at most one node
/// is focused leaves exactly one focused node, the target.
pub proof fn lemma_focus_move_single_focus(old: FocusNode, new: FocusNode, new_path: Seq<usize>)
    requires
        focused_count(old) <= 1,
        focus_moved(old, new, first_focused(old, Seq::empty()), new_path),
    ensures
        focused_count(new) == 1,
        node_at(new, new_path) matches Some(m) && m.focused,
{
    match first_focused(old, Seq::empty()) {
        Some(op) => {
            let (t1, t2, t3) = choose|t1: FocusNode, t2: FocusNode, t3: FocusNode|
                updated_at(old, t1, op, FocusUpdate::ClearFocus)
                    && updated_at(t1, t2, new_path, FocusUpdate::SetFocus)
                    && updated_at(t2, t3, op, FocusUpdate::Deliver(FocusEvent::Defocused))
                    && updated_at(t3, new, new_path, FocusUpdate::Deliver(FocusEvent::Focused));
            lemma_first_focused_node(old, Seq::empty());
            assert(op.skip(0) =~= op);
            lemma_update_count(old, t1, op, FocusUpdate::ClearFocus);
            lemma_count_nonneg(t1);
            lemma_update_count(t1, t2, new_path, FocusUpdate::SetFocus);
            if node_at(t1, new_path).unwrap().focused {
                lemma_focused_node_counts(t1, new_path);
            }
            lemma_update_count(t2, t3, op, FocusUpdate::Deliver(FocusEvent::Defocused));
            lemma_update_count(t3, new, new_path, FocusUpdate::Deliver(FocusEvent::Focused));
            if op != new_path {
                lemma_update_other(t2, t3, op, FocusUpdate::Deliver(FocusEvent::Defocused), new_path);
            }
        },
        None => {
            let t2 = choose|t2: FocusNode|
                updated_at(old, t2, new_path, FocusUpdate::SetFocus)
                    && updated_at(t2, new, new_path, FocusUpdate::Deliver(FocusEvent::Focused));
            lemma_no_focus_zero(old, Seq::empty());
            lemma_update_count(old, t2, new_path, FocusUpdate::SetFocus);
            if node_at(old, new_path).unwrap().focused {
                lemma_focused_node_counts(old, new_path);
            }
            lemma_update_count(t2, new, new_path, FocusUpdate::Deliver(FocusEvent::Focused));
        },
    }
}

/// Dropping focus: clear the focused node's focus and editing, then deliver
/// `Defocused` to it; without a focused node nothing changes.
pub open spec fn focus_dropped(old: FocusNode, new: FocusNode) -> bool {
    match first_focused(old, Seq::empty()) {
        Some(p) => exists|t1: FocusNode|
            updated_at(old, t1, p, FocusUpdate::ClearFocus)
                && updated_at(t1, new, p, FocusUpdate::Deliver(FocusEvent::Defocused)),
        None => new == old,
    }
}

/// Dropping focus from a tree in which at most one node is focused
/// leaves no focused node.
pub proof fn lemma_drop_focus_clears(old: FocusNode, new: FocusNode)
    requires
        focused_count(old) <= 1,
        focus_dropped(old, new),
    ensures
        focused_count(new) == 0,
{
    match first_focused(old, Seq::empty()) {
        Some(p) => {
            let t1 = choose|t1: FocusNode|
                updated_at(old, t1, p, FocusUpdate::ClearFocus)
                    && updated_at(t1, new, p, FocusUpdate::Deliver(FocusEvent::Defocused));
            lemma_first_focused_node(old, Seq::empty());
            assert(p.skip(0) =~= p);
            lemma_update_count(old, t1, p, FocusUpdate::ClearFocus);
            lemma_count_nonneg(t1);
            lemma_update_count(t1, new, p, FocusUpdate::Deliver(FocusEvent::Defocused));
        },
        None => {
            lemma_no_focus_zero(old, Seq::empty());
        },
    }
}

/// Drop focus from the currently focused node with a `Defocused` event.
///
/// Called when the focused node is hidden, disabled, or detached.
pub fn drop_focus(root: &mut FocusNode)
    ensures
        focus_dropped(*old(root), *final(root)),
{
    let ghost t0 = *root;
    let found = find_focused_path(root);
    match found {
        None => {},
        Some(p) => {
            proof {
                lemma_first_focused_node(t0, Seq::empty());
                assert(p@.skip(0) =~= p@);
            }
            update_at(root, p.as_slice(), 0, FocusUpdate::ClearFocus);
            let ghost t1 = *root;
            proof {
                lemma_update_keeps_paths(t0, t1, p@, FocusUpdate::ClearFocus, p@);
            }
            update_at(root, p.as_slice(), 0, FocusUpdate::Deliver(FocusEvent::Defocused));
            proof {
                assert(updated_at(t0, t1, p@, FocusUpdate::ClearFocus));
                assert(updated_at(t1, *root, p@, FocusUpdate::Deliver(FocusEvent::Defocused)));
            }
        },
    }
}


/// Traversal direction of a focus step.
#[derive(Clone, Copy, Debug, PartialEq, Eq, Structural)]
pub enum Direction {
    /// Forward in depth-first pre-order.
    Next,
    /// Backward in depth-first pre-order.
    Prev,
}

/// First index at or after `i` where `e` holds `p`.
pub open spec fn path_position(e: Seq<Seq<usize>>, p: Seq<usize>, i: int) -> Option<int>
    decreases e.len() - i,
{
    if i < 0 || i >= e.len() {
        None
    } else if e[i] == p {
        Some(i)
    } else {
        path_position(e, p, i + 1)
    }
}

/// Index a step lands on in a list of `len` eligible nodes, from position
/// `cur` (if the focus is on one of them).
pub open spec fn step_index(len: int, cur: Option<int>, dir: Direction, wrap: bool) -> Option<int> {
    match cur {
        None => match dir {
            Direction::Next => Some(0),
            Direction::Prev => Some(len - 1),
        },
        Some(i) => match dir {
            Direction::Next => if i + 1 < len {
                Some(i + 1)
            } else if wrap {
                Some(0)
            } else {
                None
            },
            Direction::Prev => if i > 0 {
                Some(i - 1)
            } else if wrap {
                Some(len - 1)
            } else {
                None
            },
        },
    }
}

/// Path a focus step moves to, or `None` when it does not move (no eligible
/// node, end reached without wrap, or already there).
pub open spec fn step_target(root: FocusNode, dir: Direction, wrap: bool) -> Option<Seq<usize>> {
    let e = eligible_paths(root, Seq::empty());
    let focused = first_focused(root, Seq::empty());
    let cur = match focused {
        Some(p) => path_position(e, p, 0),
        None => None,
    };
    if e.len() == 0 {
        None
    } else {
        match step_index(e.len() as int, cur, dir, wrap) {
            Some(ni) => if focused == Some(e[ni]) {
                None
            } else {
                Some(e[ni])
            },
            None => None,
        }
    }
}

/// Whether two paths are equal.
fn paths_equal(a: &[usize], b: &[usize]) -> (r: bool)
    ensures
        r == (a@ == b@),
{
    if a.len() != b.len() {
        return false;
    }
    let mut i: usize = 0;
    while i < a.len()
        invariant
            a@.len() == b@.len(),
            i <= a@.len(),
            forall|t: int| 0 <= t < i ==> a@[t] == b@[t],
        decreases a@.len() - i,
    {
        if a[i] != b[i] {
            return false;
        }
        i = i + 1;
    }
    proof {
        assert(a@ =~= b@);
    }
    true
}

/// Position of `p` in `eligible`.
fn position_of(eligible: &Vec<Vec<usize>>, p: &Vec<usize>) -> (r: Option<usize>)
    ensures
        match r {
            Some(k) => k < eligible@.len() && path_position(paths_view(eligible@), p@, 0) == Some(k as int),
            None => path_position(paths_view(eligible@), p@, 0) is None,
        },
{
    let ghost e = paths_view(eligible@);
    let mut i: usize = 0;
    while i < eligible.len()
        invariant
            e == paths_view(eligible@),
            i <= eligible@.len(),
            path_position(e, p@, 0) == path_position(e, p@, i as int),
        decreases eligible@.len() - i,
    {
        if paths_equal(eligible[i].as_slice(), p.as_slice()) {
            return Some(i);
        }
        i = i + 1;
    }
    None
}

/// A node is locally focus-eligible: focusable, not hidden, not disabled (by
/// flag or by state), not detached.
fn is_focus_eligible(node: &FocusNode) -> (r: bool)
    ensures
        r == eligible_local(*node),
{
    node.focusable && !node.hidden && !node.disabled && !node.state_disabled && !node.detached
}

/// Collect the eligible nodes, find the focused one among them, advance in
/// `dir`, and move focus there.
fn focus_step(root: &mut FocusNode, dir: Direction, wrap: bool) -> (moved: bool)
    ensures
        match step_target(*old(root), dir, wrap) {
            Some(t) => moved && focus_moved(*old(root), *final(root), first_focused(*old(root), Seq::empty()), t),
            None => !moved && *final(root) == *old(root),
        },
{
    let ghost t0 = *root;
    let eligible = collect_eligible_paths(root);
    let ghost e = paths_view(eligible@);
    if eligible.len() == 0 {
        return false;
    }
    let old_path = find_focused_path(root);
    let current = match &old_path {
        Some(op) => position_of(&eligible, op),
        None => None,
    };
    let len = eligible.len();
    let next: Option<usize> = match current {
        None => match dir {
            Direction::Next => Some(0),
            Direction::Prev => Some(len - 1),
        },
        Some(i) => match dir {
            Direction::Next => if i + 1 < len {
                Some(i + 1)
            } else if wrap {
                Some(0)
            } else {
                None
            },
            Direction::Prev => if i > 0 {
                Some(i - 1)
            } else if wrap {
                Some(len - 1)
            } else {
                None
            },
        },
    };
    proof {
        let cur = match first_focused(t0, Seq::empty()) {
            Some(p) => path_position(e, p, 0),
            None => None,
        };
        assert(cur == match current { Some(i) => Some(i as int), None => None::<int> });
        assert(step_index(e.len() as int, cur, dir, wrap) == match next { Some(i) => Some(i as int), None => None::<int> });
    }
    match next {
        None => false,
        Some(ni) => {
            let new_path = eligible[ni].clone();
            proof {
                assert(new_path@ =~= e[ni as int]);
            }
            let same = match &old_path {
                Some(op) => paths_equal(op.as_slice(), new_path.as_slice()),
                None => false,
            };
            if same {
                return false;
            }
            proof {
                lemma_eligible_path_node(t0, Seq::empty(), ni as int);
                assert(new_path@.skip(0) =~= new_path@);
            }
            match &old_path {
                Some(op) => {
                    proof {
                        lemma_first_focused_node(t0, Seq::empty());
                        assert(op@.skip(0) =~= op@);
                    }
                    move_focus(root, Some(op.as_slice()), new_path.as_slice());
                },
                None => {
                    move_focus(root, None, new_path.as_slice());
                },
            }
            true
        },
    }
}

/// Policy for a focus traversal group.
#[derive(Debug, Clone)]
pub struct FocusPolicy {
    /// When `true`, `focus_next` wraps from the last eligible node back to
    /// the first, and `focus_prev` wraps the other way.
    pub wrap: bool,
    /// When `true`, encoder rotation is delivered to the focused node
    /// instead of moving focus.
    pub editing: bool,
}

impl Default for FocusPolicy {
    /// Wrap enabled, not editing.
    fn default() -> (r: Self)
        ensures
            r.wrap,
            !r.editing,
    {
        FocusPolicy { wrap: true, editing: false }
    }
}

/// Focus traversal group: policy only, no stored node references.
#[derive(Debug, Clone)]
pub struct FocusGroup {
    /// Traversal and editing policy.
    pub policy: FocusPolicy,
}

impl Default for FocusGroup {
    /// A group with the default policy.
    fn default() -> (r: Self)
        ensures
            r.policy.wrap,
            !r.policy.editing,
    {
        FocusGroup::new()
    }
}

impl FocusGroup {
    /// A new focus group with the default policy (wrap on, not editing).
    pub fn new() -> (r: Self)
        ensures
            r.policy.wrap,
            !r.policy.editing,
    {
        FocusGroup { policy: FocusPolicy { wrap: true, editing: false } }
    }

    /// The policy.
    pub fn policy(&self) -> (r: &FocusPolicy)
        ensures
            *r == self.policy,
    {
        &self.policy
    }

    /// Mutably borrow the policy.
    pub fn policy_mut(&mut self) -> (r: &mut FocusPolicy)
        ensures
            *r == old(self).policy,
            final(self).policy == *final(r),
    {
        &mut self.policy
    }

    /// Enable or disable wrap-around traversal.
    pub fn set_wrap(&mut self, wrap: bool)
        ensures
            final(self).policy.wrap == wrap,
            final(self).policy.editing == old(self).policy.editing,
    {
        self.policy.wrap = wrap;
    }

    /// Enable or disable editing mode, and set or clear the editing state
    /// of the currently focused node in `root`.
    pub fn set_editing(&mut self, root: &mut FocusNode, editing: bool)
        ensures
            final(self).policy.editing == editing,
            final(self).policy.wrap == old(self).policy.wrap,
            match first_focused(*old(root), Seq::empty()) {
                Some(p) => updated_at(*old(root), *final(root), p, FocusUpdate::SetEdited(editing)),
                None => *final(root) == *old(root),
            },
    {
        self.policy.editing = editing;
        let ghost t0 = *root;
        let found = find_focused_path(root);
        match found {
            None => {},
            Some(p) => {
                proof {
                    lemma_first_focused_node(t0, Seq::empty());
                    assert(p@.skip(0) =~= p@);
                }
                update_at(root, p.as_slice(), 0, FocusUpdate::SetEdited(editing));
            },
        }
    }

    /// Move focus to the next eligible node in depth-first pre-order.
    ///
    /// Returns `true` when focus moved; on a move, `Defocused` goes to the old
    /// node and `Focused` to the new one.
    pub fn focus_next(&self, root: &mut FocusNode) -> (moved: bool)
        ensures
            match step_target(*old(root), Direction::Next, self.policy.wrap) {
                Some(t) => moved && focus_moved(*old(root), *final(root), first_focused(*old(root), Seq::empty()), t),
                None => !moved && *final(root) == *old(root),
            },
    {
        focus_step(root, Direction::Next, self.policy.wrap)
    }

    /// Move focus to the previous eligible node in depth-first pre-order.
    ///
    /// Returns `true` when focus moved; on a move, `Defocused` goes to the old
    /// node and `Focused` to the new one.
    pub fn focus_prev(&self, root: &mut FocusNode) -> (moved: bool)
        ensures
            match step_target(*old(root), Direction::Prev, self.policy.wrap) {
                Some(t) => moved && focus_moved(*old(root), *final(root), first_focused(*old(root), Seq::empty()), t),
                None => !moved && *final(root) == *old(root),
            },
    {
        focus_step(root, Direction::Prev, self.policy.wrap)
    }

    /// Focus the node addressed by the structural path `path` (child indices
    /// from the root; empty addresses the root).
    ///
    /// Returns `true` when the target exists and is focus-eligible (which
    /// includes having no hidden or detached ancestor); otherwise returns
    /// `false` without changing focus.
    pub fn focus_path(&self, root: &mut FocusNode, path: &[usize]) -> (r: bool)
        ensures
            r == path_eligible(*old(root), path@),
            r ==> focus_moved(*old(root), *final(root), first_focused(*old(root), Seq::empty()), path@),
            !r ==> *final(root) == *old(root),
    {
        let ghost t0 = *root;
        if !is_path_eligible(root, path) {
            return false;
        }
        proof {
            lemma_path_eligible_exists(t0, path@);
        }
        let old_path = find_focused_path(root);
        match &old_path {
            Some(op) => {
                proof {
                    lemma_first_focused_node(t0, Seq::empty());
                    assert(op@.skip(0) =~= op@);
                }
                move_focus(root, Some(op.as_slice()), path);
            },
            None => {
                move_focus(root, None, path);
            },
        }
        true
    }
}

} // verus!
