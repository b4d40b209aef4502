//! The focus navigator: a level-bucketed round-robin over the tree.
//!
//! Navigation first keeps scanning in traversal order for an element whose
//! level equals the active bucket. When the sweep wraps around the tree, the
//! whole tree is scanned for the closest focusable level past the active one
//! (the minimum such level going forward, the maximum going backward); that
//! level becomes the new bucket and the sweep restarts from the wrap target.
//! When a wrap no longer changes the bucket and a full pass finds nothing,
//! the search ends with no selection — this covers a tree without focusable
//! elements instead of scanning forever.

use vstd::prelude::*;

use crate::dirty::{dirty_contents, DirtyNodes};
use crate::level::FocusLevel;
use crate::tree::{
    at_most_one_focused, ids_unique, index_of_id, lemma_index_of_id_from, Element, FocusTree,
    Focused,
};

verus! {

/// An element matches a bucket when the bucket is focusable and the element
/// sits exactly at that level.
pub open spec fn elem_matches(e: Element, level: FocusLevel) -> bool {
    e.focus.level == level && level.spec_focusable()
}

/// The first position at or after `i` whose element matches the bucket.
pub open spec fn first_match_up(s: Seq<Element>, level: FocusLevel, i: int) -> Option<int>
    decreases s.len() - i,
{
    if i < 0 || i >= s.len() {
        None
    } else if elem_matches(s[i], level) {
        Some(i)
    } else {
        first_match_up(s, level, i + 1)
    }
}

/// The first position at or before `i`, scanning backwards, whose element
/// matches the bucket.
pub open spec fn first_match_down(s: Seq<Element>, level: FocusLevel, i: int) -> Option<int>
    decreases i + 1,
{
    if i < 0 || i >= s.len() {
        None
    } else if elem_matches(s[i], level) {
        Some(i)
    } else {
        first_match_down(s, level, i - 1)
    }
}

/// A focusable element strictly above the current bucket.
pub open spec fn qualifies_above(e: Element, cur: FocusLevel) -> bool {
    e.focus.level.spec_focusable() && cur.spec_lt(e.focus.level)
}

/// A focusable element strictly below the current bucket.
pub open spec fn qualifies_below(e: Element, cur: FocusLevel) -> bool {
    e.focus.level.spec_focusable() && e.focus.level.spec_lt(cur)
}

/// The minimum qualifying level above `cur` among the first `k` elements.
pub open spec fn closest_above_upto(s: Seq<Element>, cur: FocusLevel, k: int) -> Option<
    FocusLevel,
>
    decreases k,
{
    if k <= 0 {
        None
    } else {
        let rest = closest_above_upto(s, cur, k - 1);
        if 0 <= k - 1 < s.len() && qualifies_above(s[k - 1], cur) {
            match rest {
                Some(l) => if s[k - 1].focus.level.spec_lt(l) {
                    Some(s[k - 1].focus.level)
                } else {
                    Some(l)
                },
                None => Some(s[k - 1].focus.level),
            }
        } else {
            rest
        }
    }
}

/// The maximum qualifying level below `cur` among the first `k` elements.
pub open spec fn closest_below_upto(s: Seq<Element>, cur: FocusLevel, k: int) -> Option<
    FocusLevel,
>
    decreases k,
{
    if k <= 0 {
        None
    } else {
        let rest = closest_below_upto(s, cur, k - 1);
        if 0 <= k - 1 < s.len() && qualifies_below(s[k - 1], cur) {
            match rest {
                Some(l) => if l.spec_lt(s[k - 1].focus.level) {
                    Some(s[k - 1].focus.level)
                } else {
                    Some(l)
                },
                None => Some(s[k - 1].focus.level),
            }
        } else {
            rest
        }
    }
}

pub open spec fn closest_above(s: Seq<Element>, cur: FocusLevel) -> Option<FocusLevel> {
    closest_above_upto(s, cur, s.len() as int)
}

pub open spec fn closest_below(s: Seq<Element>, cur: FocusLevel) -> Option<FocusLevel> {
    closest_below_upto(s, cur, s.len() as int)
}

/// The bucket after a forward wrap: the closest qualifying level above, or
/// back to the lowest bucket when none exists.
pub open spec fn next_level_forward(s: Seq<Element>, cur: FocusLevel) -> FocusLevel {
    match closest_above(s, cur) {
        Some(l) => l,
        None => FocusLevel::Unfocusable,
    }
}

/// The bucket after a backward wrap: the closest qualifying level below, or
/// back to `Focusable` when none exists.
pub open spec fn next_level_backward(s: Seq<Element>, cur: FocusLevel) -> FocusLevel {
    match closest_below(s, cur) {
        Some(l) => l,
        None => FocusLevel::Focusable,
    }
}

/// The outcome of a forward navigation search from the element at `cursor`
/// with the given active bucket: the selected position, if any, and the
/// active bucket after the search. The sweep runs to the end of the tree,
/// then wraps at most twice, recomputing the bucket at each wrap; a further
/// wrap could not change the bucket again, so a second empty full pass ends
/// the search with no selection.
pub open spec fn nav_forward(s: Seq<Element>, cursor: int, level: FocusLevel) -> (
    Option<int>,
    FocusLevel,
) {
    match first_match_up(s, level, cursor + 1) {
        Some(i) => (Some(i), level),
        None => {
            let l1 = next_level_forward(s, level);
            match first_match_up(s, l1, 0) {
                Some(i) => (Some(i), l1),
                None => {
                    let l2 = next_level_forward(s, l1);
                    match first_match_up(s, l2, 0) {
                        Some(i) => (Some(i), l2),
                        None => (None, l2),
                    }
                },
            }
        },
    }
}

/// The backward counterpart of [`nav_forward`]; the sweep runs down to the
/// start of the tree and wraps to its end.
pub open spec fn nav_backward(s: Seq<Element>, cursor: int, level: FocusLevel) -> (
    Option<int>,
    FocusLevel,
) {
    match first_match_down(s, level, cursor - 1) {
        Some(i) => (Some(i), level),
        None => {
            let l1 = next_level_backward(s, level);
            match first_match_down(s, l1, s.len() - 1) {
                Some(i) => (Some(i), l1),
                None => {
                    let l2 = next_level_backward(s, l1);
                    match first_match_down(s, l2, s.len() - 1) {
                        Some(i) => (Some(i), l2),
                        None => (None, l2),
                    }
                },
            }
        },
    }
}

pub open spec fn nav(s: Seq<Element>, cursor: int, level: FocusLevel, forward: bool) -> (
    Option<int>,
    FocusLevel,
) {
    if forward {
        nav_forward(s, cursor, level)
    } else {
        nav_backward(s, cursor, level)
    }
}

// ---------------------------------------------------------------------------
// Characterizations of the search primitives.
// ---------------------------------------------------------------------------

pub proof fn lemma_first_match_up(s: Seq<Element>, level: FocusLevel, i: int)
    requires
        0 <= i,
    ensures
        match first_match_up(s, level, i) {
            Some(k) => i <= k < s.len() && elem_matches(s[k], level) && forall|j: int|
                i <= j < k ==> !elem_matches(#[trigger] s[j], level),
            None => forall|j: int| i <= j < s.len() ==> !elem_matches(#[trigger] s[j], level),
        },
    decreases s.len() - i,
{
    if i < s.len() && !elem_matches(s[i], level) {
        lemma_first_match_up(s, level, i + 1);
    }
}

pub proof fn lemma_first_match_down(s: Seq<Element>, level: FocusLevel, i: int)
    requires
        i < s.len(),
    ensures
        match first_match_down(s, level, i) {
            Some(k) => 0 <= k <= i && elem_matches(s[k], level) && forall|j: int|
                k < j <= i ==> !elem_matches(#[trigger] s[j], level),
            None => forall|j: int| 0 <= j <= i ==> !elem_matches(#[trigger] s[j], level),
        },
    decreases i + 1,
{
    if 0 <= i && !elem_matches(s[i], level) {
        lemma_first_match_down(s, level, i - 1);
    }
}

pub proof fn lemma_closest_above_upto(s: Seq<Element>, cur: FocusLevel, k: int)
    requires
        k <= s.len(),
    ensures
        match closest_above_upto(s, cur, k) {
            Some(l) => l.spec_focusable() && cur.spec_lt(l) && (exists|i: int|
                0 <= i < k && (#[trigger] s[i]).focus.level == l) && (forall|i: int|
                0 <= i < k && qualifies_above(#[trigger] s[i], cur) ==> l.spec_le(
                    s[i].focus.level,
                )),
            None => forall|i: int| 0 <= i < k ==> !qualifies_above(#[trigger] s[i], cur),
        },
    decreases k,
{
    if k > 0 {
        lemma_closest_above_upto(s, cur, k - 1);
    }
}

pub proof fn lemma_closest_below_upto(s: Seq<Element>, cur: FocusLevel, k: int)
    requires
        k <= s.len(),
    ensures
        match closest_below_upto(s, cur, k) {
            Some(l) => l.spec_focusable() && l.spec_lt(cur) && (exists|i: int|
                0 <= i < k && (#[trigger] s[i]).focus.level == l) && (forall|i: int|
                0 <= i < k && qualifies_below(#[trigger] s[i], cur) ==> s[i].focus.level.spec_le(
                    l,
                )),
            None => forall|i: int| 0 <= i < k ==> !qualifies_below(#[trigger] s[i], cur),
        },
    decreases k,
{
    if k > 0 {
        lemma_closest_below_upto(s, cur, k - 1);
    }
}

// ---------------------------------------------------------------------------
// Executable search.
// ---------------------------------------------------------------------------

fn matches_level(e: &Element, level: FocusLevel) -> (r: bool)
    ensures
        r == elem_matches(*e, level),
{
    e.focus.level.focusable() && e.focus.level == level
}

fn scan_up(tree: &FocusTree, level: FocusLevel, from: usize) -> (r: Option<usize>)
    requires
        from <= tree.elements@.len(),
    ensures
        match r {
            Some(i) => first_match_up(tree.elements@, level, from as int) == Some(i as int) && i
                < tree.elements@.len(),
            None => first_match_up(tree.elements@, level, from as int).is_none(),
        },
{
    let mut i: usize = from;
    while i < tree.elements.len()
        invariant
            from <= i <= tree.elements@.len(),
            first_match_up(tree.elements@, level, from as int) == first_match_up(
                tree.elements@,
                level,
                i as int,
            ),
        decreases tree.elements@.len() - i,
    {
        if matches_level(&tree.elements[i], level) {
            return Some(i);
        }
        i = i + 1;
    }
    None
}

/// Scan the positions `hi - 1` down to `0` for the first match.
fn scan_down(tree: &FocusTree, level: FocusLevel, hi: usize) -> (r: Option<usize>)
    requires
        hi <= tree.elements@.len(),
    ensures
        match r {
            Some(i) => first_match_down(tree.elements@, level, hi - 1) == Some(i as int) && i
                < tree.elements@.len(),
            None => first_match_down(tree.elements@, level, hi - 1).is_none(),
        },
{
    let mut j: usize = hi;
    while j > 0
        invariant
            0 <= j <= hi <= tree.elements@.len(),
            first_match_down(tree.elements@, level, hi - 1) == first_match_down(
                tree.elements@,
                level,
                j - 1,
            ),
        decreases j,
    {
        if matches_level(&tree.elements[j - 1], level) {
            return Some(j - 1);
        }
        j = j - 1;
    }
    None
}

/// The full-tree scan run on a forward wrap: the minimum focusable level
/// strictly above the current bucket.
fn scan_closest_above(tree: &FocusTree, cur: FocusLevel) -> (r: Option<FocusLevel>)
    ensures
        r == closest_above(tree.elements@, cur),
{
    let mut acc: Option<FocusLevel> = None;
    let mut i: usize = 0;
    while i < tree.elements.len()
        invariant
            0 <= i <= tree.elements@.len(),
            acc == closest_above_upto(tree.elements@, cur, i as int),
        decreases tree.elements@.len() - i,
    {
        let lv = tree.elements[i].focus.level;
        if lv.focusable() && cur < lv {
            acc = match acc {
                Some(best) => if lv < best {
                    Some(lv)
                } else {
                    Some(best)
                },
                None => Some(lv),
            };
        }
        i = i + 1;
    }
    acc
}

/// The full-tree scan run on a backward wrap: the maximum focusable level
/// strictly below the current bucket.
fn scan_closest_below(tree: &FocusTree, cur: FocusLevel) -> (r: Option<FocusLevel>)
    ensures
        r == closest_below(tree.elements@, cur),
{
    let mut acc: Option<FocusLevel> = None;
    let mut i: usize = 0;
    while i < tree.elements.len()
        invariant
            0 <= i <= tree.elements@.len(),
            acc == closest_below_upto(tree.elements@, cur, i as int),
        decreases tree.elements@.len() - i,
    {
        let lv = tree.elements[i].focus.level;
        if lv.focusable() && lv < cur {
            acc = match acc {
                Some(best) => if best < lv {
                    Some(lv)
                } else {
                    Some(best)
                },
                None => Some(lv),
            };
        }
        i = i + 1;
    }
    acc
}

/// Run the bucketed search from the element at `cursor` and report the
/// selected position, if any, with the active bucket after the search.
fn search(tree: &FocusTree, cursor: usize, level: FocusLevel, forward: bool) -> (r: (
    Option<usize>,
    FocusLevel,
))
    requires
        tree.elements@.len() > 0,
        cursor < tree.elements@.len(),
    ensures
        ({
            let (sel, lvl) = nav(tree.elements@, cursor as int, level, forward);
            r.1 == lvl && (match (r.0, sel) {
                (Some(i), Some(k)) => i as int == k && i < tree.elements@.len(),
                (None, None) => true,
                _ => false,
            })
        }),
{
    let n = tree.elements.len();
    if forward {
        match scan_up(tree, level, cursor + 1) {
            Some(i) => (Some(i), level),
            None => {
                let l1 = match scan_closest_above(tree, level) {
                    Some(l) => l,
                    None => FocusLevel::Unfocusable,
                };
                match scan_up(tree, l1, 0) {
                    Some(i) => (Some(i), l1),
                    None => {
                        let l2 = match scan_closest_above(tree, l1) {
                            Some(l) => l,
                            None => FocusLevel::Unfocusable,
                        };
                        match scan_up(tree, l2, 0) {
                            Some(i) => (Some(i), l2),
                            None => (None, l2),
                        }
                    },
                }
            },
        }
    } else {
        match scan_down(tree, level, cursor) {
            Some(i) => (Some(i), level),
            None => {
                let l1 = match scan_closest_below(tree, level) {
                    Some(l) => l,
                    None => FocusLevel::Focusable,
                };
                match scan_down(tree, l1, n) {
                    Some(i) => (Some(i), l1),
                    None => {
                        let l2 = match scan_closest_below(tree, l1) {
                            Some(l) => l,
                            None => FocusLevel::Focusable,
                        };
                        match scan_down(tree, l2, n) {
                            Some(i) => (Some(i), l2),
                            None => (None, l2),
                        }
                    },
                }
            },
        }
    }
}

// ---------------------------------------------------------------------------
// The navigator state machine.
// ---------------------------------------------------------------------------

/// The navigator's persistent state for one tree: one instance per
/// tree/window, owned by the caller and passed into every call.
pub struct FocusState {
    /// Position in traversal order the sweep last rested on.
    pub cursor: usize,
    /// Id of the currently focused element, if any.
    pub last_focused_id: Option<u64>,
    /// The level bucket the sweep is currently scanning within.
    pub focus_level: FocusLevel,
    /// Elements whose focus-indicator state changed since the last drain.
    pub dirty: DirtyNodes,
}

impl FocusState {
    /// The focus flags in the tree mirror `last_focused_id`: exactly the
    /// recorded element carries the indicator, or none does.
    pub open spec fn consistent(self, tree: FocusTree) -> bool {
        match self.last_focused_id {
            Some(id) => tree.spec_has_id(id) && forall|i: int|
                0 <= i < tree.elements@.len() ==> ((#[trigger] tree.elements@[i]).focused.0 == (
                tree.elements@[i].id == id)),
            None => forall|i: int|
                0 <= i < tree.elements@.len() ==> !(#[trigger] tree.elements@[i]).focused.0,
        }
    }

    /// The focused element has claimed key-down handling for itself.
    pub open spec fn prevented(self, tree: FocusTree) -> bool {
        match self.last_focused_id {
            Some(id) => match index_of_id(tree.elements@, id) {
                Some(i) => tree.elements@[i].prevent_keydown,
                None => false,
            },
            None => false,
        }
    }

    /// Where a navigation sweep starts: on the focused element when there is
    /// one, else on the stored cursor position clamped into the tree.
    pub open spec fn start_pos(self, tree: FocusTree) -> int {
        match self.last_focused_id {
            Some(id) => match index_of_id(tree.elements@, id) {
                Some(i) => i,
                None => 0,
            },
            None => if self.cursor >= tree.elements@.len() {
                tree.elements@.len() - 1
            } else {
                self.cursor as int
            },
        }
    }

    /// Fresh navigator state for a tree: nothing focused, the lowest bucket
    /// active, the cursor at the start of the traversal order.
    pub fn create(tree: &FocusTree) -> (r: Self)
        ensures
            r.cursor == 0,
            r.last_focused_id.is_none(),
            r.focus_level == FocusLevel::Unfocusable,
            dirty_contents(&r.dirty) == Set::<u64>::empty(),
            (forall|i: int|
                0 <= i < tree.elements@.len() ==> !(#[trigger] tree.elements@[i]).focused.0)
                ==> r.consistent(*tree),
    {
        FocusState {
            cursor: 0,
            last_focused_id: None,
            focus_level: FocusLevel::default(),
            dirty: DirtyNodes::new(),
        }
    }

    /// Advance focus one step in the requested direction.
    ///
    /// When the focused element carries the key-down prevent-default marker
    /// the call is a no-op and the element keeps focus. Otherwise the
    /// bucketed search runs from the focused element's position (or from the
    /// stored cursor when nothing is focused): a selected element takes the
    /// indicator and the cursor, a previously focused different element
    /// loses the indicator, and both are recorded dirty. With no selection,
    /// focus is left unchanged and only the active bucket moves.
    pub fn progress(&mut self, tree: &mut FocusTree, forward: bool)
        requires
            old(tree).wf(),
            old(self).consistent(*old(tree)),
        ensures
            final(tree).wf(),
            final(self).consistent(*final(tree)),
            at_most_one_focused(final(tree).elements@),
            (old(self).prevented(*old(tree)) || old(tree).elements@.len() == 0) ==> *final(tree)
                == *old(tree) && *final(self) == *old(self),
            (!old(self).prevented(*old(tree)) && old(tree).elements@.len() > 0) ==> ({
                let s = old(tree).elements@;
                let outcome = nav(
                    s,
                    old(self).start_pos(*old(tree)),
                    old(self).focus_level,
                    forward,
                );
                final(self).focus_level == outcome.1 && (match outcome.0 {
                    Some(i) => ({
                        let nid = s[i].id;
                        final(self).last_focused_id == Some(nid) && final(self).cursor == i
                            && final(tree).elements@.len() == s.len() && (forall|j: int|
                            0 <= j < s.len() ==> (#[trigger] final(tree).elements@[j]) == (Element {
                                focused: Focused(s[j].id == nid),
                                ..s[j]
                            })) && dirty_contents(&final(self).dirty) == (match old(self).last_focused_id {
                            Some(o) => if o != nid {
                                dirty_contents(&old(self).dirty).insert(o).insert(nid)
                            } else {
                                dirty_contents(&old(self).dirty).insert(nid)
                            },
                            None => dirty_contents(&old(self).dirty).insert(nid),
                        })
                    }),
                    None => final(self).last_focused_id == old(self).last_focused_id
                        && final(self).cursor == old(self).cursor
                        && *final(tree) == *old(tree)
                        && dirty_contents(&final(self).dirty) == dirty_contents(&old(self).dirty),
                })
            }),
    {
        let ghost s0 = tree.elements@;
        // Guard: the focused element consumes key-down itself.
        let is_prevented = match self.last_focused_id {
            Some(last) => {
                proof {
                    lemma_index_of_id_from(tree.elements@, last, 0);
                }
                let li = tree.find_index(last).unwrap();
                tree.elements[li].prevent_keydown
            },
            None => false,
        };
        if is_prevented {
            return;
        }
        let n = tree.elements.len();
        if n == 0 {
            return;
        }
        let c: usize = match self.last_focused_id {
            Some(last) => {
                proof {
                    lemma_index_of_id_from(tree.elements@, last, 0);
                }
                tree.find_index(last).unwrap()
            },
            None => if self.cursor >= n {
                n - 1
            } else {
                self.cursor
            },
        };
        let search_result = search(tree, c, self.focus_level, forward);
        self.focus_level = search_result.1;
        match search_result.0 {
            Some(i) => {
                let new_id = tree.elements[i].id;
                tree.set_focused_flag(i, true);
                match self.last_focused_id {
                    Some(old_id) => {
                        if old_id != new_id {
                            proof {
                                let s1 = tree.elements@;
                                let i0 = choose|j: int|
                                    0 <= j < s0.len() && (#[trigger] s0[j]).id == old_id;
                                assert(s1[i0].id == old_id);
                                assert(tree.spec_has_id(old_id));
                                lemma_index_of_id_from(s1, old_id, 0);
                            }
                            let oi = tree.find_index(old_id).unwrap();
                            tree.set_focused_flag(oi, false);
                            self.dirty.insert(old_id);
                        }
                    },
                    None => {},
                }
                self.last_focused_id = Some(new_id);
                self.cursor = i;
                self.dirty.insert(new_id);
                proof {
                    let s2 = tree.elements@;
                    assert(s2.len() == s0.len());
                    assert(ids_unique(s0));
                    assert forall|j: int| 0 <= j < s0.len() implies (#[trigger] s2[j]) == (Element {
                        focused: Focused(s0[j].id == new_id),
                        ..s0[j]
                    }) by {
                        match old(self).last_focused_id {
                            Some(old_id) => {
                                if old_id != new_id {
                                    lemma_index_of_id_from(
                                        s0.update(
                                            i as int,
                                            Element { focused: Focused(true), ..s0[i as int] },
                                        ),
                                        old_id,
                                        0,
                                    );
                                }
                            },
                            None => {},
                        }
                    }
                    assert(tree.spec_has_id(new_id)) by {
                        assert(s2[i as int].id == new_id);
                    }
                    lemma_consistent_at_most_one(*self, *tree);
                }
            },
            None => {},
        }
    }

    /// Focus a specific element unconditionally, regardless of tab order
    /// and of the prevent-default marker. The active bucket becomes the
    /// element's level and the sweep resumes from its position; the element
    /// is recorded dirty, as is a previously focused different element,
    /// whose indicator the replacement cleared.
    pub fn set_focus(&mut self, tree: &mut FocusTree, id: u64)
        requires
            old(tree).wf(),
            old(self).consistent(*old(tree)),
            old(tree).spec_has_id(id),
        ensures
            final(tree).wf(),
            final(self).consistent(*final(tree)),
            at_most_one_focused(final(tree).elements@),
            ({
                let s = old(tree).elements@;
                let i = index_of_id(s, id).unwrap();
                final(self).last_focused_id == Some(id) && final(self).cursor == i
                    && final(self).focus_level == s[i].focus.level
                    && final(tree).elements@.len() == s.len() && (
                forall|j: int|
                    0 <= j < s.len() ==> (#[trigger] final(tree).elements@[j]) == (Element {
                        focused: Focused(s[j].id == id),
                        ..s[j]
                    })) && dirty_contents(&final(self).dirty) == (match old(self).last_focused_id {
                    Some(o) => if o != id {
                        dirty_contents(&old(self).dirty).insert(o).insert(id)
                    } else {
                        dirty_contents(&old(self).dirty).insert(id)
                    },
                    None => dirty_contents(&old(self).dirty).insert(id),
                })
            }),
    {
        let ghost s0 = tree.elements@;
        proof {
            lemma_index_of_id_from(s0, id, 0);
        }
        match self.last_focused_id {
            Some(old_id) => {
                if old_id != id {
                    proof {
                        lemma_index_of_id_from(tree.elements@, old_id, 0);
                    }
                    let oi = tree.find_index(old_id).unwrap();
                    tree.set_focused_flag(oi, false);
                    self.dirty.insert(old_id);
                }
            },
            None => {},
        }
        proof {
            let s1 = tree.elements@;
            let i0 = choose|j: int| 0 <= j < s0.len() && (#[trigger] s0[j]).id == id;
            assert(s1[i0].id == id);
            assert(tree.spec_has_id(id));
            lemma_index_of_id_from(s1, id, 0);
        }
        let i = tree.find_index(id).unwrap();
        tree.set_focused_flag(i, true);
        self.focus_level = tree.elements[i].focus.level;
        self.last_focused_id = Some(id);
        self.cursor = i;
        self.dirty.insert(id);
        proof {
            let s2 = tree.elements@;
            assert(ids_unique(s0));
            assert forall|j: int| 0 <= j < s0.len() implies (#[trigger] s2[j]) == (Element {
                focused: Focused(s0[j].id == id),
                ..s0[j]
            }) by {
                match old(self).last_focused_id {
                    Some(old_id) => {
                        if old_id != id {
                            lemma_index_of_id_from(s0, old_id, 0);
                        }
                    },
                    None => {},
                }
            }
            assert(tree.spec_has_id(id)) by {
                assert(s2[index_of_id(s0, id).unwrap()].id == id);
            }
            lemma_consistent_at_most_one(*self, *tree);
        }
    }

    /// A structural edit is about to drop the element with the given id:
    /// remove it from the tree and keep the navigator's record in step —
    /// when the removed element was the focused one, focus becomes unset
    /// (its indicator leaves the tree with it). Everything else, the dirty
    /// set included, stays as it was.
    pub fn element_removed(&mut self, tree: &mut FocusTree, id: u64)
        requires
            old(tree).wf(),
            old(self).consistent(*old(tree)),
            old(tree).spec_has_id(id),
        ensures
            final(tree).wf(),
            final(self).consistent(*final(tree)),
            at_most_one_focused(final(tree).elements@),
            final(tree).elements@ == old(tree).elements@.remove(
                index_of_id(old(tree).elements@, id).unwrap(),
            ),
            final(self).last_focused_id == (if old(self).last_focused_id == Some(id) {
                None::<u64>
            } else {
                old(self).last_focused_id
            }),
            final(self).cursor == old(self).cursor,
            final(self).focus_level == old(self).focus_level,
            dirty_contents(&final(self).dirty) == dirty_contents(&old(self).dirty),
    {
        let ghost s0 = tree.elements@;
        proof {
            lemma_index_of_id_from(s0, id, 0);
        }
        let clears_focus = match self.last_focused_id {
            Some(last) => last == id,
            None => false,
        };
        if clears_focus {
            self.last_focused_id = None;
        }
        tree.remove_element(id);
        proof {
            let s2 = tree.elements@;
            let k = index_of_id(s0, id).unwrap();
            assert(forall|j: int| 0 <= j < k ==> s2[j] == s0[j]);
            assert(forall|j: int| k <= j < s2.len() ==> s2[j] == s0[j + 1]);
            assert(ids_unique(s0));
            match self.last_focused_id {
                Some(o) => {
                    let i0 = choose|j: int| 0 <= j < s0.len() && (#[trigger] s0[j]).id == o;
                    if i0 < k {
                        assert(s2[i0].id == o);
                    } else {
                        assert(s2[i0 - 1].id == o);
                    }
                    assert(tree.spec_has_id(o));
                },
                None => {},
            }
            lemma_consistent_at_most_one(*self, *tree);
        }
    }

    /// Take the accumulated dirty set, leaving it empty; the rest of the
    /// state stays as it was.
    pub fn clean(&mut self) -> (r: DirtyNodes)
        ensures
            dirty_contents(&r) == dirty_contents(&old(self).dirty),
            dirty_contents(&final(self).dirty) == Set::<u64>::empty(),
            final(self).cursor == old(self).cursor,
            final(self).last_focused_id == old(self).last_focused_id,
            final(self).focus_level == old(self).focus_level,
    {
        self.dirty.take()
    }
}

// ---------------------------------------------------------------------------
// Laws of the navigator.
// ---------------------------------------------------------------------------

/// At most one element ever carries the focus indicator: in any state the
/// navigator maintains, the flags mirror `last_focused_id`, and with unique
/// ids at most one element can match it.
pub proof fn lemma_consistent_at_most_one(state: FocusState, tree: FocusTree)
    requires
        tree.wf(),
        state.consistent(tree),
    ensures
        at_most_one_focused(tree.elements@),
{
    let s = tree.elements@;
    match state.last_focused_id {
        Some(id) => {
            assert forall|i: int, j: int|
                0 <= i < s.len() && 0 <= j < s.len() && s[i].focused.0 && s[j].focused.0 implies i
                == j by {
                assert(s[i].id == id);
                assert(s[j].id == id);
                if i < j {
                    assert(s[i].id != s[j].id);
                } else if j < i {
                    assert(s[j].id != s[i].id);
                }
            }
        },
        None => {},
    }
}

/// On a tree with no focusable element, a navigation search selects
/// nothing, from any start position and active bucket, in either direction.
pub proof fn lemma_no_focusable_no_selection(
    s: Seq<Element>,
    cursor: int,
    level: FocusLevel,
    forward: bool,
)
    requires
        0 <= cursor <= s.len(),
        forall|i: int| 0 <= i < s.len() ==> !(#[trigger] s[i]).focus.level.spec_focusable(),
    ensures
        nav(s, cursor, level, forward).0.is_none(),
{
    if forward {
        lemma_first_match_up(s, level, cursor + 1);
        let l1 = next_level_forward(s, level);
        lemma_first_match_up(s, l1, 0);
        let l2 = next_level_forward(s, l1);
        lemma_first_match_up(s, l2, 0);
    } else {
        lemma_first_match_down(s, level, cursor - 1);
        let l1 = next_level_backward(s, level);
        lemma_first_match_down(s, l1, s.len() - 1);
        let l2 = next_level_backward(s, l1);
        lemma_first_match_down(s, l2, s.len() - 1);
    }
}

/// On a tree whose only focusable element sits at position `k`, a forward
/// navigation from any start position and any active bucket selects exactly
/// that element, and its level becomes the active bucket: repeated forward
/// navigation keeps reselecting it.
pub proof fn lemma_single_focusable_reselected(
    s: Seq<Element>,
    k: int,
    cursor: int,
    level: FocusLevel,
)
    requires
        0 <= k < s.len(),
        s[k].focus.level.spec_focusable(),
        forall|i: int| 0 <= i < s.len() && i != k ==> !(#[trigger] s[i]).focus.level.spec_focusable(),
        0 <= cursor < s.len(),
    ensures
        nav_forward(s, cursor, level).0 == Some(k),
        nav_forward(s, cursor, level).1 == s[k].focus.level,
{
    let lk = s[k].focus.level;
    lemma_first_match_up(s, level, cursor + 1);
    match first_match_up(s, level, cursor + 1) {
        Some(i) => {
            assert(elem_matches(s[i], level));
            assert(i == k);
        },
        None => {
            lemma_closest_above_upto(s, level, s.len() as int);
            let l1 = next_level_forward(s, level);
            lemma_first_match_up(s, l1, 0);
            match closest_above(s, level) {
                Some(l) => {
                    let i0 = choose|i: int| 0 <= i < s.len() && (#[trigger] s[i]).focus.level == l;
                    assert(s[i0].focus.level.spec_focusable());
                    assert(i0 == k);
                    assert(l == lk);
                    match first_match_up(s, l1, 0) {
                        Some(i) => {
                            assert(elem_matches(s[i], l1));
                            assert(i == k);
                        },
                        None => {
                            assert(!elem_matches(s[k], lk));
                            assert(false);
                        },
                    }
                },
                None => {
                    assert(l1 == FocusLevel::Unfocusable);
                    match first_match_up(s, l1, 0) {
                        Some(i) => {
                            assert(elem_matches(s[i], l1));
                            assert(false);
                        },
                        None => {},
                    }
                    lemma_closest_above_upto(s, l1, s.len() as int);
                    let l2 = next_level_forward(s, l1);
                    lemma_first_match_up(s, l2, 0);
                    match closest_above(s, l1) {
                        None => {
                            assert(qualifies_above(s[k], FocusLevel::Unfocusable));
                            assert(false);
                        },
                        Some(l) => {
                            let i0 = choose|i: int|
                                0 <= i < s.len() && (#[trigger] s[i]).focus.level == l;
                            assert(s[i0].focus.level.spec_focusable());
                            assert(i0 == k);
                            assert(l == lk);
                            match first_match_up(s, l2, 0) {
                                Some(i) => {
                                    assert(elem_matches(s[i], l2));
                                    assert(i == k);
                                },
                                None => {
                                    assert(!elem_matches(s[k], lk));
                                    assert(false);
                                },
                            }
                        },
                    }
                },
            }
        },
    }
}

} // verus!
