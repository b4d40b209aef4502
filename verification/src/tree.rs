//! The element tree, as the navigator sees it.
//!
//! The tree is abstract: elements stand in a fixed depth-first traversal
//! order, each with a stable caller-chosen id, its cached focus
//! classification, its focus-indicator flag and the prevent-default marker
//! for key-down. Structural edits keep every other element's identity, so a
//! cursor into the order survives them.

use vstd::prelude::*;

use crate::classify::{spec_classify, tab_index_in_range, Attribute, Focus};
use crate::level::FocusLevel;

verus! {

/// The focus-indicator flag of one element: true while the element is the
/// focused one.
#[derive(Clone, Copy, PartialEq, Eq, Structural, Debug)]
pub struct Focused(pub bool);

/// One element of the tree, in traversal order.
#[derive(Clone, Debug)]
pub struct Element {
    /// Stable identity of the element, unique within the tree.
    pub id: u64,
    /// Cached focus classification.
    pub focus: Focus,
    /// Focus-indicator state, written only by the navigator.
    pub focused: Focused,
    /// External marker: the element consumes key-down itself instead of
    /// yielding to navigation.
    pub prevent_keydown: bool,
}

/// The tree's elements in depth-first traversal order.
pub struct FocusTree {
    pub elements: Vec<Element>,
}

pub open spec fn ids_unique(s: Seq<Element>) -> bool {
    forall|i: int, j: int| 0 <= i < j < s.len() ==> s[i].id != s[j].id
}

pub open spec fn levels_wf(s: Seq<Element>) -> bool {
    forall|i: int| 0 <= i < s.len() ==> (#[trigger] s[i]).focus.level.wf()
}

/// At most one element carries the focus indicator.
pub open spec fn at_most_one_focused(s: Seq<Element>) -> bool {
    forall|i: int, j: int|
        0 <= i < s.len() && 0 <= j < s.len() && s[i].focused.0 && s[j].focused.0 ==> i == j
}

/// The first position at or after `i` whose element has the given id.
pub open spec fn index_of_id_from(s: Seq<Element>, id: u64, i: int) -> Option<int>
    decreases s.len() - i,
{
    if i < 0 || i >= s.len() {
        None
    } else if s[i].id == id {
        Some(i)
    } else {
        index_of_id_from(s, id, i + 1)
    }
}

pub open spec fn index_of_id(s: Seq<Element>, id: u64) -> Option<int> {
    index_of_id_from(s, id, 0)
}

pub proof fn lemma_index_of_id_from(s: Seq<Element>, id: u64, i: int)
    requires
        0 <= i <= s.len(),
    ensures
        match index_of_id_from(s, id, i) {
            Some(k) => i <= k < s.len() && s[k].id == id && forall|j: int|
                i <= j < k ==> s[j].id != id,
            None => forall|j: int| i <= j < s.len() ==> s[j].id != id,
        },
    decreases s.len() - i,
{
    if i < s.len() && s[i].id != id {
        lemma_index_of_id_from(s, id, i + 1);
    }
}

impl FocusTree {
    /// Well-formed tree: ids are unique and every cached level is valid.
    pub open spec fn wf(self) -> bool {
        ids_unique(self.elements@) && levels_wf(self.elements@)
    }

    pub open spec fn spec_has_id(self, id: u64) -> bool {
        exists|i: int| 0 <= i < self.elements@.len() && (#[trigger] self.elements@[i]).id == id
    }

    /// A fresh, empty tree.
    pub fn new() -> (r: Self)
        ensures
            r.elements@ =~= Seq::<Element>::empty(),
            r.wf(),
    {
        FocusTree { elements: Vec::new() }
    }

    /// The position of the element with the given id, if present.
    pub fn find_index(&self, id: u64) -> (r: Option<usize>)
        ensures
            match r {
                Some(i) => index_of_id(self.elements@, id) == Some(i as int),
                None => index_of_id(self.elements@, id).is_none(),
            },
            r.is_some() == self.spec_has_id(id),
    {
        proof {
            lemma_index_of_id_from(self.elements@, id, 0);
        }
        let mut i: usize = 0;
        while i < self.elements.len()
            invariant
                0 <= i <= self.elements@.len(),
                index_of_id(self.elements@, id) == index_of_id_from(self.elements@, id, i as int),
            decreases self.elements@.len() - i,
        {
            if self.elements[i].id == id {
                return Some(i);
            }
            i = i + 1;
        }
        None
    }

    pub fn has_id(&self, id: u64) -> (r: bool)
        ensures
            r == self.spec_has_id(id),
    {
        self.find_index(id).is_some()
    }

    /// Append a newly created element; classification runs as part of
    /// creation. The id must be fresh and a declared positive tab index must
    /// fit 16 bits.
    pub fn add_element(&mut self, id: u64, attrs: &Vec<Attribute>, listeners: &Vec<String>)
        requires
            old(self).wf(),
            !old(self).spec_has_id(id),
            tab_index_in_range(attrs@),
        ensures
            final(self).elements@ == old(self).elements@.push(
                Element {
                    id,
                    focus: Focus { level: spec_classify(attrs@, listeners@) },
                    focused: Focused(false),
                    prevent_keydown: false,
                },
            ),
            final(self).wf(),
            final(self).spec_has_id(id),
            at_most_one_focused(old(self).elements@) ==> at_most_one_focused(
                final(self).elements@,
            ),
    {
        let e = Element {
            id,
            focus: Focus::create(attrs, listeners),
            focused: Focused(false),
            prevent_keydown: false,
        };
        self.elements.push(e);
        proof {
            let s = self.elements@;
            assert(s.len() == old(self).elements@.len() + 1);
            assert(forall|i: int|
                0 <= i < s.len() - 1 ==> s[i] == old(self).elements@[i]);
            assert(s[s.len() - 1].id == id);
            assert(ids_unique(s));
            assert(self.spec_has_id(id));
        }
    }

    /// Recompute the classification of the element with the given id from
    /// its current attributes and event subscriptions; report whether it
    /// changed. Everything else in the tree stays as it was.
    pub fn update_element(
        &mut self,
        id: u64,
        attrs: &Vec<Attribute>,
        listeners: &Vec<String>,
    ) -> (changed: bool)
        requires
            old(self).wf(),
            old(self).spec_has_id(id),
            tab_index_in_range(attrs@),
        ensures
            ({
                let i = index_of_id(old(self).elements@, id).unwrap();
                let e = old(self).elements@[i];
                let up = e.focus.spec_update(attrs@, listeners@);
                final(self).elements@ == old(self).elements@.update(
                    i,
                    Element { focus: up.0, ..e },
                ) && changed == up.1
            }),
            final(self).wf(),
            at_most_one_focused(old(self).elements@) ==> at_most_one_focused(
                final(self).elements@,
            ),
    {
        proof {
            lemma_index_of_id_from(self.elements@, id, 0);
        }
        let i = self.find_index(id).unwrap();
        let e = &mut self.elements[i];
        let changed = e.focus.update(attrs, listeners);
        proof {
            let s = self.elements@;
            let o = old(self).elements@;
            let eo = o[i as int];
            let up = eo.focus.spec_update(attrs@, listeners@);
            assert(s =~= o.update(i as int, Element { focus: up.0, ..eo }));
            assert(forall|j: int| 0 <= j < s.len() && j != i ==> s[j] == o[j]);
            assert(s[i as int].id == o[i as int].id);
            assert(ids_unique(s));
            assert(levels_wf(s));
        }
        changed
    }

    /// Set or clear the external prevent-default marker for key-down on the
    /// element with the given id.
    pub fn set_prevent_keydown(&mut self, id: u64, on: bool)
        requires
            old(self).wf(),
            old(self).spec_has_id(id),
        ensures
            ({
                let i = index_of_id(old(self).elements@, id).unwrap();
                let e = old(self).elements@[i];
                final(self).elements@ == old(self).elements@.update(
                    i,
                    Element { prevent_keydown: on, ..e },
                )
            }),
            final(self).wf(),
            at_most_one_focused(old(self).elements@) ==> at_most_one_focused(
                final(self).elements@,
            ),
    {
        proof {
            lemma_index_of_id_from(self.elements@, id, 0);
        }
        let i = self.find_index(id).unwrap();
        let e = &mut self.elements[i];
        e.prevent_keydown = on;
        proof {
            let s = self.elements@;
            let o = old(self).elements@;
            let eo = o[i as int];
            assert(s =~= o.update(i as int, Element { prevent_keydown: on, ..eo }));
            assert(forall|j: int| 0 <= j < s.len() && j != i ==> s[j] == o[j]);
            assert(ids_unique(s));
            assert(levels_wf(s));
        }
    }

    /// Remove the element with the given id from the traversal order; every
    /// other element keeps its place relative to the rest.
    pub fn remove_element(&mut self, id: u64)
        requires
            old(self).wf(),
            old(self).spec_has_id(id),
        ensures
            ({
                let i = index_of_id(old(self).elements@, id).unwrap();
                final(self).elements@ == old(self).elements@.remove(i)
            }),
            final(self).wf(),
            at_most_one_focused(old(self).elements@) ==> at_most_one_focused(
                final(self).elements@,
            ),
    {
        proof {
            lemma_index_of_id_from(self.elements@, id, 0);
        }
        let i = self.find_index(id).unwrap();
        self.elements.remove(i);
        proof {
            let s = self.elements@;
            let o = old(self).elements@;
            assert(s =~= o.remove(i as int));
            assert(forall|j: int| 0 <= j < i ==> s[j] == o[j]);
            assert(forall|j: int| i <= j < s.len() ==> s[j] == o[j + 1]);
            assert(ids_unique(s));
            assert(levels_wf(s));
            if at_most_one_focused(o) {
                assert(at_most_one_focused(s));
            }
        }
    }

    /// Set or clear the focus-indicator flag of the element at a known
    /// position. Only the navigator writes this flag.
    pub fn set_focused_flag(&mut self, i: usize, on: bool)
        requires
            old(self).wf(),
            i < old(self).elements@.len(),
        ensures
            final(self).elements@ == old(self).elements@.update(
                i as int,
                Element { focused: Focused(on), ..old(self).elements@[i as int] },
            ),
            final(self).wf(),
    {
        let e = &mut self.elements[i];
        e.focused = Focused(on);
        proof {
            let s = self.elements@;
            let o = old(self).elements@;
            let eo = o[i as int];
            assert(s =~= o.update(i as int, Element { focused: Focused(on), ..eo }));
            assert(forall|j: int| 0 <= j < s.len() && j != i ==> s[j] == o[j]);
            assert(ids_unique(s));
            assert(levels_wf(s));
        }
    }

    /// The focus level of the element with the given id.
    pub fn level_of(&self, id: u64) -> (r: FocusLevel)
        requires
            self.spec_has_id(id),
        ensures
            r == self.elements@[index_of_id(self.elements@, id).unwrap()].focus.level,
    {
        proof {
            lemma_index_of_id_from(self.elements@, id, 0);
        }
        let i = self.find_index(id).unwrap();
        self.elements[i].focus.level
    }

    /// Whether the element with the given id currently carries the focus
    /// indicator.
    pub fn is_focused(&self, id: u64) -> (r: bool)
        requires
            self.spec_has_id(id),
        ensures
            r == self.elements@[index_of_id(self.elements@, id).unwrap()].focused.0,
    {
        proof {
            lemma_index_of_id_from(self.elements@, id, 0);
        }
        let i = self.find_index(id).unwrap();
        self.elements[i].focused.0
    }
}

} // verus!
