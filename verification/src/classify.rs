//! The focus classifier.
//!
//! Given one element's attributes and the interaction events it subscribes
//! to, the classifier computes the element's `FocusLevel`:
//!
//! * a `tabindex` attribute with an integer value (numeric, or text that
//!   parses as an integer) decides directly: negative means `Unfocusable`,
//!   zero means `Focusable`, positive means `Ordered` with that index;
//! * otherwise an element subscribed to any key event (`keydown`,
//!   `keypress`, `keyup`) is `Focusable`;
//! * otherwise the element is `Unfocusable`.
//!
//! A positive tab index must fit the 16-bit range; a larger value is a
//! content error that is excluded by precondition rather than clamped.

use vstd::prelude::*;

use crate::level::FocusLevel;

verus! {

/// The value of one element attribute, as the classifier sees it: an
/// integer, a text that may parse as one, or anything else.
#[derive(Clone, Debug)]
pub enum AttrValue {
    Int(i64),
    Text(String),
    Other,
}

/// One declared attribute of an element.
#[derive(Clone, Debug)]
pub struct Attribute {
    pub name: String,
    pub value: AttrValue,
}

/// The cached focus classification of one element.
#[derive(Clone, Copy, PartialEq, Eq, Structural, Debug)]
pub struct Focus {
    pub level: FocusLevel,
}

impl Default for Focus {
    fn default() -> (r: Self)
        ensures
            r == (Focus { level: FocusLevel::Unfocusable }),
    {
        Focus { level: FocusLevel::Unfocusable }
    }
}

// ---------------------------------------------------------------------------
// Parsing an integer out of a textual attribute value.
// ---------------------------------------------------------------------------

pub open spec fn is_digit_char(c: char) -> bool {
    48 <= c as int && c as int <= 57
}

pub open spec fn all_digits(s: Seq<char>) -> bool {
    forall|i: int| 0 <= i < s.len() ==> is_digit_char(#[trigger] s[i])
}

/// The value of a sequence of decimal digit characters.
pub open spec fn digits_val(s: Seq<char>) -> int
    decreases s.len(),
{
    if s.len() == 0 {
        0
    } else {
        digits_val(s.drop_last()) * 10 + (s.last() as int - 48)
    }
}

/// What parsing a decimal integer from text yields: an optional sign
/// followed by at least one digit, with the value within the `i64` range;
/// anything else is no integer.
pub open spec fn spec_parse_i64(s: Seq<char>) -> Option<i64> {
    let negative = s.len() > 0 && s[0] == '-';
    let signed = s.len() > 0 && (s[0] == '+' || s[0] == '-');
    let mag = if signed {
        s.subrange(1, s.len() as int)
    } else {
        s
    };
    if mag.len() == 0 || !all_digits(mag) {
        None
    } else {
        let v = if negative {
            -digits_val(mag)
        } else {
            digits_val(mag)
        };
        if i64::MIN <= v <= i64::MAX {
            Some(v as i64)
        } else {
            None
        }
    }
}

proof fn lemma_digits_val_nonneg(s: Seq<char>)
    requires
        all_digits(s),
    ensures
        digits_val(s) >= 0,
    decreases s.len(),
{
    if s.len() > 0 {
        assert(all_digits(s.drop_last())) by {
            assert(forall|i: int|
                0 <= i < s.len() - 1 ==> s.drop_last()[i] == #[trigger] s[i]);
        }
        lemma_digits_val_nonneg(s.drop_last());
    }
}

/// Appending further digits never shrinks the value: the value of the whole
/// is at least the value of any digit prefix.
proof fn lemma_digits_val_prefix_le(s: Seq<char>, k: int)
    requires
        all_digits(s),
        0 <= k <= s.len(),
    ensures
        digits_val(s.subrange(0, k)) <= digits_val(s),
    decreases s.len() - k,
{
    if k < s.len() {
        let t = s.subrange(0, k + 1);
        assert(t.drop_last() =~= s.subrange(0, k));
        assert(all_digits(t)) by {
            assert(forall|i: int| 0 <= i < t.len() ==> t[i] == #[trigger] s[i]);
        }
        lemma_digits_val_nonneg(t.drop_last());
        assert(digits_val(t) == digits_val(s.subrange(0, k)) * 10 + (t.last() as int - 48));
        assert(digits_val(s.subrange(0, k)) <= digits_val(t));
        lemma_digits_val_prefix_le(s, k + 1);
        assert(s.subrange(0, s.len() as int) =~= s);
    } else {
        assert(s.subrange(0, k) =~= s);
    }
}

/// Parse a decimal integer as `str::parse::<i64>` would: an optional sign,
/// one or more ASCII digits, value within range.
pub fn parse_i64(s: &str) -> (r: Option<i64>)
    ensures
        r == spec_parse_i64(s@),
{
    let n = s.unicode_len();
    if n == 0 {
        return None;
    }
    let first = s.get_char(0);
    let negative = first == '-';
    let signed = negative || first == '+';
    let start: usize = if signed {
        1
    } else {
        0
    };
    if n == start {
        return None;
    }
    let ghost mag_seq = if signed {
        s@.subrange(1, s@.len() as int)
    } else {
        s@
    };
    proof {
        assert(mag_seq.len() == n - start);
        assert(forall|j: int|
            0 <= j < mag_seq.len() ==> #[trigger] mag_seq[j] == s@[j + start]);
    }
    let mut i: usize = start;
    let mut mag: u128 = 0;
    while i < n
        invariant
            start <= i <= n,
            n == s@.len(),
            signed == (s@.len() > 0 && (s@[0] == '+' || s@[0] == '-')),
            negative == (s@.len() > 0 && s@[0] == '-'),
            start == if signed { 1int } else { 0int },
            n > start,
            mag_seq == (if signed { s@.subrange(1, s@.len() as int) } else { s@ }),
            mag_seq.len() == n - start,
            forall|j: int| 0 <= j < mag_seq.len() ==> #[trigger] mag_seq[j] == s@[j + start],
            all_digits(mag_seq.subrange(0, i - start)),
            mag == digits_val(mag_seq.subrange(0, i - start)),
            mag <= 0x8000_0000_0000_0000u128,
        decreases n - i,
    {
        let c = s.get_char(i);
        let u = c as u32;
        if u < 48 || u > 57 {
            proof {
                assert(mag_seq[i - start] == s@[i as int]);
                assert(!is_digit_char(mag_seq[i - start]));
                assert(!all_digits(mag_seq));
            }
            return None;
        }
        let d = (u - 48) as u128;
        proof {
            let pre = mag_seq.subrange(0, i - start);
            let post = mag_seq.subrange(0, i + 1 - start);
            assert(post.drop_last() =~= pre);
            assert(post.last() == mag_seq[i - start]);
            assert(mag_seq[i - start] == s@[i as int]);
            assert(is_digit_char(s@[i as int]));
            assert(digits_val(post) == digits_val(pre) * 10 + (s@[i as int] as int - 48));
        }
        mag = mag * 10 + d;
        i = i + 1;
        if mag > 0x8000_0000_0000_0000u128 {
            proof {
                if all_digits(mag_seq) {
                    lemma_digits_val_prefix_le(mag_seq, i - start);
                    assert(digits_val(mag_seq) > 0x8000_0000_0000_0000);
                }
            }
            return None;
        }
    }
    proof {
        assert(mag_seq.subrange(0, i - start) =~= mag_seq);
        assert(mag_seq.len() > 0);
    }
    if negative {
        let v = (-(mag as i128)) as i64;
        Some(v)
    } else {
        if mag > 0x7fff_ffff_ffff_ffffu128 {
            None
        } else {
            Some(mag as i64)
        }
    }
}

// ---------------------------------------------------------------------------
// The classification itself.
// ---------------------------------------------------------------------------

pub open spec fn spec_is_key_event(name: Seq<char>) -> bool {
    name == "keydown"@ || name == "keypress"@ || name == "keyup"@
}

pub open spec fn spec_has_key_listener(listeners: Seq<String>) -> bool {
    exists|i: int| 0 <= i < listeners.len() && spec_is_key_event(#[trigger] listeners[i]@)
}

/// The index of the first attribute named `tabindex` at or after `i`.
pub open spec fn find_tabindex_from(attrs: Seq<Attribute>, i: int) -> Option<int>
    decreases attrs.len() - i,
{
    if i < 0 || i >= attrs.len() {
        None
    } else if attrs[i].name@ == "tabindex"@ {
        Some(i)
    } else {
        find_tabindex_from(attrs, i + 1)
    }
}

/// The declared tab-index attribute value, if any.
pub open spec fn spec_tab_index(attrs: Seq<Attribute>) -> Option<AttrValue> {
    match find_tabindex_from(attrs, 0) {
        Some(i) => Some(attrs[i].value),
        None => None,
    }
}

/// The integer a tab-index attribute value carries, if any.
pub open spec fn spec_attr_int(v: AttrValue) -> Option<i64> {
    match v {
        AttrValue::Int(i) => Some(i),
        AttrValue::Text(s) => spec_parse_i64(s@),
        AttrValue::Other => None,
    }
}

/// The integer the declared tab-index attribute yields, if the attribute is
/// present and its value carries one; an absent attribute and an
/// unparseable value alike yield none.
pub open spec fn spec_declared_tab_index(attrs: Seq<Attribute>) -> Option<i64> {
    match spec_tab_index(attrs) {
        Some(v) => spec_attr_int(v),
        None => None,
    }
}

/// The focus level of an element with the given attributes and event
/// subscriptions. Only a tab-index attribute that yields an integer decides
/// directly; otherwise — the attribute absent, or its value unparseable —
/// the key-listener rule applies.
pub open spec fn spec_classify(attrs: Seq<Attribute>, listeners: Seq<String>) -> FocusLevel {
    match spec_declared_tab_index(attrs) {
        Some(i) => if i < 0 {
            FocusLevel::Unfocusable
        } else if i == 0 {
            FocusLevel::Focusable
        } else {
            FocusLevel::Ordered(i as u16)
        },
        None => if spec_has_key_listener(listeners) {
            FocusLevel::Focusable
        } else {
            FocusLevel::Unfocusable
        },
    }
}

/// A declared positive tab index fits the 16-bit range. A larger one is a
/// content error: classification would have to clamp or fail, so such
/// inputs are excluded by precondition.
pub open spec fn tab_index_in_range(attrs: Seq<Attribute>) -> bool {
    match spec_declared_tab_index(attrs) {
        Some(i) => i <= 65535,
        None => true,
    }
}

fn str_eq(a: &str, b: &str) -> (r: bool)
    ensures
        r == (a@ == b@),
{
    a.to_owned() == b.to_owned()
}

fn is_key_event(name: &str) -> (r: bool)
    ensures
        r == spec_is_key_event(name@),
{
    str_eq(name, "keydown") || str_eq(name, "keypress") || str_eq(name, "keyup")
}

fn has_key_listener(listeners: &Vec<String>) -> (r: bool)
    ensures
        r == spec_has_key_listener(listeners@),
{
    let mut i: usize = 0;
    while i < listeners.len()
        invariant
            0 <= i <= listeners.len(),
            forall|j: int| 0 <= j < i ==> !spec_is_key_event(#[trigger] listeners@[j]@),
        decreases listeners.len() - i,
    {
        if is_key_event(listeners[i].as_str()) {
            return true;
        }
        i = i + 1;
    }
    false
}

fn find_tabindex(attrs: &Vec<Attribute>) -> (r: Option<usize>)
    ensures
        match r {
            Some(i) => i < attrs.len() && find_tabindex_from(attrs@, 0) == Some(i as int),
            None => find_tabindex_from(attrs@, 0).is_none(),
        },
{
    let mut i: usize = 0;
    while i < attrs.len()
        invariant
            0 <= i <= attrs.len(),
            find_tabindex_from(attrs@, 0) == find_tabindex_from(attrs@, i as int),
        decreases attrs.len() - i,
    {
        if str_eq(attrs[i].name.as_str(), "tabindex") {
            return Some(i);
        }
        i = i + 1;
    }
    None
}

/// Compute the focus level of an element from its attributes and the
/// interaction events it subscribes to.
pub fn classify(attrs: &Vec<Attribute>, listeners: &Vec<String>) -> (r: FocusLevel)
    requires
        tab_index_in_range(attrs@),
    ensures
        r == spec_classify(attrs@, listeners@),
        r.wf(),
{
    let parsed: Option<i64> = match find_tabindex(attrs) {
        Some(i) => match &attrs[i].value {
            AttrValue::Int(v) => Some(*v),
            AttrValue::Text(s) => parse_i64(s.as_str()),
            AttrValue::Other => None,
        },
        None => None,
    };
    match parsed {
        Some(v) => {
            if v < 0 {
                FocusLevel::Unfocusable
            } else if v == 0 {
                FocusLevel::Focusable
            } else {
                FocusLevel::Ordered(v as u16)
            }
        },
        None => {
            if has_key_listener(listeners) {
                FocusLevel::Focusable
            } else {
                FocusLevel::Unfocusable
            }
        },
    }
}

impl Focus {
    /// What one recomputation does: the new cached value, and whether it
    /// differs from the previous one.
    pub open spec fn spec_update(self, attrs: Seq<Attribute>, listeners: Seq<String>) -> (
        Focus,
        bool,
    ) {
        let new = Focus { level: spec_classify(attrs, listeners) };
        (new, self != new)
    }

    /// Recompute the cached focus level from the element's current
    /// attributes and event subscriptions; report whether it changed.
    pub fn update(&mut self, attrs: &Vec<Attribute>, listeners: &Vec<String>) -> (changed: bool)
        requires
            tab_index_in_range(attrs@),
        ensures
            *final(self) == old(self).spec_update(attrs@, listeners@).0,
            changed == old(self).spec_update(attrs@, listeners@).1,
            final(self).level.wf(),
    {
        let new = Focus { level: classify(attrs, listeners) };
        if *self != new {
            *self = new;
            true
        } else {
            false
        }
    }

    /// The classification an element gets on creation.
    pub fn create(attrs: &Vec<Attribute>, listeners: &Vec<String>) -> (r: Focus)
        requires
            tab_index_in_range(attrs@),
        ensures
            r.level == spec_classify(attrs@, listeners@),
            r.level.wf(),
    {
        let mut myself = Focus::default();
        myself.update(attrs, listeners);
        myself
    }
}

/// Recomputing the classification of an unchanged element yields the same
/// value again and reports it unchanged.
pub proof fn lemma_update_idempotent(f: Focus, attrs: Seq<Attribute>, listeners: Seq<String>)
    ensures
        ({
            let once = f.spec_update(attrs, listeners);
            let twice = once.0.spec_update(attrs, listeners);
            twice.0 == once.0 && twice.1 == false
        }),
{
}

} // verus!
