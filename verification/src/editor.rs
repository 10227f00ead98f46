//! Per-category editor dispatch: what one render pass does to a field's
//! value and to its transient edit state, for each kind of interaction.

use vstd::prelude::*;
use crate::numeric::{
    spec_dec_i64,
    spec_dec_u64,
    spec_parse_int,
    spec_parse_uint,
    parse_i64,
    parse_u64,
    i64_to_string,
    u64_to_string,
};
use crate::{FieldOptions, FieldValue, ReflectField};

verus! {

/// Transient edit state of one numeric free-text field: the text being
/// typed, and whether the last parse of it failed.
pub struct EditState {
    /// The pending text shown in the field's text box.
    pub text: String,
    /// Whether the pending text failed to parse.
    pub failed: bool,
}

/// One interaction with a field during a render pass.
pub enum EditEvent {
    /// The text now standing in the field's text box.
    SetText(String),
    /// The position a bounded slider was driven to.
    SetSlider(i64),
    /// A click on a checkbox.
    Toggle,
    /// An interaction with one field of a nested record, by position.
    InField(usize, Box<EditEvent>),
}

/// What a free-text pass does to a signed value: text equal to the value's
/// canonical numeral is left alone; otherwise a numeral in range is
/// committed and the failure flag cleared, and any other text sets the
/// flag and leaves the value unchanged.  The typed text is always kept.
pub open spec fn spec_text_step_i64(x: i64, st: EditState, t: String) -> (i64, EditState) {
    if t@ == spec_dec_i64(x as int) {
        (x, EditState { text: t, failed: st.failed })
    } else {
        match spec_parse_int(t@) {
            Some(v) => if i64::MIN <= v <= i64::MAX {
                (v as i64, EditState { text: t, failed: false })
            } else {
                (x, EditState { text: t, failed: true })
            },
            None => (x, EditState { text: t, failed: true }),
        }
    }
}

/// What a free-text pass does to an unsigned value; as for signed values.
pub open spec fn spec_text_step_u64(x: u64, st: EditState, t: String) -> (u64, EditState) {
    if t@ == spec_dec_u64(x as nat) {
        (x, EditState { text: t, failed: st.failed })
    } else {
        match spec_parse_uint(t@) {
            Some(v) => if v <= u64::MAX as int {
                (v as u64, EditState { text: t, failed: false })
            } else {
                (x, EditState { text: t, failed: true })
            },
            None => (x, EditState { text: t, failed: true }),
        }
    }
}

/// The annotation's `i32` bound as the unsigned field type reads it:
/// reduced modulo 2^64, as a two's-complement cast does.
pub open spec fn wrap_u64(a: int) -> int {
    a % 0x1_0000_0000_0000_0000
}

/// What a slider pass does to a signed value: with bounds in order, the
/// target clamped into them; with bounds out of order, nothing.
pub open spec fn spec_slider_i64(x: i64, a: i32, b: i32, input: i64) -> i64 {
    if a <= b {
        if input < a as i64 {
            a as i64
        } else if input > b as i64 {
            b as i64
        } else {
            input
        }
    } else {
        x
    }
}

/// What a slider pass does to an unsigned value: the bounds are the
/// annotation's `i32` bounds read modulo 2^64, and with them in order the
/// target is clamped into them; with them out of order, nothing.
pub open spec fn spec_slider_u64(x: u64, a: i32, b: i32, input: i64) -> u64 {
    let lo = wrap_u64(a as int);
    let hi = wrap_u64(b as int);
    if lo <= hi {
        if (input as int) < lo {
            lo as u64
        } else if input as int > hi {
            hi as u64
        } else {
            input as u64
        }
    } else {
        x
    }
}

/// What one interaction does to a leaf value and its edit state.  Events
/// that do not fit the value's category, a text event on a ranged numeric
/// field, or a slider event on an unranged one, do nothing.
pub open spec fn spec_leaf_edit(v: FieldValue, opts: FieldOptions, st: EditState, ev: EditEvent) -> (
    FieldValue,
    EditState,
) {
    match (v, ev) {
        (FieldValue::SInt(x), EditEvent::SetText(t)) => {
            if opts.range is None {
                let r = spec_text_step_i64(x, st, t);
                (FieldValue::SInt(r.0), r.1)
            } else {
                (v, st)
            }
        },
        (FieldValue::UInt(x), EditEvent::SetText(t)) => {
            if opts.range is None {
                let r = spec_text_step_u64(x, st, t);
                (FieldValue::UInt(r.0), r.1)
            } else {
                (v, st)
            }
        },
        (FieldValue::SInt(x), EditEvent::SetSlider(d)) => {
            match opts.range {
                Some((a, b)) => (FieldValue::SInt(spec_slider_i64(x, a, b, d)), st),
                None => (v, st),
            }
        },
        (FieldValue::UInt(x), EditEvent::SetSlider(d)) => {
            match opts.range {
                Some((a, b)) => (FieldValue::UInt(spec_slider_u64(x, a, b, d)), st),
                None => (v, st),
            }
        },
        (FieldValue::Boolean(x), EditEvent::Toggle) => (FieldValue::Boolean(!x), st),
        (FieldValue::Text(_), EditEvent::SetText(t)) => (FieldValue::Text(t), st),
        _ => (v, st),
    }
}

/// How an interaction relates a field value and edit state before a render
/// pass to the pair after it.  An event addressed into a nested record
/// reaches exactly one field; every sibling keeps its value, name and
/// options.  At a leaf, `spec_leaf_edit` says what happens.
pub open spec fn edit_rel(
    v1: FieldValue,
    opts: FieldOptions,
    st1: EditState,
    ev: EditEvent,
    v2: FieldValue,
    st2: EditState,
) -> bool
    decreases ev,
{
    match ev {
        EditEvent::InField(i, e) => match v1 {
            FieldValue::Record(fs1) => {
                if (i as int) < fs1@.len() {
                    match v2 {
                        FieldValue::Record(fs2) => {
                            &&& fs2@.len() == fs1@.len()
                            &&& forall|j: int|
                                0 <= j < fs1@.len() && j != i as int ==> fs2@[j] == fs1@[j]
                            &&& fs2@[i as int].name == fs1@[i as int].name
                            &&& fs2@[i as int].opts == fs1@[i as int].opts
                            &&& edit_rel(
                                fs1@[i as int].value,
                                fs1@[i as int].opts,
                                st1,
                                *e,
                                fs2@[i as int].value,
                                st2,
                            )
                        },
                        _ => false,
                    }
                } else {
                    v2 == v1 && st2 == st1
                }
            },
            _ => v2 == v1 && st2 == st1,
        },
        _ => (v2, st2) == spec_leaf_edit(v1, opts, st1, ev),
    }
}

/// One free-text editor pass over a signed integer field.
pub fn numeric_text_step_i64(x: &mut i64, st: &mut EditState, t: String)
    ensures
        *final(x) == spec_text_step_i64(*old(x), *old(st), t).0,
        *final(st) == spec_text_step_i64(*old(x), *old(st), t).1,
{
    let canon = i64_to_string(*x);
    if t == canon {
        st.text = t;
    } else {
        match parse_i64(t.as_str()) {
            Some(v) => {
                *x = v;
                st.failed = false;
                st.text = t;
            },
            None => {
                st.failed = true;
                st.text = t;
            },
        }
    }
}

/// One free-text editor pass over an unsigned integer field.
pub fn numeric_text_step_u64(x: &mut u64, st: &mut EditState, t: String)
    ensures
        *final(x) == spec_text_step_u64(*old(x), *old(st), t).0,
        *final(st) == spec_text_step_u64(*old(x), *old(st), t).1,
{
    let canon = u64_to_string(*x);
    if t == canon {
        st.text = t;
    } else {
        match parse_u64(t.as_str()) {
            Some(v) => {
                *x = v;
                st.failed = false;
                st.text = t;
            },
            None => {
                st.failed = true;
                st.text = t;
            },
        }
    }
}

/// What a free-text pass does to a signed value narrower than `i64`,
/// whose type admits exactly `[lo, hi]`: as for `i64`, except that a
/// numeral outside `[lo, hi]` does not parse as the narrow type and so
/// fails.
pub open spec fn spec_text_step_bounded_i64(
    x: i64,
    lo: i64,
    hi: i64,
    st: EditState,
    t: String,
) -> (i64, EditState) {
    if t@ == spec_dec_i64(x as int) {
        (x, EditState { text: t, failed: st.failed })
    } else {
        match spec_parse_int(t@) {
            Some(v) => if lo <= v <= hi {
                (v as i64, EditState { text: t, failed: false })
            } else {
                (x, EditState { text: t, failed: true })
            },
            None => (x, EditState { text: t, failed: true }),
        }
    }
}

/// One free-text editor pass over a signed integer field narrower than
/// `i64`, carried widened; its type admits exactly `[lo, hi]`.
pub fn numeric_text_step_bounded_i64(x: &mut i64, lo: i64, hi: i64, st: &mut EditState, t: String)
    requires
        lo <= hi,
    ensures
        *final(x) == spec_text_step_bounded_i64(*old(x), lo, hi, *old(st), t).0,
        *final(st) == spec_text_step_bounded_i64(*old(x), lo, hi, *old(st), t).1,
        lo <= *old(x) <= hi ==> lo <= *final(x) <= hi,
{
    let canon = i64_to_string(*x);
    if t == canon {
        st.text = t;
    } else {
        match parse_i64(t.as_str()) {
            Some(v) => {
                if lo <= v && v <= hi {
                    *x = v;
                    st.failed = false;
                    st.text = t;
                } else {
                    st.failed = true;
                    st.text = t;
                }
            },
            None => {
                st.failed = true;
                st.text = t;
            },
        }
    }
}

/// What a free-text pass does to an unsigned value narrower than `u64`,
/// whose type admits exactly `[0, hi]`.
pub open spec fn spec_text_step_bounded_u64(x: u64, hi: u64, st: EditState, t: String) -> (
    u64,
    EditState,
) {
    if t@ == spec_dec_u64(x as nat) {
        (x, EditState { text: t, failed: st.failed })
    } else {
        match spec_parse_uint(t@) {
            Some(v) => if v <= hi as int {
                (v as u64, EditState { text: t, failed: false })
            } else {
                (x, EditState { text: t, failed: true })
            },
            None => (x, EditState { text: t, failed: true }),
        }
    }
}

/// One free-text editor pass over an unsigned integer field narrower than
/// `u64`, carried widened; its type admits exactly `[0, hi]`.
pub fn numeric_text_step_bounded_u64(x: &mut u64, hi: u64, st: &mut EditState, t: String)
    ensures
        *final(x) == spec_text_step_bounded_u64(*old(x), hi, *old(st), t).0,
        *final(st) == spec_text_step_bounded_u64(*old(x), hi, *old(st), t).1,
        *old(x) <= hi ==> *final(x) <= hi,
{
    let canon = u64_to_string(*x);
    if t == canon {
        st.text = t;
    } else {
        match parse_u64(t.as_str()) {
            Some(v) => {
                if v <= hi {
                    *x = v;
                    st.failed = false;
                    st.text = t;
                } else {
                    st.failed = true;
                    st.text = t;
                }
            },
            None => {
                st.failed = true;
                st.text = t;
            },
        }
    }
}

/// One slider pass over a signed integer field.
pub fn slider_step_i64(x: &mut i64, a: i32, b: i32, input: i64)
    ensures
        *final(x) == spec_slider_i64(*old(x), a, b, input),
{
    if a <= b {
        let lo: i64 = a as i64;
        let hi: i64 = b as i64;
        if input < lo {
            *x = lo;
        } else if input > hi {
            *x = hi;
        } else {
            *x = input;
        }
    }
}

/// One slider pass over an unsigned integer field.
pub fn slider_step_u64(x: &mut u64, a: i32, b: i32, input: i64)
    ensures
        *final(x) == spec_slider_u64(*old(x), a, b, input),
{
    let lo: u64 = if a >= 0 {
        a as u64
    } else {
        u64::MAX - ((-(a + 1)) as u64)
    };
    let hi: u64 = if b >= 0 {
        b as u64
    } else {
        u64::MAX - ((-(b + 1)) as u64)
    };
    proof {
        assert(lo as int == wrap_u64(a as int));
        assert(hi as int == wrap_u64(b as int));
    }
    if lo <= hi {
        if input < 0 {
            *x = lo;
        } else {
            let inp: u64 = input as u64;
            if inp < lo {
                *x = lo;
            } else if inp > hi {
                *x = hi;
            } else {
                *x = inp;
            }
        }
    }
}

/// One checkbox pass with a click: flips the value and returns the state
/// the box shows, which equals the underlying value.
pub fn toggle_step(x: &mut bool) -> (shown: bool)
    ensures
        *final(x) == !*old(x),
        shown == *final(x),
{
    *x = !*x;
    *x
}

/// Applies one interaction to a field value, recursing into nested
/// records, exactly as `edit_rel` relates old to new.
pub fn edit_at(value: &mut FieldValue, opts: &FieldOptions, state: &mut EditState, ev: EditEvent)
    ensures
        edit_rel(*old(value), *opts, *old(state), ev, *final(value), *final(state)),
    decreases ev,
{
    match ev {
        EditEvent::InField(i, e) => {
            match value {
                FieldValue::Record(fields) => {
                    if i < fields.len() {
                        let ghost fs1 = fields@;
                        let mut f = fields.remove(i);
                        edit_at(&mut f.value, &f.opts, state, *e);
                        fields.insert(i, f);
                        proof {
                            assert(forall|j: int|
                                0 <= j < fs1.len() && j != i as int ==> fields@[j] == fs1[j]);
                        }
                    }
                },
                _ => {},
            }
        },
        EditEvent::SetText(t) => {
            match value {
                FieldValue::SInt(x) => {
                    if opts.range.is_none() {
                        numeric_text_step_i64(x, state, t);
                    }
                },
                FieldValue::UInt(x) => {
                    if opts.range.is_none() {
                        numeric_text_step_u64(x, state, t);
                    }
                },
                FieldValue::Text(s) => {
                    *s = t;
                },
                _ => {},
            }
        },
        EditEvent::SetSlider(d) => {
            match value {
                FieldValue::SInt(x) => {
                    match opts.range {
                        Some((a, b)) => slider_step_i64(x, a, b, d),
                        None => {},
                    }
                },
                FieldValue::UInt(x) => {
                    match opts.range {
                        Some((a, b)) => slider_step_u64(x, a, b, d),
                        None => {},
                    }
                },
                _ => {},
            }
        },
        EditEvent::Toggle => {
            match value {
                FieldValue::Boolean(x) => {
                    *x = !*x;
                },
                _ => {},
            }
        },
    }
}

/// The fresh edit state of a signed field: its canonical text, no failure.
pub fn fresh_edit_state_i64(x: i64) -> (st: EditState)
    ensures
        st.text@ == spec_dec_i64(x as int),
        !st.failed,
{
    EditState { text: i64_to_string(x), failed: false }
}

/// The fresh edit state of an unsigned field: its canonical text, no
/// failure.
pub fn fresh_edit_state_u64(x: u64) -> (st: EditState)
    ensures
        st.text@ == spec_dec_u64(x as nat),
        !st.failed,
{
    EditState { text: u64_to_string(x), failed: false }
}

/// Law: entering text other than the value's canonical numeral either
/// commits the parsed in-range value and clears the failure flag, or, for
/// text that is no in-range numeral, keeps the value and sets the flag.
/// The typed text is kept either way.
pub proof fn lemma_text_commit_or_fail_i64(x: i64, st: EditState, t: String)
    requires
        t@ != spec_dec_i64(x as int),
    ensures
        ({
            let r = spec_text_step_i64(x, st, t);
            &&& r.1.text == t
            &&& match spec_parse_int(t@) {
                Some(v) => if i64::MIN <= v <= i64::MAX {
                    r.0 == v as i64 && !r.1.failed
                } else {
                    r.0 == x && r.1.failed
                },
                None => r.0 == x && r.1.failed,
            }
        }),
{
}

/// Law: entering text other than the unsigned value's canonical numeral
/// either commits the parsed in-range value and clears the failure flag,
/// or, for text that is no in-range numeral, keeps the value and sets the
/// flag.  The typed text is kept either way.
pub proof fn lemma_text_commit_or_fail_u64(x: u64, st: EditState, t: String)
    requires
        t@ != spec_dec_u64(x as nat),
    ensures
        ({
            let r = spec_text_step_u64(x, st, t);
            &&& r.1.text == t
            &&& match spec_parse_uint(t@) {
                Some(v) => if v <= u64::MAX as int {
                    r.0 == v as u64 && !r.1.failed
                } else {
                    r.0 == x && r.1.failed
                },
                None => r.0 == x && r.1.failed,
            }
        }),
{
}

/// Law: with bounds in order, a slider pass leaves the signed value inside
/// the bounds, whatever the target was.
pub proof fn lemma_slider_stays_in_range_i64(x: i64, a: i32, b: i32, input: i64)
    requires
        a <= b,
    ensures
        a as int <= spec_slider_i64(x, a, b, input) as int <= b as int,
{
}

/// Law: with non-negative bounds in order, a slider pass leaves the
/// unsigned value inside them, whatever the target was.
pub proof fn lemma_slider_stays_in_range_u64(x: u64, a: i32, b: i32, input: i64)
    requires
        0 <= a <= b,
    ensures
        a as int <= spec_slider_u64(x, a, b, input) as int <= b as int,
{
}

/// Law: an edit addressed to one field of a nested record reaches exactly
/// that field: every sibling keeps its value, and the addressed field
/// keeps its name and options, only its value being edited in turn.
pub proof fn lemma_nested_edit_is_local(
    v1: FieldValue,
    opts: FieldOptions,
    st1: EditState,
    i: usize,
    e: Box<EditEvent>,
    v2: FieldValue,
    st2: EditState,
)
    requires
        v1 is Record,
        (i as int) < v1->Record_0@.len(),
        edit_rel(v1, opts, st1, EditEvent::InField(i, e), v2, st2),
    ensures
        v2 is Record,
        v2->Record_0@.len() == v1->Record_0@.len(),
        forall|j: int|
            0 <= j < v1->Record_0@.len() && j != i as int ==> v2->Record_0@[j] == v1->Record_0@[j],
        v2->Record_0@[i as int].name == v1->Record_0@[i as int].name,
        v2->Record_0@[i as int].opts == v1->Record_0@[i as int].opts,
        edit_rel(
            v1->Record_0@[i as int].value,
            v1->Record_0@[i as int].opts,
            st1,
            *e,
            v2->Record_0@[i as int].value,
            st2,
        ),
{
}

} // verus!
