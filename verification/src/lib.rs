//! Reflection-driven form editing: field enumeration with per-field
//! annotations (skip, numeric range) and per-category editor dispatch
//! with transient text-edit state for numeric fields.

use vstd::prelude::*;

pub mod attr;
pub mod editor;
pub mod fields;
pub mod numeric;
pub mod store;

verus! {

/// Per-field options attached to a field descriptor.  An inclusive numeric
/// range `(min, max)` selects a bounded slider for numeric fields; `None`
/// selects free-text entry.  Ranges are meaningless for non-numeric fields
/// and are ignored there.
pub struct FieldOptions {
    pub range: Option<(i32, i32)>,
}

impl Default for FieldOptions {
    /// The default options carry no range.
    fn default() -> (r: FieldOptions)
        ensures
            r.range is None,
    {
        FieldOptions { range: None }
    }
}

/// A field's value, by semantic category.  The category picks the editor:
/// checkbox, text line, slider or free-text numeral, or a collapsible
/// nested section.  Narrower integer fields are carried in the widest
/// type of their signedness.
pub enum FieldValue {
    /// A signed integer.
    SInt(i64),
    /// An unsigned integer.
    UInt(u64),
    /// A boolean.
    Boolean(bool),
    /// A line of text.
    Text(String),
    /// A nested structured record: its fields in declaration order.
    Record(Vec<ReflectField>),
}

/// A field descriptor: the display name, the per-field options, and the
/// field's value.
pub struct ReflectField {
    /// The display name, derived from the field identifier.
    pub name: String,
    /// The field's options.
    pub opts: FieldOptions,
    /// The field's value.
    pub value: FieldValue,
}

} // verus!
