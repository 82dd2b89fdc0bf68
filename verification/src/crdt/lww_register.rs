//! Last-writer-wins register: a single string value.

use vstd::prelude::*;
use crate::types::{EntryValue, EntryValueView};

verus! {

/// A register holding `value`.
pub fn new(value: String) -> (r: EntryValue)
    ensures
        r@ == EntryValueView::Register(value@),
{
    EntryValue::Register(value)
}

/// The string of a register; `None` for any other kind of value.
pub fn read(value: &EntryValue) -> (r: Option<&str>)
    ensures
        match value@ {
            EntryValueView::Register(s) => r is Some && r->0@ == s,
            _ => r is None,
        },
{
    if let EntryValue::Register(v) = value {
        Some(v.as_str())
    } else {
        None
    }
}

/// Overwrite `value` with a register holding `new_value`, whatever it held.
pub fn write(value: &mut EntryValue, new_value: String)
    ensures
        final(value)@ == EntryValueView::Register(new_value@),
{
    *value = EntryValue::Register(new_value);
}

} // verus!
