//! Browser URL overrides applied to the settings registry before the saved file loads.
//!
//! A URL value is owned for the session under the setting's own name, and — unlike a native
//! environment override, whose value has already reached the knobs — announced as a change, so a
//! latched setting applies at boot just as loading the saved file would.
use vstd::prelude::*;
use crate::text::{chars_of, chars_eq};

verus! {

/// What an override consults of a registered setting.
pub struct CvarRow {
    /// The setting's canonical name.
    pub name: String,
    /// Its current value.
    pub value: String,
    /// Whether it only takes numbers.
    pub numeric: bool,
}

/// A setting's value changed.
pub struct CvarChanged {
    pub name: String,
    pub old: String,
    pub new: String,
}

/// An override that takes effect: own `name` for the session with `value`, and announce `changed`
/// when there is a change to announce.
pub struct OverrideApplied {
    pub name: String,
    pub value: String,
    pub changed: Option<CvarChanged>,
}

/// Apply the URL override `value` to the setting `row` (`None` when no setting has the requested
/// name). `value_is_number` says whether `value`, trimmed, reads as a number. An unknown setting, or
/// a numeric one given something that is not a number, is left alone — so an invalid URL value does
/// not block the saved setting.
pub fn apply_override(row: Option<&CvarRow>, value: &str, value_is_number: bool) -> (r: Option<
    OverrideApplied,
>)
    ensures
        r is Some <==> (row matches Some(rw) && (!rw.numeric || value_is_number)),
        r matches Some(a) ==> (row matches Some(rw) && a.name@ == rw.name@ && a.value@ == value@
            && (a.changed is Some <==> rw.value@ != value@) && (a.changed matches Some(c) ==> (c.name@
            == rw.name@ && c.old@ == rw.value@ && c.new@ == value@))),
{
    let row = match row {
        None => {
            return None;
        },
        Some(row) => row,
    };
    if row.numeric && !value_is_number {
        return None;
    }
    let same = chars_eq(chars_of(row.value.as_str()).as_slice(), chars_of(value).as_slice());
    let changed = if same {
        None
    } else {
        Some(CvarChanged { name: row.name.clone(), old: row.value.clone(), new: value.to_owned() })
    };
    Some(OverrideApplied { name: row.name.clone(), value: value.to_owned(), changed })
}

} // verus!
