//! Writing a value that may be absent: an absent one takes up a blank field
//! as wide as the field of one that is present.

use vstd::prelude::*;
use crate::duration::Duration;
use crate::format::pad_blank;
use crate::text::{blank, clock, padded, Alignment};

verus! {

/// A value that can be written into a field of a given width.
pub trait FieldDisplay {
    /// What is written: the text of the value in a field of at least `width`
    /// characters.
    spec fn field(&self, width: nat, precision: nat, align: Alignment) -> Seq<char>;

    /// Writes the value.
    fn fmt_field(&self, width: usize, precision: usize, align: Alignment) -> (out: String)
        ensures
            out@ == self.field(width as nat, precision as nat, align),
    ;
}

impl FieldDisplay for Duration {
    open spec fn field(&self, width: nat, precision: nat, align: Alignment) -> Seq<char> {
        padded(clock(self@, precision), width, align)
    }

    fn fmt_field(&self, width: usize, precision: usize, align: Alignment) -> (out: String) {
        self.fmt(width, precision, align)
    }
}

/// Something that holds a value or none.
pub trait OptionDisplay<T: FieldDisplay> {
    /// The value held, if there is one.
    spec fn held(&self) -> Option<T>;

    /// The value held, if there is one.
    fn option(&self) -> (o: &Option<T>)
        ensures
            *o == self.held(),
    ;
}

impl<T: FieldDisplay> OptionDisplay<T> for Option<T> {
    open spec fn held(&self) -> Option<T> {
        *self
    }

    fn option(&self) -> (o: &Option<T>) {
        self
    }
}

/// Writes the value that `value` holds, or a blank field if it holds none.
pub fn fmt_option<T: FieldDisplay, O: OptionDisplay<T>>(
    value: &O,
    width: usize,
    precision: usize,
    align: Alignment,
) -> (out: String)
    ensures
        out@ == match value.held() {
            Some(held) => held.field(width as nat, precision as nat, align),
            None => blank(width as nat),
        },
{
    match value.option() {
        None => pad_blank(width),
        Some(held) => held.fmt_field(width, precision, align),
    }
}

} // verus!
