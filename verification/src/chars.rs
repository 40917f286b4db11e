//! Character classification that is delegated to the standard library.
//!
//! Whether a character counts as whitespace or as alphanumeric is decided by
//! `char::is_whitespace` and `char::is_alphanumeric`.  Their exact behaviour
//! is a large table of Unicode properties, so each result is given a name
//! that the rest of the library's contracts speak of.

use vstd::prelude::*;

verus! {

/// What `char::is_whitespace` returns: whether `c` has the Unicode
/// `White_Space` property.  The result depends on `c` alone.
pub uninterp spec fn whitespace(c: char) -> bool;

/// What `char::is_alphanumeric` returns: whether `c` is in one of the Unicode
/// `Alphabetic`, `Nd`, `Nl` or `No` categories.  The result depends on `c`
/// alone.
pub uninterp spec fn alphanumeric(c: char) -> bool;

/// Relies on `char::is_whitespace`: true exactly for characters with the
/// Unicode `White_Space` property.
pub assume_specification[ char::is_whitespace ](c: char) -> (r: bool)
    ensures
        r == whitespace(c),
;

/// Relies on `char::is_alphanumeric`: true exactly for characters that are
/// Unicode alphabetic or numeric.
pub assume_specification[ char::is_alphanumeric ](c: char) -> (r: bool)
    ensures
        r == alphanumeric(c),
;

} // verus!
