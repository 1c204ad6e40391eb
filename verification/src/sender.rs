//! The computational pieces of outbound delivery: the display form of an
//! address and the file name taken from an attachment path. The transport
//! itself is an I/O concern outside the library.

use crate::text::{prefix_before, spec_prefix_before, spec_suffix_after_last, suffix_after_last};
use vstd::prelude::*;
use vstd::string::StringExecFns;

verus! {

/// The `name <address>` display form of an address: the part before the first
/// `@`, a space, then the address in angle brackets.
pub fn format_email(email: &str) -> (r: String)
    ensures
        r@ == spec_prefix_before(email@, '@') + " <"@ + email@ + ">"@,
{
    let mut s = prefix_before(email, '@');
    s.append(" <");
    s.append(email);
    s.append(">");
    s
}

/// The file name of an attachment path: the segment after the last `/`.
pub fn attachment_filename(filepath: &str) -> (r: String)
    ensures
        r@ == spec_suffix_after_last(filepath@, '/'),
{
    suffix_after_last(filepath, '/')
}

} // verus!
