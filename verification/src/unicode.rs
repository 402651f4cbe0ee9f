//! Character classes that the token grammar refers to.
//!
//! XID_Start and XID_Continue are Unicode properties given by large tables:
//! for characters outside ASCII the library names the property and asks the
//! owner of the tables for its value; for ASCII it states the answer. The
//! White_Space property is a short list of code points, stated here.

use vstd::prelude::*;

verus! {

/// Whether the non-ASCII character `c` has the Unicode property XID_Start.
pub uninterp spec fn xid_start(c: char) -> bool;

/// Whether the non-ASCII character `c` has the Unicode property XID_Continue.
pub uninterp spec fn xid_continue(c: char) -> bool;

/// An ASCII letter.
pub open spec fn ascii_letter(c: char) -> bool {
    ('A' <= c && c <= 'Z') || ('a' <= c && c <= 'z')
}

/// An ASCII digit.
pub open spec fn ascii_digit(c: char) -> bool {
    '0' <= c && c <= '9'
}

/// Whether `c` has the Unicode property XID_Start: among ASCII characters,
/// exactly the letters.
pub open spec fn id_start(c: char) -> bool {
    if (c as u32) < 128 {
        ascii_letter(c)
    } else {
        xid_start(c)
    }
}

/// Whether `c` has the Unicode property XID_Continue: among ASCII
/// characters, exactly the letters, the digits and `_`.
pub open spec fn id_continue(c: char) -> bool {
    if (c as u32) < 128 {
        ascii_letter(c) || ascii_digit(c) || c == '_'
    } else {
        xid_continue(c)
    }
}

/// Whether `c` has the Unicode property White_Space.
pub open spec fn white_space(c: char) -> bool {
    let u = c as u32;
    ||| 0x09 <= u && u <= 0x0d
    ||| u == 0x20
    ||| u == 0x85
    ||| u == 0xa0
    ||| u == 0x1680
    ||| 0x2000 <= u && u <= 0x200a
    ||| u == 0x2028
    ||| u == 0x2029
    ||| u == 0x202f
    ||| u == 0x205f
    ||| u == 0x3000
}

/// Calls `unicode_ident::is_xid_start`, which answers whether `c` has the
/// property XID_Start: from a bit set of the ASCII letters for ASCII
/// characters, and from its tables otherwise; the contract states the
/// ASCII answers and ties the others to the name [`xid_start`].
#[verifier::external_body]
pub(crate) fn is_xid_start(c: char) -> (r: bool)
    ensures
        r == id_start(c),
        (c as u32) >= 128 ==> r == xid_start(c),
{
    unicode_ident::is_xid_start(c)
}

/// Calls `unicode_ident::is_xid_continue`, which answers whether `c` has the
/// property XID_Continue: from a bit set of the ASCII letters, digits and
/// `_` for ASCII characters, and from its tables otherwise; the contract
/// states the ASCII answers and ties the others to the name [`xid_continue`].
#[verifier::external_body]
pub(crate) fn is_xid_continue(c: char) -> (r: bool)
    ensures
        r == id_continue(c),
        (c as u32) >= 128 ==> r == xid_continue(c),
{
    unicode_ident::is_xid_continue(c)
}

/// Whether `c` has the Unicode property White_Space.
pub fn is_white_space(c: char) -> (r: bool)
    ensures
        r == white_space(c),
{
    let u = c as u32;
    (0x09 <= u && u <= 0x0d) || u == 0x20 || u == 0x85 || u == 0xa0 || u == 0x1680 || (0x2000 <= u
        && u <= 0x200a) || u == 0x2028 || u == 0x2029 || u == 0x202f || u == 0x205f || u == 0x3000
}

} // verus!
