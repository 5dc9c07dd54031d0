//! Which strings are Rust identifiers, as `proc_macro2::Ident::new` decides:
//! a first character that is `_` or has the Unicode property `XID_Start`,
//! and further characters with `XID_Continue`.

use vstd::prelude::*;

verus! {

/// `c` has the Unicode property `XID_Start` (as `unicode_ident` tabulates it).
pub uninterp spec fn xid_start(c: char) -> bool;

/// `c` has the Unicode property `XID_Continue` (as `unicode_ident` tabulates it).
pub uninterp spec fn xid_continue(c: char) -> bool;

/// `c` is an ASCII letter.
pub open spec fn is_ascii_letter(c: char) -> bool {
    let u = c as u32;
    65 <= u <= 90 || 97 <= u <= 122
}

/// `c` is an ASCII digit.
pub open spec fn is_ascii_digit(c: char) -> bool {
    48 <= (c as u32) <= 57
}

/// Calls `unicode_ident::is_xid_start`. Claimed: the answer is
/// `xid_start(c)`, and on ASCII it holds exactly for the letters (the
/// crate's ASCII table `ASCII_START`).
#[verifier::external_body]
fn xid_start_of(c: char) -> (b: bool)
    ensures
        b == xid_start(c),
        (c as u32) < 128 ==> (b <==> is_ascii_letter(c)),
{
    unicode_ident::is_xid_start(c)
}

/// Calls `unicode_ident::is_xid_continue`. Claimed: the answer is
/// `xid_continue(c)`, and on ASCII it holds exactly for the letters, the
/// digits and `_` (the crate's ASCII table `ASCII_CONTINUE`).
#[verifier::external_body]
fn xid_continue_of(c: char) -> (b: bool)
    ensures
        b == xid_continue(c),
        (c as u32) < 128 ==> (b <==> (is_ascii_letter(c) || is_ascii_digit(c) || c == '_')),
{
    unicode_ident::is_xid_continue(c)
}

/// An identifier in the ASCII range: a letter or `_` first, then letters,
/// digits and `_`.
pub open spec fn ascii_ident(s: Seq<char>) -> bool {
    &&& s.len() > 0
    &&& (is_ascii_letter(s[0]) || s[0] == '_')
    &&& forall|i: int|
        1 <= i < s.len() ==> is_ascii_letter(#[trigger] s[i]) || is_ascii_digit(s[i]) || s[i]
            == '_'
}

/// An identifier by the Unicode rule: non-empty, its first character `_`
/// or `XID_Start`, every further character `XID_Continue`.
pub open spec fn xid_ident(s: Seq<char>) -> bool {
    &&& s.len() > 0
    &&& (s[0] == '_' || xid_start(s[0]))
    &&& forall|i: int| 1 <= i < s.len() ==> #[trigger] xid_continue(s[i])
}

/// A string that `proc_macro2::Ident::new` accepts as an identifier (it
/// panics on any other): the Unicode rule `xid_ident`, which on ASCII text
/// is the ASCII rule `ascii_ident`.
pub open spec fn legal_ident(s: Seq<char>) -> bool {
    if crate::text::is_ascii_text(s) {
        ascii_ident(s)
    } else {
        xid_ident(s)
    }
}

/// Decides `legal_ident`.
pub fn is_legal_ident(s: &str) -> (b: bool)
    ensures
        b == legal_ident(s@),
        b == xid_ident(s@),
{
    let v = crate::text::chars_of(s);
    if v.len() == 0 {
        return false;
    }
    if !(v[0] == '_' || xid_start_of(v[0])) {
        proof {
            if crate::text::is_ascii_text(s@) {
                assert((s@[0] as u32) < 128);
            }
        }
        return false;
    }
    proof {
        if crate::text::is_ascii_text(s@) {
            assert((s@[0] as u32) < 128);
        }
    }
    let mut i: usize = 1;
    while i < v.len()
        invariant
            v@ == s@,
            1 <= i <= v@.len(),
            s@[0] == '_' || xid_start(s@[0]),
            crate::text::is_ascii_text(s@) ==> (is_ascii_letter(s@[0]) || s@[0] == '_'),
            forall|j: int| 1 <= j < i ==> #[trigger] xid_continue(s@[j]),
            forall|j: int|
                1 <= j < i ==> ((#[trigger] s@[j] as u32) < 128 ==> (is_ascii_letter(s@[j])
                    || is_ascii_digit(s@[j]) || s@[j] == '_')),
        decreases v@.len() - i,
    {
        if !xid_continue_of(v[i]) {
            proof {
                if crate::text::is_ascii_text(s@) {
                    assert((s@[i as int] as u32) < 128);
                }
            }
            return false;
        }
        i = i + 1;
    }
    proof {
        if crate::text::is_ascii_text(s@) {
            assert forall|j: int| 1 <= j < s@.len() implies is_ascii_letter(#[trigger] s@[j])
                || is_ascii_digit(s@[j]) || s@[j] == '_' by {
                assert((s@[j] as u32) < 128);
            }
        }
    }
    true
}

} // verus!
