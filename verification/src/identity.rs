//! Identities of kept outputs and of calls: universally unique identifiers as text.
use vstd::prelude::*;

use crate::context;
use crate::text;

verus! {

/// The value of a hexadecimal digit.
pub open spec fn hex_value(c: char) -> nat {
    if c <= '9' {
        (c as u32 - 48) as nat
    } else if c <= 'F' {
        (c as u32 - 55) as nat
    } else {
        (c as u32 - 87) as nat
    }
}

/// Whether a text is five groups of 8, 4, 4, 4 and 12 hexadecimal digits joined by hyphens.
pub open spec fn is_hyphenated(t: Seq<char>) -> bool {
    &&& t.len() == 36
    &&& forall|i: int|
        0 <= i < 36 ==> if i == 8 || i == 13 || i == 18 || i == 23 {
            (#[trigger] t[i]) == '-'
        } else {
            context::is_hex(t[i])
        }
}

/// A text with its ASCII capitals in lower case.
pub open spec fn lower_ascii(t: Seq<char>) -> Seq<char> {
    t.map_values(|c: char| if 'A' <= c <= 'Z' { (c as u32 + 32) as char } else { c })
}

/// The version number of the identifier that a text stands for: 32 digits, the hyphenated form,
/// or the hyphenated form in braces or after `urn:uuid:`.
pub open spec fn uuid_version(t: Seq<char>) -> Option<nat> {
    if t.len() == 32 && forall|i: int| 0 <= i < 32 ==> context::is_hex(#[trigger] t[i]) {
        Some(hex_value(t[12]))
    } else if is_hyphenated(t) {
        Some(hex_value(t[14]))
    } else if t.len() == 38 && t[0] == '{' && t[37] == '}' && is_hyphenated(t.subrange(1, 37)) {
        Some(hex_value(t[15]))
    } else if t.len() == 45 && lower_ascii(t.take(9)) == "urn:uuid:"@ && is_hyphenated(t.skip(9)) {
        Some(hex_value(t[23]))
    } else {
        None
    }
}

/// Whether a text stands for a version 4 identifier.
pub open spec fn is_v4(t: Seq<char>) -> bool {
    uuid_version(t) == Some(4nat)
}

/// Reads the version number of the identifier that a text stands for.
///
/// Calls `uuid::Uuid::parse_str` and `uuid::Uuid::get_version_num`. The contract claims which
/// texts are parsed, in the four forms that the parser knows, and that the version is the value
/// of the thirteenth digit.
#[verifier::external_body]
fn parse_version(t: &str) -> (version: Option<usize>)
    ensures
        (match version {
            Some(n) => Some(n as nat),
            None => None,
        }) == uuid_version(t@),
{
    match uuid::Uuid::parse_str(t) {
        Ok(id) => Some(id.get_version_num()),
        Err(_) => None,
    }
}

/// A fresh identifier.
///
/// Calls `uuid::Uuid::new_v4` and its `to_string`. The contract claims the form of the text:
/// hyphenated, in lower case, with version 4 and the standard variant. The digits themselves are
/// random, so nothing says that two identifiers differ.
#[verifier::external_body]
pub(crate) fn new_identifier() -> (id: String)
    ensures
        is_hyphenated(id@),
        lower_ascii(id@) == id@,
        id@[14] == '4',
        id@[19] == '8' || id@[19] == '9' || id@[19] == 'a' || id@[19] == 'b',
{
    uuid::Uuid::new_v4().to_string()
}

/// Whether a text stands for a version 4 identifier.
pub fn check_v4(t: &str) -> (yes: bool)
    ensures
        yes == is_v4(t@),
{
    match parse_version(t) {
        Some(version) => version == 4,
        None => false,
    }
}

/// A fresh identifier is recognised as one.
pub proof fn lemma_fresh_is_v4(t: Seq<char>)
    requires
        is_hyphenated(t),
        t[14] == '4',
    ensures
        is_v4(t),
        text::byte_len(t) == 36,
{
    assert(text::all_ascii(t)) by {
        assert forall|i: int| 0 <= i < t.len() implies (#[trigger] t[i]) as u32 <= 0x7f by {
            if i == 8 || i == 13 || i == 18 || i == 23 {
            } else {
                assert(context::is_hex(t[i]));
            }
        }
    }
    text::lemma_ascii_byte_len(t);
}

/// The version of an identity is its thirteenth digit, in whichever of its forms it is written: a text
/// of 36 characters is a version 4 identity exactly where it is hyphenated and that digit is a 4, and
/// so is the same text in braces or after `urn:uuid:`. A text of any other length but 32 is none.
pub proof fn law_the_version_is_the_thirteenth_digit(t: Seq<char>)
    ensures
        t.len() == 36 ==> (is_v4(t) <==> is_hyphenated(t) && t[14] == '4'),
        t.len() == 32 ==> (is_v4(t) <==> t[12] == '4' && forall|i: int|
            0 <= i < 32 ==> context::is_hex(#[trigger] t[i])),
        t.len() != 32 && t.len() != 36 && t.len() != 38 && t.len() != 45 ==> !is_v4(t),
        is_hyphenated(t) && t[14] == '4' ==> is_v4(seq!['{'] + t + seq!['}']) && is_v4("urn:uuid:"@ + t),
{
    if t.len() == 36 && is_hyphenated(t) {
        assert(context::is_hex(t[14]));
    }
    if t.len() == 32 && (forall|i: int| 0 <= i < 32 ==> context::is_hex(#[trigger] t[i])) {
        assert(context::is_hex(t[12]));
    }
    if is_hyphenated(t) && t[14] == '4' {
        let braced = seq!['{'] + t + seq!['}'];
        assert(braced.subrange(1, 37) =~= t);
        assert(braced[15] == t[14]);
        reveal_strlit("urn:uuid:");
        let named = "urn:uuid:"@ + t;
        assert(named.skip(9) =~= t);
        assert(named.take(9) =~= "urn:uuid:"@);
        assert(lower_ascii("urn:uuid:"@) =~= "urn:uuid:"@);
        assert(named[23] == t[14]);
    }
}

} // verus!
