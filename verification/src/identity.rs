//! Account identifiers and their UUID text.

use crate::hex::{digit_value, encoded, hex_digit};
use vstd::prelude::*;
use vstd::string::*;

verus! {

/// A Signal account identifier (ACI): the sixteen bytes of a UUID.
#[derive(Debug, Clone, Copy, PartialEq, Eq)]
pub struct ServiceId {
    pub aci: [u8; 16],
}

/// A UUID in its usual form: lower-case digits in groups of 8, 4, 4, 4 and 12,
/// with hyphens between them.
pub open spec fn hyphenated(bytes: Seq<u8>) -> Seq<char> {
    let digits = encoded(bytes);
    digits.subrange(0, 8) + seq!['-'] + digits.subrange(8, 12) + seq!['-'] + digits.subrange(12, 16)
        + seq!['-'] + digits.subrange(16, 20) + seq!['-'] + digits.subrange(20, 32)
}

/// The value of a hexadecimal digit character, of either case.
pub open spec fn char_digit_value(c: char) -> Option<int> {
    if c as u32 <= 127 {
        digit_value(c as u8)
    } else {
        None
    }
}

/// The sixteen bytes that 32 hexadecimal digits stand for.
pub open spec fn uuid_of_digits(digits: Seq<char>) -> Option<Seq<u8>> {
    if digits.len() == 32 && forall|i: int|
        0 <= i < 32 ==> (#[trigger] char_digit_value(digits[i])) is Some {
        Some(
            Seq::new(
                16,
                |i: int|
                    (16 * char_digit_value(digits[2 * i])->0 + char_digit_value(
                        digits[2 * i + 1],
                    )->0) as u8,
            ),
        )
    } else {
        None
    }
}

/// The bytes that a hyphenated UUID stands for, with digits of either case.
pub open spec fn uuid_of_hyphenated(t: Seq<char>) -> Option<Seq<u8>> {
    if t.len() == 36 && t[8] == '-' && t[13] == '-' && t[18] == '-' && t[23] == '-' {
        uuid_of_digits(
            t.subrange(0, 8) + t.subrange(9, 13) + t.subrange(14, 18) + t.subrange(19, 23)
                + t.subrange(24, 36),
        )
    } else {
        None
    }
}

/// A character with an ASCII capital letter made small.
pub open spec fn ascii_lower(c: char) -> char {
    if 'A' <= c <= 'Z' {
        (c as u32 + 32) as u8 as char
    } else {
        c
    }
}

/// The bytes of the UUID that a text is, in any of the forms that are read:
/// 32 digits, hyphenated, hyphenated in braces, or hyphenated after
/// `urn:uuid:` (in letters of either case).
pub open spec fn uuid_of(t: Seq<char>) -> Option<Seq<u8>> {
    if t.len() == 32 {
        uuid_of_digits(t)
    } else if t.len() == 36 {
        uuid_of_hyphenated(t)
    } else if t.len() == 38 && t[0] == '{' && t[37] == '}' {
        uuid_of_hyphenated(t.subrange(1, 37))
    } else if t.len() == 45 && t.take(9).map_values(|c: char| ascii_lower(c)) == "urn:uuid:"@ {
        uuid_of_hyphenated(t.skip(9))
    } else {
        None
    }
}

/// `uuid::Uuid::parse_str` reads a UUID in its simple, hyphenated, braced and
/// URN forms and refuses every other text; the contract says which texts those
/// are and which bytes come out.
#[verifier::external_body]
fn parse_uuid(text: &str) -> (r: Option<[u8; 16]>)
    ensures
        match r {
            Some(bytes) => uuid_of(text@) == Some(bytes@),
            None => uuid_of(text@) is None,
        },
{
    match uuid::Uuid::parse_str(text) {
        Ok(id) => Some(id.into_bytes()),
        Err(_) => None,
    }
}

/// `uuid::Uuid::to_string` (its `Display`) writes a UUID in lower case with
/// hyphens; the contract says which character stands where.
#[verifier::external_body]
fn format_uuid(bytes: &[u8; 16]) -> (s: String)
    ensures
        s@ == hyphenated(bytes@),
{
    uuid::Uuid::from_bytes(*bytes).to_string()
}

impl ServiceId {
    /// The identifier that a UUID text names.
    pub fn parse(text: &str) -> (r: Option<ServiceId>)
        ensures
            match r {
                Some(id) => uuid_of(text@) == Some(id.aci@),
                None => uuid_of(text@) is None,
            },
    {
        match parse_uuid(text) {
            Some(aci) => Some(ServiceId { aci }),
            None => None,
        }
    }

    /// The identifier's UUID text.
    pub fn uuid_text(&self) -> (s: String)
        ensures
            s@ == hyphenated(self.aci@),
    {
        format_uuid(&self.aci)
    }
}

/// Reading an identifier's UUID text gives the identifier back.
pub proof fn law_parse_undoes_uuid_text(bytes: Seq<u8>)
    requires
        bytes.len() == 16,
    ensures
        uuid_of(hyphenated(bytes)) == Some(bytes),
{
    let t = hyphenated(bytes);
    let digits = encoded(bytes);
    assert(t.len() == 36);
    assert(t[8] == '-' && t[13] == '-' && t[18] == '-' && t[23] == '-');
    assert(t.subrange(0, 8) + t.subrange(9, 13) + t.subrange(14, 18) + t.subrange(19, 23)
        + t.subrange(24, 36) =~= digits);
    assert forall|i: int| 0 <= i < 32 implies (#[trigger] char_digit_value(digits[i])) == Some(
        if i % 2 == 0 {
            bytes[i / 2] as int / 16
        } else {
            bytes[i / 2] as int % 16
        },
    ) by {
        let n = if i % 2 == 0 {
            bytes[i / 2] as int / 16
        } else {
            bytes[i / 2] as int % 16
        };
        assert(digits[i] == hex_digit(n));
    }
    let back = uuid_of_digits(digits)->0;
    assert forall|i: int| 0 <= i < 16 implies back[i] == bytes[i] by {
        assert(char_digit_value(digits[2 * i]) == Some(bytes[i] as int / 16));
        assert(char_digit_value(digits[2 * i + 1]) == Some(bytes[i] as int % 16));
    }
    assert(back =~= bytes);
}

/// A UUID text is 36 characters long, all of them lower-case digits or
/// hyphens.
pub proof fn law_uuid_text_is_ascii(bytes: Seq<u8>)
    requires
        bytes.len() == 16,
    ensures
        hyphenated(bytes).len() == 36,
        forall|i: int|
            0 <= i < 36 ==> {
                let c = #[trigger] hyphenated(bytes)[i];
                '0' <= c <= '9' || 'a' <= c <= 'f' || c == '-'
            },
{
    let digits = encoded(bytes);
    assert forall|i: int| 0 <= i < 32 implies '0' <= #[trigger] digits[i] <= '9' || 'a' <= digits[i]
        <= 'f' by {
        let n = if i % 2 == 0 {
            bytes[i / 2] as int / 16
        } else {
            bytes[i / 2] as int % 16
        };
        assert(digits[i] == hex_digit(n));
    }
}

/// A UUID text is the 32 hexadecimal digits of its bytes with hyphens behind
/// the 8th, 12th, 16th and 20th of them.
pub proof fn law_uuid_text_groups_the_digits(bytes: Seq<u8>)
    requires
        bytes.len() == 16,
    ensures
        forall|i: int|
            0 <= i < 36 ==> #[trigger] hyphenated(bytes)[i] == if i < 8 {
                encoded(bytes)[i]
            } else if i == 8 || i == 13 || i == 18 || i == 23 {
                '-'
            } else if i < 13 {
                encoded(bytes)[i - 1]
            } else if i < 18 {
                encoded(bytes)[i - 2]
            } else if i < 23 {
                encoded(bytes)[i - 3]
            } else {
                encoded(bytes)[i - 4]
            },
{
}

/// Different accounts have different UUID texts.
pub proof fn law_uuid_texts_differ(a: Seq<u8>, b: Seq<u8>)
    requires
        a.len() == 16,
        b.len() == 16,
        hyphenated(a) == hyphenated(b),
    ensures
        a == b,
{
    law_parse_undoes_uuid_text(a);
    law_parse_undoes_uuid_text(b);
}

/// The number that the digits of a place in a UUID stand for.
spec fn nibble(bytes: Seq<u8>, i: int) -> int {
    if i % 2 == 0 {
        bytes[i / 2] as int / 16
    } else {
        bytes[i / 2] as int % 16
    }
}

proof fn lemma_digit_is_read(c: char, n: int)
    requires
        0 <= n < 16,
        c == "0123456789abcdef"@[n] || c == "0123456789ABCDEF"@[n],
    ensures
        char_digit_value(c) == Some(n),
{
    reveal_strlit("0123456789abcdef");
    reveal_strlit("0123456789ABCDEF");
}

proof fn lemma_digits_are_read(bytes: Seq<u8>, digits: Seq<char>)
    requires
        bytes.len() == 16,
        digits.len() == 32,
        forall|i: int|
            0 <= i < 32 ==> #[trigger] digits[i] == "0123456789abcdef"@[nibble(bytes, i)]
                || digits[i] == "0123456789ABCDEF"@[nibble(bytes, i)],
    ensures
        uuid_of_digits(digits) == Some(bytes),
{
    assert forall|i: int| 0 <= i < 32 implies (#[trigger] char_digit_value(digits[i])) == Some(
        nibble(bytes, i),
    ) by {
        lemma_digit_is_read(digits[i], nibble(bytes, i));
    }
    let back = uuid_of_digits(digits)->0;
    assert forall|i: int| 0 <= i < 16 implies back[i] == bytes[i] by {
        assert(char_digit_value(digits[2 * i]) == Some(nibble(bytes, 2 * i)));
        assert(char_digit_value(digits[2 * i + 1]) == Some(nibble(bytes, 2 * i + 1)));
    }
    assert(back =~= bytes);
}

spec fn with_hyphens(digits: Seq<char>) -> Seq<char> {
    digits.take(8).push('-') + digits.subrange(8, 12).push('-') + digits.subrange(12, 16).push('-')
        + digits.subrange(16, 20).push('-') + digits.skip(20)
}

proof fn lemma_forms_are_read(digits: Seq<char>)
    requires
        digits.len() == 32,
    ensures
        uuid_of(digits) == uuid_of_digits(digits),
        uuid_of(with_hyphens(digits)) == uuid_of_digits(digits),
        uuid_of(seq!['{'] + with_hyphens(digits).push('}')) == uuid_of_digits(digits),
        uuid_of("urn:uuid:"@ + with_hyphens(digits)) == uuid_of_digits(digits),
{
    let t = with_hyphens(digits);
    assert(t.len() == 36);
    assert(t.subrange(0, 8) + t.subrange(9, 13) + t.subrange(14, 18) + t.subrange(19, 23)
        + t.subrange(24, 36) =~= digits);
    assert(t[8] == '-' && t[13] == '-' && t[18] == '-' && t[23] == '-');
    let braced = seq!['{'] + t.push('}');
    assert(braced.subrange(1, 37) =~= t);
    assert(braced.len() == 38 && braced[0] == '{' && braced[37] == '}');
    reveal_strlit("urn:uuid:");
    let urn = "urn:uuid:"@ + t;
    assert(urn.take(9).map_values(|c: char| ascii_lower(c)) =~= "urn:uuid:"@);
    assert(urn.skip(9) =~= t);
}

/// The 32 digits of an account, in letters of either case, are read in every
/// form: bare, with hyphens, with hyphens in braces, and with hyphens behind
/// `urn:uuid:`.
pub proof fn law_every_form_is_read(bytes: Seq<u8>, digits: Seq<char>)
    requires
        bytes.len() == 16,
        digits.len() == 32,
        forall|i: int|
            0 <= i < 32 ==> {
                let n = if i % 2 == 0 {
                    bytes[i / 2] as int / 16
                } else {
                    bytes[i / 2] as int % 16
                };
                #[trigger] digits[i] == "0123456789abcdef"@[n] || digits[i]
                    == "0123456789ABCDEF"@[n]
            },
    ensures
        ({
            let text = digits.take(8).push('-') + digits.subrange(8, 12).push('-')
                + digits.subrange(12, 16).push('-') + digits.subrange(16, 20).push('-')
                + digits.skip(20);
            &&& uuid_of(digits) == Some(bytes)
            &&& uuid_of(text) == Some(bytes)
            &&& uuid_of(seq!['{'] + text.push('}')) == Some(bytes)
            &&& uuid_of("urn:uuid:"@ + text) == Some(bytes)
        }),
{
    lemma_digits_are_read(bytes, digits);
    lemma_forms_are_read(digits);
}

/// Only texts of the lengths that the forms have name an account, and an
/// account has sixteen bytes.
pub proof fn law_other_lengths_name_nobody(t: Seq<char>)
    ensures
        uuid_of(t) matches Some(bytes) ==> bytes.len() == 16,
        uuid_of(t) is Some ==> t.len() == 32 || t.len() == 36 || t.len() == 38 || t.len() == 45,
{
}

} // verus!
