//! Recipients: an account by its UUID, or a group by its master key.

use crate::hex::{
    decode, decodes_in_whole_characters, decoding, encoded, law_decode_undoes_encode,
    law_encode_is_injective, pairs_cut_no_character,
};
use crate::identity::{
    ascii_lower, char_digit_value, hyphenated, law_parse_undoes_uuid_text, law_uuid_text_is_ascii,
    uuid_of, ServiceId,
};
use crate::text::{decimal, has_prefix, push_decimal, strip_prefix};
use vstd::prelude::*;
use vstd::string::*;
use vstd::utf8::*;

verus! {

/// Whom a message goes to.
#[derive(Debug, Clone, PartialEq, Eq)]
pub enum RecipientTarget {
    /// One account.
    Direct(ServiceId),
    /// The group with this master key.
    Group(Vec<u8>),
}

/// A recipient as contracts speak of it.
pub enum TargetView {
    Direct(Seq<u8>),
    Group(Seq<u8>),
}

impl View for RecipientTarget {
    type V = TargetView;

    open spec fn view(&self) -> TargetView {
        match self {
            RecipientTarget::Direct(id) => TargetView::Direct(id.aci@),
            RecipientTarget::Group(key) => TargetView::Group(key@),
        }
    }
}

/// What a recipient text that names a group starts with.
pub open spec fn group_prefix() -> Seq<char> {
    "group:"@
}

/// The text that names the group with a master key.
pub open spec fn group_address(key: Seq<u8>) -> Seq<char> {
    group_prefix() + encoded(key)
}

/// Whom a recipient text names, or why it names nobody.
pub open spec fn recipient_of(recipient: Seq<char>) -> Result<TargetView, Seq<char>> {
    if has_prefix(recipient, group_prefix()) {
        match decoding(recipient.skip(group_prefix().len() as int)) {
            Err(why) => Err("bad group key hex: "@ + why),
            Ok(key) => if key.len() == 32 {
                Ok(TargetView::Group(key))
            } else {
                Err("group master key must be 32 bytes, got "@ + decimal(key.len()))
            },
        }
    } else {
        match uuid_of(recipient) {
            Some(aci) => Ok(TargetView::Direct(aci)),
            None => Err("recipient must be a UUID or group:<hex_master_key>"@),
        }
    }
}

/// Whether the group key in a recipient text, if there is one, can be read
/// without cutting a character in two.
pub open spec fn readable_recipient(recipient: Seq<char>) -> bool {
    has_prefix(recipient, group_prefix()) ==> pairs_cut_no_character(
        encode_utf8(recipient.skip(group_prefix().len() as int)),
    )
}

/// Whether `parse_recipient` can read a text.
pub fn recipient_is_readable(recipient: &str) -> (r: bool)
    ensures
        r == readable_recipient(recipient@),
{
    match strip_prefix(recipient, "group:") {
        Some(key) => decodes_in_whole_characters(key.as_str()),
        None => true,
    }
}

/// Reads a recipient: a UUID, or `group:` and a master key in hexadecimal.
///
/// On an error the text says what is wrong with the recipient.
pub fn parse_recipient(recipient: &str) -> (r: Result<RecipientTarget, String>)
    requires
        readable_recipient(recipient@),
    ensures
        match r {
            Ok(target) => recipient_of(recipient@) == Ok::<TargetView, Seq<char>>(target@),
            Err(why) => recipient_of(recipient@) == Err::<TargetView, Seq<char>>(why@),
        },
{
    match strip_prefix(recipient, "group:") {
        Some(key_text) => match decode(key_text.as_str()) {
            Err(why) => Err("bad group key hex: ".to_owned().concat(why.as_str())),
            Ok(key) => if key.len() != 32 {
                let mut why = "group master key must be 32 bytes, got ".to_owned();
                push_decimal(&mut why, key.len() as u64);
                Err(why)
            } else {
                Ok(RecipientTarget::Group(key))
            },
        },
        None => match ServiceId::parse(recipient) {
            Some(id) => Ok(RecipientTarget::Direct(id)),
            None => Err("recipient must be a UUID or group:<hex_master_key>".to_owned()),
        },
    }
}

/// An account's UUID text names the account.
pub proof fn law_uuid_text_names_account(aci: Seq<u8>)
    requires
        aci.len() == 16,
    ensures
        readable_recipient(hyphenated(aci)),
        recipient_of(hyphenated(aci)) == Ok::<TargetView, Seq<char>>(TargetView::Direct(aci)),
{
    law_parse_undoes_uuid_text(aci);
    law_uuid_text_is_ascii(aci);
    reveal_strlit("group:");
    if has_prefix(hyphenated(aci), group_prefix()) {
        assert(hyphenated(aci).take(6)[0] == 'g');
        assert(hyphenated(aci)[0] == 'g');
    }
}

/// A group's address can be read, and names the group when the master key has
/// the length that master keys have.
pub proof fn law_group_address_names_group(key: Seq<u8>)
    ensures
        readable_recipient(group_address(key)),
        key.len() == 32 ==> recipient_of(group_address(key)) == Ok::<TargetView, Seq<char>>(
            TargetView::Group(key),
        ),
{
    law_decode_undoes_encode(key);
    let address = group_address(key);
    assert(address.take(group_prefix().len() as int) =~= group_prefix());
    assert(address.skip(group_prefix().len() as int) =~= encoded(key));
}

/// A group is reached only by a master key of 32 bytes, an account only by a
/// UUID of sixteen.
pub proof fn law_target_sizes(recipient: Seq<char>)
    ensures
        match recipient_of(recipient) {
            Ok(TargetView::Direct(aci)) => aci.len() == 16,
            Ok(TargetView::Group(key)) => key.len() == 32,
            Err(_) => true,
        },
{
}

/// A phone number, which starts with a plus sign, is no recipient.
pub proof fn law_phone_number_is_no_recipient(recipient: Seq<char>)
    requires
        recipient.len() > 0,
        recipient[0] == '+',
    ensures
        recipient_of(recipient) == Err::<TargetView, Seq<char>>(
            "recipient must be a UUID or group:<hex_master_key>"@,
        ),
{
    reveal_strlit("group:");
    reveal_strlit("urn:uuid:");
    if has_prefix(recipient, group_prefix()) {
        assert(recipient.take(6)[0] == 'g');
    }
    if recipient.len() == 32 {
        assert(char_digit_value(recipient[0]) is None);
    } else if recipient.len() == 36 {
        let digits = recipient.subrange(0, 8) + recipient.subrange(9, 13) + recipient.subrange(14, 18)
            + recipient.subrange(19, 23) + recipient.subrange(24, 36);
        assert(digits[0] == '+');
        assert(char_digit_value(digits[0]) is None);
    } else if recipient.len() == 45 {
        let lowered = recipient.take(9).map_values(|c: char| ascii_lower(c));
        assert(lowered[0] == '+');
        assert("urn:uuid:"@[0] == 'u');
    }
}

proof fn lemma_uuid_is_no_group(recipient: Seq<char>)
    requires
        uuid_of(recipient) is Some,
    ensures
        !has_prefix(recipient, group_prefix()),
{
    reveal_strlit("group:");
    reveal_strlit("urn:uuid:");
    if has_prefix(recipient, group_prefix()) {
        assert(recipient.take(6)[0] == 'g');
        assert(recipient[0] == 'g');
        if recipient.len() == 32 {
            assert(char_digit_value(recipient[0]) is None);
        } else if recipient.len() == 36 {
            let digits = recipient.subrange(0, 8) + recipient.subrange(9, 13)
                + recipient.subrange(14, 18) + recipient.subrange(19, 23) + recipient.subrange(
                24,
                36,
            );
            assert(digits[0] == 'g');
            assert(char_digit_value(digits[0]) is None);
        } else if recipient.len() == 45 {
            let lowered = recipient.take(9).map_values(|c: char| ascii_lower(c));
            assert(lowered[0] == 'g');
            assert("urn:uuid:"@[0] == 'u');
        }
    }
}

/// A UUID, in any form in which it can be read, names its account.
pub proof fn law_uuid_names_its_account(recipient: Seq<char>, aci: Seq<u8>)
    requires
        uuid_of(recipient) == Some(aci),
    ensures
        readable_recipient(recipient),
        recipient_of(recipient) == Ok::<TargetView, Seq<char>>(TargetView::Direct(aci)),
{
    lemma_uuid_is_no_group(recipient);
}

/// `group:` and a text in hexadecimal name the group with that master key, if
/// it has 32 bytes; else the error says what is wrong with the key.
pub proof fn law_group_and_key(key_text: Seq<char>)
    ensures
        recipient_of("group:"@ + key_text) == match decoding(key_text) {
            Ok(key) => if key.len() == 32 {
                Ok::<TargetView, Seq<char>>(TargetView::Group(key))
            } else {
                Err("group master key must be 32 bytes, got "@ + decimal(key.len()))
            },
            Err(why) => Err("bad group key hex: "@ + why),
        },
        readable_recipient("group:"@ + key_text) <==> pairs_cut_no_character(encode_utf8(key_text)),
{
    let whole = "group:"@ + key_text;
    assert(whole.take("group:"@.len() as int) =~= "group:"@);
    assert(whole.skip("group:"@.len() as int) =~= key_text);
}

/// A text that is no UUID and does not start with `group:` names nobody.
pub proof fn law_other_texts_name_nobody(recipient: Seq<char>)
    requires
        uuid_of(recipient) is None,
        forall|rest: Seq<char>| recipient != #[trigger] ("group:"@ + rest),
    ensures
        readable_recipient(recipient),
        recipient_of(recipient) == Err::<TargetView, Seq<char>>(
            "recipient must be a UUID or group:<hex_master_key>"@,
        ),
{
    if has_prefix(recipient, group_prefix()) {
        let rest = recipient.skip(group_prefix().len() as int);
        assert(recipient =~= "group:"@ + rest);
    }
}

/// A recipient is seen by all the bytes of its account or of its master key.
pub proof fn law_recipient_is_seen_whole(target: RecipientTarget)
    ensures
        match target {
            RecipientTarget::Direct(id) => target@ == TargetView::Direct(id.aci@),
            RecipientTarget::Group(key) => target@ == TargetView::Group(key@),
        },
{
}

/// Different groups have different addresses, and no group has that of an
/// account.
pub proof fn law_addresses_differ(a: Seq<u8>, b: Seq<u8>, aci: Seq<u8>)
    requires
        aci.len() == 16,
    ensures
        group_address(a) == group_address(b) ==> a == b,
        group_address(a) == "group:"@ + encoded(a),
        group_address(a) != hyphenated(aci),
{
    if group_address(a) == group_address(b) {
        let n = group_prefix().len() as int;
        assert(group_address(a).skip(n) =~= encoded(a));
        assert(group_address(b).skip(n) =~= encoded(b));
        law_encode_is_injective(a, b);
    }
    reveal_strlit("group:");
    law_uuid_text_is_ascii(aci);
    assert(group_address(a)[0] == 'g');
    if group_address(a) == hyphenated(aci) {
        assert(hyphenated(aci)[0] == 'g');
    }
}

} // verus!
