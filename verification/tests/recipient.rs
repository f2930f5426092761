use signal_native_channel::channel::SignalNativeChannel;
use signal_native_channel::error::SignalNativeError;
use signal_native_channel::identity::ServiceId;
use signal_native_channel::recipient::{parse_recipient, recipient_is_readable, RecipientTarget};

const ACI: [u8; 16] = [
    0x55, 0x0e, 0x84, 0x00, 0xe2, 0x9b, 0x41, 0xd4, 0xa7, 0x16, 0x44, 0x66, 0x55, 0x44, 0x00, 0x00,
];

fn account() -> ServiceId {
    ServiceId { aci: ACI }
}

#[test]
fn uuid_text_of_an_account() {
    assert_eq!(account().uuid_text(), "550e8400-e29b-41d4-a716-446655440000");
}

#[test]
fn accounts_are_read_in_every_form() {
    for text in [
        "550e8400-e29b-41d4-a716-446655440000",
        "550E8400-E29B-41D4-A716-446655440000",
        "550e8400e29b41d4a716446655440000",
        "{550e8400-e29b-41d4-a716-446655440000}",
        "urn:uuid:550e8400-e29b-41d4-a716-446655440000",
        "URN:UUID:550e8400-e29b-41d4-a716-446655440000",
    ] {
        assert_eq!(ServiceId::parse(text), Some(account()));
        assert_eq!(parse_recipient(text), Ok(RecipientTarget::Direct(account())));
    }
}

#[test]
fn other_texts_are_no_accounts() {
    for text in [
        "",
        "signal",
        "550e8400-e29b-41d4-a716-44665544000",
        "550e8400-e29b-41d4-a716-44665544000g",
        "550e8400ee29b-41d4-a716-4466554400000",
        "(550e8400-e29b-41d4-a716-446655440000)",
        "550e8400e29b41d4a71644665544éé",
        "urn:guid:550e8400-e29b-41d4-a716-446655440000",
    ] {
        assert_eq!(ServiceId::parse(text), None);
        assert_eq!(
            parse_recipient(text),
            Err("recipient must be a UUID or group:<hex_master_key>".to_string())
        );
    }
}

#[test]
fn uuid_text_round_trip() {
    assert_eq!(ServiceId::parse(&account().uuid_text()), Some(account()));
}

#[test]
fn groups_are_read_by_master_key() {
    let key = vec![0xabu8; 32];
    assert_eq!(
        parse_recipient(&format!("group:{}", "ab".repeat(32))),
        Ok(RecipientTarget::Group(key))
    );
}

#[test]
fn group_keys_must_be_hexadecimal() {
    assert_eq!(
        parse_recipient("group:abc"),
        Err("bad group key hex: odd-length hex string".to_string())
    );
    assert_eq!(
        parse_recipient("group:xy"),
        Err("bad group key hex: invalid digit found in string".to_string())
    );
}

#[test]
fn group_keys_must_have_the_right_length() {
    assert_eq!(
        parse_recipient("group:abcd"),
        Err("group master key must be 32 bytes, got 2".to_string())
    );
    assert_eq!(
        parse_recipient(&format!("group:{}", "ab".repeat(33))),
        Err("group master key must be 32 bytes, got 33".to_string())
    );
}

#[test]
fn phone_numbers_are_no_recipients() {
    assert_eq!(
        parse_recipient("+12624003837"),
        Err("recipient must be a UUID or group:<hex_master_key>".to_string())
    );
}

#[test]
fn unreadable_group_keys_are_told() {
    assert!(!recipient_is_readable("group:aéb"));
    assert!(recipient_is_readable("group:éé"));
    assert!(recipient_is_readable("aéb"));
}

#[test]
fn channel_errors_carry_the_reason() {
    assert_eq!(
        SignalNativeChannel::parse_recipient("nobody"),
        Err(SignalNativeError::InvalidRecipient(
            "recipient must be a UUID or group:<hex_master_key>".to_string()
        ))
    );
    assert_eq!(
        SignalNativeChannel::parse_recipient("550e8400-e29b-41d4-a716-446655440000"),
        Ok(RecipientTarget::Direct(account()))
    );
}

#[test]
fn error_messages() {
    assert_eq!(
        SignalNativeError::NotLinked.message(),
        "not linked: run device linking first"
    );
    assert_eq!(SignalNativeError::Presage("x".into()).message(), "presage error: x");
    assert_eq!(SignalNativeError::Store("x".into()).message(), "store error: x");
    assert_eq!(SignalNativeError::Send("x".into()).message(), "send failed: x");
    assert_eq!(
        SignalNativeError::InvalidRecipient("x".into()).message(),
        "invalid recipient: x"
    );
}
