use signal_native_channel::bridge::inbound::{can_forward, content_to_bridge_message};
use signal_native_channel::bridge::outbound::{
    handle_outbound_event, resolve_recipient, OutboundAction,
};
use signal_native_channel::bridge::protocol::{BridgeInbound, BridgeOutbound};
use signal_native_channel::content::{
    ContentBody, DataMessage, GroupContext, Quote, Reaction, SignalContent,
};
use signal_native_channel::identity::ServiceId;
use signal_native_channel::recipient::RecipientTarget;

const UUID: &str = "550e8400-e29b-41d4-a716-446655440000";

fn alice() -> ServiceId {
    ServiceId::parse(UUID).unwrap()
}

fn plain(text: &str) -> DataMessage {
    DataMessage { body: Some(text.to_string()), group_v2: None, reaction: None, quote: None }
}

fn from_alice(message: DataMessage) -> SignalContent {
    SignalContent {
        sender: alice(),
        timestamp: 1_700_000_000_123,
        body: ContentBody::DataMessage(message),
    }
}

fn everybody() -> Vec<String> {
    vec!["*".to_string()]
}

fn forward(message: DataMessage) -> Option<(BridgeInbound, String)> {
    let content = from_alice(message);
    assert!(can_forward(&content, &everybody(), &None));
    content_to_bridge_message(&content, &everybody(), &None, "signal")
}

fn forwarded(message: DataMessage) -> String {
    match forward(message) {
        Some((BridgeInbound::Message { content, .. }, _)) => content,
        other => panic!("not passed on: {other:?}"),
    }
}

fn reply(quote: Quote) -> DataMessage {
    DataMessage { quote: Some(quote), ..plain("yes") }
}

fn message_to(recipient: &str, content: &str) -> BridgeOutbound {
    BridgeOutbound::Message {
        id: "1".to_string(),
        recipient: recipient.to_string(),
        content: content.to_string(),
        subject: None,
        thread_ts: None,
    }
}

fn draft(event: &str, text: Option<&str>) -> BridgeOutbound {
    BridgeOutbound::Draft {
        recipient: "whoever".to_string(),
        message_id: "1".to_string(),
        event: event.to_string(),
        text: text.map(|t| t.to_string()),
    }
}

fn typing(recipient: &str, active: bool) -> BridgeOutbound {
    BridgeOutbound::Typing { recipient: recipient.to_string(), active }
}

#[test]
fn plain_messages_are_forwarded_as_they_are() {
    assert_eq!(
        forward(plain("hello")),
        Some((
            BridgeInbound::Message {
                id: "signative_1700000000123_550e8400".to_string(),
                sender_id: "signal".to_string(),
                content: "hello".to_string(),
            },
            UUID.to_string()
        ))
    );
}

#[test]
fn group_messages_are_forwarded_with_the_group_as_address() {
    let group = GroupContext { master_key: Some(vec![0xcd; 32]) };
    let (_, address) = forward(DataMessage { group_v2: Some(group), ..plain("x") }).unwrap();
    assert_eq!(address, format!("group:{}", "cd".repeat(32)));
}

#[test]
fn reactions_are_put_in_words() {
    let reaction = |emoji: Option<&str>, remove: Option<bool>, target: Option<u64>| DataMessage {
        body: None,
        reaction: Some(Reaction {
            emoji: emoji.map(|e| e.to_string()),
            remove,
            target_sent_timestamp: target,
        }),
        ..plain("")
    };
    assert_eq!(
        forwarded(reaction(Some("👍"), Some(false), Some(42))),
        "[reacted 👍 on message signative_42]"
    );
    assert_eq!(
        forwarded(reaction(Some("👍"), Some(true), Some(42))),
        "[removed 👍 on message signative_42]"
    );
    assert_eq!(forwarded(reaction(None, None, None)), "[reacted ? on message signative_0]");
}

#[test]
fn reactions_come_before_text_and_quote() {
    let message = DataMessage {
        reaction: Some(Reaction { emoji: Some("x".to_string()), remove: None, target_sent_timestamp: Some(1) }),
        ..reply(Quote { id: Some(1), text: Some("y".to_string()) })
    };
    assert_eq!(forwarded(message), "[reacted x on message signative_1]");
}

#[test]
fn replies_carry_the_start_of_what_they_quote() {
    assert_eq!(
        forwarded(reply(Quote { id: Some(9), text: Some("what?".to_string()) })),
        "[replying to signative_9: \"what?\"]\n\nyes"
    );
    assert_eq!(
        forwarded(reply(Quote { id: None, text: None })),
        "[replying to signative_0: \"\"]\n\nyes"
    );
    assert_eq!(
        forwarded(reply(Quote { id: Some(9), text: Some("a".repeat(100)) })),
        format!("[replying to signative_9: \"{}\"]\n\nyes", "a".repeat(100))
    );
    assert_eq!(
        forwarded(reply(Quote { id: Some(9), text: Some("a".repeat(101)) })),
        format!("[replying to signative_9: \"{}...\"]\n\nyes", "a".repeat(100))
    );
    assert_eq!(
        forwarded(reply(Quote { id: Some(9), text: Some("é".repeat(51)) })),
        format!("[replying to signative_9: \"{}...\"]\n\nyes", "é".repeat(50))
    );
}

#[test]
fn quotes_that_would_be_cut_inside_a_character_are_told() {
    let awkward = format!("{}é", "a".repeat(99));
    let content = from_alice(reply(Quote { id: Some(9), text: Some(awkward.clone()) }));
    assert!(!can_forward(&content, &everybody(), &None));
    assert!(can_forward(&content, &vec![], &None));
    let silent = DataMessage { body: None, ..reply(Quote { id: None, text: Some(awkward) }) };
    assert!(can_forward(&from_alice(silent), &everybody(), &None));
}

#[test]
fn nothing_is_forwarded_without_text() {
    assert_eq!(forward(plain("")), None);
    assert_eq!(forward(DataMessage { body: None, ..plain("") }), None);
}

#[test]
fn filters_hold_for_the_bridge_too() {
    let content = from_alice(plain("hi"));
    let stranger = vec!["somebody".to_string()];
    let dm = Some("dm".to_string());
    let group = Some("01".repeat(32));
    assert!(content_to_bridge_message(&content, &stranger, &None, "signal").is_none());
    assert!(content_to_bridge_message(&content, &vec![UUID.to_string()], &dm, "signal").is_some());
    assert!(content_to_bridge_message(&content, &everybody(), &group, "signal").is_none());
    let own = SignalContent { body: ContentBody::SynchronizeMessage, ..content };
    assert!(content_to_bridge_message(&own, &everybody(), &None, "signal").is_none());
}

#[test]
fn recipients_on_signal_are_kept() {
    let last = Some("group:00".to_string());
    assert_eq!(resolve_recipient(UUID, &last), Ok(UUID.to_string()));
    assert_eq!(resolve_recipient(UUID, &None), Ok(UUID.to_string()));
}

#[test]
fn other_recipients_stand_for_the_last_sender() {
    assert_eq!(resolve_recipient("signal", &Some(UUID.to_string())), Ok(UUID.to_string()));
    assert_eq!(
        resolve_recipient("signal", &None),
        Err("cannot route reply to 'signal': no Signal sender known yet".to_string())
    );
}

#[test]
fn messages_of_the_bridge_are_sent() {
    let last = Some(UUID.to_string());
    assert_eq!(
        handle_outbound_event(message_to("signal", "hi"), &last),
        Ok(OutboundAction::Send {
            target: RecipientTarget::Direct(alice()),
            text: "hi".to_string()
        })
    );
    let group = format!("group:{}", "07".repeat(32));
    assert_eq!(
        handle_outbound_event(message_to(&group, "hi"), &last),
        Ok(OutboundAction::Send {
            target: RecipientTarget::Group(vec![7; 32]),
            text: "hi".to_string()
        })
    );
}

#[test]
fn messages_of_the_bridge_that_reach_nobody() {
    assert_eq!(
        handle_outbound_event(message_to("signal", "hi"), &None),
        Err("cannot route reply to 'signal': no Signal sender known yet".to_string())
    );
    assert_eq!(
        handle_outbound_event(message_to("signal", "hi"), &Some("group:00".to_string())),
        Err("group master key must be 32 bytes, got 1".to_string())
    );
}

#[test]
fn typing_of_the_bridge_is_shown_to_accounts() {
    let last = Some(UUID.to_string());
    assert_eq!(
        handle_outbound_event(typing("signal", true), &last),
        Ok(OutboundAction::Typing { to: alice() })
    );
    assert_eq!(handle_outbound_event(typing("signal", false), &last), Ok(OutboundAction::Nothing));
    assert_eq!(handle_outbound_event(typing("signal", true), &None), Ok(OutboundAction::Nothing));
    let group = Some(format!("group:{}", "07".repeat(32)));
    assert_eq!(handle_outbound_event(typing("signal", true), &group), Ok(OutboundAction::Nothing));
}

#[test]
fn finished_drafts_are_sent_to_the_last_sender() {
    let last = Some(UUID.to_string());
    assert_eq!(
        handle_outbound_event(draft("finalize", Some("done")), &last),
        Ok(OutboundAction::Send {
            target: RecipientTarget::Direct(alice()),
            text: "done".to_string()
        })
    );
    assert_eq!(
        handle_outbound_event(draft("finalize", Some("done")), &None),
        Err("cannot route reply to 'signal': no Signal sender known yet".to_string())
    );
}

#[test]
fn unfinished_drafts_need_nothing() {
    let last = Some(UUID.to_string());
    assert_eq!(
        handle_outbound_event(draft("update", Some("half")), &last),
        Ok(OutboundAction::Nothing)
    );
    assert_eq!(handle_outbound_event(draft("finalize", None), &None), Ok(OutboundAction::Nothing));
}

#[test]
fn other_events_need_nothing() {
    let events = vec![
        BridgeOutbound::Ready { sender_id: "a".to_string(), endpoint: "b".to_string() },
        BridgeOutbound::Error { code: "a".to_string(), message: "b".to_string() },
        BridgeOutbound::Reaction {
            action: "add".to_string(),
            channel_id: "c".to_string(),
            message_id: "m".to_string(),
            emoji: "x".to_string(),
        },
        BridgeOutbound::Ack { id: "1".to_string() },
        BridgeOutbound::Pong { nonce: None },
    ];
    for event in events {
        assert_eq!(handle_outbound_event(event, &None), Ok(OutboundAction::Nothing));
    }
}
