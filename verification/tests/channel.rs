use signal_native_channel::backoff::{Backoff, FIRST_DELAY, MAX_DELAY};
use signal_native_channel::channel::{
    ListenAction, ListenEvent, SendMessage, SignalNativeChannel, TextMessage, TypingNotice,
};
use signal_native_channel::content::{
    sender_is_allowed, ContentBody, DataMessage, GroupContext, Quote, Reaction, SignalContent,
};
use signal_native_channel::error::SignalNativeError;
use signal_native_channel::identity::ServiceId;
use signal_native_channel::path::FilePath;
use signal_native_channel::recipient::RecipientTarget;

const UUID: &str = "550e8400-e29b-41d4-a716-446655440000";

fn alice() -> ServiceId {
    ServiceId::parse(UUID).unwrap()
}

fn plain(text: &str) -> DataMessage {
    DataMessage { body: Some(text.to_string()), group_v2: None, reaction: None, quote: None }
}

fn in_group(text: &str, key: Vec<u8>) -> DataMessage {
    DataMessage { group_v2: Some(GroupContext { master_key: Some(key) }), ..plain(text) }
}

fn from_alice(message: DataMessage) -> SignalContent {
    SignalContent {
        sender: alice(),
        timestamp: 1_700_000_000_123,
        body: ContentBody::DataMessage(message),
    }
}

fn channel(allowed: &[&str], filter: Option<&str>) -> SignalNativeChannel {
    SignalNativeChannel::new(
        FilePath::from_text("/var/lib/signal.db"),
        allowed.iter().map(|s| s.to_string()).collect(),
        filter.map(|s| s.to_string()),
    )
}

fn linked(allowed: &[&str], filter: Option<&str>) -> SignalNativeChannel {
    let mut channel = channel(allowed, filter);
    assert_eq!(channel.ensure_manager(Ok(())), Ok(()));
    channel
}

fn letter(recipient: &str, content: &str) -> SendMessage {
    SendMessage {
        content: content.to_string(),
        recipient: recipient.to_string(),
        subject: None,
        thread_ts: None,
        attachments: vec![],
    }
}

#[test]
fn channel_name() {
    assert_eq!(channel(&["*"], None).name(), "signal-native");
}

#[test]
fn direct_message_is_passed_on() {
    let message = channel(&["*"], None).process_content(&from_alice(plain("hello"))).unwrap();
    assert_eq!(message.id, "signative_1700000000123_550e8400");
    assert_eq!(message.sender, UUID);
    assert_eq!(message.reply_target, UUID);
    assert_eq!(message.content, "hello");
    assert_eq!(message.channel, "signal-native");
    assert_eq!(message.timestamp, 1_700_000_000);
    assert_eq!(message.thread_ts, None);
    assert_eq!(message.interruption_scope_id, None);
    assert!(message.attachments.is_empty());
}

#[test]
fn group_message_is_answered_in_the_group() {
    let content = from_alice(in_group("hello", vec![0x0a; 32]));
    let message = channel(&["*"], None).process_content(&content).unwrap();
    assert_eq!(message.sender, UUID);
    assert_eq!(message.reply_target, format!("group:{}", "0a".repeat(32)));
}

#[test]
fn group_without_master_key_counts_as_direct() {
    let message = DataMessage { group_v2: Some(GroupContext { master_key: None }), ..plain("x") };
    let passed = channel(&["*"], Some("dm")).process_content(&from_alice(message)).unwrap();
    assert_eq!(passed.reply_target, UUID);
}

#[test]
fn messages_without_text_are_not_passed_on() {
    let channel = channel(&["*"], None);
    assert_eq!(channel.process_content(&from_alice(plain(""))), None);
    let silent = DataMessage { body: None, ..plain("") };
    assert_eq!(channel.process_content(&from_alice(silent)), None);
}

#[test]
fn reactions_with_text_go_by_their_text_in_the_channel() {
    let reaction = Reaction { emoji: None, remove: None, target_sent_timestamp: None };
    let quote = Quote { id: Some(1), text: Some("before".to_string()) };
    let message = DataMessage { reaction: Some(reaction), quote: Some(quote), ..plain("text") };
    let passed = channel(&["*"], None).process_content(&from_alice(message)).unwrap();
    assert_eq!(passed.content, "text");
}

#[test]
fn own_messages_and_notices_are_skipped() {
    let channel = channel(&["*"], None);
    for body in [ContentBody::SynchronizeMessage, ContentBody::Other] {
        let content = SignalContent { sender: alice(), timestamp: 1, body };
        assert_eq!(channel.process_content(&content), None);
    }
}

#[test]
fn only_allowed_senders_are_heard() {
    assert!(channel(&["*"], None).is_sender_allowed("anybody"));
    assert!(channel(&["x", "*"], None).is_sender_allowed(UUID));
    assert!(channel(&["x", UUID], None).is_sender_allowed(UUID));
    assert!(!channel(&["x"], None).is_sender_allowed(UUID));
    assert!(!channel(&["+12624003837"], None).is_sender_allowed(UUID));
    assert!(!channel(&[], None).is_sender_allowed(UUID));
    assert!(!sender_is_allowed(&vec!["**".to_string()], UUID));
    assert_eq!(channel(&["x"], None).process_content(&from_alice(plain("hi"))), None);
}

#[test]
fn direct_filter_in_either_case() {
    let direct = from_alice(plain("hi"));
    let grouped = from_alice(in_group("hi", vec![1; 32]));
    for filter in ["dm", "DM", "Dm", "dM"] {
        assert!(channel(&["*"], Some(filter)).process_content(&direct).is_some());
        assert!(channel(&["*"], Some(filter)).process_content(&grouped).is_none());
    }
}

#[test]
fn group_filter_lets_one_group_through() {
    let key = "01".repeat(32);
    let wanted = from_alice(in_group("hi", vec![1; 32]));
    let other = from_alice(in_group("hi", vec![2; 32]));
    let direct = from_alice(plain("hi"));
    let channel = channel(&["*"], Some(&key));
    assert!(channel.process_content(&wanted).is_some());
    assert!(channel.process_content(&other).is_none());
    assert!(channel.process_content(&direct).is_none());
}

#[test]
fn group_filter_is_compared_in_lower_case() {
    let grouped = from_alice(in_group("hi", vec![0xab; 32]));
    assert!(channel(&["*"], Some(&"AB".repeat(32))).process_content(&grouped).is_none());
    assert!(channel(&["*"], Some(&"ab".repeat(32))).process_content(&grouped).is_some());
}

#[test]
fn device_that_was_not_linked() {
    let mut channel = channel(&["*"], None);
    assert!(channel.needs_manager());
    assert_eq!(
        channel.ensure_manager(Err("gone".to_string())),
        Err("signal-native: no linked device found at /var/lib/signal.db. \
             Run the `link` binary first to link this device. Original error: gone"
            .to_string())
    );
    assert!(channel.needs_manager());
    assert_eq!(channel.ensure_manager(Ok(())), Ok(()));
    assert!(!channel.needs_manager());
    assert_eq!(channel.ensure_manager(Err("gone".to_string())), Ok(()));
    assert!(!channel.needs_manager());
}

#[test]
fn path_that_is_no_text_is_shown_with_replacements() {
    let db_path = FilePath { bytes: vec![b'/', 0xff, b'x'] };
    let mut channel = SignalNativeChannel::new(db_path, vec![], None);
    let why = channel.ensure_manager(Err("e".to_string())).unwrap_err();
    assert!(why.starts_with("signal-native: no linked device found at /\u{fffd}x. Run"));
}

#[test]
fn messages_to_send() {
    let channel = linked(&["*"], None);
    assert_eq!(
        channel.send(&letter(UUID, "hi"), 7),
        Ok(TextMessage {
            target: RecipientTarget::Direct(alice()),
            body: "hi".to_string(),
            timestamp: 7
        })
    );
    assert_eq!(
        channel.send(&letter(&format!("group:{}", "ff".repeat(32)), "hi"), 8),
        Ok(TextMessage {
            target: RecipientTarget::Group(vec![0xff; 32]),
            body: "hi".to_string(),
            timestamp: 8
        })
    );
}

#[test]
fn messages_that_cannot_be_sent() {
    assert_eq!(
        channel(&["*"], None).send(&letter(UUID, "hi"), 7),
        Err(SignalNativeError::NotLinked)
    );
    assert_eq!(
        linked(&["*"], None).send(&letter("group:00", "hi"), 7),
        Err(SignalNativeError::InvalidRecipient(
            "group master key must be 32 bytes, got 1".to_string()
        ))
    );
}

#[test]
fn typing_is_shown_to_accounts_only() {
    let channel = linked(&["*"], None);
    assert_eq!(
        channel.start_typing(UUID, 9),
        Ok(Some(TypingNotice { to: alice(), timestamp: 9 }))
    );
    assert_eq!(channel.start_typing(&format!("group:{}", "ff".repeat(32)), 9), Ok(None));
    assert_eq!(channel.start_typing("nobody", 9), Ok(None));
}

#[test]
fn typing_needs_a_linked_device() {
    assert_eq!(
        channel(&["*"], None).start_typing(UUID, 9),
        Err(SignalNativeError::NotLinked)
    );
}

#[test]
fn health_needs_device_and_servers() {
    assert!(linked(&[], None).health_check(true));
    assert!(!linked(&[], None).health_check(false));
    assert!(!channel(&[], None).health_check(true));
}

#[test]
fn listening_opens_reads_and_delivers() {
    let channel = linked(&["*"], None);
    let mut retry = Backoff::new();
    assert_eq!(channel.listen(&mut retry, ListenEvent::Due), ListenAction::Open);
    assert_eq!(channel.listen(&mut retry, ListenEvent::Opened), ListenAction::Read);
    assert_eq!(channel.listen(&mut retry, ListenEvent::QueueEmpty), ListenAction::Read);
    assert_eq!(channel.listen(&mut retry, ListenEvent::Contacts), ListenAction::Read);
    let content = from_alice(plain("hi"));
    let expected = channel.process_content(&content).unwrap();
    assert_eq!(
        channel.listen(&mut retry, ListenEvent::Content(content)),
        ListenAction::Deliver(expected)
    );
    assert_eq!(
        channel.listen(&mut retry, ListenEvent::Content(from_alice(plain("")))),
        ListenAction::Read
    );
    assert_eq!(channel.listen(&mut retry, ListenEvent::Taken), ListenAction::Read);
    assert_eq!(channel.listen(&mut retry, ListenEvent::Ended), ListenAction::Wait(2));
    assert_eq!(channel.listen(&mut retry, ListenEvent::ReceiverDropped), ListenAction::Stop);
}

#[test]
fn listening_waits_longer_after_each_failure() {
    let channel = linked(&["*"], None);
    let mut retry = Backoff::new();
    for seconds in [2, 4, 8, 16, 32, 60, 60] {
        assert_eq!(
            channel.listen(&mut retry, ListenEvent::OpenFailed),
            ListenAction::Wait(seconds)
        );
    }
    assert_eq!(channel.listen(&mut retry, ListenEvent::Ended), ListenAction::Wait(2));
    assert_eq!(channel.listen(&mut retry, ListenEvent::OpenFailed), ListenAction::Wait(60));
    assert_eq!(channel.listen(&mut retry, ListenEvent::Opened), ListenAction::Read);
    assert_eq!(channel.listen(&mut retry, ListenEvent::OpenFailed), ListenAction::Wait(2));
}

#[test]
fn listening_needs_a_linked_device() {
    let mut retry = Backoff::new();
    assert_eq!(
        channel(&["*"], None).listen(&mut retry, ListenEvent::Due),
        ListenAction::Fail(SignalNativeError::NotLinked)
    );
}

#[test]
fn answers_go_back_to_the_origin() {
    let channel = linked(&["*"], None);
    for message in [plain("hi"), in_group("hi", vec![3; 32])] {
        let expected = match &message.group_v2 {
            Some(_) => RecipientTarget::Group(vec![3; 32]),
            None => RecipientTarget::Direct(alice()),
        };
        let passed = channel.process_content(&from_alice(message)).unwrap();
        let answer = channel.send(&letter(&passed.reply_target, "yes"), 1).unwrap();
        assert_eq!(answer.target, expected);
    }
}

#[test]
fn waits_between_tries() {
    let mut retry = Backoff::new();
    assert_eq!(retry.next_delay(), FIRST_DELAY);
    assert_eq!(retry.next_delay(), 4);
    retry.reset();
    for _ in 0..9 {
        let _ = retry.next_delay();
    }
    assert_eq!(retry.next_delay(), MAX_DELAY);
}
