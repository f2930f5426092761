use signal_native_channel::backoff::Backoff;
use signal_native_channel::bridge::echo::{EchoLog, CAPACITY};
use signal_native_channel::bridge::outbound::OutboundAction;
use signal_native_channel::bridge::protocol::{BridgeInbound, BridgeOutbound};
use signal_native_channel::bridge::session::{
    auth_request, check_auth, frame_step, AuthReply, BridgeSession, FrameKind, FrameStep,
    SessionAction, SessionEvent,
};
use signal_native_channel::bridge::{run, BridgeAdapterConfig};
use signal_native_channel::content::{
    ContentBody, DataMessage, GroupContext, Quote, SignalContent,
};
use signal_native_channel::identity::ServiceId;
use signal_native_channel::path::FilePath;
use signal_native_channel::recipient::RecipientTarget;

const UUID: &str = "550e8400-e29b-41d4-a716-446655440000";

fn alice() -> ServiceId {
    ServiceId::parse(UUID).unwrap()
}

fn settings() -> BridgeAdapterConfig {
    BridgeAdapterConfig {
        bridge_url: "ws://127.0.0.1:8765/ws".to_string(),
        auth_token: "token".to_string(),
        sender_id: "signal".to_string(),
        db_path: FilePath::from_text("/var/lib/signal.db"),
        allowed_from: vec!["*".to_string()],
        group_filter: None,
        session_file: None,
    }
}

fn let_in() -> BridgeSession {
    let ready = BridgeOutbound::Ready { sender_id: "signal".to_string(), endpoint: "/ws".to_string() };
    check_auth(AuthReply::Event(ready)).unwrap()
}

fn from_alice(text: &str) -> SignalContent {
    SignalContent {
        sender: alice(),
        timestamp: 5,
        body: ContentBody::DataMessage(DataMessage {
            body: Some(text.to_string()),
            group_v2: None,
            reaction: None,
            quote: None,
        }),
    }
}

fn message_to(recipient: &str, content: &str) -> BridgeOutbound {
    BridgeOutbound::Message {
        id: "1".to_string(),
        recipient: recipient.to_string(),
        content: content.to_string(),
        subject: None,
        thread_ts: None,
    }
}

#[test]
fn adapter_asks_to_be_let_in() {
    assert_eq!(
        auth_request(&settings()),
        BridgeInbound::Auth { token: "token".to_string(), sender_id: "signal".to_string() }
    );
}

#[test]
fn ready_lets_the_adapter_in() {
    let mut session = let_in();
    let mut log = EchoLog::new();
    assert_eq!(
        session.step(&settings(), &mut log, SessionEvent::OpenFailed),
        SessionAction::OpenAfter(2)
    );
}

#[test]
fn other_replies_keep_the_adapter_out() {
    let error = BridgeOutbound::Error { code: "bad_token".to_string(), message: "no".to_string() };
    for (reply, why) in [
        (AuthReply::TimedOut, "timed out waiting for bridge auth response"),
        (AuthReply::Closed, "bridge closed before auth response"),
        (
            AuthReply::NotText("Binary(b\"x\")".to_string()),
            "unexpected message type during auth: Binary(b\"x\")",
        ),
        (AuthReply::Event(error), "bridge auth rejected: [bad_token] no"),
        (
            AuthReply::Event(BridgeOutbound::Pong { nonce: None }),
            "unexpected bridge response during auth",
        ),
    ] {
        assert_eq!(check_auth(reply).unwrap_err(), why);
    }
}

#[test]
fn frames_of_the_bridge() {
    assert_eq!(frame_step(FrameKind::Text), FrameStep::Parse);
    assert_eq!(frame_step(FrameKind::Ping), FrameStep::Skip);
    assert_eq!(frame_step(FrameKind::Pong), FrameStep::Skip);
    assert_eq!(frame_step(FrameKind::Other), FrameStep::Skip);
    assert_eq!(frame_step(FrameKind::Close), FrameStep::Stop);
    assert_eq!(frame_step(FrameKind::Failed), FrameStep::Stop);
}

#[test]
fn adapter_connects_again_after_growing_waits() {
    let mut retry = Backoff::new();
    let failed: Vec<u64> = (0..7).map(|_| run(&mut retry, false)).collect();
    assert_eq!(failed, vec![2, 4, 8, 16, 32, 60, 60]);
    assert_eq!(run(&mut retry, true), 2);
    assert_eq!(run(&mut retry, false), 4);
    assert_eq!(run(&mut retry, true), 2);
}

#[test]
fn adapter_without_linked_device() {
    assert_eq!(
        settings().no_linked_device("gone"),
        "no linked device found at /var/lib/signal.db. Run `signal-bridge link` first. Error: gone"
    );
}

#[test]
fn signal_is_opened_again_during_a_session() {
    let config = settings();
    let mut session = let_in();
    let mut log = EchoLog::new();
    for seconds in [2, 4, 8, 16, 32, 60, 60] {
        assert_eq!(
            session.step(&config, &mut log, SessionEvent::OpenFailed),
            SessionAction::OpenAfter(seconds)
        );
    }
    assert_eq!(session.step(&config, &mut log, SessionEvent::Opened), SessionAction::Listen);
    assert_eq!(session.step(&config, &mut log, SessionEvent::SignalEnded), SessionAction::Open);
    assert_eq!(
        session.step(&config, &mut log, SessionEvent::OpenFailed),
        SessionAction::OpenAfter(2)
    );
}

#[test]
fn events_that_change_nothing() {
    let config = settings();
    let mut session = let_in();
    let mut log = EchoLog::new();
    for event in [
        SessionEvent::QueueEmpty,
        SessionEvent::Contacts,
        SessionEvent::WatcherClosed,
        SessionEvent::Content(from_alice("")),
        SessionEvent::SessionMessage("nobody to send it to".to_string()),
    ] {
        assert!(session.takes(&config, &event));
        assert_eq!(session.step(&config, &mut log, event), SessionAction::Listen);
    }
}

#[test]
fn events_that_end_a_session() {
    let config = settings();
    let mut log = EchoLog::new();
    for event in [SessionEvent::BridgeClosed, SessionEvent::WriterClosed] {
        let mut session = let_in();
        assert_eq!(session.step(&config, &mut log, event), SessionAction::Stop);
    }
}

#[test]
fn answers_reach_whoever_wrote_last() {
    let config = settings();
    let mut session = let_in();
    let mut log = EchoLog::new();
    assert_eq!(
        session.step(&config, &mut log, SessionEvent::Bridge(message_to("signal", "early"))),
        SessionAction::Report(
            "cannot route reply to 'signal': no Signal sender known yet".to_string()
        )
    );
    assert_eq!(
        session.step(&config, &mut log, SessionEvent::Content(from_alice("hi"))),
        SessionAction::Forward(BridgeInbound::Message {
            id: "signative_5_550e8400".to_string(),
            sender_id: "signal".to_string(),
            content: "hi".to_string(),
        })
    );
    assert_eq!(
        session.step(&config, &mut log, SessionEvent::Bridge(message_to("signal", "hello"))),
        SessionAction::Perform(OutboundAction::Send {
            target: RecipientTarget::Direct(alice()),
            text: "hello".to_string()
        })
    );
    let mut grouped = from_alice("hi all");
    if let ContentBody::DataMessage(message) = &mut grouped.body {
        message.group_v2 = Some(GroupContext { master_key: Some(vec![9; 32]) });
    }
    let _ = session.step(&config, &mut log, SessionEvent::Content(grouped));
    assert_eq!(
        session.step(&config, &mut log, SessionEvent::SessionMessage("news".to_string())),
        SessionAction::Perform(OutboundAction::Send {
            target: RecipientTarget::Group(vec![9; 32]),
            text: "news".to_string()
        })
    );
}

#[test]
fn group_key_of_another_length_cannot_be_answered() {
    let config = settings();
    let mut session = let_in();
    let mut log = EchoLog::new();
    let mut grouped = from_alice("hi all");
    if let ContentBody::DataMessage(message) = &mut grouped.body {
        message.group_v2 = Some(GroupContext { master_key: Some(vec![9; 5]) });
    }
    let _ = session.step(&config, &mut log, SessionEvent::Content(grouped));
    assert_eq!(
        session.step(&config, &mut log, SessionEvent::SessionMessage("news".to_string())),
        SessionAction::Report("group master key must be 32 bytes, got 5".to_string())
    );
}

#[test]
fn drafts_reach_whoever_wrote_last() {
    let config = settings();
    let mut session = let_in();
    let mut log = EchoLog::new();
    let _ = session.step(&config, &mut log, SessionEvent::Content(from_alice("hi")));
    let draft = BridgeOutbound::Draft {
        recipient: "x".to_string(),
        message_id: "1".to_string(),
        event: "finalize".to_string(),
        text: Some("done".to_string()),
    };
    assert_eq!(
        session.step(&config, &mut log, SessionEvent::Bridge(draft)),
        SessionAction::Perform(OutboundAction::Send {
            target: RecipientTarget::Direct(alice()),
            text: "done".to_string()
        })
    );
}

#[test]
fn forwarded_texts_are_remembered() {
    let config = settings();
    let mut session = let_in();
    let mut log = EchoLog::new();
    let _ = session.step(&config, &mut log, SessionEvent::Content(from_alice("hi")));
    assert!(!log.take_echo("hello"));
    assert!(log.take_echo("hi"));
    assert!(!log.take_echo("hi"));
}

#[test]
fn events_that_cannot_be_taken_are_told() {
    let config = settings();
    let session = let_in();
    assert!(!session.takes(&config, &SessionEvent::Bridge(message_to("group:aéb", "x"))));
    assert!(session.takes(&config, &SessionEvent::Bridge(message_to("group:ab", "x"))));
    let stopped = BridgeOutbound::Typing { recipient: "group:aéb".to_string(), active: false };
    assert!(session.takes(&config, &SessionEvent::Bridge(stopped)));
    let started = BridgeOutbound::Typing { recipient: "group:aéb".to_string(), active: true };
    assert!(!session.takes(&config, &SessionEvent::Bridge(started)));
    let mut awkward = from_alice("yes");
    if let ContentBody::DataMessage(message) = &mut awkward.body {
        message.quote = Some(Quote { id: None, text: Some(format!("{}é", "a".repeat(99))) });
    }
    assert!(!session.takes(&config, &SessionEvent::Content(awkward)));
}

#[test]
fn echo_log_forgets_the_oldest() {
    let mut log = EchoLog::new();
    for i in 0..CAPACITY + 1 {
        log.remember(&format!("text {i}"));
    }
    assert!(!log.take_echo("text 0"));
    assert!(log.take_echo("text 1"));
    assert!(log.take_echo("text 50"));
}

#[test]
fn echo_log_recognises_each_mention_once() {
    let mut log = EchoLog::new();
    log.remember("twice");
    log.remember("once");
    log.remember("twice");
    assert!(log.take_echo("twice"));
    assert!(log.take_echo("twice"));
    assert!(!log.take_echo("twice"));
    assert!(log.take_echo("once"));
}

#[test]
fn echoes_among_messages_are_skipped() {
    let mut log = EchoLog::new();
    log.remember("a");
    log.remember("b");
    log.remember("a");
    let found: Vec<String> = ["a", "x", "a", "a", "b"].iter().map(|s| s.to_string()).collect();
    assert_eq!(log.skip_echoes(found), vec!["x", "a"]);
    assert!(!log.take_echo("a"));
    assert!(!log.take_echo("b"));
}

#[test]
fn forwarded_text_is_not_sent_back() {
    let config = settings();
    let mut session = let_in();
    let mut log = EchoLog::new();
    let _ = session.step(&config, &mut log, SessionEvent::Content(from_alice("hi")));
    let found = vec!["hi".to_string(), "news".to_string()];
    assert_eq!(log.skip_echoes(found), vec!["news"]);
}

#[test]
fn echo_log_keeps_a_text_while_others_come_and_go() {
    let mut log = EchoLog::new();
    log.remember("other");
    log.remember("kept");
    for i in 0..CAPACITY - 1 {
        log.remember(&format!("text {i}"));
        assert_eq!(log.take_echo("other"), i == 0);
    }
    assert!(log.take_echo("kept"));
}
