//! One connection to the bridge, from being let in to its end.

use crate::backoff::{doubled, Backoff, FIRST_DELAY, MAX_DELAY};
use crate::bridge::echo::{
    fresh, is_about_others, law_recognised_while_there_is_room, log_after, passed_on_in, remembered,
    EchoLog, EchoStep, CAPACITY,
};
use crate::bridge::inbound::{
    can_forward, content_to_bridge_message, forwarded_text, forwards, forwards_cleanly,
    is_forward_of, law_what_the_bridge_gets,
};
use crate::bridge::outbound::{
    event_is_readable, handle_outbound_event, law_adapter_name_goes_to_last_sender,
    law_named_recipient_gets_the_message, law_readable_recipients_are_routed, outcome,
    resolve_recipient, routes_readably, sending, ActionView, OutboundAction,
};
use crate::bridge::protocol::{BridgeInbound, BridgeOutbound};
use crate::bridge::BridgeAdapterConfig;
use crate::content::{law_reply_reaches_origin, ContentBody, DataMessage, SignalContent};
use crate::recipient::{
    parse_recipient, readable_recipient, recipient_is_readable, recipient_of, TargetView,
};
use crate::text::{opt_view, same_text, views};
use vstd::prelude::*;
use vstd::string::*;

verus! {

/// How many seconds the bridge has to answer when the adapter asks to be let
/// in.
pub const AUTH_TIMEOUT_SECONDS: u64 = 15;

/// The frame with which the adapter asks the bridge to be let in.
pub fn auth_request(config: &BridgeAdapterConfig) -> (frame: BridgeInbound)
    ensures
        frame matches BridgeInbound::Auth { token, sender_id } && token@ == config.auth_token@
            && sender_id@ == config.sender_id@,
{
    BridgeInbound::Auth {
        token: config.auth_token.clone(),
        sender_id: config.sender_id.clone(),
    }
}

/// What comes back when the adapter asks to be let in.
#[derive(Debug, Clone, PartialEq, Eq)]
pub enum AuthReply {
    /// Nothing, in the time that was allowed for it.
    TimedOut,
    /// The end of the connection.
    Closed,
    /// A frame that is not text, here described.
    NotText(String),
    /// An event.
    Event(BridgeOutbound),
}

/// Why a reply does not let the adapter in, if it does not.
pub open spec fn refusal(reply: AuthReply) -> Option<Seq<char>> {
    match reply {
        AuthReply::TimedOut => Some("timed out waiting for bridge auth response"@),
        AuthReply::Closed => Some("bridge closed before auth response"@),
        AuthReply::NotText(frame) => Some("unexpected message type during auth: "@ + frame@),
        AuthReply::Event(BridgeOutbound::Ready { .. }) => None,
        AuthReply::Event(BridgeOutbound::Error { code, message }) => Some(
            "bridge auth rejected: ["@ + code@ + "] "@ + message@,
        ),
        AuthReply::Event(_) => Some("unexpected bridge response during auth"@),
    }
}

/// The session that a reply lets the adapter into, in which nobody has written
/// yet; else why it does not. There is no other way into a session.
pub fn check_auth(reply: AuthReply) -> (r: Result<BridgeSession, String>)
    ensures
        match r {
            Ok(session) => refusal(reply) is None && session@ == (SessionView {
                retry: FIRST_DELAY as nat,
                last_sender: None,
            }),
            Err(why) => refusal(reply) == Some(why@),
        },
{
    match reply {
        AuthReply::TimedOut => Err("timed out waiting for bridge auth response".to_owned()),
        AuthReply::Closed => Err("bridge closed before auth response".to_owned()),
        AuthReply::NotText(frame) => Err(
            "unexpected message type during auth: ".to_owned().concat(frame.as_str()),
        ),
        AuthReply::Event(BridgeOutbound::Ready { .. }) => Ok(BridgeSession::new()),
        AuthReply::Event(BridgeOutbound::Error { code, message }) => {
            let mut why = "bridge auth rejected: [".to_owned();
            why.append(code.as_str());
            why.append("] ");
            why.append(message.as_str());
            Err(why)
        },
        AuthReply::Event(_) => Err("unexpected bridge response during auth".to_owned()),
    }
}

/// The kinds of frame that come from the bridge.
#[derive(Debug, Clone, Copy, PartialEq, Eq)]
pub enum FrameKind {
    Text,
    Ping,
    Pong,
    Close,
    Other,
    /// No frame but an error of the connection.
    Failed,
}

/// What to do about a frame from the bridge.
#[derive(Debug, Clone, Copy, PartialEq, Eq)]
pub enum FrameStep {
    /// Read the event in it.
    Parse,
    /// Go on to the next.
    Skip,
    /// Read no more.
    Stop,
}

/// What to do about a frame from the bridge: text holds an event, the end of
/// the connection and its failure end the reading, the rest is skipped.
pub fn frame_step(kind: FrameKind) -> (r: FrameStep)
    ensures
        r == match kind {
            FrameKind::Text => FrameStep::Parse,
            FrameKind::Close => FrameStep::Stop,
            FrameKind::Failed => FrameStep::Stop,
            FrameKind::Ping => FrameStep::Skip,
            FrameKind::Pong => FrameStep::Skip,
            FrameKind::Other => FrameStep::Skip,
        },
{
    match kind {
        FrameKind::Text => FrameStep::Parse,
        FrameKind::Close => FrameStep::Stop,
        FrameKind::Failed => FrameStep::Stop,
        FrameKind::Ping => FrameStep::Skip,
        FrameKind::Pong => FrameStep::Skip,
        FrameKind::Other => FrameStep::Skip,
    }
}

/// What happens during a session.
#[derive(Debug, Clone, PartialEq, Eq)]
pub enum SessionEvent {
    /// Signal has opened the stream of messages.
    Opened,
    /// Signal has not opened it.
    OpenFailed,
    /// The stream has ended.
    SignalEnded,
    /// The messages that had been waiting at Signal are through.
    QueueEmpty,
    /// The contacts have been synchronised.
    Contacts,
    /// A message has come from Signal.
    Content(SignalContent),
    /// An event has come from the bridge.
    Bridge(BridgeOutbound),
    /// No more events come from the bridge.
    BridgeClosed,
    /// A message has been found in a session file.
    SessionMessage(String),
    /// No more messages are looked for in session files.
    WatcherClosed,
    /// Nothing more can be written to the bridge.
    WriterClosed,
}

/// What to do during a session.
#[derive(Debug, Clone, PartialEq, Eq)]
pub enum SessionAction {
    /// Ask Signal for the stream of messages.
    Open,
    /// Let so many seconds go by, then ask.
    OpenAfter(u64),
    /// Wait for what comes next.
    Listen,
    /// Pass a message on to the bridge.
    Forward(BridgeInbound),
    /// Do something on the Signal side.
    Perform(OutboundAction),
    /// Nothing can be done; this is why.
    Report(String),
    /// End the session.
    Stop,
}

/// A session, which begins when the bridge has let the adapter in. What it
/// keeps in mind: how long to wait before Signal is tried
/// again, and the address of whoever wrote last.
#[derive(Debug)]
pub struct BridgeSession {
    retry: Backoff,
    last_sender: Option<String>,
}

/// A session as contracts speak of it.
#[verifier::ext_equal]
pub struct SessionView {
    pub retry: nat,
    pub last_sender: Option<Seq<char>>,
}

impl View for BridgeSession {
    type V = SessionView;

    closed spec fn view(&self) -> SessionView {
        SessionView { retry: self.retry@, last_sender: opt_view(self.last_sender) }
    }
}

/// Whether a message is passed on under an adapter's settings.
pub open spec fn passes_on(config: BridgeAdapterConfig, content: SignalContent) -> bool {
    forwards(content, views(config.allowed_from@), opt_view(config.group_filter))
}

impl SessionView {
    /// Whether the session can go on from an event: no text has to be cut
    /// inside a character for it.
    pub open spec fn can_take(self, config: BridgeAdapterConfig, event: SessionEvent) -> bool {
        match event {
            SessionEvent::Content(content) => forwards_cleanly(
                content,
                views(config.allowed_from@),
                opt_view(config.group_filter),
            ),
            SessionEvent::Bridge(event) => event_is_readable(event, self.last_sender),
            _ => true,
        }
    }

    /// What the session keeps in mind after an event.
    pub open spec fn after(self, config: BridgeAdapterConfig, event: SessionEvent) -> SessionView {
        match event {
            SessionEvent::Opened => SessionView { retry: FIRST_DELAY as nat, ..self },
            SessionEvent::OpenFailed => SessionView { retry: doubled(self.retry), ..self },
            SessionEvent::Content(content) => if passes_on(config, content) {
                SessionView { last_sender: Some(content.spec_reply_address()), ..self }
            } else {
                self
            },
            _ => self,
        }
    }

    /// What the session keeps in mind after some events, one after the other.
    pub open spec fn after_all(
        self,
        config: BridgeAdapterConfig,
        events: Seq<SessionEvent>,
    ) -> SessionView
        decreases events.len(),
    {
        if events.len() == 0 {
            self
        } else {
            self.after_all(config, events.drop_last()).after(config, events.last())
        }
    }

    /// Whether an action is the one for an event.
    pub open spec fn answers(
        self,
        config: BridgeAdapterConfig,
        event: SessionEvent,
        action: SessionAction,
    ) -> bool {
        match event {
            SessionEvent::Opened => action is Listen,
            SessionEvent::OpenFailed => action matches SessionAction::OpenAfter(seconds) && seconds
                == self.retry,
            SessionEvent::SignalEnded => action is Open,
            SessionEvent::QueueEmpty => action is Listen,
            SessionEvent::Contacts => action is Listen,
            SessionEvent::Content(content) => if passes_on(config, content) {
                action matches SessionAction::Forward(frame) && is_forward_of(
                    frame,
                    content,
                    config.sender_id@,
                )
            } else {
                action is Listen
            },
            SessionEvent::Bridge(event) => carries_out(outcome(event, self.last_sender), action),
            SessionEvent::BridgeClosed => action is Stop,
            SessionEvent::SessionMessage(text) => match self.last_sender {
                Some(sender) => match recipient_of(sender) {
                    Ok(target) => carries_out(Ok(ActionView::Send(target, text@)), action),
                    Err(why) => carries_out(Err(why), action),
                },
                None => action is Listen,
            },
            SessionEvent::WatcherClosed => action is Listen,
            SessionEvent::WriterClosed => action is Stop,
        }
    }
}

/// Whether an action carries out what was decided, or reports why nothing
/// could be.
pub open spec fn carries_out(
    decided: Result<ActionView, Seq<char>>,
    action: SessionAction,
) -> bool {
    match decided {
        Ok(decided) => action matches SessionAction::Perform(performed) && performed@ == decided,
        Err(why) => action matches SessionAction::Report(reported) && reported@ == why,
    }
}

/// The texts passed on lately, after an event.
pub open spec fn echoes_after(
    log: Seq<Seq<char>>,
    config: BridgeAdapterConfig,
    event: SessionEvent,
) -> Seq<Seq<char>> {
    match event {
        SessionEvent::Content(content) => if passes_on(config, content) {
            remembered(log, forwarded_text(content.spec_message()->0)->0)
        } else {
            log
        },
        _ => log,
    }
}

impl BridgeSession {
    /// Whoever wrote last can be addressed without cutting a character.
    #[verifier::type_invariant]
    spec fn last_sender_is_readable(self) -> bool {
        self.last_sender matches Some(sender) ==> readable_recipient(sender@)
    }

    /// A session in which nobody has written yet.
    fn new() -> (r: BridgeSession)
        ensures
            r@ == (SessionView { retry: FIRST_DELAY as nat, last_sender: None }),
    {
        BridgeSession { retry: Backoff::new(), last_sender: None }
    }

    /// Whether the session can go on from an event.
    pub fn takes(&self, config: &BridgeAdapterConfig, event: &SessionEvent) -> (r: bool)
        ensures
            r == self@.can_take(*config, *event),
    {
        match event {
            SessionEvent::Content(content) => can_forward(
                content,
                &config.allowed_from,
                &config.group_filter,
            ),
            SessionEvent::Bridge(event) => self.reads(event),
            _ => true,
        }
    }

    fn routes(&self, recipient: &str) -> (r: bool)
        ensures
            r == routes_readably(recipient@, self@.last_sender),
    {
        if !recipient_is_readable(recipient) {
            return false;
        }
        match resolve_recipient(recipient, &self.last_sender) {
            Ok(address) => recipient_is_readable(address.as_str()),
            Err(_) => true,
        }
    }

    fn reads(&self, event: &BridgeOutbound) -> (r: bool)
        ensures
            r == event_is_readable(*event, self@.last_sender),
    {
        match event {
            BridgeOutbound::Message { recipient, .. } => self.routes(recipient.as_str()),
            BridgeOutbound::Typing { recipient, active } => !*active || self.routes(
                recipient.as_str(),
            ),
            BridgeOutbound::Draft { event, text, .. } => !same_text(event.as_str(), "finalize")
                || text.is_none() || self.routes("signal"),
            _ => true,
        }
    }

    /// The next thing to do in the session.
    pub fn step(
        &mut self,
        config: &BridgeAdapterConfig,
        echoes: &mut EchoLog,
        event: SessionEvent,
    ) -> (action: SessionAction)
        requires
            old(self)@.can_take(*config, event),
        ensures
            final(self)@ == old(self)@.after(*config, event),
            old(self)@.answers(*config, event, action),
            final(echoes)@ == echoes_after(old(echoes)@, *config, event),
            final(self)@.last_sender matches Some(sender) ==> readable_recipient(sender),
            action matches SessionAction::OpenAfter(seconds) ==> FIRST_DELAY <= seconds
                <= MAX_DELAY,
    {
        proof {
            use_type_invariant(&*self);
        }
        match event {
            SessionEvent::Opened => {
                self.retry = Backoff::new();
                SessionAction::Listen
            },
            SessionEvent::OpenFailed => {
                let mut retry = self.retry;
                let seconds = retry.next_delay();
                self.retry = retry;
                SessionAction::OpenAfter(seconds)
            },
            SessionEvent::SignalEnded => SessionAction::Open,
            SessionEvent::QueueEmpty => SessionAction::Listen,
            SessionEvent::Contacts => SessionAction::Listen,
            SessionEvent::Content(content) => match content_to_bridge_message(
                &content,
                &config.allowed_from,
                &config.group_filter,
                config.sender_id.as_str(),
            ) {
                Some((frame, reply_address)) => {
                    if let BridgeInbound::Message { content: text, .. } = &frame {
                        echoes.remember(text.as_str());
                    }
                    proof {
                        law_reply_reaches_origin(content);
                    }
                    self.last_sender = Some(reply_address);
                    SessionAction::Forward(frame)
                },
                None => SessionAction::Listen,
            },
            SessionEvent::Bridge(event) => match handle_outbound_event(event, &self.last_sender) {
                Ok(action) => SessionAction::Perform(action),
                Err(why) => SessionAction::Report(why),
            },
            SessionEvent::BridgeClosed => SessionAction::Stop,
            SessionEvent::SessionMessage(text) => match &self.last_sender {
                Some(sender) => match parse_recipient(sender.as_str()) {
                    Ok(target) => SessionAction::Perform(OutboundAction::Send { target, text }),
                    Err(why) => SessionAction::Report(why),
                },
                None => SessionAction::Listen,
            },
            SessionEvent::WatcherClosed => SessionAction::Listen,
            SessionEvent::WriterClosed => SessionAction::Stop,
        }
    }
}

/// An answer of the assistant goes to where the last message came from: once
/// a message has been passed on, a text that the bridge sends to a recipient
/// who is nobody on Signal goes back to its origin.
pub proof fn law_answer_reaches_last_sender(
    session: SessionView,
    config: BridgeAdapterConfig,
    content: SignalContent,
    recipient: Seq<char>,
    text: Seq<char>,
)
    requires
        passes_on(config, content),
        content.spec_reply_target() matches TargetView::Group(key) ==> key.len() == 32,
        recipient_of(recipient) is Err,
    ensures
        sending(
            recipient,
            session.after(config, SessionEvent::Content(content)).last_sender,
            text,
        ) == Ok::<ActionView, Seq<char>>(ActionView::Send(content.spec_reply_target(), text)),
{
    law_reply_reaches_origin(content);
}

/// A finished draft goes to where the last message came from.
pub proof fn law_draft_reaches_last_sender(
    session: SessionView,
    config: BridgeAdapterConfig,
    content: SignalContent,
    draft: BridgeOutbound,
)
    requires
        passes_on(config, content),
        content.spec_reply_target() matches TargetView::Group(key) ==> key.len() == 32,
        draft matches BridgeOutbound::Draft { event, text, .. } && event@ == "finalize"@ && text
            is Some,
    ensures
        outcome(draft, session.after(config, SessionEvent::Content(content)).last_sender) == Ok::<
            ActionView,
            Seq<char>,
        >(ActionView::Send(content.spec_reply_target(), draft->Draft_text->0@)),
{
    law_reply_reaches_origin(content);
    law_adapter_name_goes_to_last_sender(content.spec_reply_address());
    law_adapter_name_goes_to_last_sender(Seq::empty());
}

/// Before anybody has written, what the bridge sends to a recipient who is
/// nobody on Signal goes nowhere.
pub proof fn law_no_sender_no_answer(recipient: Seq<char>, text: Seq<char>)
    requires
        recipient_of(recipient) is Err,
    ensures
        sending(recipient, None, text) == Err::<ActionView, Seq<char>>(
            "cannot route reply to '"@ + recipient + "': no Signal sender known yet"@,
        ),
{
}

/// A text that was passed on is recognised when the assistant writes it into
/// a session file, and is not sent back: neither at once nor after further
/// texts were passed on and recognised, as long as those passed on leave room
/// for it.
pub proof fn law_no_echo_loop(
    log: Seq<Seq<char>>,
    config: BridgeAdapterConfig,
    content: SignalContent,
    later: Seq<EchoStep>,
)
    requires
        log.len() <= CAPACITY,
        passes_on(config, content),
        passed_on_in(later) < CAPACITY,
        is_about_others(later, forwarded_text(content.spec_message()->0)->0),
    ensures
        ({
            let text = forwarded_text(content.spec_message()->0)->0;
            let now = log_after(
                echoes_after(log, config, SessionEvent::Content(content)),
                later,
            );
            now.contains(text) && fresh(now, seq![text]) == Seq::<Seq<char>>::empty()
        }),
{
    let text = forwarded_text(content.spec_message()->0)->0;
    law_recognised_while_there_is_room(log, text, later);
    reveal_with_fuel(fresh, 2);
    assert(seq![text].drop_last() =~= Seq::<Seq<char>>::empty());
}

/// Whether an event is a message that is passed on.
pub open spec fn brings_message(config: BridgeAdapterConfig, event: SessionEvent) -> bool {
    event matches SessionEvent::Content(content) && passes_on(config, content)
}

/// Only a message that is passed on changes whom answers go to: without one,
/// whatever happens, they go to the same address as before.
pub proof fn law_only_messages_change_last_sender(
    session: SessionView,
    config: BridgeAdapterConfig,
    events: Seq<SessionEvent>,
)
    requires
        forall|j: int| 0 <= j < events.len() ==> !brings_message(config, #[trigger] events[j]),
    ensures
        session.after_all(config, events).last_sender == session.last_sender,
    decreases events.len(),
{
    if events.len() > 0 {
        law_only_messages_change_last_sender(session, config, events.drop_last());
        assert(!brings_message(config, events[events.len() - 1]));
    }
}

/// Whatever happens in a session, answers go to the address of the message
/// that was passed on last.
pub proof fn law_last_message_counts(
    session: SessionView,
    config: BridgeAdapterConfig,
    events: Seq<SessionEvent>,
    k: int,
)
    requires
        0 <= k < events.len(),
        brings_message(config, events[k]),
        forall|j: int| k < j < events.len() ==> !brings_message(config, #[trigger] events[j]),
    ensures
        session.after_all(config, events).last_sender == Some(
            events[k]->Content_0.spec_reply_address(),
        ),
    decreases events.len(),
{
    if k < events.len() - 1 {
        let before = events.drop_last();
        assert forall|j: int| k < j < before.len() implies !brings_message(
            config,
            #[trigger] before[j],
        ) by {
            assert(before[j] == events[j]);
        }
        law_last_message_counts(session, config, before, k);
        assert(!brings_message(config, events[events.len() - 1]));
    }
}

/// The bridge lets the adapter in with a ready event and with nothing else.
pub proof fn law_only_ready_lets_in(reply: AuthReply)
    ensures
        refusal(reply) is None <==> (reply matches AuthReply::Event(event) && event is Ready),
{
}

/// A refusal tells what came in place of a ready event: an error of the bridge
/// with its code and message, a frame that is no text, silence, or the end.
pub proof fn law_refusals_tell_what_came(
    code: String,
    message: String,
    frame: String,
    event: BridgeOutbound,
)
    ensures
        refusal(AuthReply::Event(BridgeOutbound::Error { code, message })) == Some(
            "bridge auth rejected: ["@ + code@ + "] "@ + message@,
        ),
        refusal(AuthReply::NotText(frame)) == Some(
            "unexpected message type during auth: "@ + frame@,
        ),
        refusal(AuthReply::TimedOut) == Some("timed out waiting for bridge auth response"@),
        refusal(AuthReply::Closed) == Some("bridge closed before auth response"@),
        !(event is Ready) && !(event is Error) ==> refusal(AuthReply::Event(event)) == Some(
            "unexpected bridge response during auth"@,
        ),
{
}

/// A message left in a session file goes, with its whole text, to where the
/// message came from that was passed on last.
pub proof fn law_session_message_reaches_last_sender(
    session: SessionView,
    config: BridgeAdapterConfig,
    content: SignalContent,
    text: String,
    action: SessionAction,
)
    requires
        passes_on(config, content),
        content.spec_reply_target() matches TargetView::Group(key) ==> key.len() == 32,
        session.after(config, SessionEvent::Content(content)).answers(
            config,
            SessionEvent::SessionMessage(text),
            action,
        ),
    ensures
        action matches SessionAction::Perform(performed) && performed@ == ActionView::Send(
            content.spec_reply_target(),
            text@,
        ),
{
    law_reply_reaches_origin(content);
}

/// Whatever happens after a message was passed on, as long as no other is, a
/// message left in a session file goes to where it came from.
pub proof fn law_session_message_reaches_last_sender_later(
    session: SessionView,
    config: BridgeAdapterConfig,
    events: Seq<SessionEvent>,
    k: int,
    text: String,
    action: SessionAction,
)
    requires
        0 <= k < events.len(),
        brings_message(config, events[k]),
        forall|j: int| k < j < events.len() ==> !brings_message(config, #[trigger] events[j]),
        events[k]->Content_0.spec_reply_target() matches TargetView::Group(key) ==> key.len() == 32,
        session.after_all(config, events).answers(
            config,
            SessionEvent::SessionMessage(text),
            action,
        ),
    ensures
        action matches SessionAction::Perform(performed) && performed@ == ActionView::Send(
            events[k]->Content_0.spec_reply_target(),
            text@,
        ),
{
    law_last_message_counts(session, config, events, k);
    law_reply_reaches_origin(events[k]->Content_0);
}

/// Before anybody has written a message left in a session file is dropped.
pub proof fn law_session_message_without_sender(
    session: SessionView,
    config: BridgeAdapterConfig,
    text: String,
    action: SessionAction,
)
    requires
        session.last_sender is None,
        session.answers(config, SessionEvent::SessionMessage(text), action),
    ensures
        action is Listen,
{
}

/// An event of the bridge is carried out as it comes to: a text is sent to
/// whom it is for, and what cannot be done is reported with the reason.
pub proof fn law_events_of_the_bridge_are_carried_out(
    session: SessionView,
    config: BridgeAdapterConfig,
    event: BridgeOutbound,
    action: SessionAction,
)
    requires
        session.answers(config, SessionEvent::Bridge(event), action),
    ensures
        match outcome(event, session.last_sender) {
            Ok(decided) => action matches SessionAction::Perform(performed) && performed@
                == decided,
            Err(why) => action matches SessionAction::Report(reported) && reported@ == why,
        },
{
}

/// A message for somebody on Signal is sent to them in every session.
pub proof fn law_named_recipient_is_reached_in_a_session(
    session: SessionView,
    config: BridgeAdapterConfig,
    event: BridgeOutbound,
    target: TargetView,
    action: SessionAction,
)
    requires
        event is Message,
        recipient_of(event->Message_recipient@) == Ok::<TargetView, Seq<char>>(target),
        session.answers(config, SessionEvent::Bridge(event), action),
    ensures
        action matches SessionAction::Perform(performed) && performed@ == ActionView::Send(
            target,
            event->Message_content@,
        ),
{
    law_named_recipient_gets_the_message(
        event,
        event->Message_recipient,
        event->Message_content,
        target,
        session.last_sender,
    );
}

/// A message from Signal is passed on, under its name and with its text,
/// exactly if the settings let it through and it holds a reaction or a text.
pub proof fn law_messages_are_passed_on(
    session: SessionView,
    config: BridgeAdapterConfig,
    content: SignalContent,
    message: DataMessage,
    action: SessionAction,
)
    requires
        content.body == ContentBody::DataMessage(message),
        session.answers(config, SessionEvent::Content(content), action),
    ensures
        ({
            let heard = content.spec_admitted(
                views(config.allowed_from@),
                opt_view(config.group_filter),
            ) && (message.reaction is Some || (message.body is Some && message.body->0@.len() > 0));
            &&& passes_on(config, content) <==> heard
            &&& heard ==> (action matches SessionAction::Forward(frame) && frame matches
                BridgeInbound::Message { id, sender_id, content: text } && id@ == content.spec_id()
                && sender_id@ == config.sender_id@ && forwarded_text(message) == Some(text@))
            &&& !heard ==> action is Listen
        }),
{
    law_what_the_bridge_gets(
        content,
        message,
        views(config.allowed_from@),
        opt_view(config.group_filter),
    );
}

/// A session goes on until the bridge closes or can no longer be written to.
/// When Signal ends it is asked for messages again at once, when it fails
/// after a wait.
pub proof fn law_when_a_session_ends(
    session: SessionView,
    config: BridgeAdapterConfig,
    event: SessionEvent,
    action: SessionAction,
)
    requires
        session.answers(config, event, action),
    ensures
        action is Stop <==> event is BridgeClosed || event is WriterClosed,
        action is Open <==> event is SignalEnded,
        action is OpenAfter <==> event is OpenFailed,
        action is Forward ==> event is Content,
        event is OpenFailed ==> action->OpenAfter_0 == session.retry,
        event is Opened || event is QueueEmpty || event is Contacts || event is WatcherClosed
            ==> action is Listen,
{
}

/// Waits for Signal start over when its stream opens, double when it does not,
/// and stay as they are at any other event.
pub proof fn law_waits_in_a_session(
    session: SessionView,
    config: BridgeAdapterConfig,
    event: SessionEvent,
)
    ensures
        event is Opened ==> session.after(config, event).retry == 2,
        event is OpenFailed && session.retry <= 30 ==> session.after(config, event).retry == 2
            * session.retry,
        event is OpenFailed && session.retry > 30 ==> session.after(config, event).retry == 60,
        !(event is Opened) && !(event is OpenFailed) ==> session.after(config, event).retry
            == session.retry,
{
}

/// What is remembered against echoes grows by the text of each message that is
/// passed on, and by nothing else.
pub proof fn law_echoes_follow_what_is_passed_on(
    log: Seq<Seq<char>>,
    config: BridgeAdapterConfig,
    event: SessionEvent,
)
    ensures
        !brings_message(config, event) ==> echoes_after(log, config, event) == log,
        brings_message(config, event) ==> {
            let text = forwarded_text(event->Content_0.spec_message()->0)->0;
            let now = echoes_after(log, config, event);
            &&& now.len() > 0 && now.last() == text
            &&& log.len() < CAPACITY ==> now.drop_last() == log
            &&& log.len() == CAPACITY ==> now.drop_last() == log.drop_first()
        },
{
    if brings_message(config, event) {
        let text = forwarded_text(event->Content_0.spec_message()->0)->0;
        let now = echoes_after(log, config, event);
        if log.len() < CAPACITY {
            assert(now.drop_last() =~= log);
        }
        if log.len() == CAPACITY {
            assert(now.drop_last() =~= log.drop_first());
        }
    }
}

/// A session can go on from every event but for the two kinds that a text has
/// to be cut for: a reply with a long quote, and a recipient with a group key.
pub proof fn law_what_a_session_can_take(
    session: SessionView,
    config: BridgeAdapterConfig,
    event: SessionEvent,
)
    requires
        session.last_sender matches Some(sender) ==> readable_recipient(sender),
        event is Content ==> forwards_cleanly(
            event->Content_0,
            views(config.allowed_from@),
            opt_view(config.group_filter),
        ),
        event matches SessionEvent::Bridge(inner) ==> {
            &&& inner is Message ==> readable_recipient(inner->Message_recipient@)
            &&& inner is Typing ==> readable_recipient(inner->Typing_recipient@)
        },
    ensures
        session.can_take(config, event),
{
    if event is Bridge {
        law_readable_recipients_are_routed(event->Bridge_0, session.last_sender);
    }
}

} // verus!
