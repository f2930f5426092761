//! The channel: what to make of the messages that arrive, and what to send.
//!
//! The connection to Signal lives outside. It is driven by asking the channel
//! what to do and telling it what came of it.

use crate::backoff::{doubled, Backoff, FIRST_DELAY, MAX_DELAY};
use crate::content::{
    law_reply_reaches_origin, screen, sender_allowed, sender_is_allowed, ContentBody, DataMessage,
    SignalContent,
};
use crate::error::SignalNativeError;
use crate::identity::{hyphenated, ServiceId};
use crate::path::FilePath;
use crate::recipient::{
    parse_recipient, readable_recipient, recipient_of, RecipientTarget, TargetView,
};
use crate::text::{has_suffix, lossy_text, opt_view, views};
use vstd::prelude::*;
use vstd::string::*;
use vstd::utf8::*;

verus! {

/// A message that has arrived.
#[derive(Debug, Clone, PartialEq, Eq)]
pub struct ChannelMessage {
    pub id: String,
    pub sender: String,
    pub reply_target: String,
    pub content: String,
    pub channel: String,
    pub timestamp: u64,
    pub thread_ts: Option<String>,
    pub interruption_scope_id: Option<String>,
    pub attachments: Vec<MediaAttachment>,
}

/// A message to send.
#[derive(Debug, Clone, PartialEq, Eq)]
pub struct SendMessage {
    pub content: String,
    pub recipient: String,
    pub subject: Option<String>,
    pub thread_ts: Option<String>,
    pub attachments: Vec<MediaAttachment>,
}

/// A file that goes with a message.
#[derive(Debug, Clone, PartialEq, Eq)]
pub struct MediaAttachment {
    pub file_name: String,
    pub data: Vec<u8>,
    pub mime_type: Option<String>,
}

/// The Signal channel: its settings, and whether the linked device that it
/// speaks through has been loaded.
#[derive(Debug)]
pub struct SignalNativeChannel {
    db_path: FilePath,
    allowed_from: Vec<String>,
    group_filter: Option<String>,
    manager_loaded: bool,
}

/// A channel as contracts speak of it.
#[verifier::ext_equal]
pub struct ChannelView {
    /// The database that holds the Signal protocol state.
    pub db_path: Seq<u8>,
    /// The UUIDs of the allowed senders, or `*`.
    pub allowed_from: Seq<Seq<char>>,
    /// `dm` for direct messages only, or the master key of the one group to
    /// listen to.
    pub group_filter: Option<Seq<char>>,
    /// Whether the linked device has been loaded.
    pub manager_loaded: bool,
}

/// A text message for Signal.
#[derive(Debug, Clone, PartialEq, Eq)]
pub struct TextMessage {
    pub target: RecipientTarget,
    pub body: String,
    pub timestamp: u64,
}

/// A typing notice for Signal.
#[derive(Debug, Clone, Copy, PartialEq, Eq)]
pub struct TypingNotice {
    pub to: ServiceId,
    pub timestamp: u64,
}

/// What happens while the channel listens.
#[derive(Debug, Clone, PartialEq, Eq)]
pub enum ListenEvent {
    /// It is time to ask Signal for messages.
    Due,
    /// Signal has opened the stream of messages.
    Opened,
    /// Signal has not opened it.
    OpenFailed,
    /// The messages that had been waiting are through.
    QueueEmpty,
    /// The contacts have been synchronised.
    Contacts,
    /// A message has come.
    Content(SignalContent),
    /// The message passed on has been taken.
    Taken,
    /// Nobody takes messages any more.
    ReceiverDropped,
    /// The stream has ended.
    Ended,
}

/// What to do while the channel listens.
#[derive(Debug, Clone, PartialEq, Eq)]
pub enum ListenAction {
    /// Ask Signal for messages.
    Open,
    /// Wait for the stream.
    Read,
    /// Pass a message on.
    Deliver(ChannelMessage),
    /// Let so many seconds go by before asking Signal for messages.
    Wait(u64),
    /// Stop.
    Stop,
    /// Stop with an error.
    Fail(SignalNativeError),
}

impl View for SignalNativeChannel {
    type V = ChannelView;

    closed spec fn view(&self) -> ChannelView {
        ChannelView {
            db_path: self.db_path@,
            allowed_from: views(self.allowed_from@),
            group_filter: opt_view(self.group_filter),
            manager_loaded: self.manager_loaded,
        }
    }
}

impl ChannelView {
    /// Whether a message is passed on: one with text, from an allowed sender,
    /// that the group filter lets through.
    pub open spec fn accepts(self, content: SignalContent) -> bool {
        &&& content.spec_admitted(self.allowed_from, self.group_filter)
        &&& content.spec_message()->0.spec_text() is Some
    }

    /// Whether a channel message is what an accepted message is passed on as.
    pub open spec fn passes_on(self, content: SignalContent, message: ChannelMessage) -> bool {
        &&& self.accepts(content)
        &&& message.id@ == content.spec_id()
        &&& message.sender@ == content.spec_sender()
        &&& message.reply_target@ == content.spec_reply_address()
        &&& content.spec_message()->0.spec_text() == Some(message.content@)
        &&& message.channel@ == "signal-native"@
        &&& message.timestamp == content.timestamp / 1000
        &&& message.thread_ts is None
        &&& message.interruption_scope_id is None
        &&& message.attachments@.len() == 0
    }
}

/// What is said when no linked device can be loaded from a database.
pub open spec fn not_linked_text(db_path: Seq<char>, cause: Seq<char>) -> Seq<char> {
    "signal-native: no linked device found at "@ + db_path
        + ". Run the `link` binary first to link this device. Original error: "@ + cause
}

impl SignalNativeChannel {
    /// A channel that has not loaded its linked device yet.
    pub fn new(
        db_path: FilePath,
        allowed_from: Vec<String>,
        group_filter: Option<String>,
    ) -> (r: SignalNativeChannel)
        ensures
            r@ == (ChannelView {
                db_path: db_path@,
                allowed_from: views(allowed_from@),
                group_filter: opt_view(group_filter),
                manager_loaded: false,
            }),
    {
        SignalNativeChannel { db_path, allowed_from, group_filter, manager_loaded: false }
    }

    /// The channel's name.
    pub fn name(&self) -> (name: &str)
        ensures
            name@ == "signal-native"@,
    {
        "signal-native"
    }

    /// Whether the linked device is still to be loaded.
    pub fn needs_manager(&self) -> (r: bool)
        ensures
            r == !self@.manager_loaded,
    {
        !self.manager_loaded
    }

    /// Takes in what came of loading the linked device. A device that is
    /// loaded stays so; one that was never linked is an error.
    pub fn ensure_manager(&mut self, loading: Result<(), String>) -> (r: Result<(), String>)
        ensures
            final(self)@ == (ChannelView {
                manager_loaded: old(self)@.manager_loaded || loading is Ok,
                ..old(self)@
            }),
            r is Ok <==> final(self)@.manager_loaded,
            r matches Err(why) ==> why@ == not_linked_text(
                lossy_text(old(self)@.db_path),
                loading->Err_0@,
            ),
            valid_utf8(old(self)@.db_path) ==> (r matches Err(why) ==> why@ == not_linked_text(
                decode_utf8(old(self)@.db_path),
                loading->Err_0@,
            )),
    {
        if self.manager_loaded {
            return Ok(());
        }
        match loading {
            Ok(()) => {
                self.manager_loaded = true;
                Ok(())
            },
            Err(cause) => {
                let mut why = "signal-native: no linked device found at ".to_owned();
                let path = self.db_path.display();
                why.append(path.as_str());
                why.append(". Run the `link` binary first to link this device. Original error: ");
                why.append(cause.as_str());
                Err(why)
            },
        }
    }

    /// Whether a sender is on the list of allowed senders.
    pub fn is_sender_allowed(&self, sender_uuid: &str) -> (r: bool)
        ensures
            r == sender_allowed(self@.allowed_from, sender_uuid@),
    {
        sender_is_allowed(&self.allowed_from, sender_uuid)
    }

    /// Reads a recipient: an account's UUID, or `group:` and a master key in
    /// hexadecimal.
    pub fn parse_recipient(recipient: &str) -> (r: Result<RecipientTarget, SignalNativeError>)
        requires
            readable_recipient(recipient@),
        ensures
            match r {
                Ok(target) => recipient_of(recipient@) == Ok::<TargetView, Seq<char>>(target@),
                Err(e) => e matches SignalNativeError::InvalidRecipient(why) && recipient_of(
                    recipient@,
                ) == Err::<TargetView, Seq<char>>(why@),
            },
    {
        match parse_recipient(recipient) {
            Ok(target) => Ok(target),
            Err(why) => Err(SignalNativeError::InvalidRecipient(why)),
        }
    }

    /// What to send for a message to an account or a group.
    pub fn send(&self, message: &SendMessage, timestamp: u64) -> (r: Result<
        TextMessage,
        SignalNativeError,
    >)
        requires
            self@.manager_loaded ==> readable_recipient(message.recipient@),
        ensures
            match r {
                Ok(outgoing) => {
                    &&& self@.manager_loaded
                    &&& recipient_of(message.recipient@) == Ok::<TargetView, Seq<char>>(
                        outgoing.target@,
                    )
                    &&& outgoing.body@ == message.content@
                    &&& outgoing.timestamp == timestamp
                },
                Err(SignalNativeError::NotLinked) => !self@.manager_loaded,
                Err(SignalNativeError::InvalidRecipient(why)) => self@.manager_loaded
                    && recipient_of(message.recipient@) == Err::<TargetView, Seq<char>>(why@),
                Err(_) => false,
            },
    {
        if !self.manager_loaded {
            return Err(SignalNativeError::NotLinked);
        }
        match Self::parse_recipient(message.recipient.as_str()) {
            Ok(target) => Ok(TextMessage { target, body: message.content.clone(), timestamp }),
            Err(e) => Err(e),
        }
    }

    /// The typing notice for a recipient. Only an account gets one: for a
    /// group, or for a text that names nobody, there is none.
    pub fn start_typing(&self, recipient: &str, timestamp: u64) -> (r: Result<
        Option<TypingNotice>,
        SignalNativeError,
    >)
        requires
            self@.manager_loaded ==> readable_recipient(recipient@),
        ensures
            match r {
                Ok(Some(notice)) => {
                    &&& self@.manager_loaded
                    &&& recipient_of(recipient@) == Ok::<TargetView, Seq<char>>(
                        TargetView::Direct(notice.to.aci@),
                    )
                    &&& notice.timestamp == timestamp
                },
                Ok(None) => self@.manager_loaded && !(recipient_of(recipient@) matches Ok(
                    TargetView::Direct(_),
                )),
                Err(e) => e is NotLinked && !self@.manager_loaded,
            },
    {
        if !self.manager_loaded {
            return Err(SignalNativeError::NotLinked);
        }
        match Self::parse_recipient(recipient) {
            Ok(RecipientTarget::Direct(to)) => Ok(Some(TypingNotice { to, timestamp })),
            _ => Ok(None),
        }
    }

    /// Whether the channel works: the linked device is loaded and, as the
    /// caller has found out, the Signal servers can be reached.
    pub fn health_check(&self, servers_reachable: bool) -> (r: bool)
        ensures
            r == (self@.manager_loaded && servers_reachable),
    {
        self.manager_loaded && servers_reachable
    }

    /// The channel message for a message from Signal, if it is to be passed
    /// on. Messages sent from the primary device are not: they are our own.
    pub fn process_content(&self, content: &SignalContent) -> (r: Option<ChannelMessage>)
        ensures
            r is Some <==> self@.accepts(*content),
            r matches Some(message) ==> self@.passes_on(*content, message),
    {
        let message = match &content.body {
            ContentBody::DataMessage(message) => message,
            _ => {
                return None;
            },
        };
        let text = match message.text() {
            Some(text) => text,
            None => {
                return None;
            },
        };
        match screen(content, message, &self.allowed_from, &self.group_filter) {
            Some(known) => Some(
                ChannelMessage {
                    id: known.id,
                    sender: known.sender,
                    reply_target: known.reply_address,
                    content: text,
                    channel: "signal-native".to_owned(),
                    timestamp: content.timestamp / 1000,
                    thread_ts: None,
                    interruption_scope_id: None,
                    attachments: Vec::new(),
                },
            ),
            None => None,
        }
    }

    /// The next thing to do while listening for messages.
    ///
    /// A stream that does not open is tried again after ever longer waits; one
    /// that ends is opened again after the first wait.
    pub fn listen(&self, retry: &mut Backoff, event: ListenEvent) -> (action: ListenAction)
        ensures
            final(retry)@ == match event {
                ListenEvent::Opened => FIRST_DELAY as nat,
                ListenEvent::OpenFailed => doubled(old(retry)@),
                _ => old(retry)@,
            },
            match event {
                ListenEvent::Due => if self@.manager_loaded {
                    action is Open
                } else {
                    action == ListenAction::Fail(SignalNativeError::NotLinked)
                },
                ListenEvent::Opened => action is Read,
                ListenEvent::OpenFailed => action matches ListenAction::Wait(seconds) && seconds
                    == old(retry)@,
                ListenEvent::QueueEmpty => action is Read,
                ListenEvent::Contacts => action is Read,
                ListenEvent::Content(content) => if self@.accepts(content) {
                    action matches ListenAction::Deliver(message) && self@.passes_on(
                        content,
                        message,
                    )
                } else {
                    action is Read
                },
                ListenEvent::Taken => action is Read,
                ListenEvent::ReceiverDropped => action is Stop,
                ListenEvent::Ended => action == ListenAction::Wait(FIRST_DELAY),
            },
            action matches ListenAction::Wait(seconds) ==> FIRST_DELAY <= seconds <= MAX_DELAY,
    {
        match event {
            ListenEvent::Due => if self.manager_loaded {
                ListenAction::Open
            } else {
                ListenAction::Fail(SignalNativeError::NotLinked)
            },
            ListenEvent::Opened => {
                retry.reset();
                ListenAction::Read
            },
            ListenEvent::OpenFailed => ListenAction::Wait(retry.next_delay()),
            ListenEvent::QueueEmpty => ListenAction::Read,
            ListenEvent::Contacts => ListenAction::Read,
            ListenEvent::Content(content) => match self.process_content(&content) {
                Some(message) => ListenAction::Deliver(message),
                None => ListenAction::Read,
            },
            ListenEvent::Taken => ListenAction::Read,
            ListenEvent::ReceiverDropped => ListenAction::Stop,
            ListenEvent::Ended => ListenAction::Wait(FIRST_DELAY),
        }
    }
}

/// An answer to a message that was passed on goes back to where the message
/// came from.
pub proof fn law_answer_goes_back(
    channel: ChannelView,
    content: SignalContent,
    message: ChannelMessage,
)
    requires
        channel.passes_on(content, message),
        content.spec_reply_target() matches TargetView::Group(key) ==> key.len() == 32,
    ensures
        readable_recipient(message.reply_target@),
        recipient_of(message.reply_target@) == Ok::<TargetView, Seq<char>>(
            content.spec_reply_target(),
        ),
{
    law_reply_reaches_origin(content);
}

/// A channel passes on exactly the messages with text that its list and its
/// filter let through; whether its device is loaded and where its database is
/// makes no difference.
pub proof fn law_channel_passes_text_on(
    channel: ChannelView,
    content: SignalContent,
    message: DataMessage,
)
    requires
        content.body == ContentBody::DataMessage(message),
    ensures
        channel.accepts(content) <==> (message.body matches Some(body) && body@.len() > 0
            && content.spec_admitted(channel.allowed_from, channel.group_filter)),
{
}

/// A channel passes nothing on but messages from somebody.
pub proof fn law_channel_passes_only_messages_on(channel: ChannelView, content: SignalContent)
    requires
        content.body is SynchronizeMessage || content.body is Other,
    ensures
        !channel.accepts(content),
{
}

/// A message is passed on with its own text, its sender's UUID, the address
/// for answers, its name, and the full seconds of the time it was sent.
pub proof fn law_what_is_passed_on(
    channel: ChannelView,
    content: SignalContent,
    message: DataMessage,
    passed: ChannelMessage,
)
    requires
        content.body == ContentBody::DataMessage(message),
        channel.passes_on(content, passed),
    ensures
        message.body matches Some(body) && passed.content@ == body@,
        passed.sender@ == hyphenated(content.sender.aci@),
        passed.reply_target@ == content.spec_reply_address(),
        passed.id@ == content.spec_id(),
        passed.channel@ == "signal-native"@,
        1000 * passed.timestamp <= content.timestamp < 1000 * passed.timestamp + 1000,
        passed.thread_ts is None,
        passed.interruption_scope_id is None,
        passed.attachments@ == Seq::<MediaAttachment>::empty(),
{
    assert(passed.attachments@ =~= Seq::<MediaAttachment>::empty());
}

/// When no device can be loaded the user is told from where, what to do, and
/// the cause.
pub proof fn law_user_is_told_why_nothing_is_loaded(db_path: Seq<char>, cause: Seq<char>)
    ensures
        not_linked_text(db_path, cause) == "signal-native: no linked device found at "@ + db_path
            + ". Run the `link` binary first to link this device. Original error: "@ + cause,
        has_suffix(not_linked_text(db_path, cause), cause),
{
    let whole = not_linked_text(db_path, cause);
    assert(whole.skip(whole.len() - cause.len()) =~= cause);
}

} // verus!
