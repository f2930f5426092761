//! From the bridge to Signal.

use crate::bridge::protocol::BridgeOutbound;
use crate::identity::{uuid_of, ServiceId};
use crate::recipient::{
    group_prefix, parse_recipient, readable_recipient, recipient_of, RecipientTarget, TargetView,
};
use crate::text::{has_prefix, opt_view, same_text};
use vstd::prelude::*;
use vstd::string::*;

verus! {

/// What an event of the bridge asks for on the Signal side.
#[derive(Debug, Clone, PartialEq, Eq)]
pub enum OutboundAction {
    /// Nothing.
    Nothing,
    /// To send a text.
    Send { target: RecipientTarget, text: String },
    /// To show somebody that the assistant types.
    Typing { to: ServiceId },
}

/// An action as contracts speak of it.
pub enum ActionView {
    Nothing,
    Send(TargetView, Seq<char>),
    Typing(Seq<u8>),
}

impl View for OutboundAction {
    type V = ActionView;

    open spec fn view(&self) -> ActionView {
        match self {
            OutboundAction::Nothing => ActionView::Nothing,
            OutboundAction::Send { target, text } => ActionView::Send(target@, text@),
            OutboundAction::Typing { to } => ActionView::Typing(to.aci@),
        }
    }
}

/// The Signal address that a recipient of the bridge stands for: itself, if
/// it names somebody on Signal; else the last one that a message came from.
pub open spec fn resolved(recipient: Seq<char>, last_sender: Option<Seq<char>>) -> Result<
    Seq<char>,
    Seq<char>,
> {
    if recipient_of(recipient) is Ok {
        Ok(recipient)
    } else {
        match last_sender {
            Some(sender) => Ok(sender),
            None => Err(
                "cannot route reply to '"@ + recipient + "': no Signal sender known yet"@,
            ),
        }
    }
}

/// Whom a message to a recipient of the bridge goes to.
pub open spec fn routed(recipient: Seq<char>, last_sender: Option<Seq<char>>) -> Result<
    TargetView,
    Seq<char>,
> {
    match resolved(recipient, last_sender) {
        Ok(address) => recipient_of(address),
        Err(why) => Err(why),
    }
}

/// Whether a recipient of the bridge and the address that it stands for can be
/// read.
pub open spec fn routes_readably(recipient: Seq<char>, last_sender: Option<Seq<char>>) -> bool {
    &&& readable_recipient(recipient)
    &&& resolved(recipient, last_sender) matches Ok(address) ==> readable_recipient(address)
}

/// The recipient that an event is to be routed to, if it is one that reaches
/// somebody on Signal. A finished draft goes to whoever wrote last.
pub open spec fn routed_recipient(event: BridgeOutbound) -> Option<Seq<char>> {
    match event {
        BridgeOutbound::Message { recipient, .. } => Some(recipient@),
        BridgeOutbound::Typing { recipient, active } => if active {
            Some(recipient@)
        } else {
            None
        },
        BridgeOutbound::Draft { event, text, .. } => if event@ == "finalize"@ && text is Some {
            Some("signal"@)
        } else {
            None
        },
        _ => None,
    }
}

/// Whether the recipients that an event involves can be read.
pub open spec fn event_is_readable(event: BridgeOutbound, last_sender: Option<Seq<char>>) -> bool {
    routed_recipient(event) matches Some(recipient) ==> routes_readably(recipient, last_sender)
}

/// What sending a text to a recipient of the bridge comes to.
pub open spec fn sending(
    recipient: Seq<char>,
    last_sender: Option<Seq<char>>,
    text: Seq<char>,
) -> Result<ActionView, Seq<char>> {
    match routed(recipient, last_sender) {
        Ok(target) => Ok(ActionView::Send(target, text)),
        Err(why) => Err(why),
    }
}

/// What an event comes to on the Signal side: messages and finished drafts
/// are sent, typing is shown to a single person, the rest needs nothing.
pub open spec fn outcome(event: BridgeOutbound, last_sender: Option<Seq<char>>) -> Result<
    ActionView,
    Seq<char>,
> {
    match event {
        BridgeOutbound::Message { recipient, content, .. } => sending(
            recipient@,
            last_sender,
            content@,
        ),
        BridgeOutbound::Typing { recipient, active } => if active {
            match routed(recipient@, last_sender) {
                Ok(TargetView::Direct(aci)) => Ok(ActionView::Typing(aci)),
                _ => Ok(ActionView::Nothing),
            }
        } else {
            Ok(ActionView::Nothing)
        },
        BridgeOutbound::Draft { event, text, .. } => match text {
            Some(text) => if event@ == "finalize"@ {
                sending("signal"@, last_sender, text@)
            } else {
                Ok(ActionView::Nothing)
            },
            None => Ok(ActionView::Nothing),
        },
        _ => Ok(ActionView::Nothing),
    }
}

/// The Signal address that a recipient of the bridge stands for.
pub fn resolve_recipient(recipient: &str, last_sender: &Option<String>) -> (r: Result<
    String,
    String,
>)
    requires
        readable_recipient(recipient@),
    ensures
        match r {
            Ok(address) => resolved(recipient@, opt_view(*last_sender)) == Ok::<
                Seq<char>,
                Seq<char>,
            >(address@),
            Err(why) => resolved(recipient@, opt_view(*last_sender)) == Err::<
                Seq<char>,
                Seq<char>,
            >(why@),
        },
{
    match parse_recipient(recipient) {
        Ok(_) => Ok(recipient.to_owned()),
        Err(_) => match last_sender {
            Some(sender) => Ok(sender.clone()),
            None => {
                let mut why = "cannot route reply to '".to_owned();
                why.append(recipient);
                why.append("': no Signal sender known yet");
                Err(why)
            },
        },
    }
}

fn route(recipient: &str, last_sender: &Option<String>) -> (r: Result<RecipientTarget, String>)
    requires
        routes_readably(recipient@, opt_view(*last_sender)),
    ensures
        match r {
            Ok(target) => routed(recipient@, opt_view(*last_sender)) == Ok::<TargetView, Seq<char>>(
                target@,
            ),
            Err(why) => routed(recipient@, opt_view(*last_sender)) == Err::<TargetView, Seq<char>>(
                why@,
            ),
        },
{
    match resolve_recipient(recipient, last_sender) {
        Ok(address) => parse_recipient(address.as_str()),
        Err(why) => Err(why),
    }
}

/// What to do on the Signal side about an event of the bridge.
pub fn handle_outbound_event(event: BridgeOutbound, last_sender: &Option<String>) -> (r: Result<
    OutboundAction,
    String,
>)
    requires
        event_is_readable(event, opt_view(*last_sender)),
    ensures
        match r {
            Ok(action) => outcome(event, opt_view(*last_sender)) == Ok::<ActionView, Seq<char>>(
                action@,
            ),
            Err(why) => outcome(event, opt_view(*last_sender)) == Err::<ActionView, Seq<char>>(
                why@,
            ),
        },
{
    match event {
        BridgeOutbound::Message { recipient, content, .. } => match route(
            recipient.as_str(),
            last_sender,
        ) {
            Ok(target) => Ok(OutboundAction::Send { target, text: content }),
            Err(why) => Err(why),
        },
        BridgeOutbound::Typing { recipient, active } => {
            if !active {
                return Ok(OutboundAction::Nothing);
            }
            match route(recipient.as_str(), last_sender) {
                Ok(RecipientTarget::Direct(to)) => Ok(OutboundAction::Typing { to }),
                _ => Ok(OutboundAction::Nothing),
            }
        },
        BridgeOutbound::Draft { event, text, .. } => match text {
            Some(text) => {
                if !same_text(event.as_str(), "finalize") {
                    return Ok(OutboundAction::Nothing);
                }
                match route("signal", last_sender) {
                    Ok(target) => Ok(OutboundAction::Send { target, text }),
                    Err(why) => Err(why),
                }
            },
            None => Ok(OutboundAction::Nothing),
        },
        _ => Ok(OutboundAction::Nothing),
    }
}

/// A recipient that names somebody on Signal is reached, whoever wrote last.
pub proof fn law_signal_address_is_kept(recipient: Seq<char>, last_sender: Option<Seq<char>>)
    requires
        recipient_of(recipient) is Ok,
    ensures
        routed(recipient, last_sender) == recipient_of(recipient),
{
}

/// The name `signal`, under which adapters register, names nobody on Signal:
/// what is sent to it goes to whoever wrote last.
pub proof fn law_adapter_name_goes_to_last_sender(last_sender: Seq<char>)
    ensures
        resolved("signal"@, Some(last_sender)) == Ok::<Seq<char>, Seq<char>>(last_sender),
        resolved("signal"@, None) is Err,
{
    reveal_strlit("signal");
    reveal_strlit("group:");
    if has_prefix("signal"@, group_prefix()) {
        assert("signal"@.take(6)[0] == 's');
    }
    assert(uuid_of("signal"@) is None);
}

/// Reactions, acknowledgements, signs of life, notices of the bridge, typing
/// that has stopped and drafts that are not finished ask for nothing.
pub proof fn law_other_events_need_nothing(event: BridgeOutbound, last_sender: Option<Seq<char>>)
    requires
        routed_recipient(event) is None,
    ensures
        outcome(event, last_sender) == Ok::<ActionView, Seq<char>>(ActionView::Nothing),
{
}

/// A message of the bridge whose recipient names somebody on Signal is sent to
/// that recipient, with its whole text, whoever wrote last.
pub proof fn law_named_recipient_gets_the_message(
    event: BridgeOutbound,
    recipient: String,
    content: String,
    target: TargetView,
    last_sender: Option<Seq<char>>,
)
    requires
        event is Message,
        event->Message_recipient == recipient,
        event->Message_content == content,
        recipient_of(recipient@) == Ok::<TargetView, Seq<char>>(target),
    ensures
        outcome(event, last_sender) == Ok::<ActionView, Seq<char>>(
            ActionView::Send(target, content@),
        ),
{
}

/// A message of the bridge whose recipient names nobody on Signal is sent to
/// whoever wrote last, with its whole text; before anybody has written it goes
/// nowhere, and the error names the recipient.
pub proof fn law_other_recipients_mean_the_last_sender(
    event: BridgeOutbound,
    recipient: String,
    content: String,
    sender: Seq<char>,
)
    requires
        event is Message,
        event->Message_recipient == recipient,
        event->Message_content == content,
        recipient_of(recipient@) is Err,
    ensures
        match recipient_of(sender) {
            Ok(target) => outcome(event, Some(sender)) == Ok::<ActionView, Seq<char>>(
                ActionView::Send(target, content@),
            ),
            Err(why) => outcome(event, Some(sender)) == Err::<ActionView, Seq<char>>(why),
        },
        outcome(event, None) == Err::<ActionView, Seq<char>>(
            "cannot route reply to '"@ + recipient@ + "': no Signal sender known yet"@,
        ),
{
}

/// Typing is shown to whom a message to the same recipient would go, if that
/// is one account; it never fails, and nothing is shown once it has stopped.
pub proof fn law_typing_goes_where_messages_go(
    typing: BridgeOutbound,
    message: BridgeOutbound,
    last_sender: Option<Seq<char>>,
)
    requires
        typing is Typing,
        message is Message,
        typing->Typing_recipient == message->Message_recipient,
    ensures
        !typing->active ==> outcome(typing, last_sender) == Ok::<ActionView, Seq<char>>(
            ActionView::Nothing,
        ),
        typing->active ==> outcome(typing, last_sender) == (match outcome(message, last_sender) {
            Ok(ActionView::Send(TargetView::Direct(aci), _)) => Ok::<ActionView, Seq<char>>(
                ActionView::Typing(aci),
            ),
            _ => Ok(ActionView::Nothing),
        }),
{
}

/// A finished draft with a text is sent to whoever wrote last, whatever
/// recipient it carries; a draft that is not finished, or has no text, asks
/// for nothing.
pub proof fn law_drafts(
    draft: BridgeOutbound,
    sender: Seq<char>,
    last_sender: Option<Seq<char>>,
)
    requires
        draft is Draft,
    ensures
        draft->event@ == "finalize"@ && draft->Draft_text is Some ==> match recipient_of(sender) {
            Ok(target) => outcome(draft, Some(sender)) == Ok::<ActionView, Seq<char>>(
                ActionView::Send(target, draft->Draft_text->0@),
            ),
            Err(why) => outcome(draft, Some(sender)) == Err::<ActionView, Seq<char>>(why),
        },
        draft->event@ == "finalize"@ && draft->Draft_text is Some ==> outcome(draft, None) is Err,
        draft->event@ != "finalize"@ || draft->Draft_text is None ==> outcome(draft, last_sender)
            == Ok::<ActionView, Seq<char>>(ActionView::Nothing),
{
    law_adapter_name_goes_to_last_sender(sender);
}

/// What the bridge tells of itself asks for nothing on Signal.
pub proof fn law_notices_ask_for_nothing(event: BridgeOutbound, last_sender: Option<Seq<char>>)
    requires
        event is Ready || event is Error || event is Reaction || event is Ack || event is Pong,
    ensures
        outcome(event, last_sender) == Ok::<ActionView, Seq<char>>(ActionView::Nothing),
{
}

/// Every recipient and every last sender that can be read can be routed to.
pub proof fn law_readable_recipients_are_routed(
    event: BridgeOutbound,
    last_sender: Option<Seq<char>>,
)
    requires
        last_sender matches Some(sender) ==> readable_recipient(sender),
        event is Message ==> readable_recipient(event->Message_recipient@),
        event is Typing ==> readable_recipient(event->Typing_recipient@),
    ensures
        event_is_readable(event, last_sender),
{
    law_adapter_name_goes_to_last_sender(Seq::empty());
    reveal_strlit("signal");
    reveal_strlit("group:");
    if has_prefix("signal"@, group_prefix()) {
        assert("signal"@.take(6)[0] == 's');
    }
}

/// An action is seen with its whole text and its whole target.
pub proof fn law_action_is_seen_whole(action: OutboundAction)
    ensures
        match action {
            OutboundAction::Nothing => action@ == ActionView::Nothing,
            OutboundAction::Send { target, text } => action@ == ActionView::Send(target@, text@),
            OutboundAction::Typing { to } => action@ == ActionView::Typing(to.aci@),
        },
{
}

/// A recipient stands for itself if it names somebody on Signal, and else for
/// whoever wrote last, if anybody has.
pub proof fn law_what_a_recipient_stands_for(recipient: Seq<char>, sender: Seq<char>)
    ensures
        recipient_of(recipient) is Ok ==> resolved(recipient, Some(sender)) == Ok::<
            Seq<char>,
            Seq<char>,
        >(recipient) && resolved(recipient, None) == Ok::<Seq<char>, Seq<char>>(recipient),
        recipient_of(recipient) is Err ==> resolved(recipient, Some(sender)) == Ok::<
            Seq<char>,
            Seq<char>,
        >(sender) && resolved(recipient, None) == Err::<Seq<char>, Seq<char>>(
            "cannot route reply to '"@ + recipient + "': no Signal sender known yet"@,
        ),
{
}

} // verus!
