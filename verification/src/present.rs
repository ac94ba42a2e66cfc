//! Presenter decisions: what is rendered for a message, when a
//! notification trigger is emitted, and when the presentation tick
//! keeps rescheduling itself.
//!
//! The presenter consumes ledger snapshots on a fixed tick. Rendering
//! and notification display are outside the core; the decisions below
//! are what the core contributes to them.

use vstd::prelude::*;

use crate::model::Mention;
use crate::model::Message;
use crate::order::str_eq;

verus! {

/// A message warrants a notification trigger when its mention list's
/// first entry names the local user.
pub open spec fn mentions_user(message: Message, username: Seq<char>) -> bool {
    message.mentions@.len() > 0 && message.mentions@[0].screen_name@ == username
}

/// Decides whether rendering `message` also emits a notification
/// trigger for the local user.
pub fn should_notify(message: &Message, username: &str) -> (r: bool)
    ensures
        r == mentions_user(*message, username@),
{
    if message.mentions.len() > 0 {
        let first: &Mention = &message.mentions[0];
        str_eq(first.screen_name.as_str(), username)
    } else {
        false
    }
}

/// The line rendered for a message: the author's handle, then the text.
pub open spec fn message_line_spec(message: Message) -> Seq<char> {
    "@"@ + message.from_user.username@ + ": "@ + message.text@
}

/// Renders the one line shown for a message.
pub fn message_line(message: &Message) -> (line: String)
    ensures
        line@ == message_line_spec(*message),
{
    let mut line = String::from_str("@");
    line.append(message.from_user.username.as_str());
    line.append(": ");
    line.append(message.text.as_str());
    line
}

/// The body of the notification emitted for a message.
pub open spec fn notification_text_spec(message: Message) -> Seq<char> {
    "Message from user "@ + message.from_user.username@ + "!"@
}

/// Builds the notification body naming the message's author.
pub fn notification_text(message: &Message) -> (text: String)
    ensures
        text@ == notification_text_spec(*message),
{
    let mut text = String::from_str("Message from user ");
    text.append(message.from_user.username.as_str());
    text.append("!");
    text
}

/// What a presentation tick found on the snapshot channel.
pub enum SnapshotPoll {
    /// A snapshot was ready and has been taken.
    Ready,
    /// Nothing was ready this tick.
    Pending,
    /// The channel is permanently closed.
    Closed,
}

/// Whether the tick reschedules itself: it stops only once the snapshot
/// channel is permanently closed.
pub fn keep_polling(poll: &SnapshotPoll) -> (r: bool)
    ensures
        r == !(*poll is Closed),
{
    match poll {
        SnapshotPoll::Closed => false,
        SnapshotPoll::Ready => true,
        SnapshotPoll::Pending => true,
    }
}

} // verus!
