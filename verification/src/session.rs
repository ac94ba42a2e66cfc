//! The chat session: the currently selected room and the credential,
//! and the requests the transport workers perform on its behalf.
//!
//! The session itself makes no network call. It computes, from its
//! state, the resource a poll cycle fetches and the request an outgoing
//! message posts; the surrounding application performs them. A blank
//! (whitespace-only) outgoing text is dropped before any network call.

use vstd::prelude::*;

use crate::json::encode_text_body;
use crate::json::text_body;

verus! {

/// A whitespace character, as the message-text blank check counts them.
pub open spec fn is_space(c: char) -> bool {
    c == ' ' || c == '\t' || c == '\n' || c == '\r' || c == '\x0B' || c == '\x0C' || (c as u32)
        == 0x85 || (c as u32) == 0xA0 || (c as u32) == 0x1680 || (0x2000 <= (c as u32) && (c as u32)
        <= 0x200A) || (c as u32) == 0x2028 || (c as u32) == 0x2029 || (c as u32) == 0x202F || (
    c as u32) == 0x205F || (c as u32) == 0x3000
}

/// Empty or whitespace-only text.
pub open spec fn is_blank(s: Seq<char>) -> bool {
    forall|i: int| 0 <= i < s.len() ==> is_space(#[trigger] s[i])
}

/// The resource listing the most recent messages of a room; the fixed
/// window of 15 bounds how many new messages a poll cycle can see.
pub open spec fn messages_url_spec(room_id: Seq<char>) -> Seq<char> {
    "https://api.gitter.im/v1/rooms/"@ + room_id + "/chatMessages?limit=15"@
}

/// The resource an outgoing message is posted to.
pub open spec fn post_url_spec(room_id: Seq<char>) -> Seq<char> {
    "https://api.gitter.im/v1/rooms/"@ + room_id + "/chatMessages"@
}

fn is_space_char(c: char) -> (r: bool)
    ensures
        r == is_space(c),
{
    c == ' ' || c == '\t' || c == '\n' || c == '\r' || c == '\x0B' || c == '\x0C' || (c as u32)
        == 0x85 || (c as u32) == 0xA0 || (c as u32) == 0x1680 || (0x2000 <= (c as u32) && (c as u32)
        <= 0x200A) || (c as u32) == 0x2028 || (c as u32) == 0x2029 || (c as u32) == 0x202F || (
    c as u32) == 0x205F || (c as u32) == 0x3000
}

/// Whether the text is empty or all whitespace.
pub fn text_is_blank(text: &str) -> (r: bool)
    ensures
        r == is_blank(text@),
{
    let n = text.unicode_len();
    let mut i: usize = 0;
    while i < n
        invariant
            n == text@.len(),
            i <= n,
            forall|j: int| 0 <= j < i ==> is_space(#[trigger] text@[j]),
        decreases n - i,
    {
        let c = text.get_char(i);
        if !is_space_char(c) {
            assert(!is_space(text@[i as int]));
            return false;
        }
        i = i + 1;
    }
    true
}

/// An HTTP request the transport should perform: post `body` to `url`.
pub struct OutgoingRequest {
    pub url: String,
    pub body: String,
}

/// The mutable session state: the active room id and the auth token.
/// The token is immutable for the process lifetime; the room id is
/// replaced on each room-switch event.
#[derive(Clone)]
pub struct MessageHandler {
    pub current_room_id: String,
    pub token: String,
}

impl MessageHandler {
    /// A session for the given room, usually the first normalized room.
    pub fn new(room_id: &String, token: &String) -> (handler: MessageHandler)
        ensures
            handler.current_room_id == *room_id,
            handler.token == *token,
    {
        MessageHandler { current_room_id: room_id.clone(), token: token.clone() }
    }

    /// Selects another room; it takes effect for the next poll cycle.
    pub fn set_current_room_id(&mut self, id: String)
        ensures
            final(self).current_room_id == id,
            final(self).token == old(self).token,
    {
        self.current_room_id = id;
    }

    /// The resource a poll cycle fetches for the active room.
    pub fn messages_url(&self) -> (url: String)
        ensures
            url@ == messages_url_spec(self.current_room_id@),
    {
        let mut url = String::from_str("https://api.gitter.im/v1/rooms/");
        url.append(self.current_room_id.as_str());
        url.append("/chatMessages?limit=15");
        url
    }

    /// The resource an outgoing message for the active room is posted to.
    pub fn post_url(&self) -> (url: String)
        ensures
            url@ == post_url_spec(self.current_room_id@),
    {
        let mut url = String::from_str("https://api.gitter.im/v1/rooms/");
        url.append(self.current_room_id.as_str());
        url.append("/chatMessages");
        url
    }

    /// The request that sends `text` to the active room, or nothing when
    /// the text is blank: a blank message is silently dropped before any
    /// network call is made.
    pub fn outgoing_request(&self, text: &str) -> (request: Option<OutgoingRequest>)
        ensures
            request is Some <==> !is_blank(text@),
            request is Some ==> request->0.url@ == post_url_spec(self.current_room_id@),
            request is Some ==> request->0.body@ == text_body(text@),
    {
        if text_is_blank(text) {
            None
        } else {
            Some(OutgoingRequest { url: self.post_url(), body: encode_text_body(text) })
        }
    }
}

} // verus!
