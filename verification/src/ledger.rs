//! The message ledger: the incremental diffing of freshly fetched pages
//! against what has already been accepted.
//!
//! The ledger remembers the id of the newest message it has ever accepted
//! (the watermark, the empty string while nothing was accepted yet). A
//! fetched page arrives oldest first, newest last. Reconciling a page
//! walks it from newest to oldest and collects messages until one carries
//! the watermark id; that message and everything older is already known.
//! If the watermark id does not occur in the page — the first run, or more
//! than a fetch window's worth of messages arrived since the last poll —
//! the whole page is treated as new. That full re-emit is a documented
//! over-notification risk inherent to the fixed-window fetch, not a defect
//! to special-case away.

use vstd::prelude::*;

use crate::model::Message;

verus! {

/// The subsequence of `fetched` (oldest first) that lies strictly after
/// the last occurrence of the watermark id, or all of `fetched` when no
/// message carries that id.
pub open spec fn new_suffix(fetched: Seq<Message>, watermark: Seq<char>) -> Seq<Message>
    decreases fetched.len(),
{
    if fetched.len() == 0 {
        fetched
    } else if fetched.last().id@ == watermark {
        Seq::empty()
    } else {
        new_suffix(fetched.drop_last(), watermark).push(fetched.last())
    }
}

/// `new_suffix` is the subrange that starts right after the rightmost
/// occurrence of the watermark id (at the start when there is none).
proof fn lemma_new_suffix_cut(fetched: Seq<Message>, watermark: Seq<char>, cut: int)
    requires
        0 <= cut <= fetched.len(),
        forall|k: int| cut <= k < fetched.len() ==> fetched[k].id@ != watermark,
        cut > 0 ==> fetched[cut - 1].id@ == watermark,
    ensures
        new_suffix(fetched, watermark) =~= fetched.subrange(cut, fetched.len() as int),
    decreases fetched.len(),
{
    if fetched.len() == 0 {
    } else if cut == fetched.len() {
        assert(fetched.last().id@ == watermark);
    } else {
        assert(fetched.last().id@ != watermark);
        lemma_new_suffix_cut(fetched.drop_last(), watermark, cut);
        assert(fetched.drop_last().subrange(cut, fetched.len() - 1).push(fetched.last()) =~= fetched
            .subrange(cut, fetched.len() as int));
    }
}

/// Reconciling the same non-empty page a second time, with the watermark
/// the first pass left behind (the page's newest id), classifies nothing
/// as new; and since the page is unchanged, the second pass sets the
/// watermark to that same newest id again.
pub proof fn lemma_reconcile_idempotent(fetched: Seq<Message>)
    requires
        fetched.len() > 0,
    ensures
        new_suffix(fetched, fetched.last().id@) == Seq::<Message>::empty(),
{
}

/// A page none of whose ids equals the watermark is returned whole, in
/// fetched (oldest first) order.
pub proof fn lemma_reconcile_all_new(fetched: Seq<Message>, watermark: Seq<char>)
    requires
        forall|i: int| 0 <= i < fetched.len() ==> fetched[i].id@ != watermark,
    ensures
        new_suffix(fetched, watermark) == fetched,
{
    lemma_new_suffix_cut(fetched, watermark, 0);
    assert(fetched.subrange(0, fetched.len() as int) =~= fetched);
}

/// The ledger: the latest reconciled snapshot together with the watermark.
#[derive(Clone, Debug)]
pub struct MessageStore {
    /// The messages the last non-empty reconciliation classified as new,
    /// oldest first.
    pub messages: Vec<Message>,
    /// The id of the newest message of the last non-empty page, or the
    /// empty string while no page was reconciled yet.
    pub last_new_message_id: String,
}

impl MessageStore {
    /// An empty ledger: no snapshot, watermark unset.
    pub fn new() -> (store: MessageStore)
        ensures
            store.messages@ == Seq::<Message>::empty(),
            store.last_new_message_id@ == Seq::<char>::empty(),
    {
        MessageStore { messages: Vec::new(), last_new_message_id: String::new() }
    }

    /// The pure diff: the subsequence of `messages` that lies after the
    /// last occurrence of the current watermark id, oldest first. The
    /// ledger itself is not touched.
    pub fn transform_messages(&self, messages: Vec<Message>) -> (news: Vec<Message>)
        ensures
            news@ == new_suffix(messages@, self.last_new_message_id@),
    {
        let ghost fetched = messages@;
        let ghost watermark = self.last_new_message_id@;
        if messages.len() == 0 {
            return Vec::new();
        }
        let mut messages = messages;
        let mut i: usize = messages.len();
        let mut cut: usize = 0;
        let mut found: bool = false;
        while i > 0 && !found
            invariant
                messages@ == fetched,
                watermark == self.last_new_message_id@,
                i <= fetched.len(),
                !found ==> cut == 0,
                !found ==> forall|k: int| i <= k < fetched.len() ==> fetched[k].id@ != watermark,
                found ==> cut == i + 1 && i < fetched.len() && fetched[i as int].id@ == watermark,
                found ==> forall|k: int| i + 1 <= k < fetched.len() ==> fetched[k].id@ != watermark,
            decreases i,
        {
            i = i - 1;
            let id_ref: &String = &messages[i].id;
            if *id_ref == self.last_new_message_id {
                found = true;
                cut = i + 1;
            }
        }
        proof {
            lemma_new_suffix_cut(fetched, watermark, cut as int);
        }
        let news = messages.split_off(cut);
        assert(news@ =~= new_suffix(fetched, watermark));
        news
    }

    /// One reconciliation step: store the diff of `messages` against the
    /// current watermark as the new snapshot and advance the watermark to
    /// the id of the page's newest message. An empty page leaves the
    /// ledger unchanged: there is no new data this cycle.
    pub fn set_messages(&mut self, messages: Vec<Message>)
        ensures
            messages@.len() == 0 ==> *final(self) == *old(self),
            messages@.len() > 0 ==> final(self).messages@ == new_suffix(
                messages@,
                old(self).last_new_message_id@,
            ),
            messages@.len() > 0 ==> final(self).last_new_message_id == messages@.last().id,
    {
        if messages.len() == 0 {
            return ;
        }
        let last_id = messages[messages.len() - 1].id.clone();
        let news = self.transform_messages(messages);
        self.messages = news;
        self.last_new_message_id = last_id;
    }
}

} // verus!
