//! One broadcast in progress: the text, who it goes to, and how far the
//! writes have come.
//!
//! The caller writes to the recipient that [`Broadcast::next_recipient`]
//! names and reports how the write ended with [`Broadcast::record`]. A failed
//! write is noted and the broadcast moves on.

use vstd::prelude::*;
use vstd::string::StringSliceAdditionalSpecFns;
use vstd::utf8::encode_utf8;
use crate::event::Identity;

verus! {

/// How a write to one recipient ended.
#[derive(Clone, Copy, Debug, PartialEq, Eq, Structural)]
pub enum WriteOutcome {
    /// The recipient's handle took the whole text.
    Written,
    /// The write failed.
    Failed,
}

/// The mathematical content of a [`Broadcast`].
pub ghost struct BroadcastView {
    /// What is relayed.
    pub text: Seq<char>,
    /// Who it is relayed to, in the order of the writes.
    pub recipients: Seq<Identity>,
    /// How many of `recipients`, from the front, have been written to.
    pub attempted: nat,
    /// Those among the first `attempted` whose write failed, in order.
    pub failed: Seq<Identity>,
}

impl BroadcastView {
    /// A broadcast of `text` to `recipients` before the first write.
    pub open spec fn fresh(text: Seq<char>, recipients: Seq<Identity>) -> BroadcastView {
        BroadcastView { text, recipients, attempted: 0, failed: Seq::empty() }
    }

    /// The recipient of the next write, if one is left.
    pub open spec fn current(self) -> Option<Identity> {
        if self.attempted < self.recipients.len() {
            Some(self.recipients[self.attempted as int])
        } else {
            None
        }
    }

    /// Whether every recipient has been written to.
    pub open spec fn complete(self) -> bool {
        self.attempted >= self.recipients.len()
    }

    /// The broadcast after the write to `current()` ended in `outcome`.
    /// With no recipient left there was no write, and nothing changes.
    pub open spec fn record(self, outcome: WriteOutcome) -> BroadcastView {
        match self.current() {
            None => self,
            Some(recipient) => BroadcastView {
                attempted: self.attempted + 1,
                failed: if outcome is Failed {
                    self.failed.push(recipient)
                } else {
                    self.failed
                },
                ..self
            },
        }
    }

    /// The broadcast after one `record` for each of `outcomes`, in order.
    pub open spec fn record_all(self, outcomes: Seq<WriteOutcome>) -> BroadcastView
        decreases outcomes.len(),
    {
        if outcomes.len() == 0 {
            self
        } else {
            self.record_all(outcomes.drop_last()).record(outcomes.last())
        }
    }
}

/// The recipients, among the first `n`, whose write failed according to
/// `outcomes`, in order.
pub open spec fn missed(recipients: Seq<Identity>, outcomes: Seq<WriteOutcome>, n: nat) -> Seq<
    Identity,
>
    decreases n,
{
    if n == 0 {
        Seq::empty()
    } else {
        let before = missed(recipients, outcomes, (n - 1) as nat);
        if outcomes[n - 1] is Failed {
            before.push(recipients[n - 1])
        } else {
            before
        }
    }
}

/// A broadcast in progress.
pub struct Broadcast {
    text: String,
    recipients: Vec<Identity>,
    attempted: usize,
    failed: Vec<Identity>,
}

impl View for Broadcast {
    type V = BroadcastView;

    closed spec fn view(&self) -> BroadcastView {
        BroadcastView {
            text: self.text@,
            recipients: self.recipients@,
            attempted: self.attempted as nat,
            failed: self.failed@,
        }
    }
}

impl Broadcast {
    /// A broadcast of `text` to `recipients`, before the first write.
    pub fn new(text: String, recipients: Vec<Identity>) -> (broadcast: Broadcast)
        ensures
            broadcast@ == BroadcastView::fresh(text@, recipients@),
    {
        Broadcast { text, recipients, attempted: 0, failed: Vec::new() }
    }

    /// The text to write, unchanged from the message that started the
    /// broadcast.
    pub fn text(&self) -> (text: &str)
        ensures
            text@ == self@.text,
    {
        self.text.as_str()
    }

    /// The bytes to write to each recipient: the text in UTF-8, with nothing
    /// before it and nothing after.
    pub fn payload(&self) -> (bytes: &[u8])
        ensures
            bytes@ == encode_utf8(self@.text),
    {
        self.text.as_str().as_bytes()
    }

    /// Everyone the broadcast goes to, in the order of the writes.
    pub fn recipients(&self) -> (recipients: &Vec<Identity>)
        ensures
            recipients@ == self@.recipients,
    {
        &self.recipients
    }

    /// How many recipients have been written to so far.
    pub fn attempted(&self) -> (n: usize)
        ensures
            n == self@.attempted,
    {
        self.attempted
    }

    /// The recipients whose write failed so far, in order.
    pub fn failed(&self) -> (failed: &Vec<Identity>)
        ensures
            failed@ == self@.failed,
    {
        &self.failed
    }

    /// The recipient to write to now, or `None` when all have had their
    /// write.
    pub fn next_recipient(&self) -> (next: Option<Identity>)
        ensures
            next == self@.current(),
    {
        if self.attempted < self.recipients.len() {
            Some(self.recipients[self.attempted])
        } else {
            None
        }
    }

    /// Whether every recipient has had its write.
    pub fn is_complete(&self) -> (done: bool)
        ensures
            done == self@.complete(),
    {
        self.attempted >= self.recipients.len()
    }

    /// Reports how the write to `next_recipient()` ended. Whatever the
    /// outcome, the broadcast moves on to the recipient after it; a failure
    /// is noted in `failed()`. With no recipient left, nothing changes.
    pub fn record(&mut self, outcome: WriteOutcome)
        ensures
            final(self)@ == old(self)@.record(outcome),
    {
        if self.attempted < self.recipients.len() {
            let recipient = self.recipients[self.attempted];
            match outcome {
                WriteOutcome::Failed => {
                    self.failed.push(recipient);
                },
                WriteOutcome::Written => {},
            }
            self.attempted = self.attempted + 1;
        }
    }
}

/// A failed write stops nothing: after any outcomes of the writes so far,
/// the next write goes to the next recipient in line, until each recipient
/// has had exactly one. `failed` holds those whose write failed, and the
/// text and the recipients never change.
pub proof fn lemma_failures_do_not_stop_delivery(
    text: Seq<char>,
    recipients: Seq<Identity>,
    outcomes: Seq<WriteOutcome>,
)
    ensures
        ({
            let after = BroadcastView::fresh(text, recipients).record_all(outcomes);
            let n = if outcomes.len() <= recipients.len() {
                outcomes.len()
            } else {
                recipients.len()
            };
            &&& after.text == text
            &&& after.recipients == recipients
            &&& after.attempted == n
            &&& after.failed == missed(recipients, outcomes, n)
            &&& after.current() == if outcomes.len() < recipients.len() {
                Some(recipients[outcomes.len() as int])
            } else {
                None
            }
        }),
    decreases outcomes.len(),
{
    if outcomes.len() > 0 {
        lemma_failures_do_not_stop_delivery(text, recipients, outcomes.drop_last());
        let m = recipients.len();
        if outcomes.len() > m {
            lemma_missed_reads_prefix(recipients, outcomes.drop_last(), outcomes, m);
        } else {
            lemma_missed_reads_prefix(
                recipients,
                outcomes.drop_last(),
                outcomes,
                (outcomes.len() - 1) as nat,
            );
        }
    }
}

/// `missed` reads the first `n` outcomes only.
proof fn lemma_missed_reads_prefix(
    recipients: Seq<Identity>,
    a: Seq<WriteOutcome>,
    b: Seq<WriteOutcome>,
    n: nat,
)
    requires
        n <= a.len(),
        n <= b.len(),
        forall|i: int| 0 <= i < n ==> a[i] == b[i],
    ensures
        missed(recipients, a, n) == missed(recipients, b, n),
    decreases n,
{
    if n > 0 {
        lemma_missed_reads_prefix(recipients, a, b, (n - 1) as nat);
    }
}

} // verus!
