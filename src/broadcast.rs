//! One broadcast round: collects one message of the stage from each party.
use vstd::prelude::*;
use crate::primitives::AuthorityCount;

verus! {

/// Whether a stage has every message it waits for.
#[derive(PartialEq, Eq, Structural, Debug, Clone, Copy)]
pub enum ProcessMessageResult {
    Ready,
    NotReady,
}

/// A message of a protocol that says which stage it is typed for, by the
/// stage's position in the protocol.
pub trait StageMessage: Sized {
    spec fn spec_rank(&self) -> u8;

    fn rank(&self) -> (r: u8)
        ensures
            r == self.spec_rank(),
    ;
}

/// The messages of one stage collected so far: entry `k` holds what party
/// `k + 1` sent, once it has arrived.
pub struct BroadcastStage<M> {
    /// Position of the stage in its protocol.
    pub stage: u8,
    pub messages: Vec<Option<M>>,
}

/// All entries are filled.
pub open spec fn all_received<M>(s: Seq<Option<M>>) -> bool {
    forall|k: int| 0 <= k < s.len() ==> #[trigger] s[k] is Some
}

/// Increasing list of the parties (one-based) whose entry is still empty.
pub open spec fn awaited_list<M>(a: Seq<AuthorityCount>, s: Seq<Option<M>>) -> bool {
    &&& forall|i: int, j: int| 0 <= i < j < a.len() ==> a[i] < a[j]
    &&& forall|i: int| 0 <= i < a.len() ==> 1 <= #[trigger] a[i] <= s.len() && s[a[i] - 1] is None
    &&& forall|k: int| 0 <= k < s.len() && #[trigger] s[k] is None ==> a.contains((k + 1) as AuthorityCount)
}

/// The entries after a message `m` from `sender` is offered to a stage of
/// position `rank`: recorded if typed for the stage, from a party, and the
/// first from it.
pub open spec fn accept_step<M: StageMessage>(
    msgs: Seq<Option<M>>,
    rank: u8,
    sender: AuthorityCount,
    m: M,
) -> Seq<Option<M>> {
    if m.spec_rank() == rank && 1 <= sender <= msgs.len() && msgs[sender - 1] is None {
        msgs.update(sender - 1, Some(m))
    } else {
        msgs
    }
}

/// The entries after the messages `items` are offered one after another,
/// in order.
pub open spec fn feed<M: StageMessage>(
    msgs: Seq<Option<M>>,
    rank: u8,
    items: Seq<(AuthorityCount, M)>,
) -> Seq<Option<M>>
    decreases items.len(),
{
    if items.len() == 0 {
        msgs
    } else {
        feed(accept_step(msgs, rank, items[0].0, items[0].1), rank, items.skip(1))
    }
}

/// The entries of a stage that has received nothing from any of `n` parties.
pub open spec fn nothing_received<M>(n: nat) -> Seq<Option<M>> {
    Seq::new(n, |i: int| None)
}

impl<M: StageMessage> BroadcastStage<M> {
    /// Every stored message is typed for this stage.
    pub open spec fn wf(&self) -> bool {
        &&& self.messages@.len() <= u32::MAX
        &&& forall|k: int|
            0 <= k < self.messages@.len() ==> (#[trigger] self.messages@[k] matches Some(m)
                ==> m.spec_rank() == self.stage)
    }

    /// Whether a message from `sender` is recorded: it is typed for this
    /// stage, comes from a party, and is the first from that party.
    pub open spec fn accepts(&self, sender: AuthorityCount, m: M) -> bool {
        &&& m.spec_rank() == self.stage
        &&& 1 <= sender <= self.messages@.len()
        &&& self.messages@[sender - 1] is None
    }

    /// A stage with nothing received from any of `n` parties.
    pub fn new(stage: u8, n: AuthorityCount) -> (r: Self)
        ensures
            r.wf(),
            r.stage == stage,
            r.messages@.len() == n,
            forall|k: int| 0 <= k < n ==> #[trigger] r.messages@[k] is None,
            r.messages@ == nothing_received::<M>(n as nat),
    {
        let mut messages: Vec<Option<M>> = Vec::new();
        let mut k: u32 = 0;
        while k < n
            invariant
                k <= n,
                messages@.len() == k,
                forall|i: int| 0 <= i < k ==> #[trigger] messages@[i] is None,
            decreases n - k,
        {
            messages.push(None);
            k = k + 1;
        }
        assert(messages@ =~= nothing_received::<M>(n as nat));
        BroadcastStage { stage, messages }
    }

    /// Records `m` from `sender` if the stage accepts it, and says whether
    /// every party's message has now arrived. A message of another stage,
    /// from a non-party or repeating an earlier one is ignored.
    pub fn process_message(&mut self, sender: AuthorityCount, m: M) -> (r:
        ProcessMessageResult)
        requires
            old(self).wf(),
        ensures
            final(self).wf(),
            final(self).stage == old(self).stage,
            old(self).accepts(sender, m) ==> final(self).messages@ == old(self).messages@.update(
                sender - 1,
                Some(m),
            ),
            !old(self).accepts(sender, m) ==> final(self).messages@ == old(self).messages@,
            r is Ready <==> old(self).accepts(sender, m) && all_received(final(self).messages@),
            final(self).messages@ == accept_step(old(self).messages@, old(self).stage, sender, m),
    {
        if m.rank() != self.stage {
            return ProcessMessageResult::NotReady;
        }
        if sender < 1 || sender as usize > self.messages.len() {
            return ProcessMessageResult::NotReady;
        }
        let k = (sender - 1) as usize;
        if self.messages[k].is_some() {
            return ProcessMessageResult::NotReady;
        }
        self.messages.set(k, Some(m));
        if self.is_complete() {
            ProcessMessageResult::Ready
        } else {
            ProcessMessageResult::NotReady
        }
    }

    /// Whether every party's message has arrived.
    pub fn is_complete(&self) -> (r: bool)
        ensures
            r == all_received(self.messages@),
    {
        let mut k: usize = 0;
        while k < self.messages.len()
            invariant
                k <= self.messages@.len(),
                forall|i: int| 0 <= i < k ==> #[trigger] self.messages@[i] is Some,
            decreases self.messages@.len() - k,
        {
            if self.messages[k].is_none() {
                return false;
            }
            k = k + 1;
        }
        true
    }

    /// The parties whose messages are still missing, in increasing order.
    pub fn awaited_parties(&self) -> (r: Vec<AuthorityCount>)
        requires
            self.wf(),
        ensures
            awaited_list(r@, self.messages@),
            r@.len() == 0 <==> all_received(self.messages@),
    {
        let mut awaited: Vec<AuthorityCount> = Vec::new();
        let mut k: usize = 0;
        while k < self.messages.len()
            invariant
                self.wf(),
                k <= self.messages@.len(),
                forall|i: int, j: int| 0 <= i < j < awaited@.len() ==> awaited@[i] < awaited@[j],
                forall|i: int|
                    0 <= i < awaited@.len() ==> 1 <= #[trigger] awaited@[i] <= k
                        && self.messages@[awaited@[i] - 1] is None,
                forall|i: int|
                    0 <= i < k && #[trigger] self.messages@[i] is None ==> awaited@.contains(
                        (i + 1) as AuthorityCount,
                    ),
            decreases self.messages@.len() - k,
        {
            let ghost a0 = awaited@;
            if self.messages[k].is_none() {
                awaited.push((k + 1) as AuthorityCount);
            }
            proof {
                assert forall|i: int|
                    0 <= i < k + 1 && #[trigger] self.messages@[i] is None implies awaited@.contains(
                    (i + 1) as AuthorityCount,
                ) by {
                    if i == k {
                        assert(awaited@[awaited@.len() - 1] == (i + 1) as AuthorityCount);
                    } else {
                        let j = choose|j: int| 0 <= j < a0.len() && a0[j] == (i + 1) as AuthorityCount;
                        assert(awaited@[j] == a0[j]);
                    }
                }
            }
            k = k + 1;
        }
        proof {
            if awaited@.len() == 0 {
                assert forall|i: int| 0 <= i < self.messages@.len() implies #[trigger] self.messages@[i] is Some by {
                    if self.messages@[i] is None {
                        assert(awaited@.contains((i + 1) as AuthorityCount));
                    }
                }
            } else {
                assert(self.messages@[awaited@[0] - 1] is None);
            }
        }
        awaited
    }
}

} // verus!
