//! Messages of rounds that are still to come.
//!
//! A node that lags a little behind keeps the messages of the next rounds
//! until it gets there. Messages too far ahead are dropped, and when the tip
//! moves the buffer is cut down to the new window.

use vstd::prelude::*;
use crate::config::OFFSET_FUTURE_MSGS;
use crate::message::Message;

verus! {

/// Whether `round` lies in the window of `offset` rounds from `start` on.
pub open spec fn in_window(round: u64, start: u64, offset: u64) -> bool {
    round >= start && round - start < offset
}

/// The first round of the window of a node whose tip is at `tip_height`.
pub open spec fn window_start(tip_height: u64) -> u64 {
    if tip_height == u64::MAX {
        u64::MAX
    } else {
        (tip_height + 1) as u64
    }
}

/// Whether a message of `round` is kept by a node whose tip is at
/// `tip_height`: the round is the next one or up to four above it.
pub open spec fn is_kept(round: u64, tip_height: u64) -> bool {
    in_window(round, window_start(tip_height), OFFSET_FUTURE_MSGS)
}

/// The messages among the first `k` that lie in the window, in order.
pub open spec fn retained(msgs: Seq<Message>, start: u64, offset: u64, k: int) -> Seq<Message>
    decreases k,
{
    if k <= 0 {
        Seq::empty()
    } else {
        let rest = retained(msgs, start, offset, k - 1);
        if in_window(msgs[k - 1].header.round, start, offset) {
            rest.push(msgs[k - 1])
        } else {
            rest
        }
    }
}

pub proof fn lemma_retained_in_window(msgs: Seq<Message>, start: u64, offset: u64, k: int)
    requires
        0 <= k <= msgs.len(),
    ensures
        retained(msgs, start, offset, k).len() <= k,
        forall|i: int|
            0 <= i < retained(msgs, start, offset, k).len() ==> in_window(
                (#[trigger] retained(msgs, start, offset, k)[i]).header.round,
                start,
                offset,
            ),
    decreases k,
{
    if k > 0 {
        lemma_retained_in_window(msgs, start, offset, k - 1);
    }
}

/// The buffer of future messages.
#[derive(Debug)]
pub struct FutureMsgs {
    pub msgs: Vec<Message>,
}

impl FutureMsgs {
    pub fn new() -> (f: FutureMsgs)
        ensures
            f.msgs@.len() == 0,
    {
        FutureMsgs { msgs: Vec::new() }
    }

    pub fn msg_count(&self) -> (n: usize)
        ensures
            n == self.msgs@.len(),
    {
        self.msgs.len()
    }

    /// Keeps the message if its round lies in the window of the tip, drops
    /// it otherwise, and says which.
    pub fn put_msg(&mut self, msg: Message, tip_height: u64) -> (kept: bool)
        ensures
            kept == is_kept(msg.header.round, tip_height),
            final(self).msgs@ == (if kept {
                old(self).msgs@.push(msg)
            } else {
                old(self).msgs@
            }),
    {
        let start = if tip_height == u64::MAX {
            u64::MAX
        } else {
            tip_height + 1
        };
        let round = msg.header.round;
        if round >= start && round - start < OFFSET_FUTURE_MSGS {
            self.msgs.push(msg);
            true
        } else {
            false
        }
    }

    /// Drops every message whose round lies outside the `offset` rounds
    /// from `start` on. The others stay in their order.
    pub fn remove_msgs_out_of_range(&mut self, start: u64, offset: u64)
        ensures
            final(self).msgs@ == retained(
                old(self).msgs@,
                start,
                offset,
                old(self).msgs@.len() as int,
            ),
    {
        let mut all: Vec<Message> = Vec::new();
        std::mem::swap(&mut all, &mut self.msgs);
        let ghost before = all@;
        let ghost n = before.len() as int;
        // the messages are taken from the back, so what is kept is gathered
        // in reverse and turned round at the end
        let mut reversed: Vec<Message> = Vec::new();
        while all.len() > 0
            invariant
                all@ == before.take(all@.len() as int),
                all@.len() <= n,
                n == before.len(),
                retained(before, start, offset, n) == retained(
                    before,
                    start,
                    offset,
                    all@.len() as int,
                ) + reversed@.reverse(),
            decreases all@.len(),
        {
            let ghost k = all@.len() as int;
            let ghost rev_before = reversed@;
            let msg = all.pop().unwrap();
            assert(msg == before[k - 1]);
            assert(all@ =~= before.take(k - 1));
            let round = msg.header.round;
            if round >= start && round - start < offset {
                reversed.push(msg);
                assert(reversed@.reverse() =~= seq![msg] + rev_before.reverse());
                assert(retained(before, start, offset, k) + rev_before.reverse() =~= retained(
                    before,
                    start,
                    offset,
                    k - 1,
                ) + reversed@.reverse());
            }
        }
        let ghost target = reversed@.reverse();
        assert(retained(before, start, offset, n) =~= target);
        let mut kept: Vec<Message> = Vec::new();
        while reversed.len() > 0
            invariant
                target == kept@ + reversed@.reverse(),
            decreases reversed@.len(),
        {
            let ghost rev_before = reversed@;
            let ghost kept_before = kept@;
            let msg = reversed.pop().unwrap();
            kept.push(msg);
            assert(rev_before.reverse() =~= seq![msg] + reversed@.reverse());
            assert(kept@ + reversed@.reverse() =~= kept_before + rev_before.reverse());
        }
        assert(kept@ =~= target);
        self.msgs = kept;
    }

    /// Cuts the buffer down to the window of a node whose tip is at
    /// `tip_height`.
    pub fn prune(&mut self, tip_height: u64)
        ensures
            final(self).msgs@ == retained(
                old(self).msgs@,
                window_start(tip_height),
                OFFSET_FUTURE_MSGS,
                old(self).msgs@.len() as int,
            ),
    {
        let start = if tip_height == u64::MAX {
            u64::MAX
        } else {
            tip_height + 1
        };
        self.remove_msgs_out_of_range(start, OFFSET_FUTURE_MSGS);
    }
}

} // verus!
