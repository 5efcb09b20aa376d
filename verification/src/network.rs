//! What the network layer decides: where a message is routed, whether it is
//! sent on, and how long a request lives.

use vstd::prelude::*;
use crate::config::MAX_PENDING_SENDERS;
use crate::message::Metadata;

verus! {

/// Why a route could not be set.
#[derive(Clone, Copy, Debug, PartialEq, Eq, Structural)]
pub enum RouteError {
    /// The topic has no slot in the table.
    TopicOutOfRange,
}

/// The table of routes: for each topic the queue that takes its messages,
/// if there is one.
#[derive(Debug)]
pub struct Routes<Q> {
    slots: Vec<Option<Q>>,
}

impl<Q> View for Routes<Q> {
    type V = Seq<Option<Q>>;

    closed spec fn view(&self) -> Seq<Option<Q>> {
        self.slots@
    }
}

impl<Q> Routes<Q> {
    /// A table with `topics` slots, all empty.
    pub fn new(topics: usize) -> (r: Routes<Q>)
        ensures
            r@.len() == topics,
            forall|i: int| 0 <= i < topics ==> (#[trigger] r@[i]).is_none(),
    {
        let mut slots: Vec<Option<Q>> = Vec::new();
        let mut i: usize = 0;
        while i < topics
            invariant
                i <= topics,
                slots@.len() == i,
                forall|j: int| 0 <= j < i ==> (#[trigger] slots@[j]).is_none(),
            decreases topics - i,
        {
            slots.push(None);
            i = i + 1;
        }
        Routes { slots }
    }

    /// The queue of a topic, if the topic has one.
    pub fn get(&self, topic: u8) -> (q: Option<&Q>)
        ensures
            match q {
                Some(queue) => topic < self@.len() && self@[topic as int] == Some(*queue),
                None => topic >= self@.len() || self@[topic as int].is_none(),
            },
    {
        if (topic as usize) < self.slots.len() {
            self.slots[topic as usize].as_ref()
        } else {
            None
        }
    }

    /// Routes the messages of a topic to `queue`, in place of any queue
    /// that had them before. A topic without a slot is refused.
    pub fn add_route(&mut self, topic: u8, queue: Q) -> (res: Result<(), RouteError>)
        ensures
            res is Ok <==> topic < old(self)@.len(),
            res is Ok ==> final(self)@ == old(self)@.update(topic as int, Some(queue)),
            res is Err ==> final(self)@ == old(self)@,
    {
        if (topic as usize) >= self.slots.len() {
            return Err(RouteError::TopicOutOfRange);
        }
        self.slots.set(topic as usize, Some(queue));
        Ok(())
    }

    /// Takes the route of a topic away, if it has one.
    pub fn remove_route(&mut self, topic: u8)
        ensures
            final(self)@ == (if topic < old(self)@.len() {
                old(self)@.update(topic as int, None)
            } else {
                old(self)@
            }),
    {
        if (topic as usize) < self.slots.len() {
            self.slots.set(topic as usize, None);
        }
    }
}

/// How a message is sent on.
#[derive(Clone, Copy, Debug, PartialEq, Eq, Structural)]
pub enum BroadcastPlan {
    /// The message has no hop left and is not sent.
    Skip,
    /// The message is sent with this many hops left, or without a limit.
    Send(Option<u8>),
}

/// A message that came with hops left is sent on with one hop less, one
/// that came with none is not sent on, and one that did not come from the
/// network is sent without a limit.
pub open spec fn spec_broadcast_plan(metadata: Option<Metadata>) -> BroadcastPlan {
    match metadata {
        Some(m) => if m.height == 0 {
            BroadcastPlan::Skip
        } else {
            BroadcastPlan::Send(Some((m.height - 1) as u8))
        },
        None => BroadcastPlan::Send(None),
    }
}

pub fn broadcast_plan(metadata: Option<Metadata>) -> (plan: BroadcastPlan)
    ensures
        plan == spec_broadcast_plan(metadata),
{
    match metadata {
        Some(m) => if m.height == 0 {
            BroadcastPlan::Skip
        } else {
            BroadcastPlan::Send(Some(m.height - 1))
        },
        None => BroadcastPlan::Send(None),
    }
}

/// The second at which a request ends: `ttl_as_sec` seconds from `now`, or
/// never if no lifespan is given. A sum that does not fit is held at the
/// largest value.
pub open spec fn spec_request_deadline(ttl_as_sec: Option<u64>, now: u64) -> u64 {
    match ttl_as_sec {
        None => u64::MAX,
        Some(ttl) => if now + ttl > u64::MAX {
            u64::MAX
        } else {
            (now + ttl) as u64
        },
    }
}

pub fn request_deadline(ttl_as_sec: Option<u64>, now: u64) -> (deadline: u64)
    ensures
        deadline == spec_request_deadline(ttl_as_sec, now),
{
    match ttl_as_sec {
        None => u64::MAX,
        Some(ttl) => if ttl > u64::MAX - now {
            u64::MAX
        } else {
            now + ttl
        },
    }
}

/// The number of waiting senders after one more came, and whether there
/// were too many: then the count starts anew.
pub open spec fn spec_sender_arrives(pending: u64) -> (u64, bool) {
    if pending >= MAX_PENDING_SENDERS {
        (0, true)
    } else {
        ((pending + 1) as u64, false)
    }
}

pub fn sender_arrives(pending: u64) -> (res: (u64, bool))
    ensures
        res == spec_sender_arrives(pending),
{
    if pending >= MAX_PENDING_SENDERS {
        (0, true)
    } else {
        (pending + 1, false)
    }
}

} // verus!
