//! Messages between networks, and those who listen for them.

use crate::addr::Endpoint;
use crate::engine_cmd::Engine;
use crate::wire::is_recent_para_ts;
use vstd::prelude::*;

verus! {

/// Where a node can be tried.
#[derive(Clone, Debug, PartialEq, Eq)]
pub struct ParaCandidate {
    pub ip: String,
    pub port: u16,
    pub kind: String,
}

/// A node asks for a network in common.
#[derive(Clone, Debug)]
pub struct ParaHelloMsg {
    pub node_id: String,
    pub public_ip: String,
    pub public_port: u16,
    pub proposed_key_hex: String,
    pub proposed_vip_subnet: String,
    pub ts_ms: u64,
    pub candidates: Vec<ParaCandidate>,
    pub start_at_ms: u64,
    pub session_id: String,
    pub discover_only: bool,
}

/// The answer to a node that asks.
#[derive(Clone, Debug)]
pub struct ParaReplyMsg {
    pub node_id: String,
    pub public_ip: String,
    pub public_port: u16,
    pub assigned_vip: String,
    pub network_id: String,
    pub ts_ms: u64,
    pub candidates: Vec<ParaCandidate>,
    pub agreed_start_at_ms: u64,
    pub session_id: String,
    pub responder_vip: String,
    pub responder_is_owner: bool,
    pub network_name: String,
    pub network_key_hex: String,
}

/// A node agrees, or a punch of its came through.
#[derive(Clone, Debug)]
pub struct ParaNoteMsg {
    pub node_id: String,
    pub ts_ms: u64,
    pub session_id: String,
}

/// A message between networks.
#[derive(Clone, Debug)]
pub enum ParaMessage {
    Hello(ParaHelloMsg),
    Reply(ParaReplyMsg),
    Agreed(ParaNoteMsg),
    PunchAck(ParaNoteMsg),
}

/// What listeners are told of a message between networks.
#[derive(Clone, Debug, PartialEq, Eq)]
pub enum ParaSignal {
    HelloReceived {
        from: Endpoint,
        public_ip: String,
        public_port: u16,
        proposed_key: String,
        proposed_vip_subnet: String,
        node_id: String,
        candidates: Vec<ParaCandidate>,
        start_at_ms: u64,
        session_id: String,
        discover_only: bool,
    },
    ReplyReceived {
        from: Endpoint,
        public_ip: String,
        public_port: u16,
        assigned_vip: String,
        network_id: String,
        node_id: String,
        candidates: Vec<ParaCandidate>,
        agreed_start_at_ms: u64,
        session_id: String,
        responder_vip: String,
        responder_is_owner: bool,
        network_name: String,
        network_key_hex: String,
    },
    OkReceived { from: Endpoint, node_id: String, session_id: String },
    PunchAckReceived { from: Endpoint, node_id: String, session_id: String },
}

/// The time stamp of a message.
pub open spec fn stamp_of(msg: ParaMessage) -> u64 {
    match msg {
        ParaMessage::Hello(m) => m.ts_ms,
        ParaMessage::Reply(m) => m.ts_ms,
        ParaMessage::Agreed(m) => m.ts_ms,
        ParaMessage::PunchAck(m) => m.ts_ms,
    }
}

/// What is told of a message from `from`.
pub open spec fn signal_of(msg: ParaMessage, from: Endpoint) -> ParaSignal {
    match msg {
        ParaMessage::Hello(m) => ParaSignal::HelloReceived {
            from,
            public_ip: m.public_ip,
            public_port: m.public_port,
            proposed_key: m.proposed_key_hex,
            proposed_vip_subnet: m.proposed_vip_subnet,
            node_id: m.node_id,
            candidates: m.candidates,
            start_at_ms: m.start_at_ms,
            session_id: m.session_id,
            discover_only: m.discover_only,
        },
        ParaMessage::Reply(m) => ParaSignal::ReplyReceived {
            from,
            public_ip: m.public_ip,
            public_port: m.public_port,
            assigned_vip: m.assigned_vip,
            network_id: m.network_id,
            node_id: m.node_id,
            candidates: m.candidates,
            agreed_start_at_ms: m.agreed_start_at_ms,
            session_id: m.session_id,
            responder_vip: m.responder_vip,
            responder_is_owner: m.responder_is_owner,
            network_name: m.network_name,
            network_key_hex: m.network_key_hex,
        },
        ParaMessage::Agreed(m) => ParaSignal::OkReceived {
            from,
            node_id: m.node_id,
            session_id: m.session_id,
        },
        ParaMessage::PunchAck(m) => ParaSignal::PunchAckReceived {
            from,
            node_id: m.node_id,
            session_id: m.session_id,
        },
    }
}

/// What listeners are told of a message from `from`: it counts only where its time
/// stamp is close to the local clock.
pub fn plan_para(msg: ParaMessage, from: Endpoint, now_ms: u64) -> (out: Option<ParaSignal>)
    ensures
        out == if -90_000 <= now_ms - stamp_of(msg) <= 90_000 {
            Some(signal_of(msg, from))
        } else {
            None
        },
{
    let ts_ms: u64 = match &msg {
        ParaMessage::Hello(m) => m.ts_ms,
        ParaMessage::Reply(m) => m.ts_ms,
        ParaMessage::Agreed(m) => m.ts_ms,
        ParaMessage::PunchAck(m) => m.ts_ms,
    };
    if !is_recent_para_ts(ts_ms, now_ms) {
        return None;
    }
    let signal = match msg {
        ParaMessage::Hello(m) => ParaSignal::HelloReceived {
            from,
            public_ip: m.public_ip,
            public_port: m.public_port,
            proposed_key: m.proposed_key_hex,
            proposed_vip_subnet: m.proposed_vip_subnet,
            node_id: m.node_id,
            candidates: m.candidates,
            start_at_ms: m.start_at_ms,
            session_id: m.session_id,
            discover_only: m.discover_only,
        },
        ParaMessage::Reply(m) => ParaSignal::ReplyReceived {
            from,
            public_ip: m.public_ip,
            public_port: m.public_port,
            assigned_vip: m.assigned_vip,
            network_id: m.network_id,
            node_id: m.node_id,
            candidates: m.candidates,
            agreed_start_at_ms: m.agreed_start_at_ms,
            session_id: m.session_id,
            responder_vip: m.responder_vip,
            responder_is_owner: m.responder_is_owner,
            network_name: m.network_name,
            network_key_hex: m.network_key_hex,
        },
        ParaMessage::Agreed(m) => ParaSignal::OkReceived {
            from,
            node_id: m.node_id,
            session_id: m.session_id,
        },
        ParaMessage::PunchAck(m) => ParaSignal::PunchAckReceived {
            from,
            node_id: m.node_id,
            session_id: m.session_id,
        },
    };
    Some(signal)
}

impl ParaSignal {
    /// Whether it is reported when a listener misses the signal: it is an answer.
    pub fn is_critical(&self) -> (b: bool)
        ensures
            b == !(*self is HelloReceived),
    {
        match self {
            ParaSignal::HelloReceived { .. } => false,
            _ => true,
        }
    }
}

/// What became of a message to a listener.
#[derive(Clone, Copy, Debug, PartialEq, Eq, Structural)]
pub enum Notified {
    Taken,
    /// The listener has no room for it.
    Full,
    /// The listener is gone.
    Closed,
}

/// The listeners among the first `n` that missed the message.
pub open spec fn missed(results: Seq<(u64, Notified)>, n: nat) -> Seq<u64>
    decreases n,
{
    if n == 0 {
        Seq::empty()
    } else {
        let rest = missed(results, (n - 1) as nat);
        if results[n - 1].1 is Full {
            rest.push(results[n - 1].0)
        } else {
            rest
        }
    }
}

/// The listener is gone.
pub open spec fn gone(results: Seq<(u64, Notified)>, id: u64) -> bool {
    exists|i: int| 0 <= i < results.len() && (#[trigger] results[i]).0 == id && results[i].1 is Closed
}

impl Engine {
    /// A message was offered to the listeners: those that are gone are forgotten.
    /// Returns those that missed it.
    pub fn try_para_notify(&mut self, results: &Vec<(u64, Notified)>) -> (out: Vec<u64>)
        requires
            old(self).wf(),
        ensures
            final(self).wf(),
            *final(self) == (Engine { para_listeners: final(self).para_listeners, ..*old(self) }),
            forall|l: u64| #[trigger]
                final(self).para_listeners@.dom().contains(l) <==> old(
                    self,
                ).para_listeners@.dom().contains(l) && !gone(results@, l),
            out@ == missed(results@, results@.len()),
    {
        let ghost s = results@;
        let ghost p0 = self.para_listeners@;
        let mut out: Vec<u64> = Vec::new();
        let mut i: usize = 0;
        while i < results.len()
            invariant
                s == results@,
                i <= s.len(),
                self.wf(),
                p0 == old(self).para_listeners@,
                *self == (Engine { para_listeners: self.para_listeners, ..*old(self) }),
                out@ == missed(s, i as nat),
                forall|l: u64| #[trigger]
                    self.para_listeners@.dom().contains(l) <==> p0.dom().contains(l) && !gone(
                        s.take(i as int),
                        l,
                    ),
            decreases s.len() - i,
        {
            let (id, what): (u64, Notified) = results[i];
            match what {
                Notified::Taken => {},
                Notified::Full => {
                    out.push(id);
                },
                Notified::Closed => {
                    let _ = self.para_listeners.remove(&id);
                },
            }
            proof {
                let a = s.take(i as int);
                let b = s.take(i + 1);
                assert forall|l: u64| #[trigger] gone(b, l) <==> gone(a, l) || (l == id
                    && what is Closed) by {
                    if gone(a, l) {
                        let j = choose|j: int|
                            0 <= j < a.len() && (#[trigger] a[j]).0 == l && a[j].1 is Closed;
                        assert(b[j].0 == l && b[j].1 is Closed);
                    }
                    if l == id && what is Closed {
                        assert(b[i as int].0 == l && b[i as int].1 is Closed);
                    }
                    if gone(b, l) {
                        let j = choose|j: int|
                            0 <= j < b.len() && (#[trigger] b[j]).0 == l && b[j].1 is Closed;
                        if j < i {
                            assert(a[j].0 == l && a[j].1 is Closed);
                        }
                    }
                }
                assert forall|l: u64| #[trigger]
                    self.para_listeners@.dom().contains(l) <==> p0.dom().contains(l) && !gone(
                        b,
                        l,
                    ) by {
                    assert(gone(b, l) <==> gone(a, l) || (l == id && what is Closed));
                }
            }
            i += 1;
        }
        proof {
            assert(s.take(s.len() as int) =~= s);
        }
        out
    }
}

} // verus!
