//! How much data came in, until the paths are told.

use crate::addr::Endpoint;
use crate::engine_state;
use crate::engine_state::EngineState;
use crate::table::{Key, Table};
use vstd::prelude::*;

verus! {

/// The data that came in since the paths were last told.
pub struct RxBytes {
    /// By sender: packets for groups.
    pub from: Table<Endpoint, u64>,
    /// By destination: packets for this node.
    pub to: Table<u32, u64>,
}

/// What the paths are told.
pub struct RxReport {
    pub from: Table<Endpoint, u64>,
    pub to: Table<u32, u64>,
    /// Bandwidth is measured.
    pub advanced: bool,
    /// What came from here was passed on for others.
    pub ignore_relay: Option<Endpoint>,
}

/// A count and so much more, as far as it can be counted.
pub open spec fn counted<K>(m: Map<K, u64>, k: K, bytes: u64) -> Map<K, u64> {
    let had = if m.dom().contains(k) {
        m[k] as int
    } else {
        0
    };
    m.insert(
        k,
        if had + bytes > u64::MAX {
            u64::MAX
        } else {
            (had + bytes) as u64
        },
    )
}

fn count<K: Key>(t: &mut Table<K, u64>, k: K, bytes: u64)
    requires
        old(t).wf(),
    ensures
        final(t).wf(),
        final(t)@ == counted(old(t)@, k.id(), bytes),
{
    let had: u64 = match t.get(&k) {
        Some(n) => *n,
        None => 0,
    };
    t.insert(k, had.saturating_add(bytes));
}

impl RxBytes {
    pub open spec fn wf(&self) -> bool {
        self.from.wf() && self.to.wf()
    }

    pub fn new() -> (out: Self)
        ensures
            out.wf(),
            out.from@ == Map::<Endpoint, u64>::empty(),
            out.to@ == Map::<u32, u64>::empty(),
    {
        RxBytes { from: Table::new(), to: Table::new() }
    }

    /// Data for a group came in.
    pub fn note_rx_bytes(&mut self, from: Endpoint, bytes: u64)
        requires
            old(self).wf(),
        ensures
            final(self).wf(),
            final(self).from@ == counted(old(self).from@, from, bytes),
            final(self).to == old(self).to,
    {
        count(&mut self.from, from, bytes);
    }

    /// Data for this node came in.
    pub fn note_rx_bytes_for_dst(&mut self, dst_vip_u32: u32, bytes: u64)
        requires
            old(self).wf(),
        ensures
            final(self).wf(),
            final(self).to@ == counted(old(self).to@, dst_vip_u32, bytes),
            final(self).from == old(self).from,
    {
        count(&mut self.to, dst_vip_u32, bytes);
    }

    /// Hands over what was counted, if anything was, and starts anew.
    pub fn flush_rx_byte_counters(&mut self, state: &EngineState) -> (out: Option<RxReport>)
        requires
            old(self).wf(),
            state.wf(),
        ensures
            final(self).wf(),
            final(self).from@ == Map::<Endpoint, u64>::empty(),
            final(self).to@ == Map::<u32, u64>::empty(),
            out is None <==> old(self).from@ == Map::<Endpoint, u64>::empty() && old(self).to@
                == Map::<u32, u64>::empty(),
            out matches Some(r) ==> r.from == old(self).from && r.to == old(self).to && r.advanced
                == state.feature_flags.multipath_bandwidth_prober && r.ignore_relay
                == engine_state::owner_endpoint_of(state.id@, state.routing.routes()),
    {
        if self.from.is_empty() && self.to.is_empty() {
            proof {
                assert(self.from@ =~= Map::<Endpoint, u64>::empty());
                assert(self.to@ =~= Map::<u32, u64>::empty());
            }
            return None;
        }
        let mut taken = RxBytes::new();
        std::mem::swap(self, &mut taken);
        Some(
            RxReport {
                from: taken.from,
                to: taken.to,
                advanced: state.feature_flags.multipath_bandwidth_prober,
                ignore_relay: state.owner_send_endpoint(),
            },
        )
    }
}

/// Counts never go down, and what is noted for one sender or destination changes no
/// other count.
pub proof fn counts_are_apart<K>(m: Map<K, u64>, k: K, bytes: u64, other: K)
    ensures
        counted(m, k, bytes).dom().contains(k),
        m.dom().contains(k) ==> counted(m, k, bytes)[k] >= m[k],
        other != k ==> (counted(m, k, bytes).dom().contains(other) <==> m.dom().contains(other)),
        other != k && m.dom().contains(other) ==> counted(m, k, bytes)[other] == m[other],
{
}

} // verus!
