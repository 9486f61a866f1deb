//! When the local adapter gets another packet size.

use crate::engine_state;
use crate::engine_state::since;
use crate::wire;
use crate::wire::is_safe_interface_alias;
use vstd::prelude::*;

verus! {

/// The largest packet size of an adapter.
pub const ADAPTER_MTU_MAX: u16 = 1500;

/// The smallest packet size that is set where the size is pinned.
pub const PINNED_MTU_MIN: u16 = 576;

/// A change that is at least this large is never put off.
pub const MTU_STEP_AT_ONCE: u16 = 32;

/// How long smaller changes are put off, in milliseconds.
pub const MTU_QUIET_MS: u64 = 30_000;

/// What is known of the adapter's packet size.
pub struct MtuPolicy {
    pub pinned: bool,
    pub configured: u16,
    pub adapter_name: Option<String>,
    /// The size that was last set; zero where none was.
    pub last_applied: u16,
    /// When the size was last set, in milliseconds.
    pub last_set_at: Option<u64>,
    /// The smallest size that is set.
    pub min_mtu: u16,
}

/// A size that is to be set on an adapter.
pub struct AdapterChange {
    pub adapter: String,
    pub mtu: u16,
}

/// `adapter` can be named to the system's tools.
pub open spec fn safe_alias(s: Seq<char>) -> bool {
    0 < s.len() && vstd::utf8::encode_utf8(s).len() <= 128 && forall|i: int|
        0 <= i < s.len() ==> wire::alias_char(#[trigger] s[i])
}

/// The distance of two sizes.
pub open spec fn mtu_gap(a: u16, b: u16) -> int {
    if a >= b {
        a - b
    } else {
        b - a
    }
}

impl MtuPolicy {
    /// The size may change to `mtu` now: it is in range, it is another one, and
    /// the change is large or the last one is long past.
    pub open spec fn due(&self, mtu: u16, now: u64) -> bool {
        &&& self.min_mtu <= mtu <= ADAPTER_MTU_MAX
        &&& self.last_applied == 0 || mtu != self.last_applied
        &&& self.last_applied == 0 || mtu_gap(mtu, self.last_applied) >= MTU_STEP_AT_ONCE
            || self.last_set_at is None || engine_state::elapsed(now, self.last_set_at->0)
            >= MTU_QUIET_MS
    }

    pub fn new(min_mtu: u16, configured: u16) -> (out: Self)
        ensures
            !out.pinned,
            out.configured == configured,
            out.adapter_name is None,
            out.last_applied == 0,
            out.last_set_at is None,
            out.min_mtu == min_mtu,
    {
        MtuPolicy {
            pinned: false,
            configured,
            adapter_name: None,
            last_applied: 0,
            last_set_at: None,
            min_mtu,
        }
    }

    /// The policy after the size was to be set to `mtu`, and whether it is set. It
    /// is set where that is due and the adapter can be named. Without an adapter
    /// the next change counts as the first.
    pub open spec fn applied(self, mtu: u16, now: u64) -> (bool, MtuPolicy) {
        if !self.due(mtu, now) {
            (false, self)
        } else if self.adapter_name is None {
            (false, MtuPolicy { last_applied: 0, ..self })
        } else if !safe_alias(self.adapter_name->0@) {
            (false, self)
        } else {
            (true, MtuPolicy { last_applied: mtu, last_set_at: Some(now), ..self })
        }
    }

    /// What is to be done outside: the adapter gets the size.
    pub open spec fn change_is(self, out: Option<AdapterChange>, set: bool, mtu: u16) -> bool {
        match out {
            Some(c) => set && self.adapter_name == Some(c.adapter) && c.mtu == mtu,
            None => !set,
        }
    }

    /// Sets the size to `mtu`, where that is due. Without an adapter the next
    /// change counts as the first.
    pub fn try_apply_adapter_mtu(&mut self, mtu: u16, now: u64) -> (out: Option<AdapterChange>)
        ensures
            *final(self) == old(self).applied(mtu, now).1,
            old(self).change_is(out, old(self).applied(mtu, now).0, mtu),
    {
        if mtu < self.min_mtu || mtu > ADAPTER_MTU_MAX {
            return None;
        }
        let prev: u16 = self.last_applied;
        if mtu == prev && prev != 0 {
            return None;
        }
        let gap: u16 = if mtu >= prev {
            mtu - prev
        } else {
            prev - mtu
        };
        let quiet: bool = match self.last_set_at {
            Some(t) => since(now, t) >= MTU_QUIET_MS,
            None => true,
        };
        if !(prev == 0 || gap >= MTU_STEP_AT_ONCE || quiet) {
            return None;
        }
        let name: String = match &self.adapter_name {
            Some(n) => n.clone(),
            None => {
                self.last_applied = 0;
                return None;
            },
        };
        if !is_safe_interface_alias(name.as_str()) {
            return None;
        }
        self.last_set_at = Some(now);
        self.last_applied = mtu;
        Some(AdapterChange { adapter: name, mtu })
    }

    /// The path takes packets of another size, or refused one: the adapter gets the
    /// size that the path asks for, unless its size, or that of the path, is
    /// pinned.
    pub fn path_changed(&mut self, path_pinned: bool, suggested: u16, now: u64) -> (out: Option<
        AdapterChange,
    >)
        ensures
            old(self).pinned || path_pinned ==> out is None && *final(self) == *old(self),
            !old(self).pinned && !path_pinned ==> {
                &&& *final(self) == old(self).applied(suggested, now).1
                &&& old(self).change_is(out, old(self).applied(suggested, now).0, suggested)
            },
    {
        if self.pinned || path_pinned {
            return None;
        }
        self.try_apply_adapter_mtu(suggested, now)
    }

    /// The size of a pinned adapter.
    pub open spec fn pinned_mtu(&self) -> u16 {
        if self.configured < PINNED_MTU_MIN {
            PINNED_MTU_MIN
        } else if self.configured > ADAPTER_MTU_MAX {
            ADAPTER_MTU_MAX
        } else {
            self.configured
        }
    }

    /// The policy after a pinned size was to be set, and whether it is set.
    pub open spec fn pin_applied(self, now: u64) -> (bool, MtuPolicy) {
        if !self.pinned {
            (false, self)
        } else {
            (MtuPolicy { last_applied: 0, last_set_at: None, ..self }).applied(
                self.pinned_mtu(),
                now,
            )
        }
    }

    /// Brings a pinned size into effect at once.
    pub fn apply_mtu_pin_policy(&mut self, now: u64) -> (out: Option<AdapterChange>)
        ensures
            *final(self) == old(self).pin_applied(now).1,
            old(self).change_is(out, old(self).pin_applied(now).0, old(self).pinned_mtu()),
    {
        if !self.pinned {
            return None;
        }
        let mtu: u16 = if self.configured < PINNED_MTU_MIN {
            PINNED_MTU_MIN
        } else if self.configured > ADAPTER_MTU_MAX {
            ADAPTER_MTU_MAX
        } else {
            self.configured
        };
        self.last_applied = 0;
        self.last_set_at = None;
        self.try_apply_adapter_mtu(mtu, now)
    }

    /// What becomes of the policy once the adapter is to be named `name`: a blank
    /// name takes the adapter away, and one that cannot be named to the system's
    /// tools is not taken. `suggested` is the size that the path asks for.
    pub open spec fn name_set(
        self,
        name: String,
        suggested: u16,
        now: u64,
        post: MtuPolicy,
        out: Option<AdapterChange>,
    ) -> bool {
        let named = MtuPolicy { adapter_name: Some(name), ..self };
        if crate::text::trimmed(name@).len() == 0 {
            out is None && post == (MtuPolicy { adapter_name: None, ..self })
        } else if !safe_alias(name@) {
            out is None && post == self
        } else if self.pinned {
            post == named.pin_applied(now).1 && named.change_is(
                out,
                named.pin_applied(now).0,
                named.pinned_mtu(),
            )
        } else if PINNED_MTU_MIN <= suggested <= ADAPTER_MTU_MAX {
            post == named.applied(suggested, now).1 && named.change_is(
                out,
                named.applied(suggested, now).0,
                suggested,
            )
        } else {
            out is None && post == named
        }
    }

    /// Names the adapter. A blank name takes it away, and one that cannot be
    /// named to the system's tools is not taken. `suggested` is the size that
    /// the path asks for.
    pub fn set_adapter_name(&mut self, name: String, suggested: u16, now: u64) -> (out: Option<
        AdapterChange,
    >)
        ensures
            old(self).name_set(name, suggested, now, *final(self), out),
    {
        if crate::text::trim(name.as_str()).is_empty() {
            self.adapter_name = None;
            return None;
        }
        if !is_safe_interface_alias(name.as_str()) {
            return None;
        }
        self.adapter_name = Some(name);
        if self.pinned {
            return self.apply_mtu_pin_policy(now);
        }
        if suggested >= PINNED_MTU_MIN && suggested <= ADAPTER_MTU_MAX {
            return self.try_apply_adapter_mtu(suggested, now);
        }
        None
    }

    /// What becomes of the policy once the size is pinned to `mtu`, or freed.
    pub open spec fn pin_set(
        self,
        pin: bool,
        mtu: u16,
        now: u64,
        post: MtuPolicy,
        out: Option<AdapterChange>,
    ) -> bool {
        let p = MtuPolicy { pinned: pin, configured: mtu, ..self };
        &&& post == p.pin_applied(now).1
        &&& p.change_is(out, p.pin_applied(now).0, p.pinned_mtu())
    }

    /// Pins the size, or frees it.
    pub fn set_mtu_pin(&mut self, pin: bool, mtu: u16, now: u64) -> (out: Option<AdapterChange>)
        ensures
            old(self).pin_set(pin, mtu, now, *final(self), out),
    {
        self.pinned = pin;
        self.configured = mtu;
        self.apply_mtu_pin_policy(now)
    }
}

/// How long until the paths are probed again, in milliseconds: at once while a
/// search is on (`fast`), and else when the next probe is due, but within `raise`
/// seconds.
pub open spec fn probe_wait(tick_ms: u64, raise_secs: u64, fast: bool, due: u64, now: u64) -> int {
    let tick = if tick_ms < 10 {
        10
    } else {
        tick_ms as int
    };
    let raise = if raise_secs < 1 {
        1000
    } else {
        raise_secs * 1000
    };
    let left = if due > now {
        due - now
    } else {
        0
    };
    let wait = if left > tick {
        left
    } else {
        tick
    };
    if fast {
        tick
    } else if wait < raise {
        wait
    } else {
        raise
    }
}

/// How long until the paths are probed again, in milliseconds. `due` is when the
/// next probe is due.
pub fn reschedule_pmtud_interval(
    tick_ms: u64,
    raise_secs: u64,
    fast: bool,
    due: u64,
    now: u64,
) -> (out: u64)
    ensures
        out == probe_wait(tick_ms, raise_secs, fast, due, now),
{
    let tick: u64 = if tick_ms < 10 {
        10
    } else {
        tick_ms
    };
    if fast {
        return tick;
    }
    let left: u64 = if due > now {
        due - now
    } else {
        0
    };
    let wait: u64 = if left > tick {
        left
    } else {
        tick
    };
    let raise: u64 = if raise_secs < 1 {
        1
    } else {
        raise_secs
    };
    if raise > u64::MAX / 1000 {
        return wait;
    }
    if wait < raise * 1000 {
        wait
    } else {
        raise * 1000
    }
}

/// Two sizes that were set one after the other are far apart in size or in time.
pub proof fn mtu_changes_are_rare(p: MtuPolicy, first: u16, at: u64, second: u16, now: u64)
    requires
        p.last_applied == first,
        p.last_set_at == Some(at),
        first != 0,
        p.due(second, now),
    ensures
        mtu_gap(second, first) >= MTU_STEP_AT_ONCE || engine_state::elapsed(now, at) >= MTU_QUIET_MS,
{
}

} // verus!
