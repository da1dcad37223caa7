//! Endpoint rotation: the ordered endpoint list, the process-wide cursor, and
//! the advance-and-wrap step that runs exactly once per completed cycle.
//!
//! A stored cursor that the endpoint list has shrunk beneath is read as 0
//! rather than skipped: the tick queries the first endpoint and the cursor
//! advances to 1, keeping the cursor valid against the current list.

use vstd::prelude::*;

verus! {

/// A configured GraphQL service instance to be health-checked. `auth_key`,
/// when present, names an environment variable holding a bearer token.
#[derive(Debug, Clone)]
pub struct Endpoint {
    pub name: String,
    pub url: String,
    pub chain_id: i32,
    pub auth_key: Option<String>,
}

/// The process-wide rotation state: which endpoint the next tick queries.
#[derive(Debug, Clone)]
pub struct MonitorConfig {
    pub endpoint_monitor_index: usize,
}

impl Default for MonitorConfig {
    /// A fresh monitor starts at the first endpoint.
    fn default() -> (r: MonitorConfig)
        ensures
            r.endpoint_monitor_index == 0,
    {
        MonitorConfig { endpoint_monitor_index: 0 }
    }
}

impl MonitorConfig {
    /// The cursor position the next cycle will read.
    pub fn get_monitor_index(&self) -> (i: usize)
        ensures
            i == self.endpoint_monitor_index,
    {
        self.endpoint_monitor_index
    }

    /// Move the cursor; called exactly once per completed cycle.
    pub fn set_monitor_index(&mut self, new_index: usize)
        ensures
            final(self).endpoint_monitor_index == new_index,
    {
        self.endpoint_monitor_index = new_index;
    }
}

/// The cursor position that follows `index` in a round-robin rotation over
/// `count` endpoints: one step forward, wrapping to the start.
pub open spec fn advance_spec(index: nat, count: nat) -> nat {
    if index + 1 < count {
        index + 1
    } else {
        0
    }
}

/// A stored cursor read against the current endpoint count: in range it is
/// used as is; when the list shrank beneath it, it falls back to the start.
pub open spec fn effective_index(index: nat, count: nat) -> nat {
    if index < count {
        index
    } else {
        0
    }
}

/// Advance the rotation cursor by exactly one position, wrapping at `count`.
pub fn advance_cursor(index: usize, count: usize) -> (next: usize)
    requires
        index < count,
    ensures
        next == advance_spec(index as nat, count as nat),
        next < count,
{
    if index + 1 < count {
        index + 1
    } else {
        0
    }
}

/// The endpoint the cycle queries at this cursor: none when no endpoint is
/// configured, otherwise the entry at the effective index.
pub fn select_endpoint<'a>(endpoints: &'a Vec<Endpoint>, index: usize) -> (r: Option<
    &'a Endpoint,
>)
    ensures
        endpoints@.len() == 0 ==> r is None,
        endpoints@.len() > 0 ==> (r matches Some(e) && *e == endpoints@[effective_index(
            index as nat,
            endpoints@.len(),
        ) as int]),
{
    if endpoints.len() == 0 {
        None
    } else if index < endpoints.len() {
        Some(&endpoints[index])
    } else {
        Some(&endpoints[0])
    }
}

/// Read the cursor, pick the endpoint index for this tick, and advance the
/// cursor, all in one guarded step. With no endpoints configured nothing is
/// chosen and the cursor does not move.
pub fn take_turn(cfg: &mut MonitorConfig, count: usize) -> (chosen: Option<usize>)
    ensures
        count == 0 ==> chosen is None && *final(cfg) == *old(cfg),
        count > 0 ==> chosen == Some(
            effective_index(old(cfg).endpoint_monitor_index as nat, count as nat) as usize,
        ) && final(cfg).endpoint_monitor_index as nat == advance_spec(
            effective_index(old(cfg).endpoint_monitor_index as nat, count as nat),
            count as nat,
        ),
{
    if count == 0 {
        return None;
    }
    let index = cfg.get_monitor_index();
    let eff = if index < count {
        index
    } else {
        0
    };
    let next = advance_cursor(eff, count);
    cfg.set_monitor_index(next);
    Some(eff)
}

/// The cursor after a number of completed ticks, starting from the first
/// endpoint, when every tick advances it once.
pub open spec fn cursor_after(ticks: nat, count: nat) -> nat
    decreases ticks,
{
    if ticks == 0 {
        0
    } else {
        advance_spec(cursor_after((ticks - 1) as nat, count), count)
    }
}

proof fn lemma_cursor_after_step(ticks: nat, count: nat)
    requires
        0 < count,
        ticks <= count,
    ensures
        cursor_after(ticks, count) == if ticks < count {
            ticks
        } else {
            0nat
        },
    decreases ticks,
{
    if ticks > 0 {
        lemma_cursor_after_step((ticks - 1) as nat, count);
    }
}

/// Rotation fairness: starting at the first endpoint, over `count` consecutive
/// ticks the cycle visits every endpoint index exactly once — the tick number
/// is the index it queries — and the cursor is back at the start afterwards,
/// whatever each tick's outcome was.
pub proof fn lemma_rotation_fair(count: nat)
    requires
        0 < count,
    ensures
        forall|k: nat| k < count ==> cursor_after(k, count) == k,
        cursor_after(count, count) == 0,
{
    assert forall|k: nat| k < count implies cursor_after(k, count) == k by {
        lemma_cursor_after_step(k, count);
    }
    lemma_cursor_after_step(count, count);
}

} // verus!
