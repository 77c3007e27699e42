//! The proxy's counters: whether it runs, and how many connections and
//! WebSocket tunnels it carries. Counters wrap around as `AtomicU32` does.
use vstd::prelude::*;

verus! {

/// The counter after one more.
pub open spec fn inc(x: u32) -> u32 {
    if x == u32::MAX { 0 } else { (x + 1) as u32 }
}

/// The counter after one less.
pub open spec fn dec(x: u32) -> u32 {
    if x == 0 { u32::MAX } else { (x - 1) as u32 }
}

/// The counters after a connection event: `true` for a connection that was
/// accepted, which counts once more as active and in the total; `false` for
/// one that finished, which counts once less as active.
pub open spec fn after_event(s: ProxyStats, accepted: bool) -> ProxyStats {
    if accepted {
        ProxyStats {
            running: s.running,
            active_conn: inc(s.active_conn),
            total_conn: inc(s.total_conn),
            ws_active: s.ws_active,
        }
    } else {
        ProxyStats {
            running: s.running,
            active_conn: dec(s.active_conn),
            total_conn: s.total_conn,
            ws_active: s.ws_active,
        }
    }
}

/// The counters after a run of connection events, taken in order.
pub open spec fn after_events(s: ProxyStats, events: Seq<bool>) -> ProxyStats
    decreases events.len(),
{
    if events.len() == 0 {
        s
    } else {
        after_event(after_events(s, events.drop_last()), events.last())
    }
}

/// How many of the events are accepted connections.
pub open spec fn accepted_count(events: Seq<bool>) -> int
    decreases events.len(),
{
    if events.len() == 0 {
        0
    } else {
        accepted_count(events.drop_last()) + if events.last() { 1int } else { 0int }
    }
}

/// How many of the events are finished connections.
pub open spec fn finished_count(events: Seq<bool>) -> int
    decreases events.len(),
{
    if events.len() == 0 {
        0
    } else {
        finished_count(events.drop_last()) + if events.last() { 0int } else { 1int }
    }
}

/// The proxy's state as its window shows it.
pub struct ProxyStats {
    /// Whether the accept loop runs.
    pub running: bool,
    /// Connections being served now.
    pub active_conn: u32,
    /// Connections accepted since the start.
    pub total_conn: u32,
    /// WebSocket tunnels open now.
    pub ws_active: u32,
}

impl ProxyStats {
    /// A proxy that does not run and has carried nothing.
    pub fn new() -> (s: Self)
        ensures
            !s.running,
            s.active_conn == 0,
            s.total_conn == 0,
            s.ws_active == 0,
    {
        ProxyStats { running: false, active_conn: 0, total_conn: 0, ws_active: 0 }
    }

    /// The accept loop started.
    pub fn start(&mut self)
        ensures
            final(self).running,
            final(self).active_conn == old(self).active_conn,
            final(self).total_conn == old(self).total_conn,
            final(self).ws_active == old(self).ws_active,
    {
        self.running = true;
    }

    /// The accept loop is to stop (it does on its next round).
    pub fn stop(&mut self)
        ensures
            !final(self).running,
            final(self).active_conn == old(self).active_conn,
            final(self).total_conn == old(self).total_conn,
            final(self).ws_active == old(self).ws_active,
    {
        self.running = false;
    }

    /// A connection was accepted.
    pub fn connection_opened(&mut self)
        ensures
            *final(self) == after_event(*old(self), true),
    {
        self.active_conn = self.active_conn.wrapping_add(1);
        self.total_conn = self.total_conn.wrapping_add(1);
    }

    /// A connection was closed.
    pub fn connection_closed(&mut self)
        ensures
            *final(self) == after_event(*old(self), false),
    {
        self.active_conn = self.active_conn.wrapping_sub(1);
    }

    /// A WebSocket tunnel opened.
    pub fn tunnel_opened(&mut self)
        ensures
            final(self).ws_active == inc(old(self).ws_active),
            final(self).active_conn == old(self).active_conn,
            final(self).total_conn == old(self).total_conn,
            final(self).running == old(self).running,
    {
        self.ws_active = self.ws_active.wrapping_add(1);
    }

    /// A WebSocket tunnel closed.
    pub fn tunnel_closed(&mut self)
        ensures
            final(self).ws_active == dec(old(self).ws_active),
            final(self).active_conn == old(self).active_conn,
            final(self).total_conn == old(self).total_conn,
            final(self).running == old(self).running,
    {
        self.ws_active = self.ws_active.wrapping_sub(1);
    }

    /// Whether the accept loop runs.
    pub fn is_running(&self) -> (b: bool)
        ensures
            b == self.running,
    {
        self.running
    }
}

/// A counter steps by one and wraps around at the ends of `u32`, as
/// `AtomicU32::fetch_add` and `fetch_sub` do.
pub proof fn law_counter_wraps(x: u32)
    ensures
        inc(x) as int == (x as int + 1) % 0x1_0000_0000,
        dec(x) as int == (x as int + 0xFFFF_FFFF) % 0x1_0000_0000,
{
}

/// Closing a connection undoes opening one on the count of active
/// connections, and the total keeps the connection counted.
pub proof fn law_open_close_balance(x: u32)
    ensures
        dec(inc(x)) == x,
        inc(dec(x)) == x,
{
}

/// The connection counters track the connections: starting from zero, when
/// no connection finishes before it was accepted and no more than `u32::MAX`
/// are accepted, the total is the number accepted and the active count is
/// the number accepted less the number finished, so never above the total.
pub proof fn law_connection_counts(s: ProxyStats, events: Seq<bool>)
    requires
        s.active_conn == 0,
        s.total_conn == 0,
        forall|k: int| 0 <= k <= events.len() ==> finished_count(#[trigger] events.take(k)) <= accepted_count(
            events.take(k),
        ),
        accepted_count(events) <= u32::MAX,
    ensures
        after_events(s, events).total_conn == accepted_count(events),
        after_events(s, events).active_conn == accepted_count(events) - finished_count(events),
        after_events(s, events).active_conn <= after_events(s, events).total_conn,
        after_events(s, events).running == s.running,
        after_events(s, events).ws_active == s.ws_active,
    decreases events.len(),
{
    lemma_counts_nonnegative(events);
    if events.len() > 0 {
        let rest = events.drop_last();
        assert forall|k: int| 0 <= k <= rest.len() implies finished_count(#[trigger] rest.take(k))
            <= accepted_count(rest.take(k)) by {
            assert(rest.take(k) =~= events.take(k));
        }
        assert(events.take(events.len() as int) =~= events);
        lemma_counts_nonnegative(rest);
        law_connection_counts(s, rest);
    }
}

proof fn lemma_counts_nonnegative(events: Seq<bool>)
    ensures
        accepted_count(events) >= 0,
        finished_count(events) >= 0,
    decreases events.len(),
{
    if events.len() > 0 {
        lemma_counts_nonnegative(events.drop_last());
    }
}

} // verus!
