//! Database connection pool bookkeeping, a response cache with expiry, and
//! task scheduler counters.
//!
//! Times are milliseconds since the Unix epoch, durations milliseconds, all
//! supplied by the caller. Connections are of any type `C`; opening one is
//! left to the caller, which the pool asks for one when it has to.
use vstd::prelude::*;
use crate::text::str_eq;

verus! {

/// The longest span a time difference may be compared against, in
/// milliseconds: `i64::MAX`. A longer idle limit or lifetime is replaced by
/// five minutes.
pub open spec fn effective_limit_ms(limit_ms: u64) -> int {
    if limit_ms <= i64::MAX { limit_ms as int } else { 300000 }
}

/// Whether more than the limit has passed from `since_ms` to `now_ms`.
pub open spec fn spec_elapsed_over(since_ms: i64, now_ms: i64, limit_ms: u64) -> bool {
    now_ms - since_ms > effective_limit_ms(limit_ms)
}

/// A time limit is compared as configured: whenever it is representable
/// (at most `i64::MAX` ms), more than the limit has passed exactly when the
/// difference of the two times exceeds it; only a longer limit is taken as
/// five minutes.
pub proof fn lemma_elapsed_over(since_ms: i64, now_ms: i64, limit_ms: u64)
    ensures
        limit_ms <= i64::MAX ==> (spec_elapsed_over(since_ms, now_ms, limit_ms) <==> now_ms - since_ms > limit_ms),
        limit_ms > i64::MAX ==> (spec_elapsed_over(since_ms, now_ms, limit_ms) <==> now_ms - since_ms > 300000),
{
}

/// Whether more than `limit_ms` milliseconds passed from `since_ms` to
/// `now_ms` (a limit beyond `i64::MAX` ms counts as five minutes).
pub fn elapsed_over(since_ms: i64, now_ms: i64, limit_ms: u64) -> (r: bool)
    ensures
        r == spec_elapsed_over(since_ms, now_ms, limit_ms),
        limit_ms <= i64::MAX ==> (r <==> now_ms - since_ms > limit_ms),
        limit_ms > i64::MAX ==> (r <==> now_ms - since_ms > 300000),
{
    proof {
        lemma_elapsed_over(since_ms, now_ms, limit_ms);
    }
    let limit: i128 = if limit_ms <= 9223372036854775807u64 { limit_ms as i128 } else { 300000 };
    (now_ms as i128) - (since_ms as i128) > limit
}

/// Configuration of the database connection pool.
#[derive(Debug, Clone)]
pub struct ConnectionPoolConfig {
    pub max_connections: usize,
    pub min_connections: usize,
    pub max_idle_time_ms: u64,
    pub connection_timeout_ms: u64,
    pub health_check_interval_ms: u64,
    pub database_path: String,
}

impl Default for ConnectionPoolConfig {
    /// Ten connections at most, two kept open, five minutes of idleness
    /// allowed, a 30 s connection timeout, a health check every minute, and
    /// the database at `./data/hive.db`.
    fn default() -> (r: Self)
        ensures
            r.max_connections == 10,
            r.min_connections == 2,
            r.max_idle_time_ms == 300000,
            r.connection_timeout_ms == 30000,
            r.health_check_interval_ms == 60000,
            r.database_path@ == "./data/hive.db"@,
    {
        ConnectionPoolConfig {
            max_connections: 10,
            min_connections: 2,
            max_idle_time_ms: 300000,
            connection_timeout_ms: 30000,
            health_check_interval_ms: 60000,
            database_path: "./data/hive.db".to_string(),
        }
    }
}

/// A connection held by the pool, with when it was made and last used.
pub struct PooledConnection<C> {
    pub connection: C,
    pub created_at_ms: i64,
    pub last_used_ms: i64,
    pub in_use: bool,
}

impl<C> PooledConnection<C> {
    /// A fresh, unused connection made at `now_ms`.
    pub fn new(connection: C, now_ms: i64) -> (r: Self)
        ensures
            r.connection == connection,
            r.created_at_ms == now_ms,
            r.last_used_ms == now_ms,
            !r.in_use,
    {
        PooledConnection { connection, created_at_ms: now_ms, last_used_ms: now_ms, in_use: false }
    }

    /// The connection is taken into use at `now_ms`.
    pub fn mark_used(&mut self, now_ms: i64)
        ensures
            final(self).connection == old(self).connection,
            final(self).created_at_ms == old(self).created_at_ms,
            final(self).last_used_ms == now_ms,
            final(self).in_use,
    {
        self.last_used_ms = now_ms;
        self.in_use = true;
    }

    /// The connection is no longer in use.
    pub fn mark_free(&mut self)
        ensures
            final(self).connection == old(self).connection,
            final(self).created_at_ms == old(self).created_at_ms,
            final(self).last_used_ms == old(self).last_used_ms,
            !final(self).in_use,
    {
        self.in_use = false;
    }

    /// Whether the connection sat unused for longer than `max_idle_time_ms`.
    pub fn is_expired(&self, now_ms: i64, max_idle_time_ms: u64) -> (r: bool)
        ensures
            r == spec_elapsed_over(self.last_used_ms, now_ms, max_idle_time_ms),
            max_idle_time_ms <= i64::MAX ==> (r <==> now_ms - self.last_used_ms > max_idle_time_ms),
    {
        elapsed_over(self.last_used_ms, now_ms, max_idle_time_ms)
    }
}

/// Counters of the pool (the mean wait time is kept by the caller).
#[derive(Debug, Clone, Copy, PartialEq, Eq, Structural)]
pub struct PoolStats {
    pub total_connections: usize,
    pub active_connections: usize,
    pub idle_connections: usize,
    pub connections_created: u64,
    pub connections_destroyed: u64,
    pub connection_requests: u64,
    pub connection_timeouts: u64,
}

impl PoolStats {
    /// All counters at zero.
    pub fn new() -> (r: Self)
        ensures
            r == (PoolStats {
                total_connections: 0,
                active_connections: 0,
                idle_connections: 0,
                connections_created: 0,
                connections_destroyed: 0,
                connection_requests: 0,
                connection_timeouts: 0,
            }),
    {
        PoolStats {
            total_connections: 0,
            active_connections: 0,
            idle_connections: 0,
            connections_created: 0,
            connections_destroyed: 0,
            connection_requests: 0,
            connection_timeouts: 0,
        }
    }
}

/// What a request for a connection came to.
pub enum Checkout<C> {
    /// An idle connection, handed out.
    Ready(PooledConnection<C>),
    /// No idle connection: the caller opens a new one and hands it to
    /// `hand_out_new`.
    OpenNew,
    /// The first idle connection had expired and was dropped: the caller
    /// opens a replacement and hands it to `hand_out_new`, or, failing that,
    /// asks `fallback` for another idle one.
    Replace,
}

/// Whether a counter may grow by one.
pub open spec fn room(n: u64) -> bool {
    n < u64::MAX
}

/// The idle connections of a database pool and its counters.
pub struct ConnectionPool<C> {
    idle: Vec<PooledConnection<C>>,
    stats: PoolStats,
}

/// The idle connections that survive a cleanup at `now_ms`: those unused
/// for no longer than the limit, or in use.
pub open spec fn survives<C>(now_ms: i64, max_idle_ms: u64) -> spec_fn(PooledConnection<C>) -> bool {
    |c: PooledConnection<C>| !(spec_elapsed_over(c.last_used_ms, now_ms, max_idle_ms) && !c.in_use)
}

impl<C> ConnectionPool<C> {
    pub closed spec fn spec_idle(&self) -> Seq<PooledConnection<C>> {
        self.idle@
    }

    pub closed spec fn spec_stats(&self) -> PoolStats {
        self.stats
    }

    /// A pool with no connections.
    pub fn new() -> (r: Self)
        ensures
            r.spec_idle().len() == 0,
            r.spec_stats() == PoolStats::new_spec(),
    {
        ConnectionPool { idle: Vec::new(), stats: PoolStats::new() }
    }

    /// The pool's counters.
    pub fn stats(&self) -> (r: PoolStats)
        ensures
            r == self.spec_stats(),
    {
        self.stats
    }

    /// The number of idle connections held.
    pub fn idle_len(&self) -> (r: usize)
        ensures
            r == self.spec_idle().len(),
    {
        self.idle.len()
    }

    /// A connection opened while filling the pool to its minimum joins the
    /// idle connections and is counted.
    pub fn add_initial(&mut self, conn: PooledConnection<C>)
        requires
            old(self).spec_stats().total_connections < usize::MAX,
            old(self).spec_stats().idle_connections < usize::MAX,
            room(old(self).spec_stats().connections_created),
        ensures
            final(self).spec_idle() == old(self).spec_idle().push(conn),
            final(self).spec_stats() == (PoolStats {
                total_connections: (old(self).spec_stats().total_connections + 1) as usize,
                idle_connections: (old(self).spec_stats().idle_connections + 1) as usize,
                connections_created: (old(self).spec_stats().connections_created + 1) as u64,
                ..old(self).spec_stats()
            }),
    {
        self.idle.push(conn);
        self.stats.total_connections = self.stats.total_connections + 1;
        self.stats.idle_connections = self.stats.idle_connections + 1;
        self.stats.connections_created = self.stats.connections_created + 1;
    }

    /// A request for a connection at `now_ms`. The request is counted. The
    /// first idle connection is handed out if it has not expired; an expired
    /// one is dropped and counted as destroyed, and the caller is asked for
    /// a replacement; with no idle connection the caller is asked for a new
    /// one.
    pub fn checkout(&mut self, now_ms: i64, max_idle_time_ms: u64) -> (r: Checkout<C>)
        requires
            room(old(self).spec_stats().connection_requests),
            room(old(self).spec_stats().connections_destroyed),
            old(self).spec_stats().active_connections < usize::MAX,
        ensures
            old(self).spec_idle().len() == 0 ==> r is OpenNew && final(self).spec_idle() == old(self).spec_idle()
                && final(self).spec_stats() == (PoolStats {
                    connection_requests: (old(self).spec_stats().connection_requests + 1) as u64,
                    ..old(self).spec_stats()
                }),
            old(self).spec_idle().len() > 0 && spec_elapsed_over(old(self).spec_idle()[0].last_used_ms, now_ms, max_idle_time_ms)
                ==> r is Replace && final(self).spec_idle() == old(self).spec_idle().skip(1)
                && final(self).spec_stats() == (PoolStats {
                    connection_requests: (old(self).spec_stats().connection_requests + 1) as u64,
                    connections_destroyed: (old(self).spec_stats().connections_destroyed + 1) as u64,
                    ..old(self).spec_stats()
                }),
            old(self).spec_idle().len() > 0 && !spec_elapsed_over(old(self).spec_idle()[0].last_used_ms, now_ms, max_idle_time_ms)
                ==> r == Checkout::Ready(old(self).spec_idle()[0]) && final(self).spec_idle() == old(self).spec_idle().skip(1)
                && final(self).spec_stats() == (PoolStats {
                    connection_requests: (old(self).spec_stats().connection_requests + 1) as u64,
                    active_connections: (old(self).spec_stats().active_connections + 1) as usize,
                    idle_connections: if old(self).spec_stats().idle_connections > 0 {
                        (old(self).spec_stats().idle_connections - 1) as usize
                    } else {
                        0
                    },
                    ..old(self).spec_stats()
                }),
            old(self).spec_idle().len() > 0 && max_idle_time_ms <= i64::MAX
                && now_ms - old(self).spec_idle()[0].last_used_ms <= max_idle_time_ms
                ==> r == Checkout::Ready(old(self).spec_idle()[0]),
            old(self).spec_idle().len() > 0 && max_idle_time_ms <= i64::MAX
                && now_ms - old(self).spec_idle()[0].last_used_ms > max_idle_time_ms ==> r is Replace,
    {
        proof {
            if old(self).spec_idle().len() > 0 {
                lemma_elapsed_over(old(self).spec_idle()[0].last_used_ms, now_ms, max_idle_time_ms);
            }
        }
        self.stats.connection_requests = self.stats.connection_requests + 1;
        if self.idle.len() == 0 {
            return Checkout::OpenNew;
        }
        let ghost s = self.idle@;
        let conn = self.idle.remove(0);
        proof {
            assert(self.idle@ =~= s.skip(1));
        }
        if conn.is_expired(now_ms, max_idle_time_ms) {
            self.stats.connections_destroyed = self.stats.connections_destroyed + 1;
            Checkout::Replace
        } else {
            self.stats.active_connections = self.stats.active_connections + 1;
            self.stats.idle_connections = self.stats.idle_connections.saturating_sub(1);
            Checkout::Ready(conn)
        }
    }

    /// A connection the caller opened is handed out: it counts as created
    /// and active, and one fewer idle connection is reported.
    pub fn hand_out_new(&mut self, conn: PooledConnection<C>) -> (r: PooledConnection<C>)
        requires
            room(old(self).spec_stats().connections_created),
            old(self).spec_stats().active_connections < usize::MAX,
        ensures
            r == conn,
            final(self).spec_idle() == old(self).spec_idle(),
            final(self).spec_stats() == (PoolStats {
                connections_created: (old(self).spec_stats().connections_created + 1) as u64,
                active_connections: (old(self).spec_stats().active_connections + 1) as usize,
                idle_connections: if old(self).spec_stats().idle_connections > 0 {
                    (old(self).spec_stats().idle_connections - 1) as usize
                } else {
                    0
                },
                ..old(self).spec_stats()
            }),
    {
        self.stats.connections_created = self.stats.connections_created + 1;
        self.stats.active_connections = self.stats.active_connections + 1;
        self.stats.idle_connections = self.stats.idle_connections.saturating_sub(1);
        conn
    }

    /// A replacement could not be opened: the next idle connection, expired
    /// or not, is handed out; `None` when there is none (the request fails).
    pub fn fallback(&mut self) -> (r: Option<PooledConnection<C>>)
        requires
            old(self).spec_stats().active_connections < usize::MAX,
        ensures
            old(self).spec_idle().len() == 0 ==> r is None && final(self).spec_idle() == old(self).spec_idle()
                && final(self).spec_stats() == old(self).spec_stats(),
            old(self).spec_idle().len() > 0 ==> r == Some(old(self).spec_idle()[0])
                && final(self).spec_idle() == old(self).spec_idle().skip(1)
                && final(self).spec_stats() == (PoolStats {
                    active_connections: (old(self).spec_stats().active_connections + 1) as usize,
                    idle_connections: if old(self).spec_stats().idle_connections > 0 {
                        (old(self).spec_stats().idle_connections - 1) as usize
                    } else {
                        0
                    },
                    ..old(self).spec_stats()
                }),
    {
        if self.idle.len() == 0 {
            return None;
        }
        let ghost s = self.idle@;
        let conn = self.idle.remove(0);
        proof {
            assert(self.idle@ =~= s.skip(1));
        }
        self.stats.active_connections = self.stats.active_connections + 1;
        self.stats.idle_connections = self.stats.idle_connections.saturating_sub(1);
        Some(conn)
    }

    /// A connection comes back: it is marked free and joins the end of the
    /// idle connections; one fewer is active and one more idle.
    pub fn give_back(&mut self, conn: PooledConnection<C>)
        requires
            old(self).spec_stats().idle_connections < usize::MAX,
        ensures
            final(self).spec_idle() == old(self).spec_idle().push(PooledConnection { in_use: false, ..conn }),
            final(self).spec_stats() == (PoolStats {
                active_connections: if old(self).spec_stats().active_connections > 0 {
                    (old(self).spec_stats().active_connections - 1) as usize
                } else {
                    0
                },
                idle_connections: (old(self).spec_stats().idle_connections + 1) as usize,
                ..old(self).spec_stats()
            }),
    {
        let mut conn = conn;
        conn.mark_free();
        self.idle.push(conn);
        self.stats.active_connections = self.stats.active_connections.saturating_sub(1);
        self.stats.idle_connections = self.stats.idle_connections + 1;
    }

    /// The periodic cleanup at `now_ms`: idle connections unused for longer
    /// than the limit (and not in use) are dropped, in order, each counted as
    /// destroyed, and the totals fall by the number dropped; then, while more
    /// than `max_connections` remain, the last one is dropped likewise,
    /// stopping at one in use.
    pub fn cleanup(&mut self, now_ms: i64, max_idle_time_ms: u64, max_connections: usize)
        requires
            old(self).spec_stats().connections_destroyed + old(self).spec_idle().len() <= u64::MAX,
        ensures
            final(self).spec_idle().len() <= old(self).spec_idle().filter(survives(now_ms, max_idle_time_ms)).len(),
            final(self).spec_idle() == old(self).spec_idle().filter(survives(now_ms, max_idle_time_ms)).take(
                final(self).spec_idle().len() as int,
            ),
            final(self).spec_idle().len() > max_connections ==> final(self).spec_idle().last().in_use,
            final(self).spec_idle().len() < old(self).spec_idle().filter(survives(now_ms, max_idle_time_ms)).len()
                ==> final(self).spec_idle().len() >= max_connections,
            forall|j: int| final(self).spec_idle().len() <= j < old(self).spec_idle().filter(survives(now_ms, max_idle_time_ms)).len()
                ==> !(#[trigger] old(self).spec_idle().filter(survives(now_ms, max_idle_time_ms))[j]).in_use,
            final(self).spec_stats().connections_destroyed == old(self).spec_stats().connections_destroyed
                + (old(self).spec_idle().len() - final(self).spec_idle().len()),
            final(self).spec_stats().total_connections == (if old(self).spec_stats().total_connections
                >= old(self).spec_idle().len() - final(self).spec_idle().len() {
                old(self).spec_stats().total_connections - (old(self).spec_idle().len() - final(self).spec_idle().len())
            } else {
                0
            }),
            final(self).spec_stats().idle_connections == (if old(self).spec_stats().idle_connections
                >= old(self).spec_idle().len() - final(self).spec_idle().len() {
                old(self).spec_stats().idle_connections - (old(self).spec_idle().len() - final(self).spec_idle().len())
            } else {
                0
            }),
            final(self).spec_stats().active_connections == old(self).spec_stats().active_connections,
            final(self).spec_stats().connections_created == old(self).spec_stats().connections_created,
            final(self).spec_stats().connection_requests == old(self).spec_stats().connection_requests,
            final(self).spec_stats().connection_timeouts == old(self).spec_stats().connection_timeouts,
    {
        let ghost s = self.idle@;
        let ghost f = survives::<C>(now_ms, max_idle_time_ms);
        let ghost st = self.stats;
        let n = self.idle.len();
        let mut kept: Vec<PooledConnection<C>> = Vec::new();
        let mut i: usize = 0;
        let mut removed: usize = 0;
        let mut destroyed = self.stats.connections_destroyed;
        let mut rest: Vec<PooledConnection<C>> = Vec::new();
        std::mem::swap(&mut rest, &mut self.idle);
        proof {
            assert(rest@ == s);
        }
        while i < n
            invariant
                i <= n,
                n == s.len(),
                rest@ == s.skip(i as int),
                kept@ == s.take(i as int).filter(f),
                removed == i - kept@.len(),
                destroyed == st.connections_destroyed + removed,
                st.connections_destroyed + s.len() <= u64::MAX,
                f == survives::<C>(now_ms, max_idle_time_ms),
            decreases n - i,
        {
            let c = rest.remove(0);
            proof {
                assert(s.take(i + 1).drop_last() =~= s.take(i as int));
                assert(s.take(i + 1).last() == c);
                s.take(i as int).lemma_filter_push(c, f);
                assert(s.take(i + 1) =~= s.take(i as int).push(c));
                assert(s.take(i as int).filter(f).len() <= i) by {
                    s.take(i as int).lemma_filter_len(f);
                }
            }
            if c.is_expired(now_ms, max_idle_time_ms) && !c.in_use {
                destroyed = destroyed + 1;
                removed = removed + 1;
                proof {
                    assert(!f(c));
                    assert(s.take(i as int).push(c).filter(f) =~= s.take(i as int).filter(f));
                }
            } else {
                proof {
                    assert(f(c));
                    assert(s.take(i as int).push(c).filter(f) =~= s.take(i as int).filter(f).push(c));
                }
                kept.push(c);
            }
            i = i + 1;
            proof {
                assert(rest@ =~= s.skip(i as int));
            }
        }
        proof {
            assert(s.take(n as int) =~= s);
        }
        self.stats.connections_destroyed = destroyed;
        if removed > 0 {
            self.stats.total_connections = self.stats.total_connections.saturating_sub(removed);
            self.stats.idle_connections = self.stats.idle_connections.saturating_sub(removed);
        }
        let ghost g = kept@;
        let ghost st2 = self.stats;
        proof {
            assert(st2.connections_destroyed == st.connections_destroyed + (s.len() - g.len()));
        }
        while kept.len() > max_connections
            invariant
                kept@.len() <= g.len(),
                kept@ == g.take(kept@.len() as int),
                g == s.filter(f),
                g.len() <= s.len(),
                forall|j: int| kept@.len() <= j < g.len() ==> !(#[trigger] g[j]).in_use,
                kept@.len() < g.len() ==> kept@.len() >= max_connections,
                self.stats.connections_destroyed == st2.connections_destroyed + (g.len() - kept@.len()),
                self.stats.total_connections == (if st2.total_connections >= g.len() - kept@.len() {
                    st2.total_connections - (g.len() - kept@.len())
                } else {
                    0
                }),
                self.stats.idle_connections == (if st2.idle_connections >= g.len() - kept@.len() {
                    st2.idle_connections - (g.len() - kept@.len())
                } else {
                    0
                }),
                self.stats.active_connections == st2.active_connections,
                self.stats.connections_created == st2.connections_created,
                self.stats.connection_requests == st2.connection_requests,
                self.stats.connection_timeouts == st2.connection_timeouts,
                st2.connections_destroyed + g.len() <= u64::MAX,
            ensures
                kept@.len() <= g.len(),
                kept@ == g.take(kept@.len() as int),
                forall|j: int| kept@.len() <= j < g.len() ==> !(#[trigger] g[j]).in_use,
                kept@.len() < g.len() ==> kept@.len() >= max_connections,
                kept@.len() > max_connections ==> kept@.last().in_use,
                self.stats.connections_destroyed == st2.connections_destroyed + (g.len() - kept@.len()),
                self.stats.total_connections == (if st2.total_connections >= g.len() - kept@.len() {
                    st2.total_connections - (g.len() - kept@.len())
                } else {
                    0
                }),
                self.stats.idle_connections == (if st2.idle_connections >= g.len() - kept@.len() {
                    st2.idle_connections - (g.len() - kept@.len())
                } else {
                    0
                }),
                self.stats.active_connections == st2.active_connections,
                self.stats.connections_created == st2.connections_created,
                self.stats.connection_requests == st2.connection_requests,
                self.stats.connection_timeouts == st2.connection_timeouts,
            decreases kept@.len(),
        {
            let last = kept.len() - 1;
            if kept[last].in_use {
                proof {
                    assert(kept@.last().in_use);
                }
                break;
            }
            let c = kept.pop().unwrap();
            proof {
                assert(kept@ =~= g.take(kept@.len() as int));
                assert(g[kept@.len() as int] == c);
            }
            self.stats.connections_destroyed = self.stats.connections_destroyed + 1;
            self.stats.total_connections = self.stats.total_connections.saturating_sub(1);
            self.stats.idle_connections = self.stats.idle_connections.saturating_sub(1);
        }
        self.idle = kept;
    }
}

impl PoolStats {
    pub open spec fn new_spec() -> PoolStats {
        PoolStats {
            total_connections: 0,
            active_connections: 0,
            idle_connections: 0,
            connections_created: 0,
            connections_destroyed: 0,
            connection_requests: 0,
            connection_timeouts: 0,
        }
    }
}

/// A cached response: its bytes, content type, when it was stored and how
/// long it lives.
pub struct CachedResponse {
    pub data: Vec<u8>,
    pub content_type: String,
    pub timestamp_ms: i64,
    pub ttl_ms: u64,
}

/// Abstract state of a cached response.
pub struct ResponseView {
    pub data: Seq<u8>,
    pub content_type: Seq<char>,
    pub timestamp_ms: i64,
    pub ttl_ms: u64,
}

impl CachedResponse {
    pub closed spec fn view(&self) -> ResponseView {
        ResponseView {
            data: self.data@,
            content_type: self.content_type@,
            timestamp_ms: self.timestamp_ms,
            ttl_ms: self.ttl_ms,
        }
    }

    /// Whether the response outlived its time to live at `now_ms`.
    pub fn is_expired(&self, now_ms: i64) -> (r: bool)
        ensures
            r == spec_elapsed_over(self.timestamp_ms, now_ms, self.ttl_ms),
    {
        elapsed_over(self.timestamp_ms, now_ms, self.ttl_ms)
    }

    /// A copy of the response.
    pub fn duplicate(&self) -> (r: Self)
        ensures
            r.view() == self.view(),
    {
        CachedResponse {
            data: self.data.clone(),
            content_type: self.content_type.clone(),
            timestamp_ms: self.timestamp_ms,
            ttl_ms: self.ttl_ms,
        }
    }
}

/// Whether a stored response is still live at `now_ms`.
pub open spec fn response_live(r: ResponseView, now_ms: i64) -> bool {
    !spec_elapsed_over(r.timestamp_ms, now_ms, r.ttl_ms)
}

/// The predicate "live at `now_ms`" on stored pairs.
pub open spec fn pair_live(now_ms: i64) -> spec_fn((Seq<char>, ResponseView)) -> bool {
    |p: (Seq<char>, ResponseView)| response_live(p.1, now_ms)
}

/// No key is stored twice.
pub open spec fn pairs_unique(s: Seq<(Seq<char>, ResponseView)>) -> bool {
    forall|i: int, j: int| 0 <= i < s.len() && 0 <= j < s.len() && i != j ==> s[i].0 != s[j].0
}

/// Whether `k` is stored.
pub open spec fn pair_has(s: Seq<(Seq<char>, ResponseView)>, k: Seq<char>) -> bool {
    exists|i: int| 0 <= i < s.len() && s[i].0 == k
}

/// The position of `k` (meaningful when stored).
pub open spec fn pair_pos(s: Seq<(Seq<char>, ResponseView)>, k: Seq<char>) -> int {
    choose|i: int| 0 <= i < s.len() && s[i].0 == k
}

/// Stores `r` under `k`: in place of the response stored under `k`, or at
/// the end.
pub open spec fn pair_put(s: Seq<(Seq<char>, ResponseView)>, k: Seq<char>, r: ResponseView) -> Seq<(Seq<char>, ResponseView)> {
    if pair_has(s, k) {
        s.update(pair_pos(s, k), (k, r))
    } else {
        s.push((k, r))
    }
}

/// The stored pairs after a store at `now_ms` into a cache of `max_size`:
/// expired responses leave, then the oldest until fewer than `max_size`
/// remain, then the response is stored.
pub open spec fn spec_store(
    s: Seq<(Seq<char>, ResponseView)>,
    max_size: usize,
    now_ms: i64,
    k: Seq<char>,
    r: ResponseView,
) -> Seq<(Seq<char>, ResponseView)> {
    let live = s.filter(pair_live(now_ms));
    let kept = if live.len() >= max_size { live.skip(live.len() - max_size + 1) } else { live };
    pair_put(kept, k, r)
}

proof fn lemma_pairs_filter_unique(s: Seq<(Seq<char>, ResponseView)>, p: spec_fn((Seq<char>, ResponseView)) -> bool)
    requires
        pairs_unique(s),
    ensures
        pairs_unique(s.filter(p)),
        forall|i: int| 0 <= i < s.filter(p).len() ==> #[trigger] s.contains(s.filter(p)[i]),
    decreases s.len(),
{
    broadcast use vstd::seq_lib::group_filter_ensures;
    if s.len() == 0 {
        reveal(Seq::filter);
        assert(s.filter(p) =~= s);
    } else {
        let d = s.drop_last();
        let l = s.last();
        assert(pairs_unique(d));
        lemma_pairs_filter_unique(d, p);
        assert(d.push(l) =~= s);
        d.lemma_filter_push(l, p);
        let fd = d.filter(p);
        assert forall|i: int| 0 <= i < fd.len() implies #[trigger] fd[i].0 != l.0 by {
            assert(d.contains(fd[i]));
            let q = choose|q: int| 0 <= q < d.len() && d[q] == fd[i];
            assert(s[q] == d[q]);
            assert(s[s.len() - 1] == l);
        }
        assert forall|i: int| 0 <= i < s.filter(p).len() implies #[trigger] s.contains(s.filter(p)[i]) by {
            if p(l) && i == fd.len() {
                assert(s[s.len() - 1] == l);
            } else {
                assert(d.contains(fd[i]));
                let q = choose|q: int| 0 <= q < d.len() && d[q] == fd[i];
                assert(s[q] == d[q]);
            }
        }
    }
}

proof fn lemma_pair_put(s: Seq<(Seq<char>, ResponseView)>, k: Seq<char>, r: ResponseView)
    requires
        pairs_unique(s),
    ensures
        pairs_unique(pair_put(s, k, r)),
        pair_has(pair_put(s, k, r), k),
        pair_put(s, k, r)[pair_pos(pair_put(s, k, r), k)] == (k, r),
{
    let t = pair_put(s, k, r);
    if pair_has(s, k) {
        let i = pair_pos(s, k);
        assert(t[i].0 == k);
        let q = pair_pos(t, k);
        assert(t[q].0 == k);
    } else {
        let i = s.len() as int;
        assert(t[i].0 == k);
        let q = pair_pos(t, k);
        assert(t[q].0 == k);
    }
}

/// A response just stored is what a read at the same moment finds, live;
/// and the cache never holds more than its maximum size after a store.
pub proof fn lemma_store_then_read(
    s: Seq<(Seq<char>, ResponseView)>,
    max_size: usize,
    now_ms: i64,
    k: Seq<char>,
    r: ResponseView,
)
    requires
        pairs_unique(s),
        max_size > 0,
        r.timestamp_ms == now_ms,
    ensures
        pairs_unique(spec_store(s, max_size, now_ms, k, r)),
        pair_has(spec_store(s, max_size, now_ms, k, r), k),
        spec_store(s, max_size, now_ms, k, r)[pair_pos(spec_store(s, max_size, now_ms, k, r), k)] == (k, r),
        response_live(r, now_ms),
        spec_store(s, max_size, now_ms, k, r).len() <= max_size,
{
    let f = pair_live(now_ms);
    lemma_pairs_filter_unique(s, f);
    let live = s.filter(f);
    let kept = if live.len() >= max_size { live.skip(live.len() - max_size + 1) } else { live };
    assert(pairs_unique(kept));
    assert(kept.len() < max_size);
    lemma_pair_put(kept, k, r);
}

/// Responses cached by request key, each for a fixed time to live.
pub struct RequestCache {
    entries: Vec<(String, CachedResponse)>,
    max_size: usize,
    ttl_ms: u64,
}

impl RequestCache {
    pub closed spec fn view(&self) -> Seq<(Seq<char>, ResponseView)> {
        self.entries@.map_values(|e: (String, CachedResponse)| (e.0@, e.1.view()))
    }

    pub closed spec fn spec_max_size(&self) -> usize {
        self.max_size
    }

    pub closed spec fn spec_ttl_ms(&self) -> u64 {
        self.ttl_ms
    }

    pub open spec fn wf(&self) -> bool {
        pairs_unique(self.view())
    }

    /// An empty cache holding fewer than `max_size` responses after each
    /// store, each living `ttl_ms`.
    pub fn new(max_size: usize, ttl_ms: u64) -> (r: Self)
        ensures
            r.wf(),
            r.view().len() == 0,
            r.spec_max_size() == max_size,
            r.spec_ttl_ms() == ttl_ms,
    {
        let r = RequestCache { entries: Vec::new(), max_size, ttl_ms };
        proof {
            assert(r.view() =~= Seq::<(Seq<char>, ResponseView)>::empty());
        }
        r
    }

    fn find(&self, key: &str) -> (r: Option<usize>)
        requires
            self.wf(),
        ensures
            match r {
                Some(i) => i < self.view().len() && self.view()[i as int].0 == key@ && pair_has(self.view(), key@)
                    && pair_pos(self.view(), key@) == i,
                None => !pair_has(self.view(), key@),
            },
    {
        let mut i: usize = 0;
        while i < self.entries.len()
            invariant
                i <= self.entries@.len(),
                self.wf(),
                self.view().len() == self.entries@.len(),
                forall|j: int| 0 <= j < i ==> #[trigger] self.view()[j].0 != key@,
            decreases self.entries@.len() - i,
        {
            proof {
                assert(self.view()[i as int] == (self.entries@[i as int].0@, self.entries@[i as int].1.view()));
            }
            if str_eq(self.entries[i].0.as_str(), key) {
                proof {
                    let p = pair_pos(self.view(), key@);
                    assert(pair_has(self.view(), key@));
                    assert(self.view()[p].0 == key@);
                }
                return Some(i);
            }
            i = i + 1;
        }
        None
    }

    /// The response stored under `key` if it is still live at `now_ms`; an
    /// expired one is removed and `None` returned.
    pub fn get(&mut self, key: &str, now_ms: i64) -> (r: Option<CachedResponse>)
        requires
            old(self).wf(),
        ensures
            final(self).wf(),
            final(self).spec_max_size() == old(self).spec_max_size(),
            final(self).spec_ttl_ms() == old(self).spec_ttl_ms(),
            !pair_has(old(self).view(), key@) ==> r is None && final(self).view() == old(self).view(),
            pair_has(old(self).view(), key@) && response_live(old(self).view()[pair_pos(old(self).view(), key@)].1, now_ms)
                ==> r is Some && r->0.view() == old(self).view()[pair_pos(old(self).view(), key@)].1
                && final(self).view() == old(self).view(),
            pair_has(old(self).view(), key@) && !response_live(old(self).view()[pair_pos(old(self).view(), key@)].1, now_ms)
                ==> r is None && final(self).view() == old(self).view().remove(pair_pos(old(self).view(), key@)),
    {
        match self.find(key) {
            None => None,
            Some(i) => {
                proof {
                    assert(self.view()[i as int].1 == self.entries@[i as int].1.view());
                }
                if !self.entries[i].1.is_expired(now_ms) {
                    Some(self.entries[i].1.duplicate())
                } else {
                    let ghost s = self.view();
                    self.entries.remove(i);
                    proof {
                        assert(self.view() =~= s.remove(i as int));
                    }
                    None
                }
            },
        }
    }

    /// Stores a response under `key` at `now_ms`: expired responses leave
    /// first, then the oldest stored ones until fewer than `max_size`
    /// remain; a response already under `key` is replaced in place.
    pub fn set(&mut self, key: String, data: Vec<u8>, content_type: String, now_ms: i64)
        requires
            old(self).wf(),
            old(self).spec_max_size() > 0,
        ensures
            final(self).wf(),
            final(self).spec_max_size() == old(self).spec_max_size(),
            final(self).spec_ttl_ms() == old(self).spec_ttl_ms(),
            final(self).view() == spec_store(
                old(self).view(),
                old(self).spec_max_size(),
                now_ms,
                key@,
                ResponseView {
                    data: data@,
                    content_type: content_type@,
                    timestamp_ms: now_ms,
                    ttl_ms: old(self).spec_ttl_ms(),
                },
            ),
    {
        let ghost s = self.view();
        let ghost f = pair_live(now_ms);
        let n = self.entries.len();
        let mut rest: Vec<(String, CachedResponse)> = Vec::new();
        std::mem::swap(&mut rest, &mut self.entries);
        let mut kept: Vec<(String, CachedResponse)> = Vec::new();
        let mut i: usize = 0;
        while i < n
            invariant
                i <= n,
                n == s.len(),
                rest@.len() == n - i,
                forall|j: int| 0 <= j < rest@.len() ==> (#[trigger] rest@[j]).0@ == s[i + j].0 && rest@[j].1.view() == s[i + j].1,
                kept@.map_values(|e: (String, CachedResponse)| (e.0@, e.1.view())) == s.take(i as int).filter(f),
                f == pair_live(now_ms),
            decreases n - i,
        {
            let e = rest.remove(0);
            let ghost ev = (e.0@, e.1.view());
            proof {
                assert(ev == s[i as int]);
                assert(s.take(i + 1) =~= s.take(i as int).push(ev));
                s.take(i as int).lemma_filter_push(ev, f);
            }
            if !e.1.is_expired(now_ms) {
                let ghost before = kept@;
                kept.push(e);
                proof {
                    assert(kept@.map_values(|e: (String, CachedResponse)| (e.0@, e.1.view()))
                        =~= before.map_values(|e: (String, CachedResponse)| (e.0@, e.1.view())).push(ev));
                }
            }
            i = i + 1;
        }
        proof {
            assert(s.take(n as int) =~= s);
            lemma_pairs_filter_unique(s, f);
        }
        let ghost live = s.filter(f);
        proof {
            assert(kept@.len() == kept@.map_values(|e: (String, CachedResponse)| (e.0@, e.1.view())).len());
        }
        if kept.len() >= self.max_size {
            let drop_count = kept.len() - self.max_size + 1;
            let mut d: usize = 0;
            while d < drop_count
                invariant
                    d <= drop_count,
                    drop_count <= live.len(),
                    kept@.len() == live.len() - d,
                    kept@.map_values(|e: (String, CachedResponse)| (e.0@, e.1.view())) == live.skip(d as int),
                decreases drop_count - d,
            {
                let ghost before = kept@;
                kept.remove(0);
                d = d + 1;
                proof {
                    assert(kept@ =~= before.subrange(1, before.len() as int));
                    assert forall|j: int| 0 <= j < kept@.len() implies
                        (#[trigger] kept@[j]).0@ == live.skip(d as int)[j].0 && kept@[j].1.view() == live.skip(d as int)[j].1 by {
                        assert(kept@[j] == before[j + 1]);
                        assert(before.map_values(|e: (String, CachedResponse)| (e.0@, e.1.view()))[j + 1]
                            == live.skip(d - 1)[j + 1]);
                    }
                    assert(kept@.map_values(|e: (String, CachedResponse)| (e.0@, e.1.view())) =~= live.skip(d as int));
                }
            }
        }
        self.entries = kept;
        let ghost kv = self.view();
        proof {
            assert(pairs_unique(kv));
        }
        let resp = CachedResponse { data, content_type, timestamp_ms: now_ms, ttl_ms: self.ttl_ms };
        match self.find(key.as_str()) {
            Some(j) => {
                self.entries.set(j, (key, resp));
            },
            None => {
                self.entries.push((key, resp));
            },
        }
        proof {
            lemma_pair_put(kv, key@, resp.view());
            assert(self.view() =~= pair_put(kv, key@, resp.view()));
        }
    }

    /// Removes every response.
    pub fn clear(&mut self)
        ensures
            final(self).wf(),
            final(self).view().len() == 0,
            final(self).spec_max_size() == old(self).spec_max_size(),
            final(self).spec_ttl_ms() == old(self).spec_ttl_ms(),
    {
        self.entries.clear();
        proof {
            assert(self.view() =~= Seq::<(Seq<char>, ResponseView)>::empty());
        }
    }

    /// The number of stored responses, and how many of them are expired at
    /// `now_ms`.
    pub fn stats(&self, now_ms: i64) -> (r: (usize, usize))
        ensures
            r.0 == self.view().len(),
            r.1 == self.view().len() - self.view().filter(pair_live(now_ms)).len(),
    {
        let ghost s = self.view();
        let ghost f = pair_live(now_ms);
        let mut live: usize = 0;
        let mut i: usize = 0;
        while i < self.entries.len()
            invariant
                i <= self.entries@.len(),
                s == self.view(),
                s.len() == self.entries@.len(),
                live == s.take(i as int).filter(f).len(),
                live <= i,
                f == pair_live(now_ms),
            decreases self.entries@.len() - i,
        {
            proof {
                assert(s[i as int] == (self.entries@[i as int].0@, self.entries@[i as int].1.view()));
                assert(s.take(i + 1) =~= s.take(i as int).push(s[i as int]));
                s.take(i as int).lemma_filter_push(s[i as int], f);
            }
            if !self.entries[i].1.is_expired(now_ms) {
                live = live + 1;
            }
            i = i + 1;
        }
        proof {
            assert(s.take(i as int) =~= s);
        }
        (self.entries.len(), self.entries.len() - live)
    }
}

/// Counters of a task scheduler (the mean execution time is kept by the
/// caller).
#[derive(Debug, Clone, Copy, PartialEq, Eq, Structural)]
pub struct SchedulerStats {
    pub total_tasks: u64,
    pub active_tasks: u64,
    pub completed_tasks: u64,
    pub failed_tasks: u64,
}

impl SchedulerStats {
    /// All counters at zero.
    pub fn new() -> (r: Self)
        ensures
            r == (SchedulerStats { total_tasks: 0, active_tasks: 0, completed_tasks: 0, failed_tasks: 0 }),
    {
        SchedulerStats { total_tasks: 0, active_tasks: 0, completed_tasks: 0, failed_tasks: 0 }
    }

    /// A task starts.
    pub fn task_started(&mut self)
        requires
            old(self).total_tasks < u64::MAX,
            old(self).active_tasks < u64::MAX,
        ensures
            *final(self) == (SchedulerStats {
                total_tasks: (old(self).total_tasks + 1) as u64,
                active_tasks: (old(self).active_tasks + 1) as u64,
                ..*old(self)
            }),
    {
        self.total_tasks = self.total_tasks + 1;
        self.active_tasks = self.active_tasks + 1;
    }

    /// A task ended, successfully or not.
    pub fn task_finished(&mut self, succeeded: bool)
        requires
            succeeded ==> old(self).completed_tasks < u64::MAX,
            !succeeded ==> old(self).failed_tasks < u64::MAX,
        ensures
            *final(self) == (SchedulerStats {
                active_tasks: if old(self).active_tasks > 0 { (old(self).active_tasks - 1) as u64 } else { 0 },
                completed_tasks: if succeeded { (old(self).completed_tasks + 1) as u64 } else { old(self).completed_tasks },
                failed_tasks: if succeeded { old(self).failed_tasks } else { (old(self).failed_tasks + 1) as u64 },
                ..*old(self)
            }),
    {
        self.active_tasks = self.active_tasks.saturating_sub(1);
        if succeeded {
            self.completed_tasks = self.completed_tasks + 1;
        } else {
            self.failed_tasks = self.failed_tasks + 1;
        }
    }
}

} // verus!
