//! Connection and channel pool bookkeeping.
//!
//! The pool tracks broker connections and the channels multiplexed over
//! them as plain records keyed by numeric ids; the application holds the
//! actual broker handles under the same ids and performs the asynchronous
//! broker calls that the pool's step functions ask for. Every operation
//! preserves the pool invariant: the connection count stays within the
//! connection limit, every channel names exactly one existing owning
//! connection, and each connection's live-channel counter equals the number
//! of its non-closed channel records and stays within the per-connection
//! channel limit.

use vstd::prelude::*;
use vstd::pervasive::VecAdditionalExecFns;

verus! {

/// Status of a pooled channel.
#[derive(Debug, Clone, Copy, PartialEq, Eq, Structural)]
pub enum ChannelStatus {
    Idle,
    Busy,
    Timeout,
    Close,
}

/// Bookkeeping for one broker connection.
#[derive(Debug, Clone, Copy, PartialEq, Eq, Structural)]
pub struct ConnectionRecord {
    /// Unique id; the application keys the real connection handle by it.
    pub id: u64,
    /// Whether the underlying connection last reported itself connected.
    pub connected: bool,
    /// Number of non-closed channels owned by this connection.
    pub live_ch: u32,
    /// Last use, in milliseconds since the epoch.
    pub last_use_millis: u64,
}

/// Bookkeeping for one channel, owned by exactly one connection.
#[derive(Debug, Clone, Copy, PartialEq, Eq, Structural)]
pub struct ChannelRecord {
    /// Unique id; the application keys the real channel handle by it.
    pub id: u64,
    /// Id of the owning connection, fixed for the record's lifetime.
    pub conn_id: u64,
    pub status: ChannelStatus,
    /// Last use, in milliseconds since the epoch.
    pub last_use_millis: u64,
}

impl ConnectionRecord {
    /// A record for a connection just opened: reported live, no channels
    /// yet, last used `now`.
    pub fn new(id: u64, now: u64) -> (r: ConnectionRecord)
        ensures
            r == (ConnectionRecord { id, connected: true, live_ch: 0, last_use_millis: now }),
    {
        ConnectionRecord { id, connected: true, live_ch: 0, last_use_millis: now }
    }
}

impl ChannelRecord {
    /// A record for a channel just opened on connection `conn_id`: busy,
    /// last used `now`. The owner is fixed for the record's lifetime.
    pub fn new(id: u64, conn_id: u64, now: u64) -> (r: ChannelRecord)
        ensures
            r == (ChannelRecord { id, conn_id, status: ChannelStatus::Busy, last_use_millis: now }),
    {
        ChannelRecord { id, conn_id, status: ChannelStatus::Busy, last_use_millis: now }
    }
}

/// Whether channel record `c` counts against the live-channel counter of
/// connection `cid`.
pub open spec fn owns_live(c: ChannelRecord, cid: u64) -> bool {
    c.conn_id == cid && c.status != ChannelStatus::Close
}

/// Number of non-closed channel records owned by connection `cid`.
pub open spec fn live_count(chans: Seq<ChannelRecord>, cid: u64) -> nat
    decreases chans.len(),
{
    if chans.len() == 0 {
        0
    } else {
        live_count(chans.drop_last(), cid) + if owns_live(chans.last(), cid) {
            1nat
        } else {
            0nat
        }
    }
}

/// Whether some connection record in `conns` has id `cid`.
pub open spec fn has_conn(conns: Seq<ConnectionRecord>, cid: u64) -> bool {
    exists|j: int| 0 <= j < conns.len() && conns[j].id == cid
}

/// One sub-pool (the pool keeps one for publishing and one for consuming).
pub struct SubPool {
    pub conns: Vec<ConnectionRecord>,
    pub chans: Vec<ChannelRecord>,
    /// Source of fresh ids; strictly above every id in use.
    pub next_id: u64,
    /// Maximum number of connections.
    pub conn_limit: usize,
    /// Maximum number of live channels per connection.
    pub ch_limit: u32,
}

impl SubPool {
    /// The pool invariant.
    pub open spec fn wf(&self) -> bool {
        &&& self.conns@.len() <= self.conn_limit
        &&& forall|i: int, j: int|
            0 <= i < j < self.conns@.len() ==> self.conns@[i].id != self.conns@[j].id
        &&& forall|i: int, j: int|
            0 <= i < j < self.chans@.len() ==> self.chans@[i].id != self.chans@[j].id
        &&& forall|i: int|
            0 <= i < self.chans@.len() ==> has_conn(self.conns@, self.chans@[i].conn_id)
        &&& forall|i: int|
            0 <= i < self.conns@.len() ==> #[trigger] self.conns@[i].live_ch == live_count(
                self.chans@,
                self.conns@[i].id,
            )
        &&& forall|i: int|
            0 <= i < self.conns@.len() ==> #[trigger] self.conns@[i].live_ch <= self.ch_limit
        &&& forall|i: int| 0 <= i < self.conns@.len() ==> #[trigger] self.conns@[i].id < self.next_id
        &&& forall|i: int| 0 <= i < self.chans@.len() ==> #[trigger] self.chans@[i].id < self.next_id
    }

    /// An empty sub-pool with the given limits.
    pub fn new(conn_limit: usize, ch_limit: u32) -> (r: SubPool)
        ensures
            r.wf(),
            r.conns@.len() == 0,
            r.chans@.len() == 0,
            r.conn_limit == conn_limit,
            r.ch_limit == ch_limit,
            r.next_id == 0,
    {
        SubPool { conns: Vec::new(), chans: Vec::new(), next_id: 0, conn_limit, ch_limit }
    }
}

/// What connection selection asks the caller to do next.
#[derive(Debug, Clone, Copy, PartialEq, Eq, Structural)]
pub enum ConnPlan {
    /// Reuse the existing connection with this id.
    Reuse(u64),
    /// No connection qualifies; the pool is below its limit, so open a new
    /// broker connection and register it with [`SubPool::add_conn`].
    Connect,
    /// No connection qualifies and the pool is at its connection limit.
    Exhausted,
}

/// Whether a connection can take one more channel: still connected and
/// below the per-connection channel limit.
pub open spec fn eligible(c: ConnectionRecord, ch_limit: u32) -> bool {
    c.connected && c.live_ch < ch_limit
}

impl SubPool {
    /// Connection selection: among connections that are still connected and
    /// below the per-connection channel limit, pick one with the largest
    /// live-channel count (greedy packing). If none qualifies, ask for a new
    /// connection while below the connection limit, and report exhaustion at
    /// the limit.
    pub fn plan_conn(&self) -> (r: ConnPlan)
        requires
            self.wf(),
        ensures
            match r {
                ConnPlan::Reuse(cid) => exists|i: int|
                    0 <= i < self.conns@.len() && #[trigger] self.conns@[i].id == cid && eligible(
                        self.conns@[i],
                        self.ch_limit,
                    ) && forall|j: int|
                        0 <= j < self.conns@.len() && eligible(
                            #[trigger] self.conns@[j],
                            self.ch_limit,
                        ) ==> self.conns@[j].live_ch <= self.conns@[i].live_ch,
                ConnPlan::Connect => self.conns@.len() < self.conn_limit && forall|j: int|
                    0 <= j < self.conns@.len() ==> !eligible(
                        #[trigger] self.conns@[j],
                        self.ch_limit,
                    ),
                ConnPlan::Exhausted => self.conns@.len() == self.conn_limit && forall|j: int|
                    0 <= j < self.conns@.len() ==> !eligible(
                        #[trigger] self.conns@[j],
                        self.ch_limit,
                    ),
            },
    {
        let mut best: Option<usize> = None;
        let mut i: usize = 0;
        while i < self.conns.len()
            invariant
                i <= self.conns@.len(),
                match best {
                    Some(b) => b < i && eligible(self.conns@[b as int], self.ch_limit) && forall|
                        j: int,
                    |
                        0 <= j < i && eligible(#[trigger] self.conns@[j], self.ch_limit)
                            ==> self.conns@[j].live_ch <= self.conns@[b as int].live_ch,
                    None => forall|j: int|
                        0 <= j < i ==> !eligible(#[trigger] self.conns@[j], self.ch_limit),
                },
            decreases self.conns@.len() - i,
        {
            let c = self.conns[i];
            if c.connected && c.live_ch < self.ch_limit {
                match best {
                    Some(b) => {
                        if self.conns[b].live_ch < c.live_ch {
                            best = Some(i);
                        }
                    },
                    None => {
                        best = Some(i);
                    },
                }
            }
            i = i + 1;
        }
        match best {
            Some(b) => ConnPlan::Reuse(self.conns[b].id),
            None => {
                if self.conns.len() < self.conn_limit {
                    ConnPlan::Connect
                } else {
                    ConnPlan::Exhausted
                }
            },
        }
    }

    /// Registers a connection the application has just opened; returns its
    /// fresh id. Only legal below the connection limit; `None` only when
    /// the id space is spent, with the pool unchanged.
    pub fn add_conn(&mut self, now: u64) -> (r: Option<u64>)
        requires
            old(self).wf(),
            old(self).conns@.len() < old(self).conn_limit,
        ensures
            final(self).wf(),
            final(self).conn_limit == old(self).conn_limit,
            final(self).ch_limit == old(self).ch_limit,
            match r {
                Some(id) => {
                    &&& id == old(self).next_id
                    &&& final(self).next_id == old(self).next_id + 1
                    &&& final(self).conns@ == old(self).conns@.push(
                        ConnectionRecord {
                            id,
                            connected: true,
                            live_ch: 0,
                            last_use_millis: now,
                        },
                    )
                    &&& final(self).chans@ == old(self).chans@
                    &&& !has_conn(old(self).conns@, id)
                },
                None => *final(self) == *old(self) && old(self).next_id == u64::MAX,
            },
    {
        if self.next_id == u64::MAX {
            return None;
        }
        let id = self.next_id;
        self.next_id = self.next_id + 1;
        self.conns.push(ConnectionRecord::new(id, now));
        proof {
            assert forall|i: int| 0 <= i < self.chans@.len() implies !owns_live(
                #[trigger] self.chans@[i],
                id,
            ) by {
                let cid = self.chans@[i].conn_id;
                assert(has_conn(old(self).conns@, cid));
                let j = choose|j: int|
                    0 <= j < old(self).conns@.len() && old(self).conns@[j].id == cid;
                assert(old(self).conns@[j].id < old(self).next_id);
            }
            lemma_live_count_none(self.chans@, id);
            assert forall|i: int| 0 <= i < self.chans@.len() implies has_conn(
                self.conns@,
                self.chans@[i].conn_id,
            ) by {
                let cid = self.chans@[i].conn_id;
                assert(has_conn(old(self).conns@, cid));
                let j = choose|j: int|
                    0 <= j < old(self).conns@.len() && old(self).conns@[j].id == cid;
                assert(self.conns@[j].id == cid);
            }
        }
        Some(id)
    }

    /// Index of the connection record with id `cid`, if present.
    pub(crate) fn find_conn(&self, cid: u64) -> (r: Option<usize>)
        ensures
            match r {
                Some(i) => i < self.conns@.len() && self.conns@[i as int].id == cid,
                None => !has_conn(self.conns@, cid),
            },
    {
        let mut i: usize = 0;
        while i < self.conns.len()
            invariant
                i <= self.conns@.len(),
                forall|j: int| 0 <= j < i ==> #[trigger] self.conns@[j].id != cid,
            decreases self.conns@.len() - i,
        {
            if self.conns[i].id == cid {
                return Some(i);
            }
            i = i + 1;
        }
        None
    }

    /// Index of the channel record with id `ch_id`, if present.
    pub(crate) fn find_chan(&self, ch_id: u64) -> (r: Option<usize>)
        ensures
            match r {
                Some(i) => i < self.chans@.len() && self.chans@[i as int].id == ch_id,
                None => forall|j: int| 0 <= j < self.chans@.len() ==> self.chans@[j].id != ch_id,
            },
    {
        let mut i: usize = 0;
        while i < self.chans.len()
            invariant
                i <= self.chans@.len(),
                forall|j: int| 0 <= j < i ==> #[trigger] self.chans@[j].id != ch_id,
            decreases self.chans@.len() - i,
        {
            if self.chans[i].id == ch_id {
                return Some(i);
            }
            i = i + 1;
        }
        None
    }

    /// Registers a channel the application has just opened on connection
    /// `cid`: the new record starts `Busy`, and the owner's live-channel
    /// counter and last-use timestamp are refreshed. Returns the channel's
    /// fresh id, or `None` — with the pool unchanged — if `cid` names no
    /// connection, that connection is at the per-connection channel limit,
    /// or the id space is spent.
    pub fn open_channel(&mut self, cid: u64, now: u64) -> (r: Option<u64>)
        requires
            old(self).wf(),
        ensures
            final(self).wf(),
            final(self).conn_limit == old(self).conn_limit,
            final(self).ch_limit == old(self).ch_limit,
            match r {
                Some(ch_id) => {
                    &&& ch_id == old(self).next_id
                    &&& final(self).next_id == old(self).next_id + 1
                    &&& has_conn(old(self).conns@, cid)
                    &&& final(self).chans@ == old(self).chans@.push(
                        ChannelRecord {
                            id: ch_id,
                            conn_id: cid,
                            status: ChannelStatus::Busy,
                            last_use_millis: now,
                        },
                    )
                    &&& exists|k: int|
                        0 <= k < old(self).conns@.len() && #[trigger] old(self).conns@[k].id == cid
                            && old(self).conns@[k].live_ch < old(self).ch_limit
                            && final(self).conns@ == old(self).conns@.update(
                            k,
                            ConnectionRecord {
                                id: cid,
                                connected: old(self).conns@[k].connected,
                                live_ch: (old(self).conns@[k].live_ch + 1) as u32,
                                last_use_millis: now,
                            },
                        )
                },
                None => {
                    &&& *final(self) == *old(self)
                    &&& (old(self).next_id == u64::MAX || !has_conn(old(self).conns@, cid)
                        || exists|k: int|
                        0 <= k < old(self).conns@.len() && #[trigger] old(self).conns@[k].id == cid
                            && old(self).conns@[k].live_ch >= old(self).ch_limit)
                },
            },
    {
        let k = match self.find_conn(cid) {
            Some(k) => k,
            None => {
                return None;
            },
        };
        let conn = self.conns[k];
        if conn.live_ch >= self.ch_limit {
            return None;
        }
        if self.next_id == u64::MAX {
            return None;
        }
        let ch_id = self.next_id;
        self.next_id = self.next_id + 1;
        let rec = ChannelRecord::new(ch_id, cid, now);
        self.chans.push(rec);
        self.conns.set(
            k,
            ConnectionRecord {
                id: cid,
                connected: conn.connected,
                live_ch: conn.live_ch + 1,
                last_use_millis: now,
            },
        );
        proof {
            let cs = old(self).chans@;
            assert forall|cid2: u64| true implies live_count(self.chans@, cid2) == live_count(
                cs,
                cid2,
            ) + if owns_live(rec, cid2) {
                1nat
            } else {
                0nat
            } by {
                lemma_live_count_push(cs, rec, cid2);
            }
            assert forall|i: int, j: int|
                0 <= i < j < self.conns@.len() implies self.conns@[i].id != self.conns@[j].id by {
                assert(old(self).conns@[i].id != old(self).conns@[j].id);
            }
            assert forall|i: int| 0 <= i < self.chans@.len() implies has_conn(
                self.conns@,
                self.chans@[i].conn_id,
            ) by {
                let cid2 = self.chans@[i].conn_id;
                if i < old(self).chans@.len() {
                    assert(has_conn(old(self).conns@, cid2));
                    let j = choose|j: int|
                        0 <= j < old(self).conns@.len() && old(self).conns@[j].id == cid2;
                    assert(self.conns@[j].id == cid2);
                } else {
                    assert(self.conns@[k as int].id == cid2);
                }
            }
        }
        Some(ch_id)
    }

    /// Scans for an `Idle` channel; the first one found is marked `Busy`
    /// with a fresh timestamp and its id is returned. `None` means no
    /// channel was idle and nothing changed.
    pub fn find_idle_channel(&mut self, now: u64) -> (r: Option<u64>)
        requires
            old(self).wf(),
        ensures
            final(self).wf(),
            final(self).conns@ == old(self).conns@,
            final(self).next_id == old(self).next_id,
            final(self).conn_limit == old(self).conn_limit,
            final(self).ch_limit == old(self).ch_limit,
            match r {
                Some(ch_id) => exists|i: int|
                    0 <= i < old(self).chans@.len() && #[trigger] old(self).chans@[i].id == ch_id
                        && old(self).chans@[i].status == ChannelStatus::Idle && final(self).chans@
                        == old(self).chans@.update(
                        i,
                        ChannelRecord {
                            id: ch_id,
                            conn_id: old(self).chans@[i].conn_id,
                            status: ChannelStatus::Busy,
                            last_use_millis: now,
                        },
                    ),
                None => final(self).chans@ == old(self).chans@ && forall|i: int|
                    0 <= i < old(self).chans@.len() ==> #[trigger] old(self).chans@[i].status
                        != ChannelStatus::Idle,
            },
    {
        let mut i: usize = 0;
        while i < self.chans.len()
            invariant
                self.wf(),
                i <= self.chans@.len(),
                *self == *old(self),
                forall|j: int|
                    0 <= j < i ==> #[trigger] self.chans@[j].status != ChannelStatus::Idle,
            decreases self.chans@.len() - i,
        {
            let c = self.chans[i];
            if c.status == ChannelStatus::Idle {
                let upd = ChannelRecord {
                    id: c.id,
                    conn_id: c.conn_id,
                    status: ChannelStatus::Busy,
                    last_use_millis: now,
                };
                self.chans.set(i, upd);
                proof {
                    let cs = old(self).chans@;
                    assert forall|cid: u64| true implies live_count(self.chans@, cid)
                        == live_count(cs, cid) by {
                        lemma_live_count_update(cs, i as int, upd, cid);
                    }
                }
                return Some(c.id);
            }
            i = i + 1;
        }
        None
    }

    /// Marks the channel `Idle` again and refreshes its last-use timestamp;
    /// a released channel is never closed. Requires a channel the caller
    /// actually holds, that is, one that is present and not closed.
    pub fn release_channel(&mut self, ch_id: u64, now: u64)
        requires
            old(self).wf(),
            exists|i: int|
                0 <= i < old(self).chans@.len() && #[trigger] old(self).chans@[i].id == ch_id
                    && old(self).chans@[i].status != ChannelStatus::Close,
        ensures
            final(self).wf(),
            final(self).conns@ == old(self).conns@,
            final(self).next_id == old(self).next_id,
            final(self).conn_limit == old(self).conn_limit,
            final(self).ch_limit == old(self).ch_limit,
            exists|i: int|
                0 <= i < old(self).chans@.len() && #[trigger] old(self).chans@[i].id == ch_id
                    && final(self).chans@ == old(self).chans@.update(
                    i,
                    ChannelRecord {
                        id: ch_id,
                        conn_id: old(self).chans@[i].conn_id,
                        status: ChannelStatus::Idle,
                        last_use_millis: now,
                    },
                ),
    {
        let i = match self.find_chan(ch_id) {
            Some(i) => i,
            None => {
                proof {
                    let w = choose|w: int|
                        0 <= w < old(self).chans@.len() && #[trigger] old(self).chans@[w].id
                            == ch_id && old(self).chans@[w].status != ChannelStatus::Close;
                }
                unreached()
            },
        };
        let c = self.chans[i];
        let upd = ChannelRecord {
            id: ch_id,
            conn_id: c.conn_id,
            status: ChannelStatus::Idle,
            last_use_millis: now,
        };
        self.chans.set(i, upd);
        proof {
            let cs = old(self).chans@;
            let w = choose|w: int|
                0 <= w < cs.len() && #[trigger] cs[w].id == ch_id && cs[w].status
                    != ChannelStatus::Close;
            assert(w == i as int);
            assert forall|cid: u64| true implies live_count(self.chans@, cid) == live_count(
                cs,
                cid,
            ) by {
                lemma_live_count_update(cs, i as int, upd, cid);
            }
        }
    }

    /// Records the liveness the underlying connection last reported: the
    /// one record with id `cid` gets the new flag and nothing else moves;
    /// an unknown id changes nothing.
    pub fn set_connected(&mut self, cid: u64, connected: bool)
        requires
            old(self).wf(),
        ensures
            final(self).wf(),
            final(self).chans@ == old(self).chans@,
            final(self).conn_limit == old(self).conn_limit,
            final(self).ch_limit == old(self).ch_limit,
            final(self).next_id == old(self).next_id,
            !has_conn(old(self).conns@, cid) ==> final(self).conns@ == old(self).conns@,
            has_conn(old(self).conns@, cid) ==> exists|k: int|
                0 <= k < old(self).conns@.len() && #[trigger] old(self).conns@[k].id == cid
                    && final(self).conns@ == old(self).conns@.update(
                    k,
                    ConnectionRecord {
                        id: cid,
                        connected,
                        live_ch: old(self).conns@[k].live_ch,
                        last_use_millis: old(self).conns@[k].last_use_millis,
                    },
                ),
    {
        if let Some(k) = self.find_conn(cid) {
            let c = self.conns[k];
            self.conns.set(
                k,
                ConnectionRecord {
                    id: cid,
                    connected,
                    live_ch: c.live_ch,
                    last_use_millis: c.last_use_millis,
                },
            );
            proof {
                assert forall|i: int, j: int|
                    0 <= i < j < self.conns@.len() implies self.conns@[i].id
                    != self.conns@[j].id by {
                    assert(old(self).conns@[i].id != old(self).conns@[j].id);
                }
                assert forall|i: int| 0 <= i < self.chans@.len() implies has_conn(
                    self.conns@,
                    self.chans@[i].conn_id,
                ) by {
                    let cid2 = self.chans@[i].conn_id;
                    assert(has_conn(old(self).conns@, cid2));
                    let j = choose|j: int|
                        0 <= j < old(self).conns@.len() && old(self).conns@[j].id == cid2;
                    assert(self.conns@[j].id == cid2);
                }
            }
        }
    }
}

/// Appending a channel record adds one to the live count of its owner (if
/// not closed) and leaves every other owner's count unchanged.
pub proof fn lemma_live_count_push(chans: Seq<ChannelRecord>, c: ChannelRecord, cid: u64)
    ensures
        live_count(chans.push(c), cid) == live_count(chans, cid) + if owns_live(c, cid) {
            1nat
        } else {
            0nat
        },
{
    assert(chans.push(c).drop_last() =~= chans);
}

/// Updating the record at `i` changes every owner's live count by exactly
/// the difference of the old and new contributions.
pub proof fn lemma_live_count_update(
    chans: Seq<ChannelRecord>,
    i: int,
    c: ChannelRecord,
    cid: u64,
)
    requires
        0 <= i < chans.len(),
    ensures
        live_count(chans.update(i, c), cid) + if owns_live(chans[i], cid) {
            1nat
        } else {
            0nat
        } == live_count(chans, cid) + if owns_live(c, cid) {
            1nat
        } else {
            0nat
        },
    decreases chans.len(),
{
    if i == chans.len() - 1 {
        assert(chans.update(i, c).drop_last() =~= chans.drop_last());
        assert(chans.update(i, c).last() == c);
    } else {
        lemma_live_count_update(chans.drop_last(), i, c, cid);
        assert(chans.update(i, c).drop_last() =~= chans.drop_last().update(i, c));
        assert(chans.update(i, c).last() == chans.last());
    }
}

/// A record list in which no record owns-live against `cid` counts zero.
pub proof fn lemma_live_count_none(chans: Seq<ChannelRecord>, cid: u64)
    requires
        forall|i: int| 0 <= i < chans.len() ==> !owns_live(#[trigger] chans[i], cid),
    ensures
        live_count(chans, cid) == 0,
    decreases chans.len(),
{
    if chans.len() > 0 {
        lemma_live_count_none(chans.drop_last(), cid);
    }
}


impl ConnPlan {
    /// The error a plan reports to the caller: selection at the connection
    /// limit is the pool-exhausted error, every other plan proceeds.
    pub fn err(&self) -> (r: Option<crate::MqError>)
        ensures
            r is Some <==> *self is Exhausted,
            r matches Some(e) ==> e == crate::MqError::PoolExhausted,
    {
        match self {
            ConnPlan::Exhausted => Some(crate::MqError::PoolExhausted),
            _ => None,
        }
    }
}

/// In every well-formed pool state the total connection count stays within
/// the connection limit and every connection's live-channel count within the
/// per-connection channel limit.
pub proof fn lemma_pool_bounds(p: &SubPool)
    requires
        p.wf(),
    ensures
        p.conns@.len() <= p.conn_limit,
        forall|i: int| 0 <= i < p.conns@.len() ==> #[trigger] p.conns@[i].live_ch <= p.ch_limit,
{
}

/// In every well-formed pool state each channel record names exactly one
/// existing owning connection: an owner exists, and no two connection
/// records share an id.
pub proof fn lemma_channel_owner_unique(p: &SubPool)
    requires
        p.wf(),
    ensures
        forall|i: int| 0 <= i < p.chans@.len() ==> has_conn(p.conns@, p.chans@[i].conn_id),
        forall|j1: int, j2: int|
            0 <= j1 < p.conns@.len() && 0 <= j2 < p.conns@.len() && p.conns@[j1].id
                == p.conns@[j2].id ==> j1 == j2,
{
    assert forall|j1: int, j2: int|
        0 <= j1 < p.conns@.len() && 0 <= j2 < p.conns@.len() && p.conns@[j1].id
            == p.conns@[j2].id implies j1 == j2 by {
        if j1 < j2 {
            assert(p.conns@[j1].id != p.conns@[j2].id);
        } else if j2 < j1 {
            assert(p.conns@[j2].id != p.conns@[j1].id);
        }
    }
}

} // verus!
