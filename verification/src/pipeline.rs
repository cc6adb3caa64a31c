//! The connection pool proper: a publish sub-pool with a single-slot
//! prefetch pipeline, a consume sub-pool, and the shared guard that the
//! pipeline refill and the idle reaper contend for. The pipeline keeps at
//! most one publish channel staged for immediate handoff; when the slot is
//! full a refill attempt simply gives up for this cycle, so it never queues
//! more than one staged channel.

use crate::pool::{ChannelRecord, ChannelStatus, ConnectionRecord, SubPool};
use crate::reaper::conn_at;
use vstd::prelude::*;
use vstd::pervasive::VecAdditionalExecFns;

verus! {

/// Whether the pipeline may stage channel `c` of the publish sub-pool: not
/// in use, not closed, and its connection still live.
pub open spec fn stageable(conns: Seq<ConnectionRecord>, c: ChannelRecord) -> bool {
    c.status != ChannelStatus::Busy && c.status != ChannelStatus::Close && conn_at(
        conns,
        c.conn_id,
    ).connected
}

/// What one pipeline refill attempt did.
#[derive(Debug, Clone, Copy, PartialEq, Eq, Structural)]
pub enum StageOutcome {
    /// An existing channel with this id was staged into the slot.
    Staged(u64),
    /// The slot already holds a channel; retry on a later cycle.
    SlotFull,
    /// No existing channel can be staged; the caller may open a fresh one
    /// and hand it in with [`ConnectionPool::stage_new`].
    NoneIdle,
}

/// The connection pool: one sub-pool for publishing with a single staging
/// slot in front of it, and one sub-pool for consuming.
pub struct ConnectionPool {
    pub publish: SubPool,
    pub consume: SubPool,
    /// Id of the channel staged for the next publish, if any.
    pub staged: Option<u64>,
    /// The guard shared by the pipeline refill and the reaper sweep.
    pub guard_held: bool,
}

impl ConnectionPool {
    /// Both sub-pools are well-formed.
    pub open spec fn wf(&self) -> bool {
        self.publish.wf() && self.consume.wf()
    }

    /// An empty pool; both sub-pools share the same limits.
    pub fn new(conn_limit: usize, ch_limit: u32) -> (r: ConnectionPool)
        ensures
            r.wf(),
            r.publish.conns@.len() == 0 && r.publish.chans@.len() == 0,
            r.consume.conns@.len() == 0 && r.consume.chans@.len() == 0,
            r.publish.conn_limit == conn_limit && r.consume.conn_limit == conn_limit,
            r.publish.ch_limit == ch_limit && r.consume.ch_limit == ch_limit,
            r.publish.next_id == 0 && r.consume.next_id == 0,
            r.staged is None,
            !r.guard_held,
    {
        ConnectionPool {
            publish: SubPool::new(conn_limit, ch_limit),
            consume: SubPool::new(conn_limit, ch_limit),
            staged: None,
            guard_held: false,
        }
    }

    /// One attempt to take the guard; the caller retries a bounded number
    /// of times with a short sleep in between and gives up for the cycle.
    pub fn try_lock(&mut self) -> (r: bool)
        ensures
            r == !old(self).guard_held,
            final(self).guard_held == true,
            final(self).publish == old(self).publish,
            final(self).consume == old(self).consume,
            final(self).staged == old(self).staged,
    {
        if self.guard_held {
            false
        } else {
            self.guard_held = true;
            true
        }
    }

    /// Releases the guard.
    pub fn unlock(&mut self)
        ensures
            final(self).guard_held == false,
            final(self).publish == old(self).publish,
            final(self).consume == old(self).consume,
            final(self).staged == old(self).staged,
    {
        self.guard_held = false;
    }

    /// Takes the staged publish channel if there is one and it is still a
    /// usable record (present and not closed); the slot is empty
    /// afterwards either way.
    pub fn take_staged(&mut self) -> (r: Option<u64>)
        requires
            old(self).wf(),
        ensures
            final(self).wf(),
            final(self).staged is None,
            final(self).publish == old(self).publish,
            final(self).consume == old(self).consume,
            final(self).guard_held == old(self).guard_held,
            match r {
                Some(id) => old(self).staged == Some(id) && exists|i: int|
                    0 <= i < old(self).publish.chans@.len()
                        && #[trigger] old(self).publish.chans@[i].id == id && old(
                        self,
                    ).publish.chans@[i].status != ChannelStatus::Close,
                None => old(self).staged is None || !(exists|i: int|
                    0 <= i < old(self).publish.chans@.len()
                        && #[trigger] old(self).publish.chans@[i].id == old(
                        self,
                    ).staged.unwrap() && old(self).publish.chans@[i].status
                        != ChannelStatus::Close),
            },
    {
        let id = match self.staged {
            Some(id) => id,
            None => {
                return None;
            },
        };
        self.staged = None;
        match self.publish.find_chan(id) {
            Some(i) => {
                if !matches!(self.publish.chans[i].status, ChannelStatus::Close) {
                    Some(id)
                } else {
                    None
                }
            },
            None => None,
        }
    }

    /// One pipeline refill attempt: with the slot free, stages the first
    /// publish channel that is not busy, not closed, and whose connection
    /// is live, refreshing its timestamp and leaving its status unchanged.
    /// With the slot full it does nothing, and with no stageable channel it
    /// leaves the pool unchanged so the caller can open a fresh channel.
    pub fn stage_existing(&mut self, now: u64) -> (r: StageOutcome)
        requires
            old(self).wf(),
        ensures
            final(self).wf(),
            final(self).consume == old(self).consume,
            final(self).guard_held == old(self).guard_held,
            final(self).publish.conns@ == old(self).publish.conns@,
            final(self).publish.conn_limit == old(self).publish.conn_limit,
            final(self).publish.ch_limit == old(self).publish.ch_limit,
            final(self).publish.next_id == old(self).publish.next_id,
            match r {
                StageOutcome::Staged(id) => old(self).staged is None && final(self).staged
                    == Some(id) && exists|i: int|
                    0 <= i < old(self).publish.chans@.len()
                        && #[trigger] old(self).publish.chans@[i].id == id && stageable(
                        old(self).publish.conns@,
                        old(self).publish.chans@[i],
                    ) && (forall|j: int|
                        0 <= j < i ==> !stageable(
                            old(self).publish.conns@,
                            #[trigger] old(self).publish.chans@[j],
                        )) && final(self).publish.chans@ == old(self).publish.chans@.update(
                        i,
                        ChannelRecord {
                            id,
                            conn_id: old(self).publish.chans@[i].conn_id,
                            status: old(self).publish.chans@[i].status,
                            last_use_millis: now,
                        },
                    ),
                StageOutcome::SlotFull => old(self).staged is Some && *final(self) == *old(self),
                StageOutcome::NoneIdle => old(self).staged is None && *final(self) == *old(self)
                    && forall|j: int|
                    0 <= j < old(self).publish.chans@.len() ==> !stageable(
                        old(self).publish.conns@,
                        #[trigger] old(self).publish.chans@[j],
                    ),
            },
    {
        if self.staged.is_some() {
            return StageOutcome::SlotFull;
        }
        let mut i: usize = 0;
        while i < self.publish.chans.len()
            invariant
                old(self).wf(),
                *self == *old(self),
                old(self).staged is None,
                i <= self.publish.chans@.len(),
                forall|j: int|
                    0 <= j < i ==> !stageable(
                        self.publish.conns@,
                        #[trigger] self.publish.chans@[j],
                    ),
            decreases self.publish.chans@.len() - i,
        {
            let c = self.publish.chans[i];
            let not_busy = !matches!(c.status, ChannelStatus::Busy) && !matches!(
                c.status,
                ChannelStatus::Close,
            );
            let mut connected = false;
            if not_busy {
                match self.publish.find_conn(c.conn_id) {
                    Some(k) => {
                        connected = self.publish.conns[k].connected;
                        proof {
                            crate::reaper::lemma_conn_at(self.publish.conns@, k as int);
                        }
                    },
                    None => {
                        connected = false;
                        proof {
                            assert(!crate::pool::has_conn(self.publish.conns@, c.conn_id));
                            assert(crate::pool::has_conn(
                                self.publish.conns@,
                                self.publish.chans@[i as int].conn_id,
                            ));
                        }
                    },
                }
            }
            if not_busy && connected {
                let upd = ChannelRecord {
                    id: c.id,
                    conn_id: c.conn_id,
                    status: c.status,
                    last_use_millis: now,
                };
                self.publish.chans.set(i, upd);
                self.staged = Some(c.id);
                proof {
                    let cs = old(self).publish.chans@;
                    assert forall|cid: u64| true implies crate::pool::live_count(
                        self.publish.chans@,
                        cid,
                    ) == crate::pool::live_count(cs, cid) by {
                        crate::pool::lemma_live_count_update(cs, i as int, upd, cid);
                    }
                }
                return StageOutcome::Staged(c.id);
            }
            i = i + 1;
        }
        StageOutcome::NoneIdle
    }

    /// Hands a freshly opened publish channel to the empty slot.
    pub fn stage_new(&mut self, ch_id: u64)
        requires
            old(self).staged is None,
        ensures
            final(self).staged == Some(ch_id),
            final(self).publish == old(self).publish,
            final(self).consume == old(self).consume,
            final(self).guard_held == old(self).guard_held,
    {
        self.staged = Some(ch_id);
    }
}

} // verus!
