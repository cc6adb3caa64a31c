//! Idle reclamation: one sweep walks a sub-pool's channel list, drops
//! channels whose connection went away and channels idle past the channel
//! idle threshold, and drops a connection once its last channel went and it
//! has been idle past the connection idle threshold. Busy channels on live
//! connections are never touched. The sweep returns the close calls the
//! application has to make on the real handles.

use crate::pool::{
    ChannelRecord, ChannelStatus, ConnectionRecord, SubPool, has_conn, live_count, owns_live,
};
use vstd::prelude::*;

verus! {

/// Channel idle threshold: five minutes, in milliseconds.
pub const CH_IDLE_TIMEOUT_MILLIS: u64 = 5 * 60 * 1000;

/// Connection idle threshold: ten minutes, in milliseconds.
pub const CONN_IDLE_TIMEOUT_MILLIS: u64 = 10 * 60 * 1000;

/// A close call the application must perform on the real broker handle.
#[derive(Debug, Clone, Copy, PartialEq, Eq, Structural)]
pub enum ReapAction {
    /// Close the broker channel with this id.
    CloseChannel(u64),
    /// Close the broker connection with this id.
    CloseConn(u64),
}

/// How long a record has been unused at time `now` (zero if the clock went
/// backwards).
pub open spec fn idle_millis(last_use: u64, now: u64) -> u64 {
    if now >= last_use {
        (now - last_use) as u64
    } else {
        0
    }
}

/// The connection record with id `cid` (meaningful when one exists and the
/// ids are unique).
pub open spec fn conn_at(conns: Seq<ConnectionRecord>, cid: u64) -> ConnectionRecord {
    conns[choose|j: int| 0 <= j < conns.len() && conns[j].id == cid]
}

/// Whether a sweep at time `now` keeps channel `c`, whose connection
/// reported liveness `connected`: the connection must be live, the channel
/// not closed, and either busy or used within the idle threshold.
pub open spec fn chan_kept(c: ChannelRecord, connected: bool, now: u64, ch_timeout: u64) -> bool {
    connected && c.status != ChannelStatus::Close && (c.status == ChannelStatus::Busy
        || idle_millis(c.last_use_millis, now) < ch_timeout)
}

/// `chan_kept` with the connection looked up in `conns`.
pub open spec fn chan_kept_in(
    conns: Seq<ConnectionRecord>,
    c: ChannelRecord,
    now: u64,
    ch_timeout: u64,
) -> bool {
    chan_kept(c, conn_at(conns, c.conn_id).connected, now, ch_timeout)
}

/// The channel records one sweep keeps, in their original order.
pub open spec fn kept_chans(
    conns: Seq<ConnectionRecord>,
    chans: Seq<ChannelRecord>,
    now: u64,
    ch_timeout: u64,
) -> Seq<ChannelRecord>
    decreases chans.len(),
{
    if chans.len() == 0 {
        Seq::empty()
    } else {
        kept_chans(conns, chans.drop_last(), now, ch_timeout) + if chan_kept_in(
            conns,
            chans.last(),
            now,
            ch_timeout,
        ) {
            seq![chans.last()]
        } else {
            Seq::empty()
        }
    }
}

/// Ids of dropped channels the application must close: dropped while the
/// connection was still live and the channel not already closed.
pub open spec fn chan_close_ids(
    conns: Seq<ConnectionRecord>,
    chans: Seq<ChannelRecord>,
    now: u64,
    ch_timeout: u64,
) -> Seq<u64>
    decreases chans.len(),
{
    if chans.len() == 0 {
        Seq::empty()
    } else {
        chan_close_ids(conns, chans.drop_last(), now, ch_timeout) + if !chan_kept_in(
            conns,
            chans.last(),
            now,
            ch_timeout,
        ) && conn_at(conns, chans.last().conn_id).connected && chans.last().status
            != ChannelStatus::Close {
            seq![chans.last().id]
        } else {
            Seq::empty()
        }
    }
}

/// Whether some channel record in `chans` names connection `cid` as owner.
pub open spec fn references(chans: Seq<ChannelRecord>, cid: u64) -> bool {
    exists|i: int| 0 <= i < chans.len() && chans[i].conn_id == cid
}

/// Whether a sweep keeps connection `k`: it still owns a kept channel, or it
/// never owned a channel (the sweep walks channels, so it is not visited),
/// or it is live and was used within the connection idle threshold.
pub open spec fn conn_kept(
    k: ConnectionRecord,
    old_chans: Seq<ChannelRecord>,
    new_chans: Seq<ChannelRecord>,
    now: u64,
    conn_timeout: u64,
) -> bool {
    ||| references(new_chans, k.id)
    ||| !references(old_chans, k.id)
    ||| (k.connected && idle_millis(k.last_use_millis, now) < conn_timeout)
}

/// The connection records one sweep keeps, in order, each with its
/// live-channel counter recomputed against the kept channels.
pub open spec fn kept_conns(
    conns: Seq<ConnectionRecord>,
    old_chans: Seq<ChannelRecord>,
    new_chans: Seq<ChannelRecord>,
    now: u64,
    conn_timeout: u64,
) -> Seq<ConnectionRecord>
    decreases conns.len(),
{
    if conns.len() == 0 {
        Seq::empty()
    } else {
        kept_conns(conns.drop_last(), old_chans, new_chans, now, conn_timeout) + if conn_kept(
            conns.last(),
            old_chans,
            new_chans,
            now,
            conn_timeout,
        ) {
            seq![
                ConnectionRecord {
                    id: conns.last().id,
                    connected: conns.last().connected,
                    live_ch: live_count(new_chans, conns.last().id) as u32,
                    last_use_millis: conns.last().last_use_millis,
                },
            ]
        } else {
            Seq::empty()
        }
    }
}

/// Ids of dropped connections the application must close: dropped while
/// still reported live.
pub open spec fn conn_close_ids(
    conns: Seq<ConnectionRecord>,
    old_chans: Seq<ChannelRecord>,
    new_chans: Seq<ChannelRecord>,
    now: u64,
    conn_timeout: u64,
) -> Seq<u64>
    decreases conns.len(),
{
    if conns.len() == 0 {
        Seq::empty()
    } else {
        conn_close_ids(conns.drop_last(), old_chans, new_chans, now, conn_timeout) + if !conn_kept(
            conns.last(),
            old_chans,
            new_chans,
            now,
            conn_timeout,
        ) && conns.last().connected {
            seq![conns.last().id]
        } else {
            Seq::empty()
        }
    }
}

/// The connection record as the sweep rewrites it: the live-channel counter
/// recomputed against the kept channels, everything else unchanged.
pub open spec fn reaped_conn(k: ConnectionRecord, new_chans: Seq<ChannelRecord>) -> ConnectionRecord {
    ConnectionRecord {
        id: k.id,
        connected: k.connected,
        live_ch: live_count(new_chans, k.id) as u32,
        last_use_millis: k.last_use_millis,
    }
}

/// `c` is one of the old channel records and the sweep keeps it.
pub open spec fn kept_chan_source(
    conns: Seq<ConnectionRecord>,
    chans: Seq<ChannelRecord>,
    c: ChannelRecord,
    now: u64,
    ch_timeout: u64,
) -> bool {
    exists|j: int|
        0 <= j < chans.len() && #[trigger] chans[j] == c && chan_kept_in(conns, c, now, ch_timeout)
}

/// `k2` is the sweep's rewrite of one of the old connection records that the
/// sweep keeps.
pub open spec fn kept_conn_source(
    conns: Seq<ConnectionRecord>,
    old_chans: Seq<ChannelRecord>,
    new_chans: Seq<ChannelRecord>,
    k2: ConnectionRecord,
    now: u64,
    conn_timeout: u64,
) -> bool {
    exists|j: int|
        0 <= j < conns.len() && conn_kept(#[trigger] conns[j], old_chans, new_chans, now, conn_timeout)
            && k2 == reaped_conn(conns[j], new_chans)
}

/// With unique ids, `conn_at` finds exactly the record at any index.
pub proof fn lemma_conn_at(conns: Seq<ConnectionRecord>, k: int)
    requires
        forall|i: int, j: int| 0 <= i < j < conns.len() ==> conns[i].id != conns[j].id,
        0 <= k < conns.len(),
    ensures
        conn_at(conns, conns[k].id) == conns[k],
{
    let w = choose|j: int| 0 <= j < conns.len() && conns[j].id == conns[k].id;
    assert(0 <= k < conns.len() && conns[k].id == conns[k].id);
}

/// Live counts add over concatenation.
pub proof fn lemma_live_count_append(a: Seq<ChannelRecord>, b: Seq<ChannelRecord>, cid: u64)
    ensures
        live_count(a + b, cid) == live_count(a, cid) + live_count(b, cid),
    decreases b.len(),
{
    if b.len() == 0 {
        assert(a + b =~= a);
    } else {
        lemma_live_count_append(a, b.drop_last(), cid);
        assert((a + b).drop_last() =~= a + b.drop_last());
        assert((a + b).last() == b.last());
    }
}

/// Every kept channel is one of the old records, kept by the sweep
/// predicate.
pub proof fn lemma_kept_chans_sub(
    conns: Seq<ConnectionRecord>,
    chans: Seq<ChannelRecord>,
    now: u64,
    ch_timeout: u64,
)
    ensures
        forall|i: int|
            #![trigger kept_chans(conns, chans, now, ch_timeout)[i]]
            0 <= i < kept_chans(conns, chans, now, ch_timeout).len() ==> kept_chan_source(
                conns,
                chans,
                kept_chans(conns, chans, now, ch_timeout)[i],
                now,
                ch_timeout,
            ),
    decreases chans.len(),
{
    if chans.len() > 0 {
        lemma_kept_chans_sub(conns, chans.drop_last(), now, ch_timeout);
        let ks = kept_chans(conns, chans, now, ch_timeout);
        let ks0 = kept_chans(conns, chans.drop_last(), now, ch_timeout);
        assert forall|i: int| #![trigger ks[i]] 0 <= i < ks.len() implies kept_chan_source(
            conns,
            chans,
            ks[i],
            now,
            ch_timeout,
        ) by {
            if i < ks0.len() {
                assert(kept_chan_source(conns, chans.drop_last(), ks0[i], now, ch_timeout));
                let j = choose|j: int|
                    0 <= j < chans.drop_last().len() && #[trigger] chans.drop_last()[j] == ks0[i]
                        && chan_kept_in(conns, ks0[i], now, ch_timeout);
                assert(chans[j] == ks[i]);
            } else {
                assert(chans[chans.len() - 1] == ks[i]);
            }
        }
    }
}

/// Every old record the predicate keeps appears among the kept channels.
pub proof fn lemma_kept_chans_complete(
    conns: Seq<ConnectionRecord>,
    chans: Seq<ChannelRecord>,
    now: u64,
    ch_timeout: u64,
)
    ensures
        forall|j: int|
            0 <= j < chans.len() && chan_kept_in(conns, #[trigger] chans[j], now, ch_timeout)
                ==> kept_chans(conns, chans, now, ch_timeout).contains(chans[j]),
    decreases chans.len(),
{
    if chans.len() > 0 {
        lemma_kept_chans_complete(conns, chans.drop_last(), now, ch_timeout);
        let ks = kept_chans(conns, chans, now, ch_timeout);
        let ks0 = kept_chans(conns, chans.drop_last(), now, ch_timeout);
        assert forall|j: int|
            0 <= j < chans.len() && chan_kept_in(
                conns,
                #[trigger] chans[j],
                now,
                ch_timeout,
            ) implies ks.contains(chans[j]) by {
            if j < chans.len() - 1 {
                assert(chans.drop_last()[j] == chans[j]);
                assert(ks0.contains(chans[j]));
                let i = choose|i: int| 0 <= i < ks0.len() && ks0[i] == chans[j];
                assert(ks[i] == chans[j]);
            } else {
                assert(ks[ks.len() - 1] == chans[j]);
            }
        }
    }
}

/// Kept channels keep unique ids.
pub proof fn lemma_kept_chans_unique(
    conns: Seq<ConnectionRecord>,
    chans: Seq<ChannelRecord>,
    now: u64,
    ch_timeout: u64,
)
    requires
        forall|i: int, j: int| 0 <= i < j < chans.len() ==> chans[i].id != chans[j].id,
    ensures
        forall|i: int, j: int|
            0 <= i < j < kept_chans(conns, chans, now, ch_timeout).len() ==> kept_chans(
                conns,
                chans,
                now,
                ch_timeout,
            )[i].id != kept_chans(conns, chans, now, ch_timeout)[j].id,
    decreases chans.len(),
{
    if chans.len() > 0 {
        lemma_kept_chans_unique(conns, chans.drop_last(), now, ch_timeout);
        lemma_kept_chans_sub(conns, chans.drop_last(), now, ch_timeout);
        let ks = kept_chans(conns, chans, now, ch_timeout);
        let ks0 = kept_chans(conns, chans.drop_last(), now, ch_timeout);
        assert forall|i: int, j: int| 0 <= i < j < ks.len() implies ks[i].id != ks[j].id by {
            if j < ks0.len() {
                assert(ks0[i].id != ks0[j].id);
            } else {
                // ks[j] is the last old record; ks[i] comes from the prefix.
                assert(kept_chan_source(conns, chans.drop_last(), ks0[i], now, ch_timeout));
                let w = choose|w: int|
                    0 <= w < chans.drop_last().len() && #[trigger] chans.drop_last()[w] == ks0[i]
                        && chan_kept_in(conns, ks0[i], now, ch_timeout);
                assert(chans[w].id != chans[chans.len() - 1].id);
            }
        }
    }
}

/// A sweep never raises a connection's live-channel count.
pub proof fn lemma_live_count_kept_le(
    conns: Seq<ConnectionRecord>,
    chans: Seq<ChannelRecord>,
    now: u64,
    ch_timeout: u64,
    cid: u64,
)
    ensures
        live_count(kept_chans(conns, chans, now, ch_timeout), cid) <= live_count(chans, cid),
    decreases chans.len(),
{
    if chans.len() > 0 {
        lemma_live_count_kept_le(conns, chans.drop_last(), now, ch_timeout, cid);
        let ks0 = kept_chans(conns, chans.drop_last(), now, ch_timeout);
        if chan_kept_in(conns, chans.last(), now, ch_timeout) {
            lemma_live_count_append(ks0, seq![chans.last()], cid);
            let single = seq![chans.last()];
            assert(single.drop_last() =~= Seq::<ChannelRecord>::empty());
            assert(live_count(Seq::<ChannelRecord>::empty(), cid) == 0);
            assert(single.len() == 1 && single.last() == chans.last());
            assert(live_count(single, cid) == live_count(single.drop_last(), cid) + if owns_live(
                single.last(),
                cid,
            ) {
                1nat
            } else {
                0nat
            });
        } else {
            assert(kept_chans(conns, chans, now, ch_timeout) =~= ks0);
        }
        assert(live_count(chans, cid) == live_count(chans.drop_last(), cid) + if owns_live(
            chans.last(),
            cid,
        ) {
            1nat
        } else {
            0nat
        });
    }
}

/// Every kept connection is the rewrite of one of the old records that the
/// sweep keeps.
pub proof fn lemma_kept_conns_sub(
    conns: Seq<ConnectionRecord>,
    old_chans: Seq<ChannelRecord>,
    new_chans: Seq<ChannelRecord>,
    now: u64,
    conn_timeout: u64,
)
    ensures
        forall|i: int|
            #![trigger kept_conns(conns, old_chans, new_chans, now, conn_timeout)[i]]
            0 <= i < kept_conns(conns, old_chans, new_chans, now, conn_timeout).len()
                ==> kept_conn_source(
                conns,
                old_chans,
                new_chans,
                kept_conns(conns, old_chans, new_chans, now, conn_timeout)[i],
                now,
                conn_timeout,
            ),
    decreases conns.len(),
{
    if conns.len() > 0 {
        lemma_kept_conns_sub(conns.drop_last(), old_chans, new_chans, now, conn_timeout);
        let ks = kept_conns(conns, old_chans, new_chans, now, conn_timeout);
        let ks0 = kept_conns(conns.drop_last(), old_chans, new_chans, now, conn_timeout);
        assert forall|i: int| #![trigger ks[i]] 0 <= i < ks.len() implies kept_conn_source(
            conns,
            old_chans,
            new_chans,
            ks[i],
            now,
            conn_timeout,
        ) by {
            if i < ks0.len() {
                assert(kept_conn_source(
                    conns.drop_last(),
                    old_chans,
                    new_chans,
                    ks0[i],
                    now,
                    conn_timeout,
                ));
                let j = choose|j: int|
                    0 <= j < conns.drop_last().len() && conn_kept(
                        #[trigger] conns.drop_last()[j],
                        old_chans,
                        new_chans,
                        now,
                        conn_timeout,
                    ) && ks0[i] == reaped_conn(conns.drop_last()[j], new_chans);
                assert(conns[j] == conns.drop_last()[j]);
                assert(conn_kept(conns[j], old_chans, new_chans, now, conn_timeout));
            } else {
                let j = conns.len() - 1;
                assert(conn_kept(conns[j], old_chans, new_chans, now, conn_timeout));
                assert(ks[i] == reaped_conn(conns[j], new_chans));
            }
        }
    }
}

/// Every old connection the predicate keeps appears, rewritten, among the
/// kept connections.
pub proof fn lemma_kept_conns_complete(
    conns: Seq<ConnectionRecord>,
    old_chans: Seq<ChannelRecord>,
    new_chans: Seq<ChannelRecord>,
    now: u64,
    conn_timeout: u64,
)
    ensures
        forall|j: int|
            0 <= j < conns.len() && conn_kept(
                #[trigger] conns[j],
                old_chans,
                new_chans,
                now,
                conn_timeout,
            ) ==> kept_conns(conns, old_chans, new_chans, now, conn_timeout).contains(
                reaped_conn(conns[j], new_chans),
            ),
    decreases conns.len(),
{
    if conns.len() > 0 {
        lemma_kept_conns_complete(conns.drop_last(), old_chans, new_chans, now, conn_timeout);
        let ks = kept_conns(conns, old_chans, new_chans, now, conn_timeout);
        let ks0 = kept_conns(conns.drop_last(), old_chans, new_chans, now, conn_timeout);
        assert forall|j: int|
            0 <= j < conns.len() && conn_kept(
                #[trigger] conns[j],
                old_chans,
                new_chans,
                now,
                conn_timeout,
            ) implies ks.contains(reaped_conn(conns[j], new_chans)) by {
            if j < conns.len() - 1 {
                assert(conns.drop_last()[j] == conns[j]);
                assert(ks0.contains(reaped_conn(conns[j], new_chans)));
                let i = choose|i: int|
                    0 <= i < ks0.len() && ks0[i] == reaped_conn(conns[j], new_chans);
                assert(ks[i] == reaped_conn(conns[j], new_chans));
            } else {
                assert(ks[ks.len() - 1] == reaped_conn(conns[j], new_chans));
            }
        }
    }
}

/// Kept connections keep unique ids.
pub proof fn lemma_kept_conns_unique(
    conns: Seq<ConnectionRecord>,
    old_chans: Seq<ChannelRecord>,
    new_chans: Seq<ChannelRecord>,
    now: u64,
    conn_timeout: u64,
)
    requires
        forall|i: int, j: int| 0 <= i < j < conns.len() ==> conns[i].id != conns[j].id,
    ensures
        forall|i: int, j: int|
            0 <= i < j < kept_conns(conns, old_chans, new_chans, now, conn_timeout).len()
                ==> kept_conns(conns, old_chans, new_chans, now, conn_timeout)[i].id != kept_conns(
                conns,
                old_chans,
                new_chans,
                now,
                conn_timeout,
            )[j].id,
    decreases conns.len(),
{
    if conns.len() > 0 {
        lemma_kept_conns_unique(conns.drop_last(), old_chans, new_chans, now, conn_timeout);
        lemma_kept_conns_sub(conns.drop_last(), old_chans, new_chans, now, conn_timeout);
        let ks = kept_conns(conns, old_chans, new_chans, now, conn_timeout);
        let ks0 = kept_conns(conns.drop_last(), old_chans, new_chans, now, conn_timeout);
        assert forall|i: int, j: int| 0 <= i < j < ks.len() implies ks[i].id != ks[j].id by {
            if j < ks0.len() {
                assert(ks0[i].id != ks0[j].id);
            } else {
                assert(kept_conn_source(
                    conns.drop_last(),
                    old_chans,
                    new_chans,
                    ks0[i],
                    now,
                    conn_timeout,
                ));
                let w = choose|w: int|
                    0 <= w < conns.drop_last().len() && conn_kept(
                        #[trigger] conns.drop_last()[w],
                        old_chans,
                        new_chans,
                        now,
                        conn_timeout,
                    ) && ks0[i] == reaped_conn(conns.drop_last()[w], new_chans);
                assert(conns[w].id != conns[conns.len() - 1].id);
            }
        }
    }
}

/// A sweep never adds connections.
pub proof fn lemma_kept_conns_len(
    conns: Seq<ConnectionRecord>,
    old_chans: Seq<ChannelRecord>,
    new_chans: Seq<ChannelRecord>,
    now: u64,
    conn_timeout: u64,
)
    ensures
        kept_conns(conns, old_chans, new_chans, now, conn_timeout).len() <= conns.len(),
    decreases conns.len(),
{
    if conns.len() > 0 {
        lemma_kept_conns_len(conns.drop_last(), old_chans, new_chans, now, conn_timeout);
    }
}


/// Whether any record in `chans` names `cid` as its owner.
fn references_exec(chans: &Vec<ChannelRecord>, cid: u64) -> (r: bool)
    ensures
        r == references(chans@, cid),
{
    let mut i: usize = 0;
    while i < chans.len()
        invariant
            i <= chans@.len(),
            forall|j: int| 0 <= j < i ==> #[trigger] chans@[j].conn_id != cid,
        decreases chans@.len() - i,
    {
        if chans[i].conn_id == cid {
            return true;
        }
        i = i + 1;
    }
    false
}

/// Counts the non-closed records owned by `cid`.
fn count_live(chans: &Vec<ChannelRecord>, cid: u64) -> (r: usize)
    ensures
        r == live_count(chans@, cid),
{
    let mut cnt: usize = 0;
    let mut i: usize = 0;
    while i < chans.len()
        invariant
            i <= chans@.len(),
            cnt <= i,
            cnt == live_count(chans@.subrange(0, i as int), cid),
        decreases chans@.len() - i,
    {
        let c = chans[i];
        proof {
            assert(chans@.subrange(0, i + 1).drop_last() =~= chans@.subrange(0, i as int));
            assert(chans@.subrange(0, i + 1).last() == chans@[i as int]);
        }
        if c.conn_id == cid && !matches!(c.status, ChannelStatus::Close) {
            cnt = cnt + 1;
        }
        i = i + 1;
    }
    proof {
        assert(chans@.subrange(0, chans@.len() as int) =~= chans@);
    }
    cnt
}

impl SubPool {
    /// One reaper sweep at time `now`. Channels on dead connections and
    /// non-busy channels idle at least `ch_timeout` milliseconds are dropped
    /// from the pool; a connection is dropped once it owns no remaining
    /// channel record and is dead or idle at least `conn_timeout`
    /// milliseconds. Busy channels on live connections and channels used
    /// within the threshold stay untouched. Returns the close calls the
    /// application must make: one per dropped channel that was still open on
    /// a live connection, then one per dropped connection that was still
    /// live.
    pub fn sweep(&mut self, now: u64, ch_timeout: u64, conn_timeout: u64) -> (actions: Vec<
        ReapAction,
    >)
        requires
            old(self).wf(),
        ensures
            final(self).wf(),
            final(self).chans@ == kept_chans(old(self).conns@, old(self).chans@, now, ch_timeout),
            final(self).conns@ == kept_conns(
                old(self).conns@,
                old(self).chans@,
                final(self).chans@,
                now,
                conn_timeout,
            ),
            final(self).next_id == old(self).next_id,
            final(self).conn_limit == old(self).conn_limit,
            final(self).ch_limit == old(self).ch_limit,
            actions@ == chan_close_ids(old(self).conns@, old(self).chans@, now, ch_timeout)
                .map_values(|id: u64| ReapAction::CloseChannel(id)) + conn_close_ids(
                old(self).conns@,
                old(self).chans@,
                final(self).chans@,
                now,
                conn_timeout,
            ).map_values(|id: u64| ReapAction::CloseConn(id)),
    {
        let ghost conns0 = self.conns@;
        let ghost chans0 = self.chans@;
        let mut new_chans: Vec<ChannelRecord> = Vec::new();
        let mut actions: Vec<ReapAction> = Vec::new();
        let mut i: usize = 0;
        while i < self.chans.len()
            invariant
                self.wf(),
                *self == *old(self),
                i <= chans0.len(),
                conns0 == self.conns@,
                chans0 == self.chans@,
                new_chans@ == kept_chans(conns0, chans0.subrange(0, i as int), now, ch_timeout),
                actions@ == chan_close_ids(conns0, chans0.subrange(0, i as int), now, ch_timeout)
                    .map_values(|id: u64| ReapAction::CloseChannel(id)),
            decreases chans0.len() - i,
        {
            let c = self.chans[i];
            let k = match self.find_conn(c.conn_id) {
                Some(k) => k,
                None => {
                    proof {
                        assert(has_conn(conns0, chans0[i as int].conn_id));
                    }
                    unreached()
                },
            };
            let connected = self.conns[k].connected;
            proof {
                lemma_conn_at(conns0, k as int);
                assert(conn_at(conns0, c.conn_id) == conns0[k as int]);
                assert(chans0.subrange(0, i + 1).drop_last() =~= chans0.subrange(0, i as int));
                assert(chans0.subrange(0, i + 1).last() == chans0[i as int]);
            }
            let keep = connected && !matches!(c.status, ChannelStatus::Close) && (matches!(
                c.status,
                ChannelStatus::Busy,
            ) || {
                let idle = if now >= c.last_use_millis {
                    now - c.last_use_millis
                } else {
                    0
                };
                idle < ch_timeout
            });
            proof {
                assert(keep == chan_kept_in(conns0, chans0[i as int], now, ch_timeout));
            }
            if keep {
                new_chans.push(c);
                proof {
                    assert(new_chans@ =~= kept_chans(
                        conns0,
                        chans0.subrange(0, i + 1),
                        now,
                        ch_timeout,
                    ));
                    assert(actions@ =~= chan_close_ids(
                        conns0,
                        chans0.subrange(0, i + 1),
                        now,
                        ch_timeout,
                    ).map_values(|id: u64| ReapAction::CloseChannel(id)));
                }
            } else {
                if connected && !matches!(c.status, ChannelStatus::Close) {
                    actions.push(ReapAction::CloseChannel(c.id));
                }
                proof {
                    assert(new_chans@ =~= kept_chans(
                        conns0,
                        chans0.subrange(0, i + 1),
                        now,
                        ch_timeout,
                    ));
                    assert(actions@ =~= chan_close_ids(
                        conns0,
                        chans0.subrange(0, i + 1),
                        now,
                        ch_timeout,
                    ).map_values(|id: u64| ReapAction::CloseChannel(id)));
                }
            }
            i = i + 1;
        }
        proof {
            assert(chans0.subrange(0, chans0.len() as int) =~= chans0);
        }
        let ghost kept = new_chans@;
        let ghost full_chan_actions = actions@;

        let mut new_conns: Vec<ConnectionRecord> = Vec::new();
        let mut j: usize = 0;
        while j < self.conns.len()
            invariant
                self.wf(),
                *self == *old(self),
                j <= conns0.len(),
                conns0 == self.conns@,
                chans0 == self.chans@,
                kept == new_chans@,
                kept == kept_chans(conns0, chans0, now, ch_timeout),
                new_conns@ == kept_conns(
                    conns0.subrange(0, j as int),
                    chans0,
                    kept,
                    now,
                    conn_timeout,
                ),
                actions@ == full_chan_actions + conn_close_ids(
                    conns0.subrange(0, j as int),
                    chans0,
                    kept,
                    now,
                    conn_timeout,
                ).map_values(|id: u64| ReapAction::CloseConn(id)),
            decreases conns0.len() - j,
        {
            let k = self.conns[j];
            let refs_new = references_exec(&new_chans, k.id);
            let refs_old = references_exec(&self.chans, k.id);
            let fresh = k.connected && {
                let idle = if now >= k.last_use_millis {
                    now - k.last_use_millis
                } else {
                    0
                };
                idle < conn_timeout
            };
            let keep = refs_new || !refs_old || fresh;
            proof {
                assert(keep == conn_kept(conns0[j as int], chans0, kept, now, conn_timeout));
                assert(conns0.subrange(0, j + 1).drop_last() =~= conns0.subrange(0, j as int));
                assert(conns0.subrange(0, j + 1).last() == conns0[j as int]);
            }
            if keep {
                let cnt = count_live(&new_chans, k.id);
                proof {
                    lemma_live_count_kept_le(conns0, chans0, now, ch_timeout, k.id);
                    assert(conns0[j as int].live_ch == live_count(chans0, k.id));
                    assert(live_count(kept, k.id) <= conns0[j as int].live_ch);
                }
                new_conns.push(
                    ConnectionRecord {
                        id: k.id,
                        connected: k.connected,
                        live_ch: cnt as u32,
                        last_use_millis: k.last_use_millis,
                    },
                );
            } else {
                if k.connected {
                    actions.push(ReapAction::CloseConn(k.id));
                }
            }
            proof {
                assert(new_conns@ =~= kept_conns(
                    conns0.subrange(0, j + 1),
                    chans0,
                    kept,
                    now,
                    conn_timeout,
                ));
                assert(actions@ =~= full_chan_actions + conn_close_ids(
                    conns0.subrange(0, j + 1),
                    chans0,
                    kept,
                    now,
                    conn_timeout,
                ).map_values(|id: u64| ReapAction::CloseConn(id)));
            }
            j = j + 1;
        }
        proof {
            assert(conns0.subrange(0, conns0.len() as int) =~= conns0);
        }
        self.chans = new_chans;
        self.conns = new_conns;
        proof {
            lemma_sweep_wf(conns0, chans0, now, ch_timeout, conn_timeout, self.ch_limit, self.next_id);
            assert(self.conn_limit == old(self).conn_limit);
            lemma_kept_conns_len(conns0, chans0, kept, now, conn_timeout);
        }
        actions
    }
}

/// A sweep of a well-formed pool leaves a well-formed pool.
proof fn lemma_sweep_wf(
    conns: Seq<ConnectionRecord>,
    chans: Seq<ChannelRecord>,
    now: u64,
    ch_timeout: u64,
    conn_timeout: u64,
    ch_limit: u32,
    next_id: u64,
)
    requires
        forall|i: int, j: int| 0 <= i < j < conns.len() ==> conns[i].id != conns[j].id,
        forall|i: int, j: int| 0 <= i < j < chans.len() ==> chans[i].id != chans[j].id,
        forall|i: int| 0 <= i < chans.len() ==> has_conn(conns, chans[i].conn_id),
        forall|i: int|
            0 <= i < conns.len() ==> #[trigger] conns[i].live_ch == live_count(chans, conns[i].id),
        forall|i: int| 0 <= i < conns.len() ==> #[trigger] conns[i].live_ch <= ch_limit,
        forall|i: int| 0 <= i < conns.len() ==> #[trigger] conns[i].id < next_id,
        forall|i: int| 0 <= i < chans.len() ==> #[trigger] chans[i].id < next_id,
    ensures
        ({
            let new_chans = kept_chans(conns, chans, now, ch_timeout);
            let new_conns = kept_conns(conns, chans, new_chans, now, conn_timeout);
            &&& forall|i: int, j: int|
                0 <= i < j < new_conns.len() ==> new_conns[i].id != new_conns[j].id
            &&& forall|i: int, j: int|
                0 <= i < j < new_chans.len() ==> new_chans[i].id != new_chans[j].id
            &&& forall|i: int| 0 <= i < new_chans.len() ==> has_conn(new_conns, new_chans[i].conn_id)
            &&& forall|i: int|
                0 <= i < new_conns.len() ==> #[trigger] new_conns[i].live_ch == live_count(
                    new_chans,
                    new_conns[i].id,
                )
            &&& forall|i: int| 0 <= i < new_conns.len() ==> #[trigger] new_conns[i].live_ch <= ch_limit
            &&& forall|i: int| 0 <= i < new_conns.len() ==> #[trigger] new_conns[i].id < next_id
            &&& forall|i: int| 0 <= i < new_chans.len() ==> #[trigger] new_chans[i].id < next_id
        }),
{
    let new_chans = kept_chans(conns, chans, now, ch_timeout);
    let new_conns = kept_conns(conns, chans, new_chans, now, conn_timeout);
    lemma_kept_chans_unique(conns, chans, now, ch_timeout);
    lemma_kept_conns_unique(conns, chans, new_chans, now, conn_timeout);
    lemma_kept_chans_sub(conns, chans, now, ch_timeout);
    lemma_kept_conns_sub(conns, chans, new_chans, now, conn_timeout);
    lemma_kept_conns_complete(conns, chans, new_chans, now, conn_timeout);

    // Every kept channel still finds its owner among the kept connections.
    assert forall|i: int| 0 <= i < new_chans.len() implies has_conn(
        new_conns,
        new_chans[i].conn_id,
    ) by {
        assert(kept_chan_source(conns, chans, new_chans[i], now, ch_timeout));
        let j = choose|j: int|
            0 <= j < chans.len() && #[trigger] chans[j] == new_chans[i] && chan_kept_in(
                conns,
                new_chans[i],
                now,
                ch_timeout,
            );
        let cid = new_chans[i].conn_id;
        assert(has_conn(conns, cid));
        let w = choose|w: int| 0 <= w < conns.len() && conns[w].id == cid;
        lemma_conn_at(conns, w);
        // The owner keeps a kept channel, so the sweep keeps the owner.
        assert(references(new_chans, cid));
        assert(conn_kept(conns[w], chans, new_chans, now, conn_timeout));
        assert(new_conns.contains(reaped_conn(conns[w], new_chans)));
        let v = choose|v: int| 0 <= v < new_conns.len() && new_conns[v] == reaped_conn(
            conns[w],
            new_chans,
        );
        assert(new_conns[v].id == cid);
    }

    assert forall|i: int| 0 <= i < new_chans.len() implies #[trigger] new_chans[i].id
        < next_id by {
        assert(kept_chan_source(conns, chans, new_chans[i], now, ch_timeout));
        let j = choose|j: int|
            0 <= j < chans.len() && #[trigger] chans[j] == new_chans[i] && chan_kept_in(
                conns,
                new_chans[i],
                now,
                ch_timeout,
            );
    }
    assert forall|i: int| 0 <= i < new_conns.len() implies #[trigger] new_conns[i].id
        < next_id by {
        assert(kept_conn_source(conns, chans, new_chans, new_conns[i], now, conn_timeout));
        let j = choose|j: int|
            0 <= j < conns.len() && conn_kept(
                #[trigger] conns[j],
                chans,
                new_chans,
                now,
                conn_timeout,
            ) && new_conns[i] == reaped_conn(conns[j], new_chans);
    }

    // Counters: each kept connection carries the recomputed live count,
    // which never exceeds the old one and so stays within the limit.
    assert forall|i: int| 0 <= i < new_conns.len() implies #[trigger] new_conns[i].live_ch
        == live_count(new_chans, new_conns[i].id) && new_conns[i].live_ch <= ch_limit by {
        assert(kept_conn_source(conns, chans, new_chans, new_conns[i], now, conn_timeout));
        let j = choose|j: int|
            0 <= j < conns.len() && conn_kept(
                #[trigger] conns[j],
                chans,
                new_chans,
                now,
                conn_timeout,
            ) && new_conns[i] == reaped_conn(conns[j], new_chans);
        lemma_live_count_kept_le(conns, chans, now, ch_timeout, conns[j].id);
        assert(live_count(new_chans, conns[j].id) <= conns[j].live_ch);
    }
}


/// One sweep drops every channel that is not busy and has been idle at
/// least the channel idle threshold: no kept record carries its id.
pub proof fn lemma_sweep_drops_stale_channel(
    conns: Seq<ConnectionRecord>,
    chans: Seq<ChannelRecord>,
    now: u64,
    ch_timeout: u64,
    i: int,
)
    requires
        forall|a: int, b: int| 0 <= a < b < chans.len() ==> chans[a].id != chans[b].id,
        0 <= i < chans.len(),
        chans[i].status != ChannelStatus::Busy,
        idle_millis(chans[i].last_use_millis, now) >= ch_timeout,
    ensures
        forall|j: int|
            0 <= j < kept_chans(conns, chans, now, ch_timeout).len() ==> kept_chans(
                conns,
                chans,
                now,
                ch_timeout,
            )[j].id != chans[i].id,
{
    lemma_kept_chans_sub(conns, chans, now, ch_timeout);
    let ks = kept_chans(conns, chans, now, ch_timeout);
    assert forall|j: int| 0 <= j < ks.len() implies ks[j].id != chans[i].id by {
        assert(kept_chan_source(conns, chans, ks[j], now, ch_timeout));
        let w = choose|w: int|
            0 <= w < chans.len() && #[trigger] chans[w] == ks[j] && chan_kept_in(
                conns,
                ks[j],
                now,
                ch_timeout,
            );
        if ks[j].id == chans[i].id {
            if w < i {
                assert(chans[w].id != chans[i].id);
            } else if i < w {
                assert(chans[i].id != chans[w].id);
            }
            assert(w == i);
            assert(!chan_kept_in(conns, chans[i], now, ch_timeout));
        }
    }
}

/// One sweep keeps, unchanged, every non-closed channel that was used
/// within the idle threshold and whose connection is still live.
pub proof fn lemma_sweep_keeps_fresh_channel(
    conns: Seq<ConnectionRecord>,
    chans: Seq<ChannelRecord>,
    now: u64,
    ch_timeout: u64,
    i: int,
)
    requires
        0 <= i < chans.len(),
        conn_at(conns, chans[i].conn_id).connected,
        chans[i].status != ChannelStatus::Close,
        idle_millis(chans[i].last_use_millis, now) < ch_timeout,
    ensures
        kept_chans(conns, chans, now, ch_timeout).contains(chans[i]),
{
    lemma_kept_chans_complete(conns, chans, now, ch_timeout);
}

} // verus!
