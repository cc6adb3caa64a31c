use looklapi::MqError;
use looklapi::pipeline::{ConnectionPool, StageOutcome};
use looklapi::pool::{ChannelStatus, ConnPlan, SubPool};
use looklapi::reaper::{CH_IDLE_TIMEOUT_MILLIS, CONN_IDLE_TIMEOUT_MILLIS, ReapAction};
use looklapi::supervisor::RetryState;

const NOW: u64 = 1_700_000_000_000;

#[test]
fn empty_pool_plans_a_new_connection() {
    let pool = SubPool::new(10, 100);
    assert_eq!(pool.plan_conn(), ConnPlan::Connect);
}

#[test]
fn greedy_packing_prefers_the_fullest_connection() {
    let mut pool = SubPool::new(10, 100);
    let first = pool.add_conn(NOW).unwrap();
    let second = pool.add_conn(NOW).unwrap();
    pool.open_channel(first, NOW).unwrap();
    pool.open_channel(second, NOW).unwrap();
    pool.open_channel(second, NOW).unwrap();
    assert_eq!(pool.plan_conn(), ConnPlan::Reuse(second));
}

#[test]
fn full_connection_is_not_reused() {
    let mut pool = SubPool::new(10, 1);
    let id = pool.add_conn(NOW).unwrap();
    pool.open_channel(id, NOW).unwrap();
    assert_eq!(pool.plan_conn(), ConnPlan::Connect);
}

#[test]
fn eleventh_connection_is_pool_exhausted() {
    // Eleven callers want a fresh connection each (per-connection channel
    // limit one); the eleventh hits the limit of ten.
    let mut pool = SubPool::new(10, 1);
    for _ in 0..10 {
        match pool.plan_conn() {
            ConnPlan::Connect => {
                let id = pool.add_conn(NOW).unwrap();
                pool.open_channel(id, NOW).unwrap();
            }
            other => panic!("expected Connect, got {other:?}"),
        }
    }
    let plan = pool.plan_conn();
    assert_eq!(plan, ConnPlan::Exhausted);
    assert_eq!(plan.err(), Some(MqError::PoolExhausted));
    assert_eq!(pool.conns.len(), 10);
}

#[test]
fn released_channel_is_found_idle_and_marked_busy_again() {
    let mut pool = SubPool::new(10, 100);
    let conn = pool.add_conn(NOW).unwrap();
    let ch = pool.open_channel(conn, NOW).unwrap();
    assert!(pool.find_idle_channel(NOW).is_none());
    pool.release_channel(ch, NOW + 5);
    assert_eq!(pool.chans[0].status, ChannelStatus::Idle);
    assert_eq!(pool.chans[0].last_use_millis, NOW + 5);
    assert_eq!(pool.find_idle_channel(NOW + 6), Some(ch));
    assert_eq!(pool.chans[0].status, ChannelStatus::Busy);
}

#[test]
fn open_channel_counts_and_rejects_unknown_connection() {
    let mut pool = SubPool::new(10, 100);
    let conn = pool.add_conn(NOW).unwrap();
    assert!(pool.open_channel(conn + 1, NOW).is_none());
    pool.open_channel(conn, NOW).unwrap();
    pool.open_channel(conn, NOW).unwrap();
    assert_eq!(pool.conns[0].live_ch, 2);
}

#[test]
fn pipeline_stages_an_idle_channel_once() {
    let mut pool = ConnectionPool::new(10, 100);
    assert_eq!(pool.stage_existing(NOW), StageOutcome::NoneIdle);
    let conn = pool.publish.add_conn(NOW).unwrap();
    let ch = pool.publish.open_channel(conn, NOW).unwrap();
    // A busy channel is never staged.
    assert_eq!(pool.stage_existing(NOW), StageOutcome::NoneIdle);
    pool.publish.release_channel(ch, NOW);
    assert_eq!(pool.stage_existing(NOW + 1), StageOutcome::Staged(ch));
    assert_eq!(pool.stage_existing(NOW + 2), StageOutcome::SlotFull);
    assert_eq!(pool.take_staged(), Some(ch));
    assert_eq!(pool.take_staged(), None);
}

#[test]
fn pipeline_hands_in_a_fresh_channel() {
    let mut pool = ConnectionPool::new(10, 100);
    let conn = pool.publish.add_conn(NOW).unwrap();
    let ch = pool.publish.open_channel(conn, NOW).unwrap();
    pool.stage_new(ch);
    assert_eq!(pool.take_staged(), Some(ch));
}

#[test]
fn pipeline_guard_is_held_once() {
    let mut pool = ConnectionPool::new(10, 100);
    assert!(pool.try_lock());
    assert!(!pool.try_lock());
    pool.unlock();
    assert!(pool.try_lock());
}

#[test]
fn sweep_closes_idle_channel_and_keeps_fresh_one() {
    let mut pool = SubPool::new(10, 100);
    let conn = pool.add_conn(NOW).unwrap();
    let stale = pool.open_channel(conn, NOW).unwrap();
    let fresh = pool.open_channel(conn, NOW).unwrap();
    pool.release_channel(stale, NOW);
    pool.release_channel(fresh, NOW);
    let later = NOW + CH_IDLE_TIMEOUT_MILLIS;
    // Refresh one channel just before the sweep.
    pool.release_channel(fresh, later - 1);
    let actions = pool.sweep(later, CH_IDLE_TIMEOUT_MILLIS, CONN_IDLE_TIMEOUT_MILLIS);
    assert_eq!(actions, vec![ReapAction::CloseChannel(stale)]);
    assert_eq!(pool.chans.len(), 1);
    assert_eq!(pool.chans[0].id, fresh);
    assert_eq!(pool.conns[0].live_ch, 1);
}

#[test]
fn sweep_skips_busy_channels() {
    let mut pool = SubPool::new(10, 100);
    let conn = pool.add_conn(NOW).unwrap();
    let busy = pool.open_channel(conn, NOW).unwrap();
    let later = NOW + 10 * CH_IDLE_TIMEOUT_MILLIS;
    let actions = pool.sweep(later, CH_IDLE_TIMEOUT_MILLIS, CONN_IDLE_TIMEOUT_MILLIS);
    assert!(actions.is_empty());
    assert_eq!(pool.chans.len(), 1);
    assert_eq!(pool.chans[0].id, busy);
}

#[test]
fn sweep_closes_connection_idle_past_its_threshold() {
    let mut pool = SubPool::new(10, 100);
    let conn = pool.add_conn(NOW).unwrap();
    let ch = pool.open_channel(conn, NOW).unwrap();
    pool.release_channel(ch, NOW);
    let later = NOW + CONN_IDLE_TIMEOUT_MILLIS;
    let actions = pool.sweep(later, CH_IDLE_TIMEOUT_MILLIS, CONN_IDLE_TIMEOUT_MILLIS);
    assert_eq!(
        actions,
        vec![ReapAction::CloseChannel(ch), ReapAction::CloseConn(conn)]
    );
    assert!(pool.chans.is_empty());
    assert!(pool.conns.is_empty());
}

#[test]
fn sweep_drops_records_of_a_dead_connection_silently() {
    let mut pool = SubPool::new(10, 100);
    let conn = pool.add_conn(NOW).unwrap();
    pool.open_channel(conn, NOW).unwrap();
    pool.set_connected(conn, false);
    let actions = pool.sweep(NOW + 1, CH_IDLE_TIMEOUT_MILLIS, CONN_IDLE_TIMEOUT_MILLIS);
    assert!(actions.is_empty());
    assert!(pool.chans.is_empty());
    assert!(pool.conns.is_empty());
}

#[test]
fn backoff_waits_two_seconds_before_the_third_attempt() {
    let mut st = RetryState::new();
    assert_eq!(st.wait_secs(), 0);
    st.record_attempt(false);
    assert_eq!(st.wait_secs(), 1);
    st.record_attempt(false);
    assert_eq!(st.wait_secs(), 2);
}

#[test]
fn backoff_caps_at_ten_seconds() {
    let mut st = RetryState::new();
    for _ in 0..25 {
        st.record_attempt(false);
    }
    assert_eq!(st.wait_secs(), 10);
    st.record_attempt(true);
    assert_eq!(st.wait_secs(), 0);
    st.record_attempt(false);
    assert_eq!(st.wait_secs(), 1);
}
