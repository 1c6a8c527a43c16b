use petrock_ingest::data::{
    store_experience, FeedError, LeaderboardEntry, Op, StoreError, MAX_STORE_EXPERIENCE,
};
use petrock_ingest::engine::{backfill_advance, ranked_upserts, reconcile};
use petrock_ingest::scheduler::{advance, run_tick, TickEvent, TickPhase, TickReport};
use petrock_ingest::store::Store;

fn entry(username: &str, experience: u64) -> LeaderboardEntry {
    LeaderboardEntry { username: username.to_string(), experience, permissions: 0 }
}

fn names(list: &[&str]) -> Vec<String> {
    list.iter().map(|s| s.to_string()).collect()
}

#[test]
fn rank_follows_feed_order() {
    let lb = vec![entry("B", 10), entry("A", 30), entry("C", 20)];
    let ops = reconcile(&Vec::new(), None, Some(&lb), 7);
    let mut store = Store::new();
    store.apply(&ops).unwrap();
    let b = store.get_player(&"B".to_string()).unwrap();
    let a = store.get_player(&"A".to_string()).unwrap();
    let c = store.get_player(&"C".to_string()).unwrap();
    assert_eq!(b.rank, 1);
    assert_eq!(a.rank, 2);
    assert_eq!(c.rank, 3);
    assert_eq!(b.experience, 10);
    assert_eq!(a.experience, 30);
    assert_eq!(c.experience, 20);
}

#[test]
fn applying_twice_equals_applying_once() {
    let online = names(&["A", "D"]);
    let lb = vec![entry("A", 100), entry("B", 90)];
    let ops = reconcile(&Vec::new(), Some(&online), Some(&lb), 3);
    let mut store = Store::new();
    let n1 = store.apply(&ops).unwrap();
    assert_eq!(n1, ops.len());
    let players_once: Vec<_> = ["A", "B", "D"]
        .iter()
        .map(|u| store.get_player(&u.to_string()).unwrap())
        .collect();
    let hist_once = store.get_history(&"A".to_string(), 3).unwrap();
    let counts_once = (store.player_count(), store.history_count());
    store.apply(&ops).unwrap();
    for (i, u) in ["A", "B", "D"].iter().enumerate() {
        let p = store.get_player(&u.to_string()).unwrap();
        assert_eq!(p.username, players_once[i].username);
        assert_eq!(p.experience, players_once[i].experience);
        assert_eq!(p.rank, players_once[i].rank);
        assert_eq!(p.online, players_once[i].online);
    }
    assert_eq!(store.get_history(&"A".to_string(), 3).unwrap(), hist_once);
    assert_eq!((store.player_count(), store.history_count()), counts_once);
}

#[test]
fn online_flag_flips_when_absent_from_second_list() {
    let mut store = Store::new();
    let l1: Result<Vec<String>, FeedError> = Ok(names(&["u", "v"]));
    let lb_err: Result<Vec<LeaderboardEntry>, FeedError> = Err(FeedError::Unavailable);
    run_tick(&mut store, &l1, &lb_err, 1);
    assert!(store.get_player(&"u".to_string()).unwrap().online);
    assert!(store.get_player(&"v".to_string()).unwrap().online);
    let l2: Result<Vec<String>, FeedError> = Ok(names(&["v"]));
    run_tick(&mut store, &l2, &lb_err, 1);
    assert!(!store.get_player(&"u".to_string()).unwrap().online);
    assert!(store.get_player(&"v".to_string()).unwrap().online);
    // A name never observed by either feed does not exist in the store.
    assert!(store.get_player(&"w".to_string()).is_none());
}

#[test]
fn same_day_observations_merge_into_one_row() {
    let mut store = Store::new();
    let online: Result<Vec<String>, FeedError> = Err(FeedError::Unavailable);
    let day = 42;
    let t1: Result<Vec<LeaderboardEntry>, FeedError> = Ok(vec![entry("u", 100)]);
    run_tick(&mut store, &online, &t1, day);
    let t2: Result<Vec<LeaderboardEntry>, FeedError> = Ok(vec![entry("u", 150)]);
    run_tick(&mut store, &online, &t2, day);
    assert_eq!(store.get_history(&"u".to_string(), day).unwrap(), 150);
    assert_eq!(store.history_count(), 1);
}

#[test]
fn different_days_keep_separate_rows() {
    let mut store = Store::new();
    let online: Result<Vec<String>, FeedError> = Err(FeedError::Unavailable);
    let t1: Result<Vec<LeaderboardEntry>, FeedError> = Ok(vec![entry("u", 150)]);
    run_tick(&mut store, &online, &t1, 7);
    let t2: Result<Vec<LeaderboardEntry>, FeedError> = Ok(vec![entry("u", 160)]);
    run_tick(&mut store, &online, &t2, 8);
    assert_eq!(store.get_history(&"u".to_string(), 7).unwrap(), 150);
    assert_eq!(store.get_history(&"u".to_string(), 8).unwrap(), 160);
    assert_eq!(store.history_count(), 2);
}

#[test]
fn failed_leaderboard_leaves_rank_and_history_untouched() {
    let mut store = Store::new();
    let online1: Result<Vec<String>, FeedError> = Ok(names(&["u"]));
    let lb1: Result<Vec<LeaderboardEntry>, FeedError> = Ok(vec![entry("u", 500), entry("x", 400)]);
    run_tick(&mut store, &online1, &lb1, 9);
    let before_u = store.get_player(&"u".to_string()).unwrap();
    let hist_before = store.history_count();
    // Next tick: leaderboard fetch fails, online list succeeds.
    let online2: Result<Vec<String>, FeedError> = Ok(names(&["x"]));
    let lb2: Result<Vec<LeaderboardEntry>, FeedError> = Err(FeedError::Unavailable);
    let report = run_tick(&mut store, &online2, &lb2, 9);
    assert!(matches!(report, TickReport::Persisted { .. }));
    let after_u = store.get_player(&"u".to_string()).unwrap();
    assert!(!after_u.online);
    assert_eq!(after_u.experience, before_u.experience);
    assert_eq!(after_u.rank, before_u.rank);
    let after_x = store.get_player(&"x".to_string()).unwrap();
    assert!(after_x.online);
    assert_eq!(after_x.experience, 400);
    assert_eq!(after_x.rank, 2);
    assert_eq!(store.history_count(), hist_before);
}

#[test]
fn failed_apply_leaves_pre_tick_state() {
    let mut store = Store::new();
    let seed = reconcile(&Vec::new(), None, Some(&vec![entry("u", 10)]), 1);
    store.apply(&seed).unwrap();
    // A batch that fails mid-way: the second operation merges history for
    // a player no operation created and the store does not hold.
    let bad = vec![
        Op::UpsertOnline { username: "u".to_string(), online: true },
        Op::MergeHistory { username: "ghostname".to_string(), experience: 5, day: 1 },
        Op::UpsertOnline { username: "z".to_string(), online: true },
    ];
    let err = store.apply(&bad).unwrap_err();
    assert_eq!(err, StoreError::ConstraintViolation);
    // Nothing of the failed batch is visible.
    assert!(!store.get_player(&"u".to_string()).unwrap().online);
    assert!(store.get_player(&"z".to_string()).is_none());
    assert!(store.get_history(&"ghostname".to_string(), 1).is_none());
    assert_eq!(store.get_history(&"u".to_string(), 1).unwrap(), 10);
}

#[test]
fn oversized_experience_is_stored_as_zero() {
    assert_eq!(store_experience(u64::MAX), 0);
    assert_eq!(store_experience(MAX_STORE_EXPERIENCE + 1), 0);
    assert_eq!(store_experience(MAX_STORE_EXPERIENCE), i32::MAX);
    assert_eq!(store_experience(0), 0);
    let lb = vec![entry("u", u64::MAX)];
    let ops = reconcile(&Vec::new(), None, Some(&lb), 1);
    let mut store = Store::new();
    store.apply(&ops).unwrap();
    assert_eq!(store.get_player(&"u".to_string()).unwrap().experience, 0);
}

#[test]
fn backfill_ranks_continue_across_pages() {
    let page = vec![entry("p", 9), entry("q", 8)];
    let ops = ranked_upserts(&page, 101);
    assert_eq!(ops.len(), 2);
    match &ops[0] {
        Op::UpsertRanked { username, experience, rank } => {
            assert_eq!(username, "p");
            assert_eq!(*experience, 9);
            assert_eq!(*rank, 101);
        }
        _ => panic!("expected a ranked upsert"),
    }
    match &ops[1] {
        Op::UpsertRanked { rank, .. } => assert_eq!(*rank, 102),
        _ => panic!("expected a ranked upsert"),
    }
    let mut store = Store::new();
    store.apply(&ops).unwrap();
    // Backfill writes no history.
    assert_eq!(store.history_count(), 0);
}

#[test]
fn backfill_page_and_rank_advance_together() {
    assert_eq!(backfill_advance(1, 1, 100), (2, 101));
    assert_eq!(backfill_advance(2, 101, 100), (3, 201));
    assert_eq!(backfill_advance(7, 601, 37), (8, 638));
}

#[test]
fn live_feed_tick_is_persisted_with_its_op_count() {
    let mut store = Store::new();
    let online: Result<Vec<String>, FeedError> = Ok(names(&["u"]));
    let lb: Result<Vec<LeaderboardEntry>, FeedError> = Err(FeedError::Unavailable);
    // One online name, empty previous set: exactly one operation.
    let report = run_tick(&mut store, &online, &lb, 5);
    assert_eq!(report, TickReport::Persisted { applied: 1 });
    // With the store now holding u online, a leaderboard-only tick emits
    // one ranked upsert and one history merge.
    let online2: Result<Vec<String>, FeedError> = Err(FeedError::Unavailable);
    let lb2: Result<Vec<LeaderboardEntry>, FeedError> = Ok(vec![entry("u", 9)]);
    let report2 = run_tick(&mut store, &online2, &lb2, 5);
    assert_eq!(report2, TickReport::Persisted { applied: 2 });
}

#[test]
fn tick_with_both_feeds_failed_is_skipped() {
    let mut store = Store::new();
    let seed = reconcile(&Vec::new(), Some(&names(&["u"])), None, 1);
    store.apply(&seed).unwrap();
    let online: Result<Vec<String>, FeedError> = Err(FeedError::Unavailable);
    let lb: Result<Vec<LeaderboardEntry>, FeedError> = Err(FeedError::Unavailable);
    let report = run_tick(&mut store, &online, &lb, 2);
    assert_eq!(report, TickReport::Skipped);
    // The store is exactly as it was: u still online, nothing new.
    assert!(store.get_player(&"u".to_string()).unwrap().online);
    assert_eq!(store.player_count(), 1);
    assert_eq!(store.history_count(), 0);
}

#[test]
fn scheduler_phases_cycle_and_fail_back_to_idle() {
    let p = advance(TickPhase::Idle, TickEvent::TickDue);
    assert_eq!(p, TickPhase::Fetching);
    let p = advance(p, TickEvent::FeedsFetched);
    assert_eq!(p, TickPhase::Reconciling);
    let p = advance(p, TickEvent::OpsComputed);
    assert_eq!(p, TickPhase::Persisting);
    assert_eq!(advance(p, TickEvent::PersistDone), TickPhase::Idle);
    assert_eq!(advance(p, TickEvent::PersistFailed), TickPhase::Idle);
    assert_eq!(advance(TickPhase::Fetching, TickEvent::FeedsFailed), TickPhase::Idle);
    // An event foreign to the phase changes nothing.
    assert_eq!(advance(TickPhase::Idle, TickEvent::PersistDone), TickPhase::Idle);
}

#[test]
fn player_created_by_online_list_starts_at_defaults() {
    let online = names(&["newguy"]);
    let ops = reconcile(&Vec::new(), Some(&online), None, 1);
    let mut store = Store::new();
    store.apply(&ops).unwrap();
    let p = store.get_player(&"newguy".to_string()).unwrap();
    assert_eq!(p.experience, 0);
    assert_eq!(p.rank, 0);
    assert!(p.online);
}

#[test]
fn same_player_in_both_feeds_merges_into_one_row() {
    let online = names(&["u"]);
    let lb = vec![entry("u", 77)];
    let ops = reconcile(&Vec::new(), Some(&online), Some(&lb), 4);
    let mut store = Store::new();
    store.apply(&ops).unwrap();
    assert_eq!(store.player_count(), 1);
    let p = store.get_player(&"u".to_string()).unwrap();
    assert!(p.online);
    assert_eq!(p.experience, 77);
    assert_eq!(p.rank, 1);
}
