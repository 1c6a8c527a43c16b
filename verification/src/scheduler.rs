use vstd::prelude::*;
use crate::data::{EntryV, FeedError, LeaderboardEntry, Op, StoreError};
use crate::engine::{lemma_reconcile_applicable, reconcile, reconcile_spec};
use crate::model::{apply_ops, online_names_ok};
use crate::store::Store;

verus! {

/// The phases one tick passes through. The error path returns to `Idle`
/// without advancing persisted state.
#[derive(Clone, Copy, Debug, PartialEq, Eq, Structural)]
pub enum TickPhase {
    Idle,
    Fetching,
    Reconciling,
    Persisting,
}

/// What moves a tick from one phase to the next.
#[derive(Clone, Copy, Debug, PartialEq, Eq, Structural)]
pub enum TickEvent {
    TickDue,
    FeedsFetched,
    FeedsFailed,
    OpsComputed,
    PersistDone,
    PersistFailed,
}

/// The scheduler's transition relation:
/// `Idle -> Fetching -> Reconciling -> Persisting -> Idle`, with both
/// failure events falling back to `Idle`. An event that does not belong
/// to the current phase leaves the phase alone.
pub open spec fn next_phase(phase: TickPhase, event: TickEvent) -> TickPhase {
    match (phase, event) {
        (TickPhase::Idle, TickEvent::TickDue) => TickPhase::Fetching,
        (TickPhase::Fetching, TickEvent::FeedsFetched) => TickPhase::Reconciling,
        (TickPhase::Fetching, TickEvent::FeedsFailed) => TickPhase::Idle,
        (TickPhase::Reconciling, TickEvent::OpsComputed) => TickPhase::Persisting,
        (TickPhase::Persisting, TickEvent::PersistDone) => TickPhase::Idle,
        (TickPhase::Persisting, TickEvent::PersistFailed) => TickPhase::Idle,
        (p, _) => p,
    }
}

/// Advances the scheduler one step.
pub fn advance(phase: TickPhase, event: TickEvent) -> (r: TickPhase)
    ensures
        r == next_phase(phase, event),
{
    match (phase, event) {
        (TickPhase::Idle, TickEvent::TickDue) => TickPhase::Fetching,
        (TickPhase::Fetching, TickEvent::FeedsFetched) => TickPhase::Reconciling,
        (TickPhase::Fetching, TickEvent::FeedsFailed) => TickPhase::Idle,
        (TickPhase::Reconciling, TickEvent::OpsComputed) => TickPhase::Persisting,
        (TickPhase::Persisting, TickEvent::PersistDone) => TickPhase::Idle,
        (TickPhase::Persisting, TickEvent::PersistFailed) => TickPhase::Idle,
        (p, _) => p,
    }
}

/// What the online-list fetch handed the tick, as contracts see it.
pub open spec fn feed_names(r: Result<Vec<String>, FeedError>) -> Option<Seq<Seq<char>>> {
    match r {
        Ok(v) => Some(v.deep_view()),
        Err(_) => None,
    }
}

/// What the leaderboard fetch handed the tick, as contracts see it.
pub open spec fn feed_entries(
    r: Result<Vec<LeaderboardEntry>, FeedError>,
) -> Option<Seq<EntryV>> {
    match r {
        Ok(v) => Some(v.deep_view()),
        Err(_) => None,
    }
}

/// How one tick ended.
#[derive(Clone, Copy, Debug, PartialEq, Eq, Structural)]
pub enum TickReport {
    /// Both fetches failed: nothing to reconcile, the store untouched.
    Skipped,
    /// The tick's operations were applied atomically.
    Persisted { applied: usize },
    /// The store refused the tick; it is left in its pre-tick state.
    StoreFailed { error: StoreError },
}

/// One whole tick against the store: read the previously online set
/// fresh from the store (so a process restart cannot invent flips),
/// reconcile whatever the two fetches returned, and persist the
/// operations as one atomic unit. A failed feed only withholds its own
/// fields. The tick is skipped exactly when both feeds failed; in every
/// other case the persist step is owed and performed — a reconciled
/// tick's operations are always applicable, so the gateway's failure
/// report is provably never returned here.
pub fn run_tick(
    store: &mut Store,
    online: &Result<Vec<String>, FeedError>,
    leaderboard: &Result<Vec<LeaderboardEntry>, FeedError>,
    day: u32,
) -> (r: TickReport)
    requires
        old(store).wf(),
        (leaderboard matches Ok(lb) ==> lb@.len() <= 0x7fff_ffff),
    ensures
        final(store).wf(),
        !(r is StoreFailed),
        (online is Err && leaderboard is Err) ==> r is Skipped,
        (match r {
            TickReport::Skipped => online is Err && leaderboard is Err && final(store)@ == old(
                store,
            )@,
            TickReport::Persisted { applied } => !(online is Err && leaderboard is Err) && (exists|
                prev: Seq<Seq<char>>,
            |
                #[trigger] online_names_ok(prev, old(store)@) && applied == reconcile_spec(
                    prev,
                    feed_names(*online),
                    feed_entries(*leaderboard),
                    day,
                ).len() && final(store)@ == apply_ops(
                    old(store)@,
                    reconcile_spec(prev, feed_names(*online), feed_entries(*leaderboard), day),
                )),
            TickReport::StoreFailed { error } => final(store)@ == old(store)@,
        }),
{
    let online_opt: Option<&Vec<String>> = match online {
        Ok(v) => Some(v),
        Err(_) => None,
    };
    let lb_opt: Option<&Vec<LeaderboardEntry>> = match leaderboard {
        Ok(v) => Some(v),
        Err(_) => None,
    };
    if online_opt.is_none() && lb_opt.is_none() {
        return TickReport::Skipped;
    }
    let prev = store.online_players();
    let ops = reconcile(&prev, online_opt, lb_opt, day);
    proof {
        assert(online_opt.deep_view() == feed_names(*online));
        assert(lb_opt.deep_view() == feed_entries(*leaderboard));
        assert(online_names_ok(prev.deep_view(), old(store)@));
        lemma_reconcile_applicable(
            old(store)@,
            prev.deep_view(),
            feed_names(*online),
            feed_entries(*leaderboard),
            day,
        );
    }
    match store.apply(&ops) {
        Ok(n) => TickReport::Persisted { applied: n },
        Err(e) => TickReport::StoreFailed { error: e },
    }
}

} // verus!
