use vstd::prelude::*;

verus! {

/// Largest experience value the relational store can hold in its 32-bit
/// `experience` column.
pub const MAX_STORE_EXPERIENCE: u64 = 0x7fff_ffff;

/// What a feed experience value becomes when it is persisted into the
/// 32-bit store column: values that fit are kept, values that do not are
/// replaced by the safe default 0 (never silently wrapped).
pub open spec fn clamp_exp(e: u64) -> i32 {
    if e <= MAX_STORE_EXPERIENCE {
        e as i32
    } else {
        0
    }
}

/// Converts a 64-bit feed experience value for the 32-bit store column.
pub fn store_experience(e: u64) -> (r: i32)
    ensures
        r == clamp_exp(e),
{
    if e <= MAX_STORE_EXPERIENCE {
        e as i32
    } else {
        0
    }
}

/// One entry of a fetched leaderboard page, in feed order.
pub struct LeaderboardEntry {
    pub username: String,
    pub experience: u64,
    pub permissions: u8,
}

/// Spec-level image of a leaderboard entry.
pub struct EntryV {
    pub username: Seq<char>,
    pub experience: u64,
    pub permissions: u8,
}

impl View for LeaderboardEntry {
    type V = EntryV;

    open spec fn view(&self) -> EntryV {
        EntryV { username: self.username@, experience: self.experience, permissions: self.permissions }
    }
}

impl DeepView for LeaderboardEntry {
    type V = EntryV;

    open spec fn deep_view(&self) -> EntryV {
        self.view()
    }
}

impl Clone for LeaderboardEntry {
    fn clone(&self) -> (r: Self)
        ensures
            r@ == self@,
    {
        LeaderboardEntry {
            username: self.username.clone(),
            experience: self.experience,
            permissions: self.permissions,
        }
    }
}

/// One reconciliation operation, as emitted by the engine and executed by
/// the store gateway.
pub enum Op {
    /// Insert the player if unknown, then set its online flag.
    UpsertOnline { username: String, online: bool },
    /// Insert the player if unknown, then set its experience and rank.
    UpsertRanked { username: String, experience: i32, rank: i32 },
    /// Insert or overwrite the history capture for `(username, day)`.
    MergeHistory { username: String, experience: i32, day: u32 },
}

/// Spec-level image of an operation.
pub enum OpV {
    UpsertOnline { username: Seq<char>, online: bool },
    UpsertRanked { username: Seq<char>, experience: i32, rank: i32 },
    MergeHistory { username: Seq<char>, experience: i32, day: u32 },
}

impl View for Op {
    type V = OpV;

    open spec fn view(&self) -> OpV {
        match self {
            Op::UpsertOnline { username, online } => OpV::UpsertOnline {
                username: username@,
                online: *online,
            },
            Op::UpsertRanked { username, experience, rank } => OpV::UpsertRanked {
                username: username@,
                experience: *experience,
                rank: *rank,
            },
            Op::MergeHistory { username, experience, day } => OpV::MergeHistory {
                username: username@,
                experience: *experience,
                day: *day,
            },
        }
    }
}

impl DeepView for Op {
    type V = OpV;

    open spec fn deep_view(&self) -> OpV {
        self.view()
    }
}

/// Why a feed fetch yielded no data this tick.
#[derive(Clone, Copy, Debug, PartialEq, Eq, Structural)]
pub enum FeedError {
    /// Network error, non-2xx status, or malformed body.
    Unavailable,
}

/// Why the store gateway could not apply a tick's operations.
#[derive(Clone, Copy, Debug, PartialEq, Eq, Structural)]
pub enum StoreError {
    ConnectionLost,
    ConstraintViolation,
    Timeout,
}

} // verus!
