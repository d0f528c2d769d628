//! Arbitration of lock requests among the handles of one process on one file.
//!
//! POSIX record locks are scoped to `(process, inode)`, not to a file descriptor: two
//! independently-opened handles on the same file in the same process never conflict with each
//! other at the OS level. [`SharedInodeLock`] is the layer above: it counts the handles that
//! hold the one real lock ladder, and refuses a transition that the OS would let pass but that
//! conflicts with another handle of this process.
//!
//! Every step of the ladder is two-part: [`SharedInodeLock::begin_step`] decides, and names
//! the level that the real lock is to be set to, if any; [`SharedInodeLock::end_step`] records
//! it once that succeeded.
use crate::vfs::lock;
use crate::vfs::lock::{predecessor, successor, LockLevel};
use std::collections::HashSet;
use std::hash::Hash;
use vstd::prelude::*;
use vstd::std_specs::hash::*;

verus! {

/// Why a step of the ladder is refused.
#[derive(Debug, Clone, Copy, PartialEq, Eq, Structural)]
pub enum StepError {
    /// Another handle holds a lock that the step conflicts with.
    WouldBlock,
    /// The step spans more than one rung.
    NotAdjacent { from: LockLevel, to: LockLevel },
}

/// The process-wide lock-arbitration state for one file.
#[derive(Debug, Clone, Copy, PartialEq, Eq, Structural)]
pub struct SharedInodeLock {
    /// The level of the real lock.
    pub level: LockLevel,
    /// Whether the descriptor behind the real lock was opened with write access.
    pub writable: bool,
    /// Count of handles currently holding at least `Shared`, the write-holder included.
    pub shared_holders: u32,
    /// Whether some handle already holds `Reserved` or higher: at most one may.
    pub write_holder: bool,
}

/// What a step decides: the state before the real lock is touched, and the level to set it to,
/// if any; or a refusal.
pub open spec fn step_begun(s: SharedInodeLock, from: LockLevel, to: LockLevel) -> (
    SharedInodeLock,
    Result<Option<LockLevel>, StepError>,
) {
    match (from, to) {
        (LockLevel::Unlocked, LockLevel::Shared) => if s.level.height()
            >= LockLevel::Pending.height() {
            (s, Err(StepError::WouldBlock))
        } else if s.shared_holders == 0 {
            (s, Ok(Some(LockLevel::Shared)))
        } else {
            (s, Ok(None))
        },
        (LockLevel::Shared, LockLevel::Reserved) => if s.write_holder {
            (s, Err(StepError::WouldBlock))
        } else {
            (s, Ok(Some(LockLevel::Reserved)))
        },
        (LockLevel::Reserved, LockLevel::Pending) => (s, Ok(Some(LockLevel::Pending))),
        (LockLevel::Exclusive, LockLevel::Pending) => (s, Ok(Some(LockLevel::Pending))),
        (LockLevel::Pending, LockLevel::Exclusive) => if s.shared_holders > 1 {
            (s, Err(StepError::WouldBlock))
        } else {
            (s, Ok(Some(LockLevel::Exclusive)))
        },
        (LockLevel::Pending, LockLevel::Reserved) => (s, Ok(Some(LockLevel::Reserved))),
        (LockLevel::Reserved, LockLevel::Shared) => (s, Ok(Some(LockLevel::Shared))),
        (LockLevel::Shared, LockLevel::Unlocked) => {
            let less = SharedInodeLock {
                shared_holders: if s.shared_holders > 0 {
                    (s.shared_holders - 1) as u32
                } else {
                    0
                },
                ..s
            };
            (
                less,
                Ok(
                    if less.shared_holders == 0 {
                        Some(LockLevel::Unlocked)
                    } else {
                        None
                    },
                ),
            )
        },
        _ => if from == to {
            (s, Ok(None))
        } else {
            (s, Err(StepError::NotAdjacent { from, to }))
        },
    }
}

/// The state behind a step, once the real lock has been set as it asked.
pub open spec fn step_ended(
    s: SharedInodeLock,
    from: LockLevel,
    to: LockLevel,
    set: Option<LockLevel>,
) -> SharedInodeLock {
    SharedInodeLock {
        level: match set {
            Some(level) => level,
            None => s.level,
        },
        shared_holders: if from == LockLevel::Unlocked && to == LockLevel::Shared
            && s.shared_holders < u32::MAX {
            (s.shared_holders + 1) as u32
        } else {
            s.shared_holders
        },
        write_holder: if from == LockLevel::Shared && to == LockLevel::Reserved {
            true
        } else if from == LockLevel::Reserved && to == LockLevel::Shared {
            false
        } else {
            s.write_holder
        },
        ..s
    }
}

impl SharedInodeLock {
    /// A file on which no handle holds a lock.
    pub fn new(writable: bool) -> (r: Self)
        ensures
            r == (SharedInodeLock {
                level: LockLevel::Unlocked,
                writable,
                shared_holders: 0,
                write_holder: false,
            }),
    {
        SharedInodeLock {
            level: LockLevel::Unlocked,
            writable,
            shared_holders: 0,
            write_holder: false,
        }
    }

    /// The descriptor has been replaced by a freshly-opened, write-capable one, which holds
    /// no lock.
    pub fn upgrade_to_writable(&mut self)
        ensures
            *final(self) == (SharedInodeLock {
                level: LockLevel::Unlocked,
                writable: true,
                ..*old(self)
            }),
    {
        self.level = LockLevel::Unlocked;
        self.writable = true;
    }

    /// Whether some *other* holder has RESERVED: `None` where only the OS can tell. A handle
    /// that is itself the write-holder never sees its own lock.
    pub fn check_reserved(&self, caller_holds_write: bool) -> (r: Option<bool>)
        ensures
            r == (if caller_holds_write {
                Some(false)
            } else if self.write_holder {
                Some(true)
            } else {
                None
            }),
    {
        if caller_holds_write {
            Some(false)
        } else if self.write_holder {
            Some(true)
        } else {
            None
        }
    }

    /// Decides exactly one ladder step (`from` -> `to`, adjacent rungs only), applying
    /// in-process arbitration on the rungs where a same-process lock call would not itself
    /// detect a conflict. Names the level that the real lock is to be set to, if any.
    pub fn begin_step(&mut self, from: LockLevel, to: LockLevel) -> (r: Result<
        Option<LockLevel>,
        StepError,
    >)
        ensures
            (*final(self), r) == step_begun(*old(self), from, to),
    {
        match (from, to) {
            (LockLevel::Unlocked, LockLevel::Shared) => {
                // A new reader must not start once some writer is mid-ladder.
                if self.level.at_least(LockLevel::Pending) {
                    return Err(StepError::WouldBlock);
                }
                if self.shared_holders == 0 {
                    Ok(Some(LockLevel::Shared))
                } else {
                    Ok(None)
                }
            },
            (LockLevel::Shared, LockLevel::Reserved) => {
                if self.write_holder {
                    return Err(StepError::WouldBlock);
                }
                Ok(Some(LockLevel::Reserved))
            },
            (LockLevel::Reserved, LockLevel::Pending) => Ok(Some(LockLevel::Pending)),
            (LockLevel::Exclusive, LockLevel::Pending) => Ok(Some(LockLevel::Pending)),
            (LockLevel::Pending, LockLevel::Exclusive) => {
                // EXCLUSIVE needs the whole SHARED range to itself.
                if self.shared_holders > 1 {
                    return Err(StepError::WouldBlock);
                }
                Ok(Some(LockLevel::Exclusive))
            },
            (LockLevel::Pending, LockLevel::Reserved) => Ok(Some(LockLevel::Reserved)),
            (LockLevel::Reserved, LockLevel::Shared) => Ok(Some(LockLevel::Shared)),
            (LockLevel::Shared, LockLevel::Unlocked) => {
                if self.shared_holders > 0 {
                    self.shared_holders = self.shared_holders - 1;
                }
                if self.shared_holders == 0 {
                    Ok(Some(LockLevel::Unlocked))
                } else {
                    Ok(None)
                }
            },
            _ => {
                if from == to {
                    Ok(None)
                } else {
                    Err(StepError::NotAdjacent { from, to })
                }
            },
        }
    }

    /// Records a step whose real lock, if any was asked for, has been set.
    pub fn end_step(&mut self, from: LockLevel, to: LockLevel, set: Option<LockLevel>)
        ensures
            *final(self) == step_ended(*old(self), from, to, set),
    {
        if let Some(level) = set {
            self.level = level;
        }
        if from == LockLevel::Unlocked && to == LockLevel::Shared {
            if self.shared_holders < u32::MAX {
                self.shared_holders = self.shared_holders + 1;
            }
        }
        if from == LockLevel::Shared && to == LockLevel::Reserved {
            self.write_holder = true;
        }
        if from == LockLevel::Reserved && to == LockLevel::Shared {
            self.write_holder = false;
        }
    }
}

/// The next step from `level` toward `target`: one rung.
pub open spec fn rung_toward(level: LockLevel, target: LockLevel) -> Option<LockLevel> {
    if level.height() < target.height() {
        Some(lock::rung_above(level))
    } else if level.height() > target.height() {
        Some(lock::rung_below(level))
    } else {
        None
    }
}

/// The next step from `level` toward `target`: one rung, or none where it is reached.
pub fn next_rung(level: LockLevel, target: LockLevel) -> (r: Option<LockLevel>)
    ensures
        r == rung_toward(level, target),
{
    if !level.at_least(target) {
        Some(successor(level))
    } else if !target.at_least(level) {
        Some(predecessor(level))
    } else {
        None
    }
}

/// What claiming a file comes to.
#[derive(Debug, Clone, Copy, PartialEq, Eq, Structural)]
pub enum Claim {
    /// No entry covers the file: open it, and enter it.
    Open,
    /// Share the entry as it is.
    Share,
    /// Share the entry, whose descriptor is to be replaced by a write-capable one first.
    Upgrade,
}

/// Decides how a file is claimed: `existing` is the state of the entry that covers it. The
/// file is opened only where no entry covers it, or one that is read-only covers a writer.
pub fn claim(existing: Option<&SharedInodeLock>, needs_write: bool) -> (r: Claim)
    ensures
        r == (match existing {
            None => Claim::Open,
            Some(s) => if needs_write && !s.writable {
                Claim::Upgrade
            } else {
                Claim::Share
            },
        }),
{
    match existing {
        None => Claim::Open,
        Some(s) => {
            if needs_write && !s.writable {
                Claim::Upgrade
            } else {
                Claim::Share
            }
        },
    }
}

/// A process-wide "at most one in-process holder at a time" gate.
#[derive(Debug)]
pub struct ExclusiveGate<K> {
    held: HashSet<K>,
}

impl<K: Eq + Hash> ExclusiveGate<K> {
    /// The keys that are held.
    pub closed spec fn view(&self) -> Set<K> {
        self.held@
    }

    /// A gate that nobody holds.
    pub fn new() -> (r: Self)
        ensures
            r@ == Set::<K>::empty(),
    {
        ExclusiveGate { held: HashSet::new() }
    }

    /// Claims `key` if no holder already has it. Returns `false` (refused) rather than
    /// blocking.
    pub fn acquire(&mut self, key: K) -> (r: bool)
        requires
            obeys_key_model::<K>(),
        ensures
            r == !old(self)@.contains(key),
            final(self)@ == old(self)@.insert(key),
    {
        broadcast use group_hash_axioms;

        self.held.insert(key)
    }

    pub fn release(&mut self, key: &K)
        requires
            obeys_key_model::<K>(),
        ensures
            final(self)@ == old(self)@.remove(*key),
    {
        broadcast use group_hash_axioms;

        let _ = self.held.remove(key);
        assert(self.held@ =~= old(self)@.remove(*key));
    }
}

// ---- laws ---------------------------------------------------------------------------

/// How many of the handles hold at least `level`.
pub open spec fn holders(levels: Seq<LockLevel>, level: LockLevel) -> nat
    decreases levels.len(),
{
    if levels.len() == 0 {
        0
    } else {
        holders(levels.drop_last(), level) + (if levels.last().height() >= level.height() {
            1nat
        } else {
            0
        })
    }
}

/// The state agrees with the levels of the handles: it counts those that hold SHARED, at most
/// one of them holds RESERVED or more, the real lock is at the level of the highest handle,
/// and whoever holds EXCLUSIVE is alone.
pub open spec fn agrees(s: SharedInodeLock, levels: Seq<LockLevel>) -> bool {
    &&& s.shared_holders == holders(levels, LockLevel::Shared)
    &&& holders(levels, LockLevel::Reserved) == (if s.write_holder {
        1nat
    } else {
        0
    })
    &&& forall|i: int|
        0 <= i < levels.len() ==> (#[trigger] levels[i]).height() <= s.level.height()
    &&& s.level != LockLevel::Unlocked ==> exists|i: int|
        0 <= i < levels.len() && #[trigger] levels[i] == s.level
    &&& s.level == LockLevel::Exclusive ==> holders(levels, LockLevel::Shared) == 1
}

proof fn lemma_holders_update(levels: Seq<LockLevel>, i: int, to: LockLevel, level: LockLevel)
    requires
        0 <= i < levels.len(),
    ensures
        holders(levels.update(i, to), level) == holders(levels, level) + (if to.height()
            >= level.height() {
            1int
        } else {
            0
        }) - (if levels[i].height() >= level.height() {
            1int
        } else {
            0
        }),
    decreases levels.len(),
{
    if i < levels.len() - 1 {
        lemma_holders_update(levels.drop_last(), i, to, level);
        assert(levels.update(i, to).drop_last() =~= levels.drop_last().update(i, to));
    } else {
        assert(levels.update(i, to).drop_last() =~= levels.drop_last());
    }
}

proof fn lemma_holder_counts(levels: Seq<LockLevel>, i: int, level: LockLevel)
    requires
        0 <= i < levels.len(),
        levels[i].height() >= level.height(),
    ensures
        holders(levels, level) >= 1,
    decreases levels.len(),
{
    if i < levels.len() - 1 {
        lemma_holder_counts(levels.drop_last(), i, level);
    }
}

proof fn lemma_two_holders(levels: Seq<LockLevel>, i: int, j: int, level: LockLevel)
    requires
        0 <= i < j < levels.len(),
        levels[i].height() >= level.height(),
        levels[j].height() >= level.height(),
    ensures
        holders(levels, level) >= 2,
    decreases levels.len(),
{
    if j < levels.len() - 1 {
        lemma_two_holders(levels.drop_last(), i, j, level);
    } else {
        lemma_holder_counts(levels.drop_last(), i, level);
    }
}

proof fn lemma_holders_len(levels: Seq<LockLevel>, level: LockLevel)
    ensures
        holders(levels, level) <= levels.len(),
    decreases levels.len(),
{
    if levels.len() > 0 {
        lemma_holders_len(levels.drop_last(), level);
    }
}

proof fn lemma_some_holder(levels: Seq<LockLevel>, level: LockLevel)
    requires
        holders(levels, level) >= 1,
    ensures
        exists|i: int| 0 <= i < levels.len() && (#[trigger] levels[i]).height() >= level.height(),
    decreases levels.len(),
{
    if levels.last().height() >= level.height() {
        assert(levels[levels.len() - 1].height() >= level.height());
    } else {
        lemma_some_holder(levels.drop_last(), level);
        let i = choose|i: int|
            0 <= i < levels.drop_last().len() && (#[trigger] levels.drop_last()[i]).height()
                >= level.height();
        assert(levels[i].height() >= level.height());
    }
}

/// A step that is let through and recorded keeps the state in agreement with the handles,
/// whatever handle takes it: readers are counted, there is never a second writer, and an
/// exclusive holder is alone.
pub proof fn law_step_keeps_agreement(
    s: SharedInodeLock,
    levels: Seq<LockLevel>,
    i: int,
    to: LockLevel,
)
    requires
        agrees(s, levels),
        0 <= i < levels.len() < u32::MAX,
        step_begun(s, levels[i], to).1 is Ok,
    ensures
        ({
            let (begun, set) = step_begun(s, levels[i], to);
            agrees(step_ended(begun, levels[i], to, set->Ok_0), levels.update(i, to))
        }),
{
    let from = levels[i];
    let (begun, set) = step_begun(s, from, to);
    let after = step_ended(begun, from, to, set->Ok_0);
    let changed = levels.update(i, to);
    lemma_holders_update(levels, i, to, LockLevel::Shared);
    lemma_holders_update(levels, i, to, LockLevel::Reserved);
    lemma_holders_len(levels, LockLevel::Shared);
    if from == to {
        assert(changed =~= levels);
    } else {
        assert(changed[i] == to);
        if from.height() >= 1 {
            lemma_holder_counts(levels, i, LockLevel::Shared);
        }
        if from.height() >= 2 {
            lemma_holder_counts(levels, i, LockLevel::Reserved);
        }
        // Only the writer can be above SHARED.
        assert forall|j: int| 0 <= j < levels.len() && j != i && from.height() >= 2 implies (
        #[trigger] levels[j]).height() <= 1 by {
            if levels[j].height() >= 2 {
                if i < j {
                    lemma_two_holders(levels, i, j, LockLevel::Reserved);
                } else {
                    lemma_two_holders(levels, j, i, LockLevel::Reserved);
                }
            }
        }
        assert forall|j: int| 0 <= j < levels.len() && !s.write_holder implies (
        #[trigger] levels[j]).height() <= 1 by {
            if levels[j].height() >= 2 {
                lemma_holder_counts(levels, j, LockLevel::Reserved);
            }
        }
        assert forall|j: int| 0 <= j < levels.len() && s.shared_holders == 0 implies (
        #[trigger] levels[j]).height() == 0 by {
            if levels[j].height() >= 1 {
                lemma_holder_counts(levels, j, LockLevel::Shared);
            }
        }
        if from == LockLevel::Shared && to == LockLevel::Unlocked {
            // No other holder is left where the count comes to zero.
            assert forall|j: int|
                0 <= j < levels.len() && j != i && s.shared_holders == 1 implies (
            #[trigger] levels[j]).height() == 0 by {
                if levels[j].height() >= 1 {
                    if i < j {
                        lemma_two_holders(levels, i, j, LockLevel::Shared);
                    } else {
                        lemma_two_holders(levels, j, i, LockLevel::Shared);
                    }
                }
            }
            if s.shared_holders > 1 {
                // Somebody else is at the level of the real lock.
                let j = choose|j: int| 0 <= j < levels.len() && #[trigger] levels[j] == s.level;
                if j == i {
                    assert(s.level == LockLevel::Shared);
                    lemma_some_holder(changed, LockLevel::Shared);
                    let k = choose|k: int|
                        0 <= k < changed.len() && (#[trigger] changed[k]).height() >= 1;
                    assert(k != i);
                    assert(levels[k].height() <= 1);
                    assert(changed[k] == LockLevel::Shared);
                } else {
                    assert(changed[j] == s.level);
                }
            }
        }
        if from == LockLevel::Unlocked && to == LockLevel::Shared && s.shared_holders > 0 {
            lemma_some_holder(levels, LockLevel::Shared);
            let k = choose|k: int|
                0 <= k < levels.len() && (#[trigger] levels[k]).height() >= 1;
            assert(s.level.height() >= 1);
            let j = choose|j: int| 0 <= j < levels.len() && #[trigger] levels[j] == s.level;
            assert(j != i);
            assert(changed[j] == s.level);
        }
        assert forall|j: int| 0 <= j < changed.len() implies (#[trigger] changed[j]).height()
            <= after.level.height() by {
            if j != i {
                assert(changed[j] == levels[j]);
                assert(levels[j].height() <= s.level.height());
            }
        }
        if after.level != LockLevel::Unlocked {
            if set->Ok_0 is Some {
                assert(changed[i] == after.level);
            }
        }
    }
}

/// Two handles never both write: a second step up to RESERVED is refused while one handle
/// holds it.
pub proof fn law_one_writer(s: SharedInodeLock, levels: Seq<LockLevel>, i: int, j: int)
    requires
        agrees(s, levels),
        0 <= i < levels.len(),
        0 <= j < levels.len(),
        i != j,
        levels[i].height() >= LockLevel::Reserved.height(),
    ensures
        levels[j].height() <= LockLevel::Shared.height(),
        step_begun(s, LockLevel::Shared, LockLevel::Reserved).1 == Err::<
            Option<LockLevel>,
            StepError,
        >(StepError::WouldBlock),
{
    lemma_holder_counts(levels, i, LockLevel::Reserved);
    if levels[j].height() > 1 {
        if i < j {
            lemma_two_holders(levels, i, j, LockLevel::Reserved);
        } else {
            lemma_two_holders(levels, j, i, LockLevel::Reserved);
        }
    }
}

/// Whoever holds EXCLUSIVE is alone, and nobody can start to read.
pub proof fn law_exclusive_is_alone(s: SharedInodeLock, levels: Seq<LockLevel>, i: int, j: int)
    requires
        agrees(s, levels),
        0 <= i < levels.len(),
        0 <= j < levels.len(),
        i != j,
        levels[i] == LockLevel::Exclusive,
    ensures
        levels[j] == LockLevel::Unlocked,
        step_begun(s, LockLevel::Unlocked, LockLevel::Shared).1 == Err::<
            Option<LockLevel>,
            StepError,
        >(StepError::WouldBlock),
{
    assert(s.level == LockLevel::Exclusive);
    if levels[j].height() >= 1 {
        if i < j {
            lemma_two_holders(levels, i, j, LockLevel::Shared);
        } else {
            lemma_two_holders(levels, j, i, LockLevel::Shared);
        }
    }
}

/// While a handle is at PENDING or above, no other handle leaves UNLOCKED, whatever rung it
/// asks for.
pub proof fn law_pending_lets_nobody_in(
    s: SharedInodeLock,
    levels: Seq<LockLevel>,
    i: int,
    j: int,
    to: LockLevel,
)
    requires
        agrees(s, levels),
        0 <= i < levels.len(),
        0 <= j < levels.len(),
        levels[i].height() >= LockLevel::Pending.height(),
        levels[j] == LockLevel::Unlocked,
        to != LockLevel::Unlocked,
    ensures
        step_begun(s, levels[j], to) == (
            s,
            Err::<Option<LockLevel>, StepError>(
                if to == LockLevel::Shared {
                    StepError::WouldBlock
                } else {
                    StepError::NotAdjacent { from: LockLevel::Unlocked, to }
                },
            ),
        ),
{
    assert(levels[i].height() <= s.level.height());
}

/// The level that a handle is left at when it goes rung by rung from `level` to `target` and
/// stops at the first rung that is not taken; `taken` says of each rung in turn whether it is.
pub open spec fn climbed(level: LockLevel, target: LockLevel, taken: Seq<bool>) -> LockLevel
    decreases taken.len(),
{
    match rung_toward(level, target) {
        Some(next) => if taken.len() > 0 && taken[0] {
            climbed(next, target, taken.drop_first())
        } else {
            level
        },
        None => level,
    }
}

/// How many rungs lie between two levels.
pub open spec fn rungs_between(level: LockLevel, target: LockLevel) -> int {
    if level.height() < target.height() {
        target.height() - level.height()
    } else {
        level.height() - target.height()
    }
}

/// Going rung by rung ends at the target where every rung is taken, and otherwise at the last
/// rung that was: `n` rungs are taken, and the one behind them is not, or there is none.
pub proof fn law_climb_ends_at_last_rung(
    level: LockLevel,
    target: LockLevel,
    taken: Seq<bool>,
    n: int,
)
    requires
        0 <= n <= taken.len(),
        n <= rungs_between(level, target),
        forall|k: int| 0 <= k < n ==> #[trigger] taken[k],
        n < taken.len() ==> !taken[n] || n == rungs_between(level, target),
    ensures
        climbed(level, target, taken).height() == (if level.height() < target.height() {
            level.height() + n
        } else {
            level.height() - n
        }),
        n == rungs_between(level, target) ==> climbed(level, target, taken) == target,
    decreases n,
{
    if n > 0 {
        let next = rung_toward(level, target)->0;
        assert(taken[0]);
        assert(rungs_between(next, target) == rungs_between(level, target) - 1);
        assert forall|k: int| 0 <= k < n - 1 implies #[trigger] taken.drop_first()[k] by {
            assert(taken[k + 1]);
        }
        law_climb_ends_at_last_rung(next, target, taken.drop_first(), n - 1);
    }
}

/// One step of a handle: the state behind it, or nothing where it is refused, or where the
/// real lock, going up, is not given (`given`).
pub open spec fn handle_step(
    s: SharedInodeLock,
    from: LockLevel,
    to: LockLevel,
    given: bool,
) -> Option<SharedInodeLock> {
    let (begun, r) = step_begun(s, from, to);
    match r {
        Ok(set) => if set is Some && to.height() > from.height() && !given {
            None
        } else {
            Some(step_ended(begun, from, to, set))
        },
        Err(_) => None,
    }
}

/// The handle `i` going to `target`, rung by rung, up to the first one that it does not get:
/// the state, the levels, and whether it got there. `given` says of each rung in turn whether
/// the real lock is given.
pub open spec fn level_set(
    s: SharedInodeLock,
    levels: Seq<LockLevel>,
    i: int,
    target: LockLevel,
    given: Seq<bool>,
) -> (SharedInodeLock, Seq<LockLevel>, bool)
    decreases rungs_between(levels[i], target),
    when 0 <= i < levels.len()
{
    match rung_toward(levels[i], target) {
        None => (s, levels, true),
        Some(next) => match handle_step(s, levels[i], next, given.len() == 0 || given[0]) {
            None => (s, levels, false),
            Some(after) => level_set(after, levels.update(i, next), i, target, given.skip(1)),
        },
    }
}

/// A call of a handle: which handle it is, where it is to go, and what it is given.
pub struct LevelCall {
    pub handle: nat,
    pub target: LockLevel,
    pub given: Seq<bool>,
}

/// The state and the levels behind calls of `count` handles on one file.
pub open spec fn after_calls(writable: bool, count: nat, calls: Seq<LevelCall>) -> (
    SharedInodeLock,
    Seq<LockLevel>,
)
    decreases calls.len(),
{
    if calls.len() == 0 {
        (
            SharedInodeLock {
                level: LockLevel::Unlocked,
                writable,
                shared_holders: 0,
                write_holder: false,
            },
            Seq::new(count, |i: int| LockLevel::Unlocked),
        )
    } else {
        let (s, levels) = after_calls(writable, count, calls.drop_last());
        let call = calls.last();
        if call.handle < levels.len() {
            let (after, changed, reached) = level_set(
                s,
                levels,
                call.handle as int,
                call.target,
                call.given,
            );
            (after, changed)
        } else {
            (s, levels)
        }
    }
}

/// Going to a level keeps the state in agreement with the handles, and changes no other
/// handle. The handle is at the target exactly where it got there, and else on a rung between
/// where it was and the target: the last one that it got.
pub proof fn law_level_set_keeps_agreement(
    s: SharedInodeLock,
    levels: Seq<LockLevel>,
    i: int,
    target: LockLevel,
    given: Seq<bool>,
)
    requires
        agrees(s, levels),
        0 <= i < levels.len() < u32::MAX,
    ensures
        ({
            let (after, changed, reached) = level_set(s, levels, i, target, given);
            &&& agrees(after, changed)
            &&& changed.len() == levels.len()
            &&& forall|k: int| 0 <= k < levels.len() && k != i ==> #[trigger] changed[k]
                == levels[k]
            &&& reached <==> changed[i] == target
            &&& rungs_between(levels[i], target) == rungs_between(levels[i], changed[i])
                + rungs_between(changed[i], target)
        }),
    decreases rungs_between(levels[i], target),
{
    match rung_toward(levels[i], target) {
        None => {},
        Some(next) => match handle_step(s, levels[i], next, given.len() == 0 || given[0]) {
            None => {},
            Some(after) => {
                let changed = levels.update(i, next);
                law_step_keeps_agreement(s, levels, i, next);
                assert(changed[i] == next);
                law_level_set_keeps_agreement(after, changed, i, target, given.skip(1));
                let last = level_set(after, changed, i, target, given.skip(1)).1;
                assert forall|k: int| 0 <= k < levels.len() && k != i implies #[trigger] last[k]
                    == levels[k] by {
                    assert(last[k] == changed[k]);
                }
            },
        },
    }
}

proof fn lemma_none_holds(levels: Seq<LockLevel>, level: LockLevel)
    requires
        forall|k: int| 0 <= k < levels.len() ==> #[trigger] levels[k] == LockLevel::Unlocked,
        level != LockLevel::Unlocked,
    ensures
        holders(levels, level) == 0,
    decreases levels.len(),
{
    if levels.len() > 0 {
        let front = levels.drop_last();
        assert(levels[levels.len() - 1] == LockLevel::Unlocked);
        assert forall|k: int| 0 <= k < front.len() implies #[trigger] front[k]
            == LockLevel::Unlocked by {
            assert(levels[k] == LockLevel::Unlocked);
        }
        lemma_none_holds(front, level);
    }
}

/// Whatever the handles of one file are told to do, one after the other, and whatever they are
/// given, the state agrees with their levels.
pub proof fn law_calls_keep_agreement(writable: bool, count: nat, calls: Seq<LevelCall>)
    requires
        count < u32::MAX,
    ensures
        agrees(after_calls(writable, count, calls).0, after_calls(writable, count, calls).1),
        after_calls(writable, count, calls).1.len() == count,
    decreases calls.len(),
{
    let (s, levels) = after_calls(writable, count, calls);
    if calls.len() == 0 {
        lemma_none_holds(levels, LockLevel::Shared);
        lemma_none_holds(levels, LockLevel::Reserved);
    } else {
        law_calls_keep_agreement(writable, count, calls.drop_last());
        let (before, old_levels) = after_calls(writable, count, calls.drop_last());
        let call = calls.last();
        if call.handle < old_levels.len() {
            law_level_set_keeps_agreement(
                before,
                old_levels,
                call.handle as int,
                call.target,
                call.given,
            );
        }
    }
}

/// Whatever calls came before: at most one handle is at RESERVED or above; where one is at
/// EXCLUSIVE all others are UNLOCKED; and while one is at PENDING or above, another that is
/// UNLOCKED stays so, whatever it is told.
pub proof fn law_calls_are_safe(
    writable: bool,
    count: nat,
    calls: Seq<LevelCall>,
    i: int,
    j: int,
    target: LockLevel,
    given: Seq<bool>,
)
    requires
        count < u32::MAX,
        0 <= i < count,
        0 <= j < count,
        i != j,
    ensures
        ({
            let (s, levels) = after_calls(writable, count, calls);
            let (after, changed, reached) = level_set(s, levels, j, target, given);
            &&& levels[i].height() >= LockLevel::Reserved.height() ==> levels[j].height()
                <= LockLevel::Shared.height()
            &&& levels[i] == LockLevel::Exclusive ==> levels[j] == LockLevel::Unlocked
            &&& levels[i].height() >= LockLevel::Pending.height() && levels[j]
                == LockLevel::Unlocked ==> after == s && changed == levels && (reached
                <==> target == LockLevel::Unlocked)
        }),
{
    let (s, levels) = after_calls(writable, count, calls);
    law_calls_keep_agreement(writable, count, calls);
    if levels[i].height() >= LockLevel::Reserved.height() {
        law_one_writer(s, levels, i, j);
    }
    if levels[i] == LockLevel::Exclusive {
        law_exclusive_is_alone(s, levels, i, j);
    }
    if levels[i].height() >= LockLevel::Pending.height() && levels[j] == LockLevel::Unlocked
        && target != LockLevel::Unlocked {
        law_pending_lets_nobody_in(s, levels, i, j, LockLevel::Shared);
    }
}

/// Every rung toward a target comes closer to it.
pub proof fn law_rungs_reach_target(level: LockLevel, target: LockLevel)
    ensures
        rung_toward(level, target) is None <==> level == target,
        rung_toward(level, target) is Some ==> {
            let next = rung_toward(level, target)->0;
            if level.height() < target.height() {
                next.height() == level.height() + 1
            } else {
                next.height() == level.height() - 1
            }
        },
{
}

} // verus!
