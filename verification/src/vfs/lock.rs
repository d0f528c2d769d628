//! Journal-mode locking: the rungs of the lock ladder, and the bytes of a database file that
//! stand for them.
use vstd::prelude::*;

verus! {

/// Base of the reserved lock-byte page.
pub const PENDING_BYTE: i64 = 0x4000_0000;

/// The byte that stands for the RESERVED lock.
pub const RESERVED_BYTE: i64 = 0x4000_0001;

/// First byte of the SHARED-lock range.
pub const SHARED_FIRST: i64 = 0x4000_0002;

/// Width of the SHARED-lock range.
pub const SHARED_SIZE: i64 = 510;

/// The rungs of the lock ladder.
#[derive(Debug, Clone, Copy, PartialEq, Eq, Structural)]
pub enum LockLevel {
    Unlocked,
    Shared,
    Reserved,
    Pending,
    Exclusive,
}

impl LockLevel {
    /// The rung's height.
    pub open spec fn height(self) -> int {
        match self {
            LockLevel::Unlocked => 0,
            LockLevel::Shared => 1,
            LockLevel::Reserved => 2,
            LockLevel::Pending => 3,
            LockLevel::Exclusive => 4,
        }
    }

    /// Whether the rung is as high as `other` or higher.
    pub fn at_least(self, other: LockLevel) -> (b: bool)
        ensures
            b == (self.height() >= other.height()),
    {
        self.rank() >= other.rank()
    }

    fn rank(self) -> (n: u8)
        ensures
            n == self.height(),
    {
        match self {
            LockLevel::Unlocked => 0,
            LockLevel::Shared => 1,
            LockLevel::Reserved => 2,
            LockLevel::Pending => 3,
            LockLevel::Exclusive => 4,
        }
    }
}

/// The next rung up; the highest has none above it.
pub open spec fn rung_above(level: LockLevel) -> LockLevel {
    match level {
        LockLevel::Unlocked => LockLevel::Shared,
        LockLevel::Shared => LockLevel::Reserved,
        LockLevel::Reserved => LockLevel::Pending,
        LockLevel::Pending => LockLevel::Exclusive,
        LockLevel::Exclusive => LockLevel::Exclusive,
    }
}

/// The next rung down; the lowest has none below it.
pub open spec fn rung_below(level: LockLevel) -> LockLevel {
    match level {
        LockLevel::Exclusive => LockLevel::Pending,
        LockLevel::Pending => LockLevel::Reserved,
        LockLevel::Reserved => LockLevel::Shared,
        LockLevel::Shared => LockLevel::Unlocked,
        LockLevel::Unlocked => LockLevel::Unlocked,
    }
}

pub fn successor(level: LockLevel) -> (r: LockLevel)
    ensures
        r == rung_above(level),
{
    match level {
        LockLevel::Unlocked => LockLevel::Shared,
        LockLevel::Shared => LockLevel::Reserved,
        LockLevel::Reserved => LockLevel::Pending,
        LockLevel::Pending | LockLevel::Exclusive => LockLevel::Exclusive,
    }
}

pub fn predecessor(level: LockLevel) -> (r: LockLevel)
    ensures
        r == rung_below(level),
{
    match level {
        LockLevel::Exclusive => LockLevel::Pending,
        LockLevel::Pending => LockLevel::Reserved,
        LockLevel::Reserved => LockLevel::Shared,
        LockLevel::Shared | LockLevel::Unlocked => LockLevel::Unlocked,
    }
}

/// Going up and down one rung are each other's inverse inside the ladder, and each changes
/// the height by one.
pub proof fn law_rungs_are_inverse(level: LockLevel)
    ensures
        level != LockLevel::Exclusive ==> rung_below(rung_above(level)) == level
            && rung_above(level).height() == level.height() + 1,
        level != LockLevel::Unlocked ==> rung_above(rung_below(level)) == level && rung_below(
            level,
        ).height() == level.height() - 1,
{
}

/// The bytes of the three kinds of lock do not overlap.
pub proof fn law_lock_bytes_are_apart()
    ensures
        PENDING_BYTE < RESERVED_BYTE < SHARED_FIRST,
        SHARED_FIRST == PENDING_BYTE + 2,
        SHARED_FIRST + SHARED_SIZE == PENDING_BYTE + 512,
{
}

} // verus!
