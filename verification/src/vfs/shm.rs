//! WAL-mode reader-mark protocol: claims a read-lock slot of a `-shm` file and publishes the
//! frame count a reader is pinned to, so that a live checkpointer backs off rather than
//! overwriting frames the reader still depends on.
//!
//! wal-index (`-shm`) header layout:
//! ```text
//! offset  field
//! 0       header copy 1 (48 bytes), with the last valid frame at +16
//! 48      header copy 2 (identical layout)
//! 96      frames checkpointed (u32)
//! 100     reader marks (u32 x5)
//! 120     lock bytes (8)
//! 128     frames a checkpoint was attempted for (u32)
//! ```
//!
//! The claim is a state machine: [`claim_step`] takes what came of the last piece of file
//! work, and names the next.
use vstd::prelude::*;

verus! {

/// Where the last valid frame is recorded.
pub const MX_FRAME_OFFSET: u64 = 16;

/// Where the reader marks begin.
pub const READ_MARK_BASE_OFFSET: u64 = 100;

/// Minimum `-shm` file length for a valid wal-index header: through the end of the reader
/// marks.
pub const MIN_SHM_LEN: u64 = 120;

/// Base of the lock-byte range.
pub const UNIX_SHM_BASE: i64 = 120;

/// The last slot a reader can claim; slot 0 is reserved.
pub const LAST_SLOT: usize = 4;

/// The lock byte of a reader slot.
pub fn wal_read_lock_byte(slot: usize) -> (r: i64)
    requires
        slot <= LAST_SLOT,
    ensures
        r == UNIX_SHM_BASE + 3 + slot,
{
    UNIX_SHM_BASE + 3 + slot as i64
}

/// Where a slot's reader mark is.
pub fn read_mark_offset(slot: usize) -> (r: u64)
    requires
        slot <= LAST_SLOT,
    ensures
        r == READ_MARK_BASE_OFFSET + 4 * slot,
{
    READ_MARK_BASE_OFFSET + slot as u64 * 4
}

/// Whether a file is long enough to hold a full wal-index header. One cut short by a crash
/// must be rejected rather than read out of bounds.
pub fn shm_len_is_valid(len: u64) -> (r: bool)
    ensures
        r == (len >= MIN_SHM_LEN),
{
    len >= MIN_SHM_LEN
}

/// How a claim ended.
#[derive(Debug, Clone, Copy, PartialEq, Eq, Structural)]
pub enum ClaimOutcome {
    /// There is no `-shm` file: nobody to coordinate with, and nothing to lock.
    NoFile,
    /// The file is too short for a wal-index header.
    TooShort,
    /// The slot is claimed.
    Claimed { slot: usize },
    /// Every slot is held by somebody else.
    Contended,
    /// A piece of file work failed.
    Failed,
}

/// What a claim does next.
#[derive(Debug, Clone, Copy, PartialEq, Eq, Structural)]
pub enum ClaimState {
    /// Open the file for reading and writing.
    Open,
    /// Ask for its length.
    Measure,
    /// Lock the slot's byte exclusively, without waiting.
    Lock { slot: usize },
    /// Read the last valid frame, behind the lock: a writer could advance it before.
    ReadFrame { slot: usize },
    /// Write the frame into the slot's mark.
    Publish { slot: usize, frame: u32 },
    /// Turn the slot's lock into a shared one.
    Share { slot: usize },
    Finished(ClaimOutcome),
}

/// What came of a piece of file work.
#[derive(Debug, Clone, Copy, PartialEq, Eq, Structural)]
pub enum ClaimEvent {
    /// It was done.
    Done,
    /// The file does not exist.
    Missing,
    /// The file's length.
    Length(u64),
    /// The frame that was read.
    Frame(u32),
    /// Somebody else holds the lock.
    Contended,
    /// It failed otherwise.
    Failed,
}

/// What a claim does behind a piece of file work. A held slot is passed over for the next;
/// only the lock, not the mark left by an earlier reader, tells whether a slot is free.
pub open spec fn claim_next(state: ClaimState, event: ClaimEvent) -> ClaimState {
    match (state, event) {
        (ClaimState::Finished(_), _) => state,
        (ClaimState::Open, ClaimEvent::Done) => ClaimState::Measure,
        (ClaimState::Open, ClaimEvent::Missing) => ClaimState::Finished(ClaimOutcome::NoFile),
        (ClaimState::Measure, ClaimEvent::Length(len)) => if len >= MIN_SHM_LEN {
            ClaimState::Lock { slot: 1 }
        } else {
            ClaimState::Finished(ClaimOutcome::TooShort)
        },
        (ClaimState::Lock { slot }, ClaimEvent::Done) => ClaimState::ReadFrame { slot },
        (ClaimState::Lock { slot }, ClaimEvent::Contended) => if slot < LAST_SLOT {
            ClaimState::Lock { slot: (slot + 1) as usize }
        } else {
            ClaimState::Finished(ClaimOutcome::Contended)
        },
        (ClaimState::ReadFrame { slot }, ClaimEvent::Frame(frame)) => ClaimState::Publish {
            slot,
            frame,
        },
        (ClaimState::Publish { slot, .. }, ClaimEvent::Done) => ClaimState::Share { slot },
        (ClaimState::Share { slot }, ClaimEvent::Done) => ClaimState::Finished(
            ClaimOutcome::Claimed { slot },
        ),
        _ => ClaimState::Finished(ClaimOutcome::Failed),
    }
}

/// Carries a claim on behind a piece of file work.
pub fn claim_step(state: ClaimState, event: ClaimEvent) -> (r: ClaimState)
    ensures
        r == claim_next(state, event),
{
    match (state, event) {
        (ClaimState::Finished(_), _) => state,
        (ClaimState::Open, ClaimEvent::Done) => ClaimState::Measure,
        (ClaimState::Open, ClaimEvent::Missing) => ClaimState::Finished(ClaimOutcome::NoFile),
        (ClaimState::Measure, ClaimEvent::Length(len)) => {
            if shm_len_is_valid(len) {
                ClaimState::Lock { slot: 1 }
            } else {
                ClaimState::Finished(ClaimOutcome::TooShort)
            }
        },
        (ClaimState::Lock { slot }, ClaimEvent::Done) => ClaimState::ReadFrame { slot },
        (ClaimState::Lock { slot }, ClaimEvent::Contended) => {
            if slot < LAST_SLOT {
                ClaimState::Lock { slot: slot + 1 }
            } else {
                ClaimState::Finished(ClaimOutcome::Contended)
            }
        },
        (ClaimState::ReadFrame { slot }, ClaimEvent::Frame(frame)) => ClaimState::Publish {
            slot,
            frame,
        },
        (ClaimState::Publish { slot, .. }, ClaimEvent::Done) => ClaimState::Share { slot },
        (ClaimState::Share { slot }, ClaimEvent::Done) => ClaimState::Finished(
            ClaimOutcome::Claimed { slot },
        ),
        _ => ClaimState::Finished(ClaimOutcome::Failed),
    }
}

/// A state in which every slot named is one that a reader can claim.
pub open spec fn claims_reader_slot(state: ClaimState) -> bool {
    match state {
        ClaimState::Lock { slot } => 1 <= slot <= LAST_SLOT,
        ClaimState::ReadFrame { slot } => 1 <= slot <= LAST_SLOT,
        ClaimState::Publish { slot, .. } => 1 <= slot <= LAST_SLOT,
        ClaimState::Share { slot } => 1 <= slot <= LAST_SLOT,
        ClaimState::Finished(ClaimOutcome::Claimed { slot }) => 1 <= slot <= LAST_SLOT,
        _ => true,
    }
}

/// Slot 0 is never claimed, nor one beyond the last.
pub proof fn law_claims_a_reader_slot(state: ClaimState, event: ClaimEvent)
    requires
        claims_reader_slot(state),
    ensures
        claims_reader_slot(claim_next(state, event)),
{
}

/// The state of a claim that has met only held slots, `n` of them.
pub open spec fn after_contention(n: nat) -> ClaimState
    decreases n,
{
    if n == 0 {
        ClaimState::Lock { slot: 1 }
    } else {
        claim_next(after_contention((n - 1) as nat), ClaimEvent::Contended)
    }
}

/// The slots are tried in order, each once, and the claim fails only when all are held.
pub proof fn law_slots_are_tried_in_order(n: nat)
    requires
        n <= LAST_SLOT,
    ensures
        after_contention(n) == (if n < LAST_SLOT {
            ClaimState::Lock { slot: (n + 1) as usize }
        } else {
            ClaimState::Finished(ClaimOutcome::Contended)
        }),
    decreases n,
{
    if n > 0 {
        law_slots_are_tried_in_order((n - 1) as nat);
    }
}

/// A claimed slot carries the frame that was read behind its lock.
pub proof fn law_frame_is_published(slot: usize, frame: u32)
    ensures
        claim_next(ClaimState::Lock { slot }, ClaimEvent::Done) == (ClaimState::ReadFrame {
            slot,
        }),
        claim_next(ClaimState::ReadFrame { slot }, ClaimEvent::Frame(frame))
            == (ClaimState::Publish { slot, frame }),
        claim_next(
            claim_next(ClaimState::Publish { slot, frame }, ClaimEvent::Done),
            ClaimEvent::Done,
        ) == ClaimState::Finished(ClaimOutcome::Claimed { slot }),
{
}

/// The marks and the lock bytes of the slots do not overlap, and the marks lie inside the
/// shortest valid file.
pub proof fn law_slots_are_apart(a: usize, b: usize)
    requires
        a < b <= LAST_SLOT,
    ensures
        READ_MARK_BASE_OFFSET + 4 * a + 4 <= READ_MARK_BASE_OFFSET + 4 * b,
        READ_MARK_BASE_OFFSET + 4 * b + 4 <= MIN_SHM_LEN,
        UNIX_SHM_BASE + 3 + a < UNIX_SHM_BASE + 3 + b,
        UNIX_SHM_BASE + 3 + b < UNIX_SHM_BASE + 8,
{
}

} // verus!
