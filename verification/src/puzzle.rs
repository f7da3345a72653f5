//! Puzzle records: the data entity describing one puzzle's state, reward,
//! creator, and opaque shape metadata.
//!
//! A record's `status` moves strictly forward through the lifecycle
//! `Unsolved -> Solved -> Claimed`; `reward`, `creator`, and the metadata are
//! immutable after creation. The shape metadata (`dimensions`, `answers`) is
//! never validated or interpreted by this library.

use vstd::prelude::*;

use crate::token::Token;

verus! {

/// Reading direction of one answer inside the grid.
#[derive(Clone, Copy, PartialEq, Eq, Structural, Debug)]
pub enum AnswerDirection {
    Across,
    Down,
}

/// A cell position; the origin (0,0) is the top left corner of the grid.
#[derive(Clone, Copy, PartialEq, Eq, Structural, Debug)]
pub struct CoordinatePair {
    pub x: u8,
    pub y: u8,
}

/// Placement of one answer: its clue number, start cell, direction, and length.
#[derive(Clone, Copy, PartialEq, Eq, Structural, Debug)]
pub struct Answer {
    pub num: u8,
    pub start: CoordinatePair,
    pub direction: AnswerDirection,
    pub length: u8,
}

/// Lifecycle state of a puzzle record.
///
/// A `Solved` record carries the token that performed the winning solve call;
/// a `Claimed` record carries the memo supplied at claim time.
#[derive(Debug)]
pub enum PuzzleStatus {
    Unsolved,
    Solved { solver_token: Token },
    Claimed { memo: String },
}

/// Mathematical model of a [`PuzzleStatus`]: tokens become byte sequences
/// and memos become character sequences.
pub enum StatusView {
    Unsolved,
    Solved { solver: Seq<u8> },
    Claimed { memo: Seq<char> },
}

impl View for PuzzleStatus {
    type V = StatusView;

    open spec fn view(&self) -> StatusView {
        match self {
            PuzzleStatus::Unsolved => StatusView::Unsolved,
            PuzzleStatus::Solved { solver_token } => StatusView::Solved { solver: solver_token@ },
            PuzzleStatus::Claimed { memo } => StatusView::Claimed { memo: memo@ },
        }
    }
}

/// One puzzle record.
#[derive(Debug)]
pub struct Puzzle {
    pub status: PuzzleStatus,
    /// Amount of value escrowed at creation; transferred exactly once on claim.
    pub reward: u128,
    /// Account that created the puzzle.
    pub creator: String,
    /// Opaque grid shape, trusted as supplied by the creator.
    pub dimensions: CoordinatePair,
    /// Opaque answer placements, trusted as supplied by the creator.
    pub answers: Vec<Answer>,
}

/// Mathematical model of a [`Puzzle`].
pub struct PuzzleView {
    pub status: StatusView,
    pub reward: u128,
    pub creator: Seq<char>,
    pub dimensions: CoordinatePair,
    pub answers: Seq<Answer>,
}

impl View for Puzzle {
    type V = PuzzleView;

    open spec fn view(&self) -> PuzzleView {
        PuzzleView {
            status: self.status@,
            reward: self.reward,
            creator: self.creator@,
            dimensions: self.dimensions,
            answers: self.answers@,
        }
    }
}

impl PuzzleView {
    /// The same record with only the status replaced; everything set at
    /// creation (reward, creator, metadata) is kept.
    pub open spec fn with_status(self, status: StatusView) -> PuzzleView {
        PuzzleView { status, ..self }
    }
}

} // verus!
