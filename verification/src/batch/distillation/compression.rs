use vstd::prelude::*;

verus! {

/// How much of a file a single distillation keeps, from nothing to everything.
#[derive(Debug, Clone, Copy, PartialEq, Eq, PartialOrd, Ord, Structural)]
pub enum CompressionLevel {
    /// Scores 0 to 4.
    DropEntirely,
    /// Scores 5 to 14.
    KeepSignatures,
    /// Scores 15 to 29.
    Skeletonize,
    /// Scores 30 to 49.
    StripComments,
    /// Scores 50 and above.
    PreserveAll,
}

/// The position of a level from `DropEntirely` (0) to `PreserveAll` (4).
pub open spec fn level_rank(l: CompressionLevel) -> nat {
    match l {
        CompressionLevel::DropEntirely => 0,
        CompressionLevel::KeepSignatures => 1,
        CompressionLevel::Skeletonize => 2,
        CompressionLevel::StripComments => 3,
        CompressionLevel::PreserveAll => 4,
    }
}

/// The level for an importance score: 50 and above keeps everything, 30 to
/// 49 strips comments, 15 to 29 skeletonizes, 5 to 14 keeps signatures, and
/// below 5 drops the file.
pub open spec fn level_for_score(score: nat) -> CompressionLevel {
    if score >= 50 {
        CompressionLevel::PreserveAll
    } else if score >= 30 {
        CompressionLevel::StripComments
    } else if score >= 15 {
        CompressionLevel::Skeletonize
    } else if score >= 5 {
        CompressionLevel::KeepSignatures
    } else {
        CompressionLevel::DropEntirely
    }
}

impl CompressionLevel {
    /// The level for a (whole-number) importance score.
    pub fn from_score(score: u64) -> (res: Self)
        ensures
            res == level_for_score(score as nat),
    {
        if score >= 50 {
            CompressionLevel::PreserveAll
        } else if score >= 30 {
            CompressionLevel::StripComments
        } else if score >= 15 {
            CompressionLevel::Skeletonize
        } else if score >= 5 {
            CompressionLevel::KeepSignatures
        } else {
            CompressionLevel::DropEntirely
        }
    }

    /// The level's position from `DropEntirely` (0) to `PreserveAll` (4).
    pub fn rank(&self) -> (res: u8)
        ensures
            res as nat == level_rank(*self),
    {
        match self {
            CompressionLevel::DropEntirely => 0,
            CompressionLevel::KeepSignatures => 1,
            CompressionLevel::Skeletonize => 2,
            CompressionLevel::StripComments => 3,
            CompressionLevel::PreserveAll => 4,
        }
    }
}

/// A higher score never gives a lower level.
pub proof fn law_level_monotonic(a: nat, b: nat)
    requires
        a <= b,
    ensures
        level_rank(level_for_score(a)) <= level_rank(level_for_score(b)),
{
}

} // verus!
