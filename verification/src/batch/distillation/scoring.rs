use vstd::prelude::*;
use crate::batch::distillation::canon::{CanonSymbol, FileInfo};

verus! {

/// How important a file is: a structural part from how often its symbols are
/// referenced, and a bonus when the user focuses on it.
pub struct Importance {
    pub structural: u64,
    pub user_priority: u64,
}

/// The saturating sum of the reference counts of the symbols.
pub open spec fn total_references(syms: Seq<CanonSymbol>) -> nat
    decreases syms.len(),
{
    if syms.len() == 0 {
        0
    } else {
        total_references(syms.drop_last()) + syms.last().references as nat
    }
}

/// `x` capped at the largest `u64`.
pub open spec fn cap_u64(x: int) -> u64 {
    if x > u64::MAX {
        u64::MAX
    } else {
        x as u64
    }
}

impl Importance {
    /// The importance score: structural part plus user priority (capped at the
    /// largest `u64`).
    pub fn total(&self) -> (res: u64)
        ensures
            res == cap_u64(self.structural + self.user_priority),
    {
        self.structural.saturating_add(self.user_priority)
    }
}

/// A file's importance: 5 plus 2 for each reference to a symbol it defines
/// (capped at the largest `u64`), and 100 more when it is focused.
pub fn calculate_importance(file_info: &FileInfo, is_focused: bool) -> (res: Importance)
    ensures
        res.structural == cap_u64(5 + 2 * total_references(file_info.symbols@) as int),
        res.user_priority == (if is_focused {
            100u64
        } else {
            0u64
        }),
{
    let syms = &file_info.symbols;
    let mut structural: u64 = 5;
    for i in 0..syms.len()
        invariant
            structural == cap_u64(5 + 2 * total_references(syms@.take(i as int)) as int),
    {
        assert(syms@.take(i + 1).drop_last() =~= syms@.take(i as int));
        let refs = syms[i].references as u64;
        let twice = refs.saturating_add(refs);
        structural = structural.saturating_add(twice);
        assert(syms@.take(i + 1).last() == syms@[i as int]);
    }
    assert(syms@.take(syms@.len() as int) =~= syms@);
    let user_priority: u64 = if is_focused {
        100
    } else {
        0
    };
    Importance { structural, user_priority }
}

/// The importance score of a file: the total of its importance.
pub open spec fn importance_score(file_info: FileInfo, is_focused: bool) -> nat {
    cap_u64(
        cap_u64(5 + 2 * total_references(file_info.symbols@) as int) + (if is_focused {
            100int
        } else {
            0int
        }),
    ) as nat
}

} // verus!
