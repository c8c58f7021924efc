use vstd::prelude::*;

verus! {

/// The three compression levels of the layers of a batch; a higher number
/// means more of the code has been removed.
#[derive(Debug, Clone, Copy, PartialEq, Eq, PartialOrd, Ord, Structural)]
pub enum Fidelity {
    /// Partial: all code minus comments, debug statements and verbose literals.
    L0,
    /// Skeletal: types and signatures; bodies replaced by `{ ... }`.
    L1,
    /// Architectural: top-level declarations and public interfaces only.
    L2,
}

/// The folder name of a layer.
pub open spec fn layer_label(f: Fidelity) -> Seq<char> {
    match f {
        Fidelity::L0 => "L0_partial"@,
        Fidelity::L1 => "L1_skeletal"@,
        Fidelity::L2 => "L2_architectural"@,
    }
}

impl Fidelity {
    /// All levels, from the least to the most compressed.
    pub fn all() -> (res: Vec<Fidelity>)
        ensures
            res@ == seq![Fidelity::L0, Fidelity::L1, Fidelity::L2],
    {
        vec![Fidelity::L0, Fidelity::L1, Fidelity::L2]
    }

    /// The folder name of the level's layer.
    pub fn label(&self) -> (res: &'static str)
        ensures
            res@ == layer_label(*self),
    {
        match self {
            Fidelity::L0 => "L0_partial",
            Fidelity::L1 => "L1_skeletal",
            Fidelity::L2 => "L2_architectural",
        }
    }
}

} // verus!
