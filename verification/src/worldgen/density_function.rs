use vstd::prelude::*;

verus! {

/// A reference to a density function by its position in its tree.
#[derive(Clone, Copy, PartialEq, Eq, Structural, Debug)]
pub struct DensityFunctionRef(pub usize);

/// Smooths chunks generated by older versions into new ones; it has no state yet.
#[derive(Clone, Copy, PartialEq, Eq, Structural, Debug)]
pub struct Blender;

/// The two ways of mapping a rarity value.
#[derive(Clone, Copy, PartialEq, Eq, Structural, Debug)]
pub enum RarityValueMapper {
    Type1,
    Type2,
}

impl RarityValueMapper {
    /// The mapper's name.
    pub fn name(&self) -> (r: &'static str)
        ensures
            *self == RarityValueMapper::Type1 ==> r@ == "type_1"@,
            *self == RarityValueMapper::Type2 ==> r@ == "type_2"@,
    {
        match self {
            RarityValueMapper::Type1 => "type_1",
            RarityValueMapper::Type2 => "type_2",
        }
    }
}

} // verus!
