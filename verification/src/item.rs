use vstd::prelude::*;

verus! {

/// Unary transform applied in prefix position.
#[derive(Copy, Clone, Debug, PartialEq, Eq, Structural)]
pub enum Function {
    Trigonometric(Trigonometric, AngleUnit),
    AbsoluteValue,
    SquareRoot,
    CubeRoot,
    NaturalLogarithm,
    BinaryLogarithm,
    DecimalLogarithm,
    UnaryMinus,
}

#[derive(Copy, Clone, Debug, PartialEq, Eq, Structural)]
pub enum Trigonometric {
    Sine,
    Cosine,
    Tangent,
    InverseSine,
    InverseCosine,
    InverseTangent,
}

/// Unit in which a trigonometric function takes (or an inverse one yields)
/// its angle. Selected per call site by a prime suffix on the name.
#[derive(Copy, Clone, Debug, PartialEq, Eq, Structural)]
pub enum AngleUnit {
    Radians,
    Degrees,
}

#[derive(Copy, Clone, Debug, PartialEq, Eq, Structural)]
pub enum Constant {
    E,
    Pi,
}

/// Bit pattern of the IEEE binary64 value nearest to Euler's number,
/// 2.718281828459045235...
pub const E_BITS: u64 = 0x4005BF0A8B145769;

/// Bit pattern of the IEEE binary64 value nearest to pi,
/// 3.141592653589793238...
pub const PI_BITS: u64 = 0x400921FB54442D18;

impl Constant {
    /// The constant's numeric value, as the bit pattern of an IEEE binary64.
    pub fn value(&self) -> (bits: u64)
        ensures
            bits == self.spec_value(),
    {
        match self {
            Constant::E => E_BITS,
            Constant::Pi => PI_BITS,
        }
    }

    pub open spec fn spec_value(self) -> u64 {
        match self {
            Constant::E => E_BITS,
            Constant::Pi => PI_BITS,
        }
    }
}

} // verus!
