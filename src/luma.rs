use vstd::prelude::*;

verus! {

/// One grayscale sample: 0 is the darkest, 255 the brightest.
#[derive(Clone, Copy, Debug, PartialEq, Eq, Structural, PartialOrd, Ord, Hash)]
pub struct Luma {
    pub luma: u8,
}

impl Luma {
    /// Wraps a raw byte.
    pub fn new(luma: u8) -> (r: Self)
        ensures
            r.luma == luma,
    {
        Self { luma }
    }
}

impl Default for Luma {
    /// The darkest sample.
    fn default() -> (r: Self)
        ensures
            r.luma == 0,
    {
        Self { luma: 0 }
    }
}

impl From<u8> for Luma {
    fn from(luma: u8) -> (r: Self)
        ensures
            r.luma == luma,
    {
        Self { luma }
    }
}

impl vstd::std_specs::convert::FromSpecImpl<u8> for Luma {
    open spec fn obeys_from_spec() -> bool {
        true
    }

    open spec fn from_spec(v: u8) -> Luma {
        Luma { luma: v }
    }
}

impl From<Luma> for u8 {
    fn from(luma: Luma) -> (r: Self)
        ensures
            r == luma.luma,
    {
        luma.luma
    }
}

impl vstd::std_specs::convert::FromSpecImpl<Luma> for u8 {
    open spec fn obeys_from_spec() -> bool {
        true
    }

    open spec fn from_spec(v: Luma) -> u8 {
        v.luma
    }
}

} // verus!
