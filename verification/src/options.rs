use vstd::prelude::*;

use crate::error::Error;

verus! {

/// Smallest accepted JPEG quality.
pub const MIN_QUALITY: u8 = 1;

/// Largest accepted JPEG quality.
pub const MAX_QUALITY: u8 = 100;

/// Settings of one conversion batch: the longest edge an output image may
/// have, and the JPEG quality it is written with.
#[derive(Clone, Copy, Debug, PartialEq, Eq, Structural)]
pub struct ConversionOptions {
    max_dimension: u32,
    quality: u8,
}

/// The options that `ConversionOptions::new` accepts.
pub open spec fn valid_options(max_dimension: u32, quality: u8) -> bool {
    &&& max_dimension > 0
    &&& MIN_QUALITY <= quality <= MAX_QUALITY
}

/// The accepted options are exactly those with a positive longest edge and a
/// quality from 1 to 100: no other bound is put on either.
pub proof fn lemma_accepted_options(max_dimension: u32, quality: u8)
    ensures
        valid_options(max_dimension, quality) <==> (max_dimension > 0 && 1 <= quality <= 100),
{
}

impl ConversionOptions {
    /// Every value of the type holds accepted options.
    #[verifier::type_invariant]
    spec fn inv(self) -> bool {
        valid_options(self.max_dimension, self.quality)
    }

    /// The longest edge, as a spec value.
    pub closed spec fn spec_max_dimension(self) -> u32 {
        self.max_dimension
    }

    /// The JPEG quality, as a spec value.
    pub closed spec fn spec_quality(self) -> u8 {
        self.quality
    }

    /// Validates and builds options. A zero longest edge is refused first,
    /// then a quality outside `1..=100`.
    pub fn new(max_dimension: u32, quality: u8) -> (result: Result<Self, Error>)
        ensures
            result matches Ok(options) ==> options.spec_max_dimension() == max_dimension
                && options.spec_quality() == quality,
            result is Ok <==> valid_options(max_dimension, quality),
            result is Ok <==> (max_dimension > 0 && 1 <= quality <= 100),
            max_dimension == 0 ==> (result matches Err(Error::InvalidOptions(message))
                && message@ == "max dimension must be greater than zero"@),
            max_dimension > 0 && !(MIN_QUALITY <= quality <= MAX_QUALITY) ==> (result matches Err(
                Error::InvalidOptions(message),
            ) && message@ == "JPEG quality must be between 1 and 100"@),
    {
        if max_dimension == 0 {
            return Err(Error::InvalidOptions("max dimension must be greater than zero"));
        }
        if !(MIN_QUALITY <= quality && quality <= MAX_QUALITY) {
            return Err(Error::InvalidOptions("JPEG quality must be between 1 and 100"));
        }
        Ok(ConversionOptions { max_dimension, quality })
    }

    /// The longest edge an output image may have.
    pub fn max_dimension(self) -> (max_dimension: u32)
        ensures
            max_dimension == self.spec_max_dimension(),
            max_dimension > 0,
    {
        proof {
            use_type_invariant(self);
        }
        self.max_dimension
    }

    /// The JPEG quality output is written with.
    pub fn quality(self) -> (quality: u8)
        ensures
            quality == self.spec_quality(),
            MIN_QUALITY <= quality <= MAX_QUALITY,
    {
        proof {
            use_type_invariant(self);
        }
        self.quality
    }
}

} // verus!
