//! A volume held as an unsigned byte.

use core::str::FromStr;

use vstd::prelude::*;
use vstd::string::StringSliceAdditionalSpecFns;

use crate::error::Error;
use crate::text::{bounded_text, parse_bounded};

verus! {

/// A volume from 0 to 100 held as an unsigned byte.
#[derive(Debug, PartialEq)]
pub struct Volume(u8);

impl Volume {
    #[verifier::type_invariant]
    spec fn in_range(self) -> bool {
        self.0 <= 100
    }

    pub closed spec fn level(&self) -> u8 {
        self.0
    }

    pub fn new(volume: u8) -> (r: Result<Volume, Error>)
        ensures
            match r {
                Ok(v) => volume <= 100 && v.level() == volume,
                Err(e) => volume > 100 && e == Error::OutOfRange,
            },
    {
        if volume <= 100 {
            Ok(Self(volume))
        } else {
            Err(Error::OutOfRange)
        }
    }

    /// Reads a volume from its decimal text: `InvalidString` when the text is
    /// no `u8`, `OutOfRange` when it is above 100.
    pub fn from_bytes(b: &[u8]) -> (r: Result<Volume, Error>)
        ensures
            match bounded_text(b@, false, 0, 255) {
                None => r == Err::<Volume, Error>(Error::InvalidString),
                Some(v) => match r {
                    Ok(vol) => v <= 100 && vol.level() == v,
                    Err(e) => v > 100 && e == Error::OutOfRange,
                },
            },
    {
        match parse_bounded(b, false, 0, 255) {
            None => Err(Error::InvalidString),
            Some(v) => Volume::new(v as u8),
        }
    }
}

impl FromStr for Volume {
    type Err = Error;

    fn from_str(s: &str) -> (r: Result<Self, Self::Err>)
        ensures
            match bounded_text(s.spec_bytes(), false, 0, 255) {
                None => r == Err::<Volume, Error>(Error::InvalidString),
                Some(v) => match r {
                    Ok(vol) => v <= 100 && vol.level() == v,
                    Err(e) => v > 100 && e == Error::OutOfRange,
                },
            },
    {
        Volume::from_bytes(s.as_bytes())
    }
}

} // verus!
