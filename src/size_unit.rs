//! Units in which sizes are given.
use vstd::prelude::*;

verus! {

/// Units of size.
#[derive(Clone, Copy, Debug, PartialEq, Eq, Structural)]
pub enum SizeUnit {
    Bytes,
    Kilobytes,
    Megabytes,
    Gigabyes,
}

} // verus!
