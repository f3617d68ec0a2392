use vstd::prelude::*;

verus! {

/// Options of the Avro reader; the container file is self-describing,
/// so nothing needs choosing.
pub struct Options {
}

} // verus!
