//! Run-wide options that steer identification: whether the input may only be
//! text, whether repeated literals are reported again, and whether a file is
//! read as a capture stream.

use vstd::prelude::*;

verus! {

/// The options of one identification run.
pub struct Options {
    pub verbose: bool,
    pub only_text: bool,
    pub allow_duplicates: bool,
    pub pcapng: bool,
}

} // verus!
