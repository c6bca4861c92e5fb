//! Text of the first title.
use vstd::prelude::*;

verus! {

/// A line of text in both languages; either may be missing.
pub struct Translation {
    pub en: Option<String>,
    pub jp: Option<String>,
}

} // verus!
