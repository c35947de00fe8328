//! Helpers.

use crate::path::{parts, DirPath};
use vstd::prelude::*;

verus! {

/// The path that a text stands for.
pub fn as_path(path: &str) -> (r: DirPath)
    ensures
        r@ == parts(path@),
{
    DirPath::parse(path)
}

} // verus!
