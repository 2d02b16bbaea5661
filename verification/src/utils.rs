//! Helpers of the crate's top-level command set.
use vstd::prelude::*;
use crate::cmd::utils::{split_char, split_on, law_split_rejoin};
use crate::structs::texts;

verus! {

/// The name under which an executable found at `file` is started: the last piece of the
/// path after its last `/` (the whole path where it has none).
pub fn executable_name(file: &str) -> (r: String)
    ensures
        r@ == split_on(file@, '/').last(),
{
    let pieces = split_char(file, '/');
    proof { law_split_rejoin(file@, '/'); }
    let n = pieces.len();
    assert(texts(pieces@)[n - 1] == pieces@[n - 1]@);
    pieces[n - 1].clone()
}

} // verus!
