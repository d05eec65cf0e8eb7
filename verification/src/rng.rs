//! The one place where chance enters the simulation.
use vstd::prelude::*;
use rand::seq::SliceRandom;

verus! {

/// Draws one cell of `cells` with `rand::seq::SliceRandom::choose` on the
/// thread's generator. Which cell comes back is left open: all that is
/// claimed is that an empty list gives `None` and any other list gives one
/// of its own elements.
#[verifier::external_body]
pub(crate) fn choose_cell(cells: &Vec<(i32, i32)>) -> (r: Option<(i32, i32)>)
    ensures
        cells@.len() == 0 ==> r is None,
        cells@.len() > 0 ==> r is Some && cells@.contains(r.unwrap()),
{
    cells.choose(&mut rand::thread_rng()).copied()
}

} // verus!
