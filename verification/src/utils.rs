//! Small helpers shared by the rest of the crate.
use vstd::prelude::*;
use vstd::std_specs::convert::FromSpec;
use vstd::std_specs::ops::DivSpec;

verus! {

/// The eight neighbours of a cell, as offsets, clockwise from the one below.
pub open spec fn point_offsets_spec() -> Seq<(int, int)> {
    seq![
        (0int, 1int),
        (1int, 1int),
        (1int, 0int),
        (1int, -1int),
        (0int, -1int),
        (-1int, -1int),
        (-1int, 0int),
        (-1int, 1int),
    ]
}

/// The eight neighbour offsets as executable data.
pub fn point_offsets() -> (r: [(i8, i8); 8])
    ensures
        r@.len() == 8,
        forall|i: int|
            0 <= i < 8 ==> (#[trigger] r@[i]).0 as int == point_offsets_spec()[i].0 && r@[i].1 as int
                == point_offsets_spec()[i].1,
{
    [(0, 1), (1, 1), (1, 0), (1, -1), (0, -1), (-1, -1), (-1, 0), (-1, 1)]
}

/// Halves both extents of a box: the coordinates of its centre.
pub fn center<T: Copy + core::ops::Div<Output = T> + From<u32>>(width: T, height: T) -> (r: (T, T))
    requires
        T::obeys_from_spec(),
        width.div_req(T::from_spec(2u32)),
        height.div_req(T::from_spec(2u32)),
    ensures
        T::obeys_div_spec() ==> r.0 == width.div_spec(T::from_spec(2u32)),
        T::obeys_div_spec() ==> r.1 == height.div_spec(T::from_spec(2u32)),
{
    let half: T = T::from(2u32);
    let x = width / half;
    let y = height / half;
    (x, y)
}

} // verus!
