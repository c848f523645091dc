//! Goal metadata and the dimension checks of goal kernels.

use vstd::prelude::*;
use crate::types::{GoalId, StokError, is_mismatch};
use crate::hierarchy::product_space::ProductSpaceDims;

verus! {

/// What a goal kernel records about one goal.
#[derive(Clone, Debug)]
pub struct GoalInfo {
    /// The goal's identifier.
    pub id: GoalId,
    /// A readable name.
    pub name: String,
    /// The state the goal aims at, if it is a single state.
    pub target_state: Option<usize>,
    /// Time horizon of the goal's STOK.
    pub max_time: usize,
}

/// `[base, hl₁, hl₂, …]`: the sizes of a product space in one list.
pub open spec fn dims_list(d: ProductSpaceDims) -> Seq<usize> {
    seq![d.base_size] + d.hl_sizes@
}

/// The sizes of a product space in one list, base size first.
pub fn dims_to_vec(d: &ProductSpaceDims) -> (v: Vec<usize>)
    ensures
        v@ == dims_list(*d),
{
    let mut v: Vec<usize> = Vec::new();
    v.push(d.base_size);
    let mut i: usize = 0;
    while i < d.hl_sizes.len()
        invariant
            i <= d.hl_sizes@.len(),
            v@ =~= seq![d.base_size] + d.hl_sizes@.take(i as int),
        decreases d.hl_sizes.len() - i,
    {
        v.push(d.hl_sizes[i]);
        i = i + 1;
    }
    proof {
        assert(d.hl_sizes@.take(d.hl_sizes@.len() as int) =~= d.hl_sizes@);
    }
    v
}

/// `Ok` when an option's product space has the kernel's base size and
/// high-level sizes, else a mismatch listing both, base size first.
pub fn check_same_product_dims(expected: &ProductSpaceDims, got: &ProductSpaceDims) -> (r: Result<
    (),
    StokError,
>)
    ensures
        r is Ok <==> (expected.base_size == got.base_size && expected.hl_sizes@ == got.hl_sizes@),
        r matches Err(e) ==> is_mismatch(e, dims_list(*expected), dims_list(*got)),
{
    let mut same = expected.base_size == got.base_size && expected.hl_sizes.len() == got.hl_sizes.len();
    let mut i: usize = 0;
    while same && i < expected.hl_sizes.len()
        invariant
            same ==> expected.hl_sizes@.len() == got.hl_sizes@.len() && expected.base_size == got.base_size,
            !same ==> !(expected.base_size == got.base_size && expected.hl_sizes@ == got.hl_sizes@),
            i <= expected.hl_sizes@.len(),
            same ==> forall|j: int| 0 <= j < i ==> #[trigger] expected.hl_sizes@[j] == got.hl_sizes@[j],
        decreases expected.hl_sizes.len() - i,
    {
        if expected.hl_sizes[i] != got.hl_sizes[i] {
            same = false;
        }
        i = i + 1;
    }
    if same {
        proof {
            assert(expected.hl_sizes@ =~= got.hl_sizes@);
        }
        Ok(())
    } else {
        Err(StokError::DimensionMismatch { expected: dims_to_vec(expected), got: dims_to_vec(got) })
    }
}

} // verus!
