use vstd::prelude::*;

pub mod font;
pub mod text;
pub mod raster;
pub mod menu;
pub mod player;
pub mod props;
pub mod search;
pub mod mesh_index;
pub mod physics;
pub mod launch;
pub mod controls;
pub mod noise;

verus! {

/// Rounds `value` up to the next multiple of `alignment`.
pub fn align_up(value: u64, alignment: u64) -> (r: u64)
    requires
        alignment > 0,
        (value + alignment - 1) / (alignment as int) * alignment <= u64::MAX,
    ensures
        r == (value + alignment - 1) / (alignment as int) * alignment,
{
    let q = if value % alignment == 0 {
        value / alignment
    } else {
        assert(value / alignment < u64::MAX) by (nonlinear_arith)
            requires alignment > 1;
        value / alignment + 1
    };
    proof {
        let a = alignment as int;
        let v = value as int;
        assert(q == (v + a - 1) / a) by (nonlinear_arith)
            requires a > 0, v >= 0, q == v / a + if v % a == 0 { 0int } else { 1int };
    }
    q * alignment
}

} // verus!
