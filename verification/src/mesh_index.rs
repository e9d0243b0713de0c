//! The integer side of the viewer's procedural meshes: triangle index lists. (Vertex positions
//! and normals are floating point and are built by the caller.)
use vstd::prelude::*;

verus! {

/// `s` with the last two corners of every whole triangle swapped (a trailing partial triangle,
/// if any, is left as it is).
pub open spec fn flipped(s: Seq<u32>) -> Seq<u32> {
    Seq::new(
        s.len(),
        |i: int|
            if i >= s.len() - s.len() % 3 {
                s[i]
            } else if i % 3 == 1 {
                s[i + 1]
            } else if i % 3 == 2 {
                s[i - 1]
            } else {
                s[i]
            },
    )
}

/// Reverses the winding of every triangle in an index list by swapping its last two corners —
/// how the held weapons cancel the mirror of the viewmodel basis so back-face culling keeps their
/// outsides.
pub fn flip_winding_for_viewmodel(indices: &mut Vec<u32>)
    ensures
        final(indices)@ == flipped(old(indices)@),
{
    let ghost s = indices@;
    let n = indices.len();
    let whole = n - n % 3;
    let mut t: usize = 0;
    while whole - t >= 3
        invariant
            indices@.len() == n,
            n == s.len(),
            whole == n - n % 3,
            t % 3 == 0,
            t <= whole,
            forall|i: int| 0 <= i < t ==> #[trigger] indices@[i] == flipped(s)[i],
            forall|i: int| t <= i < n ==> #[trigger] indices@[i] == s[i],
        decreases whole - t,
    {
        let b = indices[t + 1];
        let c = indices[t + 2];
        indices.set(t + 1, c);
        indices.set(t + 2, b);
        proof {
            assert((t + 1) % 3 == 1);
            assert((t + 2) % 3 == 2);
        }
        t = t + 3;
    }
    proof {
        assert(t == whole);
        assert forall|i: int| 0 <= i < n implies #[trigger] indices@[i] == flipped(s)[i] by {
            if i >= t {
                assert(i >= s.len() - s.len() % 3);
            }
        };
    }
    assert(indices@ =~= flipped(s));
}

/// Flipping twice restores the winding the triangles started with.
pub proof fn lemma_flip_twice(s: Seq<u32>)
    ensures
        flipped(flipped(s)) == s,
{
    let f = flipped(s);
    assert forall|i: int| 0 <= i < s.len() implies #[trigger] flipped(f)[i] == s[i] by {
        if i < s.len() - s.len() % 3 {
            if i % 3 == 1 {
                assert((i + 1) % 3 == 2);
            } else if i % 3 == 2 {
                assert((i - 1) % 3 == 1);
            }
        }
    };
    assert(flipped(f) =~= s);
}

/// Entry `k` (0..6) of the two triangles that join segment `s` of ring `i` of a surface of
/// revolution to ring `i + 1`, where each ring holds `row` vertices.
pub open spec fn lathe_corner(row: int, i: int, s: int, k: int) -> int {
    let a = i * row + s;
    let b = i * row + s + 1;
    let c = (i + 1) * row + s;
    let d = (i + 1) * row + s + 1;
    if k == 0 { a } else if k == 1 { b } else if k == 2 { c } else if k == 3 { b } else if k == 4 { d } else { c }
}

/// The index list of a surface of revolution with `rings` rings of `segments + 1` vertices each:
/// two triangles per segment between consecutive rings, ring by ring, segment by segment.
pub open spec fn lathe_indices_spec(rings: int, segments: int) -> Seq<u32> {
    Seq::new(
        (6 * (rings - 1) * segments) as nat,
        |j: int|
            {
                let q = j / 6;
                lathe_corner(segments + 1, q / segments, q % segments, j % 6) as u32
            },
    )
}

/// The triangle indices of a surface of revolution whose profile has `rings` points, drawn with
/// `segments` segments around (each ring holds `segments + 1` vertices, the last repeating the
/// first's position).
pub fn lathe_indices(rings: u32, segments: u32) -> (r: Vec<u32>)
    requires
        rings >= 1,
        rings * (segments + 1) <= u32::MAX,
        6 * (rings - 1) * segments <= usize::MAX,
    ensures
        r@ == lathe_indices_spec(rings as int, segments as int),
        forall|j: int| 0 <= j < r@.len() ==> #[trigger] r@[j] < rings * (segments + 1),
{
    proof {
        assert(segments + 1 <= rings * (segments + 1)) by (nonlinear_arith)
            requires rings >= 1;
    }
    let row = segments + 1;
    let mut r: Vec<u32> = Vec::new();
    let mut i: u32 = 0;
    assert(6 * i * segments == 0) by (nonlinear_arith)
        requires i == 0;
    while i < rings - 1
        invariant
            row == segments + 1,
            rings >= 1,
            rings * row <= u32::MAX,
            0 <= i <= rings - 1,
            r@.len() == 6 * i * segments,
            forall|j: int| 0 <= j < r@.len() ==> #[trigger] r@[j] == lathe_indices_spec(rings as int, segments as int)[j],
            forall|j: int| 0 <= j < r@.len() ==> #[trigger] r@[j] < rings * row,
        decreases rings - 1 - i,
    {
        let mut s: u32 = 0;
        assert(6 * (i * segments + s) == 6 * i * segments) by (nonlinear_arith)
            requires s == 0;
        while s < segments
            invariant
                row == segments + 1,
                rings >= 1,
                rings * row <= u32::MAX,
                0 <= i < rings - 1,
                0 <= s <= segments,
                r@.len() == 6 * (i * segments + s),
                forall|j: int| 0 <= j < r@.len() ==> #[trigger] r@[j] == lathe_indices_spec(rings as int, segments as int)[j],
                forall|j: int| 0 <= j < r@.len() ==> #[trigger] r@[j] < rings * row,
            decreases segments - s,
        {
            proof {
                assert((i + 1) * row + s + 1 < rings * row) by (nonlinear_arith)
                    requires i + 1 < rings, s < segments, row == segments + 1;
                assert(i * row + s + 1 <= (i + 1) * row + s + 1) by (nonlinear_arith)
                    requires row >= 0;
            }
            let a = i * row + s;
            let b = i * row + s + 1;
            let c = (i + 1) * row + s;
            let d = (i + 1) * row + s + 1;
            let ghost start = r@.len();
            r.push(a);
            r.push(b);
            r.push(c);
            r.push(b);
            r.push(d);
            r.push(c);
            proof {
                let q = i * segments + s;
                assert(start == 6 * q) by (nonlinear_arith)
                    requires start == 6 * (i * segments + s), q == i * segments + s;
                vstd::arithmetic::div_mod::lemma_fundamental_div_mod_converse(q as int, segments as int, i as int, s as int);
                assert forall|k: int| 0 <= k < 6 implies #[trigger] r@[6 * q + k] == lathe_indices_spec(rings as int, segments as int)[6 * q + k] by {
                    vstd::arithmetic::div_mod::lemma_fundamental_div_mod_converse(6 * q + k, 6, q, k);
                    assert(6 * (rings - 1) * segments >= 6 * q + 6) by (nonlinear_arith)
                        requires i + 1 <= rings - 1, s < segments, q == i * segments + s;
                };
                assert forall|j: int| 0 <= j < r@.len() implies #[trigger] r@[j] == lathe_indices_spec(rings as int, segments as int)[j] by {
                    if j >= start {
                        assert(r@[j] == r@[6 * q + (j - 6 * q)]);
                    }
                };
                assert(r@.len() == 6 * (i * segments + s + 1));
            }
            s = s + 1;
        }
        proof {
            assert(6 * (i * segments + segments) == 6 * (i + 1) * segments) by (nonlinear_arith);
        }
        i = i + 1;
    }
    proof {
        assert(r@.len() == lathe_indices_spec(rings as int, segments as int).len());
    }
    assert(r@ =~= lathe_indices_spec(rings as int, segments as int));
    r
}

/// `src` with `base` added to every index.
pub open spec fn offset_by(src: Seq<u32>, base: int) -> Seq<u32> {
    src.map_values(|i: u32| (i + base) as u32)
}

/// Appends `src`'s indices to `dst`, each shifted by `base` (the number of vertices `dst`'s mesh
/// had before `src`'s were appended).
pub fn append_offset_indices(dst: &mut Vec<u32>, src: &Vec<u32>, base: u32)
    requires
        forall|j: int| 0 <= j < src@.len() ==> #[trigger] src@[j] + base <= u32::MAX,
    ensures
        final(dst)@ == old(dst)@ + offset_by(src@, base as int),
{
    let ghost d0 = dst@;
    let mut k: usize = 0;
    while k < src.len()
        invariant
            0 <= k <= src@.len(),
            forall|j: int| 0 <= j < src@.len() ==> #[trigger] src@[j] + base <= u32::MAX,
            dst@ == d0 + offset_by(src@.take(k as int), base as int),
        decreases src@.len() - k,
    {
        let v = src[k] + base;
        dst.push(v);
        k = k + 1;
        assert(dst@ =~= d0 + offset_by(src@.take(k as int), base as int));
    }
    assert(src@.take(src@.len() as int) =~= src@);
}

} // verus!
