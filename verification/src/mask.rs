//! The permutation-mask builder: byte-reordering tables that reverse byte
//! order within each lane while leaving lane boundaries fixed, computed for
//! any lane count and lane width instead of being hand-enumerated per shape.

use vstd::prelude::*;

verus! {

use vstd::arithmetic::div_mod::lemma_fundamental_div_mod;
use vstd::arithmetic::div_mod::lemma_fundamental_div_mod_converse;
use vstd::arithmetic::div_mod::lemma_multiply_divide_lt;
use vstd::arithmetic::mul::lemma_mul_inequality;
use crate::shape::VectorShape;

/// The byte index that position `j` of a within-lane byte reversal reads
/// from: inside lane `j / w`, offset `j % w` takes the mirrored offset
/// `w - 1 - (j % w)`.
pub open spec fn swap_source(w: nat, j: nat) -> nat {
    if w == 0 {
        j
    } else {
        ((j / w) * w + (w - 1 - (j % w))) as nat
    }
}

/// The bytes of a vector after a within-lane byte reversal.
pub open spec fn spec_swap_bytes(w: nat, s: Seq<u8>) -> Seq<u8> {
    Seq::new(s.len(), |j: int| s[swap_source(w, j as nat) as int])
}

/// The mask entry for offset `o` of lane `i` is the mirrored offset of the
/// same lane. This is the block form of `swap_source`.
pub proof fn lemma_swap_source_block(w: nat, i: nat, o: nat)
    requires
        1 <= w,
        o < w,
    ensures
        swap_source(w, i * w + o) == i * w + (w - 1 - o),
{
    let j = i * w + o;
    lemma_fundamental_div_mod_converse(j as int, w as int, i as int, o as int);
}

/// A mask entry stays inside the vector, and inside its own lane's block.
pub proof fn lemma_swap_source_in_range(w: nat, n: nat, j: nat)
    requires
        1 <= w,
        j < n * w,
    ensures
        swap_source(w, j) < n * w,
        (j / w) * w <= swap_source(w, j) < (j / w) * w + w,
        swap_source(w, j) / w == j / w,
{
    assert(n * w == w * n) by (nonlinear_arith);
    lemma_multiply_divide_lt(j as int, w as int, n as int);
    lemma_mul_inequality(j as int / w as int + 1, n as int, w as int);
    assert((j / w) * w + w == (j as int / w as int + 1) * w) by (nonlinear_arith);
    assert((j / w) * w >= 0) by (nonlinear_arith);
    lemma_fundamental_div_mod(j as int, w as int);
    lemma_fundamental_div_mod_converse(
        swap_source(w, j) as int,
        w as int,
        j as int / w as int,
        (w - 1 - (j % w)) as int,
    );
}

/// Reversing the bytes of each lane twice restores every byte: the mask is
/// its own inverse.
pub proof fn lemma_swap_source_involution(w: nat, j: nat)
    requires
        1 <= w,
    ensures
        swap_source(w, swap_source(w, j)) == j,
{
    let i = j / w;
    let o = j % w;
    lemma_fundamental_div_mod(j as int, w as int);
    assert((i * w) as int == (w as int) * (i as int)) by (nonlinear_arith);
    let s = swap_source(w, j);
    lemma_fundamental_div_mod_converse(s as int, w as int, i as int, (w - 1 - o) as int);
    assert(swap_source(w, s) == i * w + (w - 1 - (w - 1 - o)));
}

/// For single-byte lanes the mask is the identity: there is no byte order
/// inside a lane to reverse.
pub proof fn lemma_swap_source_identity(j: nat)
    ensures
        swap_source(1, j) == j,
{
    lemma_fundamental_div_mod(j as int, 1);
}

/// Builds the byte-reordering table that reverses byte order within each
/// lane of the given shape.
pub fn build_swap_mask(shape: &VectorShape) -> (r: Vec<usize>)
    requires
        shape.wf(),
    ensures
        r@.len() == shape.total_bytes(),
        forall|j: int|
            0 <= j < r@.len() ==> r@[j] == swap_source(shape.lane_width as nat, j as nat),
        forall|j: int| 0 <= j < r@.len() ==> r@[j] < r@.len(),
    {
        let n: usize = shape.lane_count;
        let w: usize = shape.lane_width;
        let mut r: Vec<usize> = Vec::new();
        let mut i: usize = 0;
        proof {
            assert(n * w <= 64);
        }
        while i < n
            invariant
                shape.wf(),
                n == shape.lane_count,
                w == shape.lane_width,
                n * w <= 64,
                i <= n,
                r@.len() == i * w,
                forall|j: int|
                    0 <= j < i * w ==> r@[j] == swap_source(w as nat, j as nat),
                forall|j: int| 0 <= j < i * w ==> r@[j] < n * w,
            decreases n - i,
        {
            proof {
                lemma_mul_inequality(i as int + 1, n as int, w as int);
                assert((i as int) * (w as int) + (w as int) == (i as int + 1) * (w as int))
                    by (nonlinear_arith);
                assert((i as int) * (w as int) >= 0) by (nonlinear_arith);
            }
            let mut o: usize = 0;
            while o < w
                invariant
                    shape.wf(),
                    n == shape.lane_count,
                    w == shape.lane_width,
                    n * w <= 64,
                    i < n,
                    (i + 1) * w <= n * w,
                    i * w + w == (i + 1) * w,
                    i * w >= 0,
                    o <= w,
                    r@.len() == i * w + o,
                    forall|j: int|
                        0 <= j < i * w + o ==> r@[j] == swap_source(w as nat, j as nat),
                    forall|j: int| 0 <= j < i * w + o ==> r@[j] < n * w,
                decreases w - o,
            {
                let entry: usize = i * w + (w - 1 - o);
                proof {
                    lemma_swap_source_block(w as nat, i as nat, o as nat);
                }
                r.push(entry);
                o = o + 1;
            }
            i = i + 1;
        }
        r
    }

/// Applies a byte-reordering table: byte `j` of the result is byte
/// `mask[j]` of the input. This is the pure gather that a hardware shuffle
/// or permute instruction performs with the mask in a register.
pub fn apply_mask(bytes: &Vec<u8>, mask: &Vec<usize>) -> (r: Vec<u8>)
    requires
        forall|j: int| 0 <= j < mask@.len() ==> mask@[j] < bytes@.len(),
    ensures
        r@.len() == mask@.len(),
        forall|j: int| 0 <= j < mask@.len() ==> r@[j] == bytes@[mask@[j] as int],
{
    let mut r: Vec<u8> = Vec::new();
    let mut j: usize = 0;
    while j < mask.len()
        invariant
            forall|k: int| 0 <= k < mask@.len() ==> mask@[k] < bytes@.len(),
            j <= mask@.len(),
            r@.len() == j,
            forall|k: int| 0 <= k < j ==> r@[k] == bytes@[mask@[k] as int],
        decreases mask@.len() - j,
    {
        r.push(bytes[mask[j]]);
        j = j + 1;
    }
    r
}

} // verus!
