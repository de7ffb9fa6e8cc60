//! Packed vector values: a shape together with the vector's bytes, with
//! lane extraction and lane-wise construction.

use vstd::prelude::*;

verus! {

use vstd::arithmetic::div_mod::lemma_fundamental_div_mod_converse;
use vstd::arithmetic::div_mod::lemma_small_mod;
use vstd::arithmetic::mul::lemma_mul_inequality;
use vstd::arithmetic::power2::lemma_pow2_adds;
use vstd::arithmetic::power2::lemma_pow2_pos;
use vstd::arithmetic::power2::lemma_pow2_strictly_increases;
use vstd::arithmetic::power2::lemma2_to64;
use vstd::arithmetic::power2::pow2;
use crate::lanes::byte_of;
use crate::lanes::le_val;
use crate::lanes::lemma_le_val_of_bytes;
use crate::shape::ScalarKind;
use crate::shape::VectorShape;

/// A vector value of some shape: `lane_count` lanes of `lane_width` bytes
/// each, stored least-significant lane first, each lane little-endian.
pub struct PackedVector {
    shape: VectorShape,
    bytes: Vec<u8>,
}

impl PackedVector {
    /// The shape this value was built with.
    pub closed spec fn shape(self) -> VectorShape {
        self.shape
    }

    /// The vector's bytes, least-significant lane first.
    pub closed spec fn bytes(self) -> Seq<u8> {
        self.bytes@
    }

    /// A well-formed vector has a well-formed shape and exactly the shape's
    /// total number of bytes.
    pub open spec fn wf(self) -> bool {
        &&& self.shape().wf()
        &&& self.bytes().len() == self.shape().total_bytes()
    }

    /// The bytes of lane `i`.
    pub open spec fn lane_bytes(self, i: int) -> Seq<u8> {
        self.bytes().subrange(
            i * self.shape().lane_width,
            (i + 1) * self.shape().lane_width,
        )
    }

    /// The value of lane `i`, read little-endian.
    pub open spec fn lane(self, i: int) -> nat {
        le_val(self.lane_bytes(i))
    }

    /// All lane values, least-significant lane first.
    pub open spec fn lanes(self) -> Seq<nat> {
        Seq::new(self.shape().lane_count as nat, |i: int| self.lane(i))
    }

    /// Wraps raw bytes of exactly the shape's width.
    pub fn from_bytes(shape: VectorShape, bytes: Vec<u8>) -> (r: Option<PackedVector>)
        ensures
            r matches Some(v) ==> v.wf() && v.shape() == shape && v.bytes() == bytes@,
            r is None ==> !shape.wf() || bytes@.len() != shape.total_bytes(),
    {
        if let Some(s) = VectorShape::new(shape.lane_count, shape.lane_width, shape.kind) {
            if bytes.len() == s.width_bytes() {
                return Some(PackedVector { shape, bytes });
            }
        }
        None
    }

    /// Extracts the value of lane `i`.
    pub fn extract(&self, i: usize) -> (r: u64)
        requires
            self.wf(),
            i < self.shape().lane_count,
        ensures
            r == self.lane(i as int),
            r < pow2(8 * self.shape().lane_width as nat),
    {
        let w: usize = self.shape.lane_width;
        let n: usize = self.shape.lane_count;
        proof {
            lemma_mul_inequality(i as int + 1, n as int, w as int);
            assert((i as int) * (w as int) + (w as int) == (i as int + 1) * (w as int))
                by (nonlinear_arith);
            assert((i as int) * (w as int) >= 0) by (nonlinear_arith);
            assert(pow2(0) == 1) by {
                lemma2_to64();
            }
            assert(self.lane_bytes(i as int).len() == w);
            assert(le_val(self.lane_bytes(i as int).skip(w as int)) == 0);
        }
        let start: usize = i * w;
        let mut r: u64 = 0;
        let mut o: usize = w;
        while o > 0
            invariant
                self.wf(),
                i < self.shape().lane_count,
                w == self.shape().lane_width,
                n == self.shape().lane_count,
                start == i * w,
                (i + 1) * w <= n * w,
                o <= w <= 8,
                r == le_val(self.lane_bytes(i as int).skip(o as int)),
                r < pow2(8 * (w - o) as nat),
            decreases o,
        {
            o = o - 1;
            proof {
                assert((i as int) * (w as int) + (w as int) == (i as int + 1) * (w as int))
                    by (nonlinear_arith);
                assert((i as int) * (w as int) >= 0) by (nonlinear_arith);
            }
            let b: u8 = self.bytes[start + o];
            proof {
                let lb = self.lane_bytes(i as int);
                assert(lb.skip(o as int)[0] == self.bytes()[start + o]);
                assert(lb.skip(o as int).skip(1) =~= lb.skip(o as int + 1));
                assert(le_val(lb.skip(o as int)) == b as nat + 256 * le_val(
                    lb.skip(o as int + 1),
                ));
                lemma_pow2_adds(8, 8 * (w - o - 1) as nat);
                assert(pow2(8) == 256) by {
                    lemma2_to64();
                }
                if 8 * (w - o) < 64 {
                    lemma_pow2_strictly_increases(8 * (w - o) as nat, 64);
                }
                assert(pow2(64) == 0x10000000000000000) by {
                    lemma2_to64();
                }
            }
            r = r * 256 + b as u64;
        }
        proof {
            assert(self.lane_bytes(i as int).skip(0) =~= self.lane_bytes(i as int));
        }
        r
    }

    /// Builds a vector from its lane values, least-significant lane first.
    pub fn construct(shape: VectorShape, lanes: &Vec<u64>) -> (r: PackedVector)
        requires
            shape.wf(),
            lanes@.len() == shape.lane_count,
            forall|i: int|
                0 <= i < lanes@.len() ==> lanes@[i] < pow2(8 * shape.lane_width as nat),
        ensures
            r.wf(),
            r.shape() == shape,
            forall|j: int|
                0 <= j < shape.total_bytes() ==> r.bytes()[j] == (byte_of(
                    lanes@[j / (shape.lane_width as int)] as nat,
                    (j % (shape.lane_width as int)) as nat,
                ) as u8),
            forall|i: int| 0 <= i < shape.lane_count ==> r.lane(i) == lanes@[i] as nat,
    {
        let n: usize = shape.lane_count;
        let w: usize = shape.lane_width;
        let mut bytes: Vec<u8> = Vec::new();
        let mut i: usize = 0;
        proof {
            assert(n * w <= 64);
        }
        while i < n
            invariant
                shape.wf(),
                n == shape.lane_count,
                w == shape.lane_width,
                n * w <= 64,
                lanes@.len() == n,
                i <= n,
                bytes@.len() == i * w,
                forall|j: int|
                    0 <= j < i * w ==> bytes@[j] == (byte_of(
                        lanes@[j / (w as int)] as nat,
                        (j % (w as int)) as nat,
                    ) as u8),
            decreases n - i,
        {
            proof {
                lemma_mul_inequality(i as int + 1, n as int, w as int);
                assert((i as int) * (w as int) + (w as int) == (i as int + 1) * (w as int))
                    by (nonlinear_arith);
                assert((i as int) * (w as int) >= 0) by (nonlinear_arith);
                assert(pow2(0) == 1) by {
                    lemma2_to64();
                }
                assert(lanes@[i as int] as nat / pow2(8 * 0) == lanes@[i as int] as nat / 1);
            }
            let mut x: u64 = lanes[i];
            let mut o: usize = 0;
            while o < w
                invariant
                    shape.wf(),
                    n == shape.lane_count,
                    w == shape.lane_width,
                    n * w <= 64,
                    lanes@.len() == n,
                    i < n,
                    (i + 1) * w <= n * w,
                    o <= w,
                    bytes@.len() == i * w + o,
                    x == lanes@[i as int] as nat / pow2(8 * o as nat),
                    forall|j: int|
                        0 <= j < i * w + o ==> bytes@[j] == (byte_of(
                            lanes@[j / (w as int)] as nat,
                            (j % (w as int)) as nat,
                        ) as u8),
                decreases w - o,
            {
                let b: u8 = (x % 256) as u8;
                proof {
                    let j = i * w + o;
                    lemma_fundamental_div_mod_converse(j as int, w as int, i as int, o as int);
                    assert(b as nat == byte_of(lanes@[i as int] as nat, o as nat));
                    lemma_pow2_pos(8 * o as nat);
                    vstd::arithmetic::div_mod::lemma_div_denominator(
                        lanes@[i as int] as int,
                        pow2(8 * o as nat) as int,
                        256,
                    );
                    lemma_pow2_adds(8 * o as nat, 8);
                    assert(pow2(8) == 256) by {
                        lemma2_to64();
                    }
                }
                bytes.push(b);
                x = x / 256;
                o = o + 1;
            }
            proof {
                assert((i as int) * (w as int) + (w as int) == (i as int + 1) * (w as int))
                    by (nonlinear_arith);
            }
            i = i + 1;
        }
        let r = PackedVector { shape, bytes };
        proof {
            assert forall|i2: int| 0 <= i2 < n implies r.lane(i2) == lanes@[i2] as nat by {
                let lb = r.lane_bytes(i2);
                let v = lanes@[i2] as nat;
                lemma_mul_inequality(i2 + 1, n as int, w as int);
                assert(i2 * (w as int) + (w as int) == (i2 + 1) * (w as int))
                    by (nonlinear_arith);
                assert(i2 * (w as int) >= 0) by (nonlinear_arith)
                    requires
                        i2 >= 0,
                        w >= 0,
                ;
                assert forall|o2: int| 0 <= o2 < w implies lb[o2] == (byte_of(
                    v,
                    o2 as nat,
                ) as u8) by {
                    lemma_fundamental_div_mod_converse(
                        i2 * w + o2,
                        w as int,
                        i2,
                        o2,
                    );
                    assert(lb[o2] == r.bytes()[i2 * w + o2]);
                }
                assert(lb =~= Seq::new(w as nat, |o2: int| byte_of(v, o2 as nat) as u8));
                lemma_le_val_of_bytes(v, w as nat);
                lemma_small_mod(v, pow2(8 * w as nat));
            }
        }
        r
    }

    /// Builds a vector with every lane equal to `v`.
    pub fn splat(shape: VectorShape, v: u64) -> (r: PackedVector)
        requires
            shape.wf(),
            v < pow2(8 * shape.lane_width as nat),
        ensures
            r.wf(),
            r.shape() == shape,
            forall|i: int| 0 <= i < shape.lane_count ==> r.lane(i) == v as nat,
    {
        let n: usize = shape.lane_count;
        let mut lanes: Vec<u64> = Vec::new();
        let mut i: usize = 0;
        while i < n
            invariant
                i <= n,
                lanes@.len() == i,
                forall|j: int| 0 <= j < i ==> lanes@[j] == v,
            decreases n - i,
        {
            lanes.push(v);
            i = i + 1;
        }
        PackedVector::construct(shape, &lanes)
    }

    /// Reinterprets the vector's bits under another scalar kind of the
    /// same layout: every byte, and so every lane's bit pattern, is kept;
    /// only the shape's kind changes. Rejected where the kind does not fit
    /// the lane width (a float lane must be 4 or 8 bytes wide).
    pub fn reinterpret(&self, kind: ScalarKind) -> (r: Option<PackedVector>)
        requires
            self.wf(),
        ensures
            r matches Some(v) ==> v.wf() && v.bytes() == self.bytes() && v.shape() == (VectorShape {
                lane_count: self.shape().lane_count,
                lane_width: self.shape().lane_width,
                kind,
            }),
            r is None ==> !(VectorShape {
                lane_count: self.shape().lane_count,
                lane_width: self.shape().lane_width,
                kind,
            }).wf(),
    {
        match VectorShape::new(self.shape.lane_count, self.shape.lane_width, kind) {
            Some(s2) => Some(from_raw(s2, self.to_bytes())),
            None => None,
        }
    }

    /// A value-identical copy: vectors have value semantics, and the
    /// identity cases of the derived endian conversions return one.
    pub fn duplicate(&self) -> (r: PackedVector)
        requires
            self.wf(),
        ensures
            r.wf(),
            r.shape() == self.shape(),
            r.bytes() == self.bytes(),
    {
        let b = self.to_bytes();
        from_raw(self.get_shape(), b)
    }

    /// The shape this value was built with.
    pub fn get_shape(&self) -> (s: VectorShape)
        ensures
            s == self.shape(),
    {
        self.shape
    }

    /// The vector's bytes, least-significant lane first.
    pub fn to_bytes(&self) -> (r: Vec<u8>)
        ensures
            r@ == self.bytes(),
    {
        let mut out: Vec<u8> = Vec::new();
        let mut j: usize = 0;
        while j < self.bytes.len()
            invariant
                j <= self.bytes().len(),
                out@ == self.bytes().take(j as int),
            decreases self.bytes().len() - j,
        {
            out.push(self.bytes[j]);
            proof {
                assert(out@ =~= self.bytes().take(j as int + 1));
            }
            j = j + 1;
        }
        proof {
            assert(self.bytes().take(self.bytes().len() as int) =~= self.bytes());
        }
        out
    }
}

/// Wraps bytes already known to match the shape; for the crate's own
/// implementation paths.
pub(crate) fn from_raw(shape: VectorShape, bytes: Vec<u8>) -> (r: PackedVector)
    requires
        shape.wf(),
        bytes@.len() == shape.total_bytes(),
    ensures
        r.wf(),
        r.shape() == shape,
        r.bytes() == bytes@,
{
    PackedVector { shape, bytes }
}

/// Borrows the vector's byte store; for the crate's own implementation paths.
pub(crate) fn raw_bytes(v: &PackedVector) -> (r: &Vec<u8>)
    ensures
        r@ == v.bytes(),
{
    &v.bytes
}

} // verus!
