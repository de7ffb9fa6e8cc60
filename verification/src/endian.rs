//! Derived endian operations: to/from big- and little-endian, built from
//! the byte swap plus the single host-order constant of the build
//! configuration, never from per-call branching on probed hardware.

use vstd::prelude::*;

verus! {

use crate::dispatch::spec_apply;
use crate::dispatch::Operation;
use crate::dispatch::PolyfillDispatcher;
use crate::lanes::lane_swapped;
use crate::vector::PackedVector;

/// A byte order: the host's native order is one of these, fixed at build
/// time and supplied by the build configuration.
#[derive(Clone, Copy, PartialEq, Eq, Structural, Debug)]
pub enum ByteOrder {
    Little,
    Big,
}

/// What converting to big-endian does: the identity on a big-endian host,
/// a per-lane byte swap on a little-endian host.
pub open spec fn spec_to_big(host: ByteOrder, w: int, b: Seq<u8>) -> Seq<u8> {
    if host == ByteOrder::Big {
        b
    } else {
        spec_apply(Operation::SwapBytes, w, b)
    }
}

/// What converting to little-endian does: the mirror of [`spec_to_big`].
pub open spec fn spec_to_little(host: ByteOrder, w: int, b: Seq<u8>) -> Seq<u8> {
    if host == ByteOrder::Little {
        b
    } else {
        spec_apply(Operation::SwapBytes, w, b)
    }
}

/// Reading a big-endian value back into host order swaps exactly when
/// writing one out does, so the conversions share one definition per
/// direction of the host constant.
pub open spec fn spec_from_big(host: ByteOrder, w: int, b: Seq<u8>) -> Seq<u8> {
    spec_to_big(host, w, b)
}

/// The little-endian mirror of [`spec_from_big`].
pub open spec fn spec_from_little(host: ByteOrder, w: int, b: Seq<u8>) -> Seq<u8> {
    spec_to_little(host, w, b)
}

/// Byte-order conversion for vector values: a per-lane byte swap, and the
/// four derived conversions that resolve against the configured host order.
pub trait Reendianize {
    /// The host byte order the implementation was configured with.
    spec fn byte_order(&self) -> ByteOrder;

    /// Returns a vector with the byte order of every lane reversed.
    fn swap_bytes(&self, v: &PackedVector) -> (r: PackedVector)
        requires
            v.wf(),
        ensures
            r.wf(),
            r.shape() == v.shape(),
            r.bytes() == spec_apply(Operation::SwapBytes, v.shape().lane_width as int, v.bytes()),
            forall|i: int|
                0 <= i < v.shape().lane_count ==> r.lane(i) == lane_swapped(
                    v.lane(i),
                    v.shape().lane_width as nat,
                ),
    ;

    /// Converts a host-order vector to big-endian lanes.
    fn to_be(&self, v: &PackedVector) -> (r: PackedVector)
        requires
            v.wf(),
        ensures
            r.wf(),
            r.shape() == v.shape(),
            r.bytes() == spec_to_big(self.byte_order(), v.shape().lane_width as int, v.bytes()),
    ;

    /// Converts a host-order vector to little-endian lanes.
    fn to_le(&self, v: &PackedVector) -> (r: PackedVector)
        requires
            v.wf(),
        ensures
            r.wf(),
            r.shape() == v.shape(),
            r.bytes() == spec_to_little(self.byte_order(), v.shape().lane_width as int, v.bytes()),
    ;

    /// Converts a vector of big-endian lanes back to host order.
    fn from_be(&self, v: &PackedVector) -> (r: PackedVector)
        requires
            v.wf(),
        ensures
            r.wf(),
            r.shape() == v.shape(),
            r.bytes() == spec_from_big(self.byte_order(), v.shape().lane_width as int, v.bytes()),
    ;

    /// Converts a vector of little-endian lanes back to host order.
    fn from_le(&self, v: &PackedVector) -> (r: PackedVector)
        requires
            v.wf(),
        ensures
            r.wf(),
            r.shape() == v.shape(),
            r.bytes() == spec_from_little(
                self.byte_order(),
                v.shape().lane_width as int,
                v.bytes(),
            ),
    ;
}

impl Reendianize for PolyfillDispatcher {
    open spec fn byte_order(&self) -> ByteOrder {
        self.host()
    }

    fn swap_bytes(&self, v: &PackedVector) -> (r: PackedVector) {
        self.apply(Operation::SwapBytes, v)
    }

    fn to_be(&self, v: &PackedVector) -> (r: PackedVector) {
        if matches!(self.get_host(), ByteOrder::Big) {
            v.duplicate()
        } else {
            self.apply(Operation::SwapBytes, v)
        }
    }

    fn to_le(&self, v: &PackedVector) -> (r: PackedVector) {
        if matches!(self.get_host(), ByteOrder::Little) {
            v.duplicate()
        } else {
            self.apply(Operation::SwapBytes, v)
        }
    }

    fn from_be(&self, v: &PackedVector) -> (r: PackedVector) {
        if matches!(self.get_host(), ByteOrder::Big) {
            v.duplicate()
        } else {
            self.apply(Operation::SwapBytes, v)
        }
    }

    fn from_le(&self, v: &PackedVector) -> (r: PackedVector) {
        if matches!(self.get_host(), ByteOrder::Little) {
            v.duplicate()
        } else {
            self.apply(Operation::SwapBytes, v)
        }
    }
}

/// **Round trip.** Reading back what was written out restores every
/// vector: `from_big` after `to_big` is the identity, and so is
/// `from_little` after `to_little`, on either kind of host.
pub proof fn lemma_endian_round_trip(host: ByteOrder, w: int, b: Seq<u8>)
    requires
        1 <= w,
        b.len() % (w as nat) == 0,
    ensures
        spec_from_big(host, w, spec_to_big(host, w, b)) == b,
        spec_from_little(host, w, spec_to_little(host, w, b)) == b,
{
    crate::dispatch::lemma_swap_involution(w, b);
}

/// Composing `to_big` after `to_little` is the per-lane byte swap itself,
/// on either kind of host: one of the two conversions swaps and the other
/// is the identity. It is therefore the identity exactly where the swap
/// is, notably on every single-byte-lane shape.
pub proof fn lemma_to_big_of_to_little(host: ByteOrder, w: int, b: Seq<u8>)
    requires
        1 <= w,
        b.len() % (w as nat) == 0,
    ensures
        spec_to_big(host, w, spec_to_little(host, w, b)) == spec_apply(
            Operation::SwapBytes,
            w,
            b,
        ),
        w == 1 ==> spec_to_big(host, w, spec_to_little(host, w, b)) == b,
{
    if w == 1 {
        crate::dispatch::lemma_swap_identity_single_byte(b);
    }
}

} // verus!
