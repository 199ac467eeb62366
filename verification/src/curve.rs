//! Curve points: what verifying keys need of the curve they are commitments on, and the
//! Vesta curve.

use core::fmt;
use core::fmt::{Debug, Formatter};

use group::GroupEncoding as _;

use vstd::prelude::*;

use crate::codec;
use crate::codec::{ReadError, Reader};
use crate::debug;
use crate::field;
use crate::field::{Fp, FromUniformBytes};
use crate::text;

verus! {

/// A point of an elliptic curve, known by its compressed encoding.
pub trait CurveAffine: Copy + Debug {
    /// The scalar field of the curve.
    type Scalar: FromUniformBytes;

    /// States that this is a point of the curve.
    spec fn wf(self) -> bool;

    /// The compressed encoding of this point.
    spec fn encoding(self) -> Seq<u8>;

    /// The number of bytes of a compressed encoding.
    spec fn encoding_len() -> nat;

    /// How this point is printed for debugging.
    spec fn debug_text(self) -> Seq<char>;

    /// The modulus of the base field of the curve as a hexadecimal literal.
    spec fn base_modulus_text() -> Seq<char>;

    /// Encodings have one length, and no two points share an encoding.
    proof fn lemma_encoding(a: Self, b: Self)
        requires
            a.wf(),
            b.wf(),
        ensures
            a.encoding().len() == Self::encoding_len(),
            a.encoding() == b.encoding() ==> a == b,
    ;

    /// The number of bytes of a compressed encoding.
    fn encoding_size() -> (n: usize)
        ensures
            n == Self::encoding_len(),
    ;

    /// Returns the compressed encoding of this point.
    fn to_bytes(&self) -> (bytes: Vec<u8>)
        ensures
            bytes@ == self.encoding(),
    ;

    /// Returns the point with the given compressed encoding, if there is one.
    fn from_bytes(bytes: &[u8]) -> (r: Option<Self>)
        requires
            bytes@.len() == Self::encoding_len(),
        ensures
            match r {
                Some(p) => p.wf() && p.encoding() == bytes@,
                None => forall|p: Self| p.wf() ==> #[trigger] p.encoding() != bytes@,
            },
    ;

    /// Returns what this point looks like when it is printed for debugging.
    fn debug(&self) -> (text: String)
        ensures
            text@ == self.debug_text(),
    ;

    /// Returns the modulus of the base field of the curve as a hexadecimal literal.
    fn base_modulus() -> (text: &'static str)
        ensures
            text@ == Self::base_modulus_text(),
    ;
}

/// States that `bytes` is the compressed encoding of a point.
pub open spec fn is_encoding<C: CurveAffine>(bytes: Seq<u8>) -> bool {
    exists|p: C| p.wf() && #[trigger] p.encoding() == bytes
}

/// The point whose compressed encoding is `bytes`.
pub open spec fn of_encoding<C: CurveAffine>(bytes: Seq<u8>) -> C {
    choose|p: C| p.wf() && #[trigger] p.encoding() == bytes
}

/// A point is the one that its encoding stands for.
pub proof fn lemma_of_encoding<C: CurveAffine>(p: C)
    requires
        p.wf(),
    ensures
        is_encoding::<C>(p.encoding()),
        of_encoding::<C>(p.encoding()) == p,
        p.encoding().len() == C::encoding_len(),
{
    C::lemma_encoding(of_encoding::<C>(p.encoding()), p);
    C::lemma_encoding(p, p);
}

/// Reads a compressed point.
pub open spec fn parse_point<C: CurveAffine>(s: Seq<u8>) -> codec::Parsed<C> {
    match codec::parse_bytes(C::encoding_len(), s) {
        Ok((bytes, rest)) => if is_encoding::<C>(bytes) {
            Ok((of_encoding::<C>(bytes), rest))
        } else {
            Err(ReadError::InvalidPoint)
        },
        Err(e) => Err(e),
    }
}

/// Reads a compressed point.
pub fn read_point<C: CurveAffine>(reader: &mut Reader<'_>) -> (r: Result<C, ReadError>)
    ensures
        codec::reads(r, parse_point::<C>(old(reader)@), old(reader)@, final(reader)@),
{
    match reader.read_exact(C::encoding_size()) {
        Ok(compressed) => match C::from_bytes(compressed) {
            Some(p) => {
                proof {
                    lemma_of_encoding(p);
                }
                Ok(p)
            },
            None => Err(ReadError::InvalidPoint),
        },
        Err(e) => Err(e),
    }
}

/// A point is read back from its compressed encoding, whatever stands behind it.
pub proof fn lemma_point_round_trip<C: CurveAffine>(p: C, tail: Seq<u8>)
    requires
        p.wf(),
    ensures
        parse_point::<C>(p.encoding() + tail) == Ok::<(C, Seq<u8>), ReadError>((p, tail)),
{
    lemma_of_encoding(p);
    assert((p.encoding() + tail).take(p.encoding().len() as int) =~= p.encoding());
    assert((p.encoding() + tail).skip(p.encoding().len() as int) =~= tail);
}

// ---------------------------------------------------------------------------------
// Vesta
// ---------------------------------------------------------------------------------

/// The modulus of the base field of the Vesta curve.
pub open spec fn vesta_base_modulus() -> nat {
    0x40000000000000000000000000000000224698fc0994a8dd8c46eb2100000001nat
}

/// The x-coordinate of a compressed point: all bits but the highest, lowest byte first.
pub open spec fn vesta_x(bytes: Seq<u8>) -> nat {
    field::le_value(bytes.update(31, (bytes[31] % 128) as u8))
}

/// States that a point with the coordinates `x` and `y` is on the curve `y^2 = x^3 + 5`.
pub open spec fn on_vesta(x: nat, y: nat) -> bool {
    &&& x < vesta_base_modulus()
    &&& y < vesta_base_modulus()
    &&& (y * y) % vesta_base_modulus() == (x * x * x + 5) % vesta_base_modulus()
}

/// States that 32 bytes are zero, which encodes the point at infinity.
pub open spec fn all_zero(bytes: Seq<u8>) -> bool {
    forall|i: int| 0 <= i < bytes.len() ==> #[trigger] bytes[i] == 0
}

/// States that 32 bytes are the compressed encoding of a point of the Vesta curve: they are
/// zero, or their x-coordinate is that of a point.
pub open spec fn is_vesta_encoding(bytes: Seq<u8>) -> bool {
    all_zero(bytes) || exists|y: nat| on_vesta(vesta_x(bytes), y)
}

/// The y-coordinate of a compressed point: the one whose parity is the highest bit.
pub open spec fn vesta_y(bytes: Seq<u8>) -> nat {
    choose|y: nat| on_vesta(vesta_x(bytes), y) && y % 2 == (bytes[31] / 128) as nat
}

/// How a compressed point of the Vesta curve is printed: its coordinates, or `Infinity`.
pub open spec fn vesta_debug_text(bytes: Seq<u8>) -> Seq<char> {
    if all_zero(bytes) {
        "Infinity"@
    } else {
        "(0x"@ + text::hex_number(vesta_x(bytes), 64) + ", 0x"@ + text::hex_number(
            vesta_y(bytes),
            64,
        ) + ")"@
    }
}

/// A point of the Vesta curve, held as its compressed encoding.
#[derive(Clone, Copy, PartialEq, Eq, Hash)]
pub struct EqAffine {
    bytes: [u8; 32],
}

/// Calls `from_bytes` of `pasta_curves::EqAffine` and encodes the point again with
/// `to_bytes`: 32 bytes stand for a point exactly if they are zero or their x-coordinate is
/// that of a point of the curve, and the point is encoded by the same bytes.
#[verifier::external_body]
fn pasta_eq_from_bytes(bytes: [u8; 32]) -> (r: Option<[u8; 32]>)
    ensures
        r is Some <==> is_vesta_encoding(bytes@),
        r is Some ==> r->Some_0@ == bytes@,
{
    match Option::<pasta_curves::EqAffine>::from(pasta_curves::EqAffine::from_bytes(&bytes)) {
        Some(p) => Some(p.to_bytes()),
        None => None,
    }
}

/// Prints the `pasta_curves::EqAffine` with the given encoding with its `Debug` impl: its
/// two coordinates, each as `0x` and 64 hexadecimal digits, or `Infinity`.
#[verifier::external_body]
fn pasta_eq_debug(bytes: [u8; 32]) -> (text: String)
    requires
        is_vesta_encoding(bytes@),
    ensures
        text@ == vesta_debug_text(bytes@),
{
    format!("{:?}", pasta_curves::EqAffine::from_bytes(&bytes).unwrap())
}

/// Reads `MODULUS` of `pasta_curves::Fq`, the modulus of the base field of the Vesta curve
/// as a hexadecimal literal.
#[verifier::external_body]
fn pasta_fq_modulus() -> (text: &'static str)
    ensures
        text@ == "0x40000000000000000000000000000000224698fc0994a8dd8c46eb2100000001"@,
{
    <pasta_curves::Fq as ff::PrimeField>::MODULUS
}

impl Debug for EqAffine {
    fn fmt(&self, f: &mut Formatter<'_>) -> (r: fmt::Result) {
        debug::write_text(f, self.debug().as_str())
    }
}

impl EqAffine {
    #[verifier::type_invariant]
    spec fn on_curve(self) -> bool {
        is_vesta_encoding(self.bytes@)
    }
}

impl CurveAffine for EqAffine {
    type Scalar = Fp;

    closed spec fn wf(self) -> bool {
        is_vesta_encoding(self.bytes@)
    }

    closed spec fn encoding(self) -> Seq<u8> {
        self.bytes@
    }

    open spec fn encoding_len() -> nat {
        32
    }

    open spec fn debug_text(self) -> Seq<char> {
        vesta_debug_text(self.encoding())
    }

    open spec fn base_modulus_text() -> Seq<char> {
        "0x40000000000000000000000000000000224698fc0994a8dd8c46eb2100000001"@
    }

    proof fn lemma_encoding(a: Self, b: Self) {
        if a.bytes@ == b.bytes@ {
            assert(a.bytes =~= b.bytes);
        }
    }

    fn encoding_size() -> (n: usize) {
        32
    }

    fn to_bytes(&self) -> (bytes: Vec<u8>) {
        field::vec_of_32(&self.bytes)
    }

    fn from_bytes(bytes: &[u8]) -> (r: Option<Self>)
        ensures
            r is Some <==> is_vesta_encoding(bytes@),
    {
        match pasta_eq_from_bytes(field::array_32(bytes)) {
            Some(bytes) => {
                let p = EqAffine { bytes };
                Some(p)
            },
            None => None,
        }
    }

    fn debug(&self) -> (text: String) {
        proof {
            use_type_invariant(self);
        }
        pasta_eq_debug(self.bytes)
    }

    fn base_modulus() -> (text: &'static str) {
        pasta_fq_modulus()
    }
}

} // verus!
