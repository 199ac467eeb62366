//! Prime fields: what the constraint system needs of its scalars, and the field that is
//! the scalar field of the Vesta curve.

use core::fmt;
use core::fmt::{Debug, Formatter};

use ff::FromUniformBytes as _;
use ff::PrimeField as _;

use vstd::prelude::*;

use crate::debug;
use crate::text;

verus! {

/// An element of a prime field, known by its canonical encoding.
pub trait PrimeField: Copy + Debug {
    /// States that this is an element of the field.
    spec fn wf(self) -> bool;

    /// The canonical encoding of this element.
    spec fn repr(self) -> Seq<u8>;

    /// The number of bytes of a canonical encoding.
    spec fn repr_len() -> nat;

    /// How this element is printed for debugging.
    spec fn debug_text(self) -> Seq<char>;

    /// The modulus of the field as a hexadecimal literal.
    spec fn modulus_text() -> Seq<char>;

    /// Encodings have one length, and no two elements share an encoding.
    proof fn lemma_repr(a: Self, b: Self)
        requires
            a.wf(),
            b.wf(),
        ensures
            a.repr().len() == Self::repr_len(),
            a.repr() == b.repr() ==> a == b,
    ;

    /// The number of bytes of a canonical encoding.
    fn repr_size() -> (n: usize)
        ensures
            n == Self::repr_len(),
    ;

    /// Returns the canonical encoding of this element.
    fn to_repr(&self) -> (bytes: Vec<u8>)
        ensures
            bytes@ == self.repr(),
    ;

    /// Returns the element with the given canonical encoding, if there is one.
    fn from_repr(bytes: &[u8]) -> (r: Option<Self>)
        requires
            bytes@.len() == Self::repr_len(),
        ensures
            match r {
                Some(f) => f.wf() && f.repr() == bytes@,
                None => forall|f: Self| f.wf() ==> #[trigger] f.repr() != bytes@,
            },
    ;

    /// Returns what this element looks like when it is printed for debugging.
    fn debug(&self) -> (text: String)
        ensures
            text@ == self.debug_text(),
    ;

    /// Returns the modulus of the field as a hexadecimal literal.
    fn modulus() -> (text: &'static str)
        ensures
            text@ == Self::modulus_text(),
    ;
}

/// A prime field whose elements can be sampled from 64 uniform bytes.
pub trait FromUniformBytes: PrimeField {
    /// The element that the given 64 bytes stand for.
    spec fn of_uniform_bytes(bytes: Seq<u8>) -> Self;

    /// Returns the element that the given 64 bytes stand for.
    fn from_uniform_bytes(bytes: &[u8; 64]) -> (r: Self)
        ensures
            r.wf(),
            r == Self::of_uniform_bytes(bytes@),
    ;
}

/// States that `bytes` is the canonical encoding of an element of the field.
pub open spec fn is_repr<F: PrimeField>(bytes: Seq<u8>) -> bool {
    exists|f: F| f.wf() && #[trigger] f.repr() == bytes
}

/// The element whose canonical encoding is `bytes`.
pub open spec fn of_repr<F: PrimeField>(bytes: Seq<u8>) -> F {
    choose|f: F| f.wf() && #[trigger] f.repr() == bytes
}

/// An element is the one that its encoding stands for.
pub proof fn lemma_of_repr<F: PrimeField>(f: F)
    requires
        f.wf(),
    ensures
        is_repr::<F>(f.repr()),
        of_repr::<F>(f.repr()) == f,
        f.repr().len() == F::repr_len(),
{
    F::lemma_repr(of_repr::<F>(f.repr()), f);
    F::lemma_repr(f, f);
}

/// The number whose bytes are given, lowest first.
pub open spec fn le_value(bytes: Seq<u8>) -> nat
    decreases bytes.len(),
{
    if bytes.len() == 0 {
        0
    } else {
        (bytes[0] + 256 * le_value(bytes.drop_first())) as nat
    }
}

/// Two byte strings of one length that stand for the same number are equal.
pub proof fn lemma_le_value_injective(a: Seq<u8>, b: Seq<u8>)
    requires
        a.len() == b.len(),
        le_value(a) == le_value(b),
    ensures
        a == b,
    decreases a.len(),
{
    if a.len() == 0 {
        assert(a =~= b);
    } else {
        lemma_le_value_injective(a.drop_first(), b.drop_first());
        assert(a =~= seq![a[0]] + a.drop_first());
        assert(b =~= seq![b[0]] + b.drop_first());
    }
}

/// The order of the Vesta group, which is the modulus of its scalar field.
pub open spec fn fp_modulus() -> nat {
    0x40000000000000000000000000000000224698fc094cf91b992d30ed00000001nat
}

/// An element of the scalar field of the Vesta curve: a number below the order of the
/// group, held as 32 bytes, lowest first.
#[derive(Clone, Copy, PartialEq, Eq, Hash)]
pub struct Fp {
    repr: [u8; 32],
}

/// Calls `from_repr` of `pasta_curves::Fp` and encodes the element again with `to_repr`:
/// 32 bytes stand for an element exactly if their number, lowest byte first, is below the
/// modulus, and the element is encoded by the same bytes.
#[verifier::external_body]
fn pasta_fp_from_repr(bytes: [u8; 32]) -> (r: Option<[u8; 32]>)
    ensures
        r is Some <==> le_value(bytes@) < fp_modulus(),
        r is Some ==> r->Some_0@ == bytes@,
{
    match Option::<pasta_curves::Fp>::from(pasta_curves::Fp::from_repr(bytes)) {
        Some(f) => Some(f.to_repr()),
        None => None,
    }
}

/// Calls `from_uniform_bytes` of `pasta_curves::Fp` and encodes the element with
/// `to_repr`: the number of the 64 bytes, lowest byte first, is reduced by the modulus.
#[verifier::external_body]
fn pasta_fp_from_uniform_bytes(bytes: &[u8; 64]) -> (r: [u8; 32])
    ensures
        le_value(r@) == le_value(bytes@) % fp_modulus(),
{
    pasta_curves::Fp::from_uniform_bytes(bytes).to_repr()
}

/// Prints the `pasta_curves::Fp` with the given encoding with its `Debug` impl: `0x` and
/// the bytes of the encoding in hexadecimal digits, highest byte first.
#[verifier::external_body]
fn pasta_fp_debug(bytes: [u8; 32]) -> (text: String)
    requires
        le_value(bytes@) < fp_modulus(),
    ensures
        text@ == "0x"@ + text::hex_text(bytes@.reverse()),
{
    format!("{:?}", pasta_curves::Fp::from_repr(bytes).unwrap())
}

/// Reads `MODULUS` of `pasta_curves::Fp`, the modulus as a hexadecimal literal.
#[verifier::external_body]
fn pasta_fp_modulus() -> (text: &'static str)
    ensures
        text@ == "0x40000000000000000000000000000000224698fc094cf91b992d30ed00000001"@,
{
    <pasta_curves::Fp as ff::PrimeField>::MODULUS
}

/// Copies 32 bytes into an array.
pub(crate) fn array_32(bytes: &[u8]) -> (array: [u8; 32])
    requires
        bytes@.len() == 32,
    ensures
        array@ == bytes@,
{
    let mut array: [u8; 32] = [0u8; 32];
    let mut i: usize = 0;
    while i < 32
        invariant
            i <= 32,
            bytes@.len() == 32,
            forall|j: int| 0 <= j < i ==> array@[j] == bytes@[j],
        decreases 32 - i,
    {
        array[i] = bytes[i];
        i = i + 1;
    }
    assert(array@ =~= bytes@);
    array
}

/// Copies an array of 32 bytes into a vector.
pub(crate) fn vec_of_32(array: &[u8; 32]) -> (bytes: Vec<u8>)
    ensures
        bytes@ == array@,
{
    let mut bytes: Vec<u8> = Vec::new();
    crate::codec::write_all(&mut bytes, array.as_slice());
    assert(bytes@ =~= array@);
    bytes
}

impl Debug for Fp {
    fn fmt(&self, f: &mut Formatter<'_>) -> (r: fmt::Result) {
        debug::write_text(f, self.debug().as_str())
    }
}

impl Fp {
    #[verifier::type_invariant]
    spec fn canonical(self) -> bool {
        le_value(self.repr@) < fp_modulus()
    }
}

impl PrimeField for Fp {
    closed spec fn wf(self) -> bool {
        le_value(self.repr@) < fp_modulus()
    }

    closed spec fn repr(self) -> Seq<u8> {
        self.repr@
    }

    open spec fn repr_len() -> nat {
        32
    }

    open spec fn debug_text(self) -> Seq<char> {
        "0x"@ + text::hex_text(self.repr().reverse())
    }

    open spec fn modulus_text() -> Seq<char> {
        "0x40000000000000000000000000000000224698fc094cf91b992d30ed00000001"@
    }

    proof fn lemma_repr(a: Self, b: Self) {
        if a.repr@ == b.repr@ {
            assert(a.repr =~= b.repr);
        }
    }

    fn repr_size() -> (n: usize) {
        32
    }

    fn to_repr(&self) -> (bytes: Vec<u8>) {
        vec_of_32(&self.repr)
    }

    fn from_repr(bytes: &[u8]) -> (r: Option<Self>)
        ensures
            r is Some <==> le_value(bytes@) < fp_modulus(),
    {
        match pasta_fp_from_repr(array_32(bytes)) {
            Some(repr) => {
                let f = Fp { repr };
                Some(f)
            },
            None => None,
        }
    }

    fn debug(&self) -> (text: String) {
        proof {
            use_type_invariant(self);
        }
        pasta_fp_debug(self.repr)
    }

    fn modulus() -> (text: &'static str) {
        pasta_fp_modulus()
    }
}

impl FromUniformBytes for Fp {
    open spec fn of_uniform_bytes(bytes: Seq<u8>) -> Self {
        choose|f: Fp| f.wf() && le_value(#[trigger] f.repr()) == le_value(bytes) % fp_modulus()
    }

    fn from_uniform_bytes(bytes: &[u8; 64]) -> (r: Self)
        ensures
            le_value(r.repr()) == le_value(bytes@) % fp_modulus(),
    {
        let repr = pasta_fp_from_uniform_bytes(bytes);
        let f = Fp { repr };
        proof {
            assert(f.wf() && le_value(PrimeField::repr(f)) == le_value(bytes@) % fp_modulus());
            let g = Self::of_uniform_bytes(bytes@);
            lemma_le_value_injective(f.repr@, g.repr@);
            Self::lemma_repr(f, g);
        }
        f
    }
}

/// Elements are printed in one length, and no two elements are printed alike.
pub proof fn lemma_fp_text(a: Fp, b: Fp)
    ensures
        a.debug_text().len() == 66,
        a.debug_text() == b.debug_text() ==> a == b,
{
    reveal_strlit("0x");
    let (x, y) = (a.repr@.reverse(), b.repr@.reverse());
    text::lemma_hex_text(x);
    text::lemma_hex_text(y);
    if a.debug_text() == b.debug_text() {
        assert(text::hex_text(x) =~= a.debug_text().skip(2));
        assert(text::hex_text(y) =~= b.debug_text().skip(2));
        text::lemma_hex_text_injective(x, y);
        assert(a.repr@ =~= x.reverse());
        assert(b.repr@ =~= y.reverse());
        assert(a.repr =~= b.repr);
    }
}

} // verus!
