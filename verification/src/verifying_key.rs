//! Verifying and proving keys, their binary form, and the scalar by which a verifying key is
//! represented in transcripts.

use vstd::prelude::*;
use vstd::string::StringExecFns;

use crate::bits;
use crate::codec;
use crate::codec::{ReadError, Reader};
use crate::constraint_system;
use crate::constraint_system::ConstraintSystem;
use crate::curve;
use crate::curve::CurveAffine;
use crate::domain::{EvaluationDomain, Params, PinnedEvaluationDomain};
use crate::field::{FromUniformBytes, PrimeField};
use crate::hash;
use crate::list;
use crate::permutation;
use crate::pinned::PinnedConstraintSystem;
use crate::system_codec;
use crate::text;

verus! {

/// This is a verifying key which allows for the verification of proofs for a
/// particular circuit.
#[derive(Debug)]
pub struct VerifyingKey<C: CurveAffine> {
    /// The evaluation domain.
    pub domain: EvaluationDomain<C::Scalar>,
    /// The commitments to the fixed columns.
    pub fixed_commitments: Vec<C>,
    /// The commitments of the permutation argument.
    pub permutation: permutation::VerifyingKey<C>,
    /// The constraint system.
    pub cs: ConstraintSystem<C::Scalar>,
    /// Cached maximum degree of `cs` (which doesn't change after construction).
    pub cs_degree: usize,
    /// The representative of this `VerifyingKey` in transcripts.
    pub transcript_repr: C::Scalar,
    /// The rows on which each selector is enabled.
    pub selectors: Vec<Vec<bool>>,
}

/// What a verifying key holds.
#[verifier::ext_equal]
pub struct KeyModel<C: CurveAffine> {
    /// The evaluation domain.
    pub domain: EvaluationDomain<C::Scalar>,
    /// The commitments to the fixed columns.
    pub fixed_commitments: Seq<C>,
    /// The commitments of the permutation argument.
    pub permutation: Seq<C>,
    /// The constraint system.
    pub cs: constraint_system::SystemModel<C::Scalar>,
    /// The degree of the constraint system.
    pub cs_degree: nat,
    /// The representative of the key in transcripts.
    pub transcript_repr: C::Scalar,
    /// The rows on which each selector is enabled.
    pub selectors: Seq<Seq<bool>>,
}

/// The rows on which each of some selectors is enabled.
pub open spec fn rows(selectors: Seq<Vec<bool>>) -> Seq<Seq<bool>> {
    selectors.map_values(|selector: Vec<bool>| selector@)
}

impl<C: CurveAffine> View for VerifyingKey<C> {
    type V = KeyModel<C>;

    open spec fn view(&self) -> KeyModel<C> {
        KeyModel {
            domain: self.domain,
            fixed_commitments: self.fixed_commitments@,
            permutation: self.permutation@,
            cs: self.cs@,
            cs_degree: self.cs_degree as nat,
            transcript_repr: self.transcript_repr,
            selectors: rows(self.selectors@),
        }
    }
}

impl<C: CurveAffine> Clone for VerifyingKey<C> {
    fn clone(&self) -> (r: Self)
        ensures
            r@ == self@,
    {
        let r = VerifyingKey {
            domain: self.domain,
            fixed_commitments: list::copied(&self.fixed_commitments),
            permutation: self.permutation.clone(),
            cs: self.cs.clone(),
            cs_degree: self.cs_degree,
            transcript_repr: self.transcript_repr,
            selectors: self.selectors.clone(),
        };
        proof {
            assert forall|i: int| 0 <= i < r.selectors@.len() implies r.selectors@[i]@
                == self.selectors@[i]@ by {
                assert(r.selectors@[i]@ =~= self.selectors@[i]@);
            }
            assert(rows(r.selectors@) =~= rows(self.selectors@));
        }
        r
    }
}

// ---------------------------------------------------------------------------------
// Pinned form
// ---------------------------------------------------------------------------------

/// Minimal representation of a verification key that can be used to identify
/// its active contents.
#[derive(Debug)]
pub struct PinnedVerificationKey<'a, C: CurveAffine> {
    /// The modulus of the base field of the curve.
    pub base_modulus: &'static str,
    /// The modulus of the scalar field of the curve.
    pub scalar_modulus: &'static str,
    /// The evaluation domain.
    pub domain: PinnedEvaluationDomain<'a, C::Scalar>,
    /// The constraint system.
    pub cs: PinnedConstraintSystem<'a, C::Scalar>,
    /// The commitments to the fixed columns.
    pub fixed_commitments: &'a Vec<C>,
    /// The commitments of the permutation argument.
    pub permutation: &'a permutation::VerifyingKey<C>,
}

/// How a list of points is printed.
pub open spec fn points_text<C: CurveAffine>(points: Seq<C>) -> Seq<char> {
    text::list_text(points.map_values(|p: C| p.debug_text()))
}

/// How a pinned verification key is printed, where `domain` and `cs` are the texts of its
/// domain and its constraint system.
pub open spec fn pinned_key_text<C: CurveAffine>(
    domain: Seq<char>,
    cs: Seq<char>,
    fixed_commitments: Seq<C>,
    permutation: Seq<C>,
) -> Seq<char> {
    "PinnedVerificationKey { base_modulus: "@ + text::quoted(C::base_modulus_text())
        + ", scalar_modulus: "@ + text::quoted(<C::Scalar as PrimeField>::modulus_text())
        + ", domain: "@ + domain + ", cs: "@ + cs + ", fixed_commitments: "@ + points_text(
        fixed_commitments,
    ) + ", permutation: VerifyingKey { commitments: "@ + points_text(permutation) + " } }"@
}

/// Appends how a list of points is printed.
fn append_points<C: CurveAffine>(out: &mut String, points: &Vec<C>)
    ensures
        final(out)@ == old(out)@ + points_text(points@),
{
    let append_one = |x: &mut String, p: &C|
        ensures
            final(x)@ == old(x)@ + p.debug_text(),
        {
            x.append(p.debug().as_str());
        };
    text::append_list(out, points, append_one, Ghost(|p: C| p.debug_text()));
}

impl<'a, C: CurveAffine> PinnedVerificationKey<'a, C> {
    /// States that this is the pinned form of a key of the curve.
    pub open spec fn of_curve(self) -> bool {
        &&& self.base_modulus@ == C::base_modulus_text()
        &&& self.scalar_modulus@ == <C::Scalar as PrimeField>::modulus_text()
    }

    /// How this key is printed.
    pub open spec fn debug_text(self) -> Seq<char> {
        pinned_key_text(
            self.domain.debug_text(),
            self.cs.debug_text(),
            self.fixed_commitments@,
            self.permutation@,
        )
    }

    /// Returns how this key is printed.
    pub fn debug(&self) -> (text: String)
        requires
            self.of_curve(),
        ensures
            text@ == self.debug_text(),
    {
        let mut out = String::new();
        out.append("PinnedVerificationKey { base_modulus: ");
        text::append_quoted(&mut out, self.base_modulus);
        out.append(", scalar_modulus: ");
        text::append_quoted(&mut out, self.scalar_modulus);
        out.append(", domain: ");
        self.domain.append_debug(&mut out);
        out.append(", cs: ");
        self.cs.append_debug(&mut out);
        out.append(", fixed_commitments: ");
        append_points(&mut out, self.fixed_commitments);
        out.append(", permutation: VerifyingKey { commitments: ");
        append_points(&mut out, &self.permutation.commitments);
        out.append(" } }");
        assert(out@ =~= self.debug_text());
        out
    }
}

impl<C: CurveAffine> KeyModel<C> {
    /// How the pinned form of this key is printed.
    pub open spec fn pinned_text(self) -> Seq<char> {
        pinned_key_text(
            self.domain.pinned_text(),
            self.cs.pinned_text(),
            self.fixed_commitments,
            self.permutation,
        )
    }
}

impl<C: CurveAffine> VerifyingKey<C> {
    /// Obtains a pinned representation of this verification key that contains
    /// the minimal information necessary to reconstruct the verification key.
    pub fn pinned(&self) -> (pinned: PinnedVerificationKey<'_, C>)
        ensures
            pinned.of_curve(),
            *pinned.domain.k == self.domain.k,
            *pinned.domain.extended_k == self.domain.extended_k,
            *pinned.domain.omega == self.domain.omega,
            *pinned.cs.num_fixed_columns == self.cs.num_fixed_columns,
            *pinned.cs.num_advice_columns == self.cs.num_advice_columns,
            *pinned.cs.num_instance_columns == self.cs.num_instance_columns,
            *pinned.cs.num_selectors == self.cs.num_selectors,
            *pinned.cs.gates.0 == self.cs.gates,
            *pinned.cs.advice_queries == self.cs.advice_queries,
            *pinned.cs.instance_queries == self.cs.instance_queries,
            *pinned.cs.fixed_queries == self.cs.fixed_queries,
            *pinned.cs.permutation == self.cs.permutation,
            *pinned.cs.lookups == self.cs.lookups,
            *pinned.cs.constants == self.cs.constants,
            *pinned.cs.minimum_degree == self.cs.minimum_degree,
            *pinned.fixed_commitments == self.fixed_commitments,
            *pinned.permutation == self.permutation,
            pinned.debug_text() == self@.pinned_text(),
    {
        PinnedVerificationKey {
            base_modulus: C::base_modulus(),
            scalar_modulus: <C::Scalar as PrimeField>::modulus(),
            domain: self.domain.pinned(),
            fixed_commitments: &self.fixed_commitments,
            permutation: &self.permutation,
            cs: self.cs.pinned(),
        }
    }
}

// ---------------------------------------------------------------------------------
// Construction
// ---------------------------------------------------------------------------------

/// The personalization of the hash by which a key is represented.
pub open spec fn personalization() -> Seq<u8> {
    vstd::utf8::encode_utf8("Halo2-Verify-Key"@)
}

/// What is hashed to represent a key, where `pinned` is the text of its pinned form: the
/// length of the text in bytes, in eight bytes, then the text.
pub open spec fn preimage(pinned: Seq<char>) -> Seq<u8> {
    codec::u64_le(vstd::utf8::encode_utf8(pinned).len()) + vstd::utf8::encode_utf8(pinned)
}

/// The scalar by which a key is represented in transcripts, where `pinned` is the text of
/// its pinned form.
pub open spec fn transcript_repr<F: FromUniformBytes>(pinned: Seq<char>) -> F {
    F::of_uniform_bytes(hash::blake2b(64, personalization(), preimage(pinned)))
}

/// The key that is made of the given parts.
pub open spec fn key_of<C: CurveAffine>(
    domain: EvaluationDomain<C::Scalar>,
    fixed_commitments: Seq<C>,
    permutation: Seq<C>,
    cs: constraint_system::SystemModel<C::Scalar>,
    selectors: Seq<Seq<bool>>,
) -> KeyModel<C> {
    KeyModel {
        domain,
        fixed_commitments,
        permutation,
        cs,
        cs_degree: cs.degree(),
        transcript_repr: transcript_repr(
            pinned_key_text(
                domain.pinned_text(),
                cs.pinned_text(),
                fixed_commitments,
                permutation,
            ),
        ),
        selectors,
    }
}

/// Returns what is hashed to represent a key, where `pinned` is the text of its pinned form.
pub fn transcript_preimage(pinned: &str) -> (data: Vec<u8>)
    ensures
        data@ == preimage(pinned@),
{
    let bytes = pinned.as_bytes();
    let mut data: Vec<u8> = Vec::new();
    codec::write_u64(&mut data, bytes.len() as u64);
    codec::write_all(&mut data, bytes);
    assert(data@ =~= preimage(pinned@));
    data
}

/// Returns the hash by which a key is represented, where `pinned` is the text of its pinned
/// form.
pub fn transcript_hash(pinned: &str) -> (hash: [u8; 64])
    ensures
        hash@ == hash::blake2b(64, personalization(), preimage(pinned@)),
{
    let personal = "Halo2-Verify-Key".as_bytes();
    proof {
        reveal_strlit("Halo2-Verify-Key");
        vstd::string::is_ascii_spec_bytes("Halo2-Verify-Key");
    }
    let data = transcript_preimage(pinned);
    hash::array_64(hash::blake2b_hash(64, personal, data.as_slice()).as_slice())
}

impl<C: CurveAffine> VerifyingKey<C> {
    /// Puts a key together, and computes what it caches.
    pub fn from_parts(
        domain: EvaluationDomain<C::Scalar>,
        fixed_commitments: Vec<C>,
        permutation: permutation::VerifyingKey<C>,
        cs: ConstraintSystem<C::Scalar>,
        selectors: Vec<Vec<bool>>,
    ) -> (vk: Self)
        requires
            cs@.lookups_paired(),
            cs@.degree() <= usize::MAX,
        ensures
            vk@ == key_of(domain, fixed_commitments@, permutation@, cs@, rows(selectors@)),
    {
        let pinned = PinnedVerificationKey::<C> {
            base_modulus: C::base_modulus(),
            scalar_modulus: <C::Scalar as PrimeField>::modulus(),
            domain: domain.pinned(),
            fixed_commitments: &fixed_commitments,
            permutation: &permutation,
            cs: cs.pinned(),
        };
        let s = pinned.debug();
        let hash = transcript_hash(s.as_str());
        Self::with_hash(domain, fixed_commitments, permutation, cs, selectors, &hash)
    }

    /// Puts a key together that is represented by the given hash.
    pub fn with_hash(
        domain: EvaluationDomain<C::Scalar>,
        fixed_commitments: Vec<C>,
        permutation: permutation::VerifyingKey<C>,
        cs: ConstraintSystem<C::Scalar>,
        selectors: Vec<Vec<bool>>,
        hash: &[u8; 64],
    ) -> (vk: Self)
        requires
            cs@.lookups_paired(),
            cs@.degree() <= usize::MAX,
        ensures
            vk@ == (KeyModel {
                domain,
                fixed_commitments: fixed_commitments@,
                permutation: permutation@,
                cs: cs@,
                cs_degree: cs@.degree(),
                transcript_repr: <C::Scalar as FromUniformBytes>::of_uniform_bytes(hash@),
                selectors: rows(selectors@),
            }),
    {
        // Compute cached values.
        let cs_degree = cs.degree();
        let transcript_repr = <C::Scalar as FromUniformBytes>::from_uniform_bytes(hash);
        VerifyingKey {
            domain,
            fixed_commitments,
            permutation,
            cs,
            cs_degree,
            transcript_repr,
            selectors,
        }
    }

    /// Returns a copy of the constraint system.
    pub fn cs(&self) -> (cs: ConstraintSystem<C::Scalar>)
        ensures
            cs@ == self@.cs,
    {
        self.cs.clone()
    }

    /// Hashes a verification key into a transcript, by way of the transcript's own
    /// `common_scalar`.
    pub fn hash_into<R, T>(&self, common_scalar: T) -> (r: R) where
        T: FnOnce(C::Scalar) -> R,

        requires
            common_scalar.requires((self.transcript_repr,)),
        ensures
            common_scalar.ensures((self.transcript_repr,), r),
    {
        common_scalar(self.transcript_repr)
    }

    /// Get the underlying [`EvaluationDomain`].
    pub fn get_domain(&self) -> (domain: &EvaluationDomain<C::Scalar>)
        ensures
            *domain == self@.domain,
    {
        &self.domain
    }
}

// ---------------------------------------------------------------------------------
// Binary form
// ---------------------------------------------------------------------------------

impl<C: CurveAffine> KeyModel<C> {
    /// The number of commitments to fixed columns in four bytes, then the commitments.
    pub open spec fn encode_fixed_commitments(self) -> Seq<u8> {
        codec::u32_le(self.fixed_commitments.len()) + permutation::encode_points(
            self.fixed_commitments,
        )
    }

    /// The number of selectors in four bytes, then the rows of each, eight in a byte.
    pub open spec fn encode_selectors(self) -> Seq<u8> {
        codec::u32_le(self.selectors.len()) + codec::encode_list(
            self.selectors,
            |rows: Seq<bool>| bits::packed(rows),
        )
    }

    /// The binary form of this key.
    pub open spec fn encode(self) -> Seq<u8> {
        seq![0x01u8] + self.encode_fixed_commitments() + permutation::encode_points(
            self.permutation,
        ) + self.encode_selectors()
    }

    /// What is reported when this key is written: the checksum and the length of each of its
    /// sections and of the whole.
    pub open spec fn write_log(self) -> Seq<Seq<char>> {
        seq![
            checksum_line(
                "halo2::write::vk::fixed_commitments::(checksum::"@,
                hash::sha256(self.encode_fixed_commitments()),
                ",length::"@,
                self.encode_fixed_commitments().len(),
                ") "@,
            ),
            checksum_line(
                "halo2::write::vk::permutation::(checksum::"@,
                hash::sha256(permutation::encode_points(self.permutation)),
                ",len::"@,
                permutation::encode_points(self.permutation).len(),
                ")"@,
            ),
            checksum_line(
                "halo2::write::vk::selectors::(checksum::"@,
                hash::sha256(self.encode_selectors()),
                ",length::"@,
                self.encode_selectors().len(),
                ")"@,
            ),
            checksum_line(
                "halo2::write::vk::(checksum::"@,
                hash::sha256(self.encode()),
                ",length::"@,
                self.encode().len(),
                ")"@,
            ),
        ]
    }

    /// States that the key can be read back with its constraint system where circuits have
    /// `n` rows: its points are proper, there is a commitment for each column of the
    /// permutation argument and a selector of `n` rows for each selector of the constraint
    /// system.
    pub open spec fn encodable(self, n: nat) -> bool {
        &&& self.fixed_commitments.len() <= u32::MAX
        &&& forall|i: int|
            0 <= i < self.fixed_commitments.len() ==> (#[trigger] self.fixed_commitments[i]).wf()
        &&& self.permutation.len() == self.cs.permutation.len()
        &&& forall|i: int| 0 <= i < self.permutation.len() ==> (#[trigger] self.permutation[i]).wf()
        &&& self.selectors.len() == self.cs.num_selectors
        &&& self.selectors.len() <= u32::MAX
        &&& forall|i: int|
            0 <= i < self.selectors.len() ==> (#[trigger] self.selectors[i]).len() == n
    }
}

/// A line that reports a checksum and a length.
pub open spec fn checksum_line(
    start: Seq<char>,
    hash: Seq<u8>,
    middle: Seq<char>,
    length: nat,
    end: Seq<char>,
) -> Seq<char> {
    start + text::hex_text(hash) + middle + text::decimal(length) + end
}

/// Returns a line that reports a checksum and a length.
pub fn report_line(start: &str, hash: &[u8], middle: &str, length: usize, end: &str) -> (line:
    String)
    ensures
        line@ == checksum_line(start@, hash@, middle@, length as nat, end@),
{
    let mut line = String::new();
    line.append(start);
    line.append(text::hex_encode(hash).as_str());
    line.append(middle);
    text::append_usize(&mut line, length);
    line.append(end);
    assert(line@ =~= checksum_line(start@, hash@, middle@, length as nat, end@));
    line
}

/// Returns a line that reports the checksum and the length of `bytes`.
fn report(start: &str, bytes: &Vec<u8>, middle: &str, end: &str) -> (line: String)
    ensures
        line@ == checksum_line(start@, hash::sha256(bytes@), middle@, bytes@.len(), end@),
{
    report_line(
        start,
        hash::sha256_digest(bytes.as_slice()).as_slice(),
        middle,
        bytes.len(),
        end,
    )
}

/// The texts of some lines.
pub open spec fn lines_text(lines: Seq<String>) -> Seq<Seq<char>> {
    lines.map_values(|line: String| line@)
}

impl<C: CurveAffine> VerifyingKey<C> {
    /// Writes this key in binary form, in which integers take four bytes, lowest first:
    ///
    /// - the version, which is always 0x01
    /// - the number of fixed columns, then the commitment to each in compressed form
    /// - the commitments of the permutation argument
    /// - the number of selectors, then the rows of each, eight in a byte
    ///
    /// Returns what there is to report of it: a line with a checksum and a length for each
    /// section and for the whole.
    pub fn write(&self, writer: &mut Vec<u8>) -> (log: Vec<String>)
        requires
            self@.fixed_commitments.len() <= u32::MAX,
            self@.selectors.len() <= u32::MAX,
        ensures
            final(writer)@ == old(writer)@ + self@.encode(),
            lines_text(log@) == self@.write_log(),
    {
        let mut vk_buf: Vec<u8> = Vec::new();
        vk_buf.push(0x01);

        let mut fixed_commitments_buf: Vec<u8> = Vec::new();
        codec::write_u32(&mut fixed_commitments_buf, self.fixed_commitments.len());
        permutation::write_points(&mut fixed_commitments_buf, &self.fixed_commitments);
        assert(fixed_commitments_buf@ =~= self@.encode_fixed_commitments());
        let fixed_commitments_line = report(
            "halo2::write::vk::fixed_commitments::(checksum::",
            &fixed_commitments_buf,
            ",length::",
            ") ",
        );
        codec::write_all(&mut vk_buf, fixed_commitments_buf.as_slice());

        let mut permutation_buf: Vec<u8> = Vec::new();
        self.permutation.write(&mut permutation_buf);
        assert(permutation_buf@ =~= permutation::encode_points(self@.permutation));
        let permutation_line = report(
            "halo2::write::vk::permutation::(checksum::",
            &permutation_buf,
            ",len::",
            ")",
        );
        codec::write_all(&mut vk_buf, permutation_buf.as_slice());

        let mut selectors_buf: Vec<u8> = Vec::new();
        codec::write_u32(&mut selectors_buf, self.selectors.len());
        // pack 8 rows at a time into bytes
        let write_one = |x: &mut Vec<u8>, rows: &Vec<bool>|
            ensures
                final(x)@ == old(x)@ + bits::packed(rows@),
            {
                bits::write_bits(x, rows);
            };
        codec::write_list::<Vec<bool>, Seq<bool>, _>(
            &mut selectors_buf,
            &self.selectors,
            write_one,
            Ghost(|rows: Vec<bool>| rows@),
            Ghost(|rows: Seq<bool>| bits::packed(rows)),
        );
        assert(selectors_buf@ =~= self@.encode_selectors());
        let selectors_line = report(
            "halo2::write::vk::selectors::(checksum::",
            &selectors_buf,
            ",length::",
            ")",
        );
        codec::write_all(&mut vk_buf, selectors_buf.as_slice());
        assert(vk_buf@ =~= self@.encode());
        let vk_line = report("halo2::write::vk::(checksum::", &vk_buf, ",length::", ")");

        codec::write_all(writer, vk_buf.as_slice());
        let log = vec![fixed_commitments_line, permutation_line, selectors_line, vk_line];
        assert(lines_text(log@) =~= self@.write_log());
        log
    }
}

/// Reads the rows of a selector of `n` rows.
pub open spec fn parse_rows(s: Seq<u8>, n: nat) -> codec::Parsed<Seq<bool>> {
    match codec::parse_bytes((n + 7) as nat / 8, s) {
        Ok((bytes, rest)) => Ok((bits::unpacked(bytes, n), rest)),
        Err(e) => Err(e),
    }
}

/// Reads a verifying key for the constraint system `cs` of a circuit of `n` rows, with the
/// given evaluation domain.
pub open spec fn parse_key<C: CurveAffine>(
    s: Seq<u8>,
    n: nat,
    cs: constraint_system::SystemModel<C::Scalar>,
    domain: EvaluationDomain<C::Scalar>,
) -> codec::Parsed<KeyModel<C>> {
    match codec::parse_u8(s) {
        Ok((version, rest)) => if version != 0x01 {
            Err(ReadError::UnexpectedVersion(version))
        } else {
            match codec::parse_u32(rest) {
                Ok((num_fixed_columns, rest)) => match permutation::parse_points::<C>(
                    num_fixed_columns as nat,
                    rest,
                ) {
                    Ok((fixed_commitments, rest)) => match permutation::parse_points::<C>(
                        cs.permutation.len(),
                        rest,
                    ) {
                        Ok((permutation, rest)) => match parse_selectors(
                            rest,
                            n,
                            cs.num_selectors,
                        ) {
                            Ok((selectors, rest)) => Ok(
                                (
                                    key_of(
                                        domain,
                                        fixed_commitments,
                                        permutation,
                                        cs,
                                        selectors,
                                    ),
                                    rest,
                                ),
                            ),
                            Err(e) => Err(e),
                        },
                        Err(e) => Err(e),
                    },
                    Err(e) => Err(e),
                },
                Err(e) => Err(e),
            }
        },
        Err(e) => Err(e),
    }
}

/// Reads the number of selectors, which has to be `expected`, then the `n` rows of each.
pub open spec fn parse_selectors(s: Seq<u8>, n: nat, expected: nat) -> codec::Parsed<
    Seq<Seq<bool>>,
> {
    match codec::parse_u32(s) {
        Ok((num_selectors, rest)) => if num_selectors != expected {
            Err(
                ReadError::SelectorCountMismatch {
                    expected: expected as usize,
                    found: num_selectors as usize,
                },
            )
        } else {
            codec::parse_list(expected, |s: Seq<u8>| parse_rows(s, n), rest)
        },
        Err(e) => Err(e),
    }
}

/// Reads the rows of a selector of `n` rows.
fn read_rows(reader: &mut Reader<'_>, n: usize) -> (r: Result<Vec<bool>, ReadError>)
    requires
        n + 7 <= usize::MAX,
    ensures
        codec::reads_view(r, parse_rows(old(reader)@, n as nat), old(reader)@, final(reader)@),
{
    match reader.read_exact((n + 7) / 8) {
        Ok(bytes) => Ok(bits::unpack(bytes, n)),
        Err(e) => Err(e),
    }
}

/// Reads the number of selectors, which has to be `expected`, then the `n` rows of each.
fn read_selectors(reader: &mut Reader<'_>, n: usize, expected: usize) -> (r: Result<
    Vec<Vec<bool>>,
    ReadError,
>)
    requires
        n + 7 <= usize::MAX,
    ensures
        codec::reads(
            codec::described(r, |selectors: Vec<Vec<bool>>| rows(selectors@)),
            parse_selectors(old(reader)@, n as nat, expected as nat),
            old(reader)@,
            final(reader)@,
        ),
{
    let ghost start = reader@;
    let num_selectors = match codec::read_u32(reader) {
        Ok(num_selectors) => num_selectors as usize,
        Err(e) => {
            return Err(e);
        },
    };
    if expected != num_selectors {
        return Err(ReadError::SelectorCountMismatch { expected, found: num_selectors });
    }
    let ghost counted = reader@;
    let read_one = |x: &mut Reader<'_>| -> (out: Result<Vec<bool>, ReadError>)
        ensures
            codec::reads_view(out, parse_rows(old(x)@, n as nat), old(x)@, final(x)@),
        { read_rows(x, n) };
    let r = codec::read_list::<Vec<bool>, Seq<bool>, _>(
        reader,
        expected,
        read_one,
        Ghost(|rows: Vec<bool>| rows@),
        Ghost(|s: Seq<u8>| parse_rows(s, n as nat)),
    );
    proof {
        codec::lemma_suffix_trans(reader@, counted, start);
    }
    r
}

impl<C: CurveAffine> VerifyingKey<C> {
    /// Reads a verifying key from a buffer using a pre-built constraint system.
    ///
    /// This method enables circuit-agnostic verification by using a deserialized
    /// ConstraintSystem instead of configuring a circuit. `new_domain` makes the evaluation
    /// domain of the constraint system from its degree and the logarithm of the number of
    /// rows. The selectors of the key are those that stand in the buffer, whatever
    /// `_selectors` holds.
    pub fn read_with_cs<D>(
        reader: &mut Reader<'_>,
        params: &Params,
        cs: ConstraintSystem<C::Scalar>,
        _selectors: Vec<Vec<bool>>,
        new_domain: D,
    ) -> (r: Result<Self, ReadError>) where D: FnOnce(u32, u32) -> EvaluationDomain<C::Scalar>
        requires
            cs@.lookups_paired(),
            cs@.degree() <= usize::MAX,
            params.n + 7 <= usize::MAX,
            new_domain.requires(((cs@.degree() % 0x1_0000_0000) as u32, params.k)),
        ensures
            exists|domain: EvaluationDomain<C::Scalar>| {
                &&& #[trigger] new_domain.ensures(
                    ((cs@.degree() % 0x1_0000_0000) as u32, params.k),
                    domain,
                )
                &&& codec::reads_view(
                    r,
                    parse_key::<C>(old(reader)@, params.n as nat, cs@, domain),
                    old(reader)@,
                    final(reader)@,
                )
            },
    {
        let ghost start = reader@;
        // Create domain from params and CS degree
        let degree = cs.degree();
        let domain = new_domain((degree as u64 % 0x1_0000_0000) as u32, params.k);

        // Read version byte
        let version = match codec::read_u8(reader) {
            Ok(version) => version,
            Err(e) => {
                return Err(e);
            },
        };
        if 0x01 != version {
            return Err(ReadError::UnexpectedVersion(version));
        }
        // Read fixed commitments

        let ghost before = reader@;
        let num_fixed_columns = codec::read_u32(reader);
        proof {
            codec::lemma_suffix_trans(reader@, before, start);
        }
        let num_fixed_columns = match num_fixed_columns {
            Ok(num_fixed_columns) => num_fixed_columns as usize,
            Err(e) => {
                return Err(e);
            },
        };
        let ghost before = reader@;
        let fixed_commitments = permutation::read_points::<C>(reader, num_fixed_columns);
        proof {
            codec::lemma_suffix_trans(reader@, before, start);
        }
        let fixed_commitments = match fixed_commitments {
            Ok(fixed_commitments) => fixed_commitments,
            Err(e) => {
                return Err(e);
            },
        };

        // Read permutation verifying key
        let ghost before = reader@;
        let permutation = permutation::VerifyingKey::<C>::read(reader, &cs.permutation);
        proof {
            codec::lemma_suffix_trans(reader@, before, start);
        }
        let permutation = match permutation {
            Ok(permutation) => permutation,
            Err(e) => {
                return Err(e);
            },
        };

        // Read and validate selectors
        let ghost before = reader@;
        let vk_selectors = read_selectors(reader, params.n as usize, cs.num_selectors);
        proof {
            codec::lemma_suffix_trans(reader@, before, start);
        }
        let vk_selectors = match vk_selectors {
            Ok(vk_selectors) => vk_selectors,
            Err(e) => {
                return Err(e);
            },
        };

        Ok(Self::from_parts(domain, fixed_commitments, permutation, cs, vk_selectors))
    }

    /// Reads a verifying key from a slice of bytes using a pre-built constraint system.
    pub fn from_bytes_with_cs<D>(
        bytes: &[u8],
        params: &Params,
        cs: ConstraintSystem<C::Scalar>,
        selectors: Vec<Vec<bool>>,
        new_domain: D,
    ) -> (r: Result<Self, ReadError>) where D: FnOnce(u32, u32) -> EvaluationDomain<C::Scalar>
        requires
            cs@.lookups_paired(),
            cs@.degree() <= usize::MAX,
            params.n + 7 <= usize::MAX,
            new_domain.requires(((cs@.degree() % 0x1_0000_0000) as u32, params.k)),
        ensures
            exists|domain: EvaluationDomain<C::Scalar>, rest: Seq<u8>| {
                &&& #[trigger] new_domain.ensures(
                    ((cs@.degree() % 0x1_0000_0000) as u32, params.k),
                    domain,
                )
                &&& #[trigger] codec::reads_view(
                    r,
                    parse_key::<C>(bytes@, params.n as nat, cs@, domain),
                    bytes@,
                    rest,
                )
            },
    {
        let mut reader = Reader::new(bytes);
        Self::read_with_cs(&mut reader, params, cs, selectors, new_domain)
    }
}

/// The rows of selectors are read back from their binary form, whatever stands behind them.
proof fn lemma_selectors_round_trip(selectors: Seq<Seq<bool>>, n: nat, tail: Seq<u8>)
    requires
        selectors.len() <= u32::MAX,
        forall|i: int| 0 <= i < selectors.len() ==> (#[trigger] selectors[i]).len() == n,
    ensures
        parse_selectors(
            codec::u32_le(selectors.len()) + codec::encode_list(
                selectors,
                |rows: Seq<bool>| bits::packed(rows),
            ) + tail,
            n,
            selectors.len(),
        ) == Ok::<(Seq<Seq<bool>>, Seq<u8>), ReadError>((selectors, tail)),
{
    let encode = |rows: Seq<bool>| bits::packed(rows);
    let parse = |s: Seq<u8>| parse_rows(s, n);
    assert forall|i: int| 0 <= i < selectors.len() implies codec::round_trips(
        #[trigger] selectors[i],
        encode,
        parse,
    ) by {
        let rows = selectors[i];
        assert forall|tail: Seq<u8>| #[trigger]
            parse(encode(rows) + tail) == Ok::<(Seq<bool>, Seq<u8>), ReadError>((rows, tail)) by {
            let bytes = bits::packed(rows);
            assert((bytes + tail).take(bytes.len() as int) =~= bytes);
            assert((bytes + tail).skip(bytes.len() as int) =~= tail);
            bits::lemma_packed_round_trip(rows);
        }
    }
    let list = codec::encode_list(selectors, encode);
    codec::lemma_u32_round_trip(selectors.len(), list + tail);
    assert(codec::u32_le(selectors.len()) + list + tail =~= codec::u32_le(selectors.len()) + (list
        + tail));
    codec::lemma_list_round_trip(selectors, encode, parse, tail);
}

/// The sections of a key, taken apart from the front.
proof fn lemma_key_layout(
    version: u8,
    count: Seq<u8>,
    fixed: Seq<u8>,
    permutation: Seq<u8>,
    selectors: Seq<u8>,
    tail: Seq<u8>,
)
    ensures
        ({
            let s = seq![version] + (count + fixed) + permutation + selectors + tail;
            &&& s.len() > 0
            &&& s[0] == version
            &&& s.skip(1) == count + (fixed + (permutation + (selectors + tail)))
        }),
{
    let s = seq![version] + (count + fixed) + permutation + selectors + tail;
    assert(s.skip(1) =~= count + (fixed + (permutation + (selectors + tail))));
}

/// A verifying key is read back from its binary form with its constraint system and its
/// domain, whatever stands behind it: the commitments and the selectors are those that were
/// written, and what the key caches is computed anew.
pub proof fn lemma_key_round_trip<C: CurveAffine>(key: KeyModel<C>, n: nat, tail: Seq<u8>)
    requires
        key.encodable(n),
    ensures
        parse_key::<C>(key.encode() + tail, n, key.cs, key.domain) == Ok::<
            (KeyModel<C>, Seq<u8>),
            ReadError,
        >(
            (
                key_of(
                    key.domain,
                    key.fixed_commitments,
                    key.permutation,
                    key.cs,
                    key.selectors,
                ),
                tail,
            ),
        ),
{
    let fixed = permutation::encode_points(key.fixed_commitments);
    let permutation = permutation::encode_points(key.permutation);
    let count = codec::u32_le(key.fixed_commitments.len());
    let after_permutation = key.encode_selectors() + tail;
    let after_fixed = permutation + after_permutation;
    lemma_key_layout(0x01, count, fixed, permutation, key.encode_selectors(), tail);
    codec::lemma_u32_round_trip(key.fixed_commitments.len(), fixed + after_fixed);
    permutation::lemma_points_round_trip(key.fixed_commitments, after_fixed);
    permutation::lemma_points_round_trip(key.permutation, after_permutation);
    lemma_selectors_round_trip(key.selectors, n, tail);
}

/// A key that was put together from its parts is read back unchanged.
pub proof fn lemma_key_unchanged<C: CurveAffine>(
    domain: EvaluationDomain<C::Scalar>,
    fixed_commitments: Seq<C>,
    permutation: Seq<C>,
    cs: constraint_system::SystemModel<C::Scalar>,
    selectors: Seq<Seq<bool>>,
    n: nat,
    tail: Seq<u8>,
)
    requires
        key_of(domain, fixed_commitments, permutation, cs, selectors).encodable(n),
    ensures
        ({
            let key = key_of(domain, fixed_commitments, permutation, cs, selectors);
            parse_key::<C>(key.encode() + tail, n, cs, domain) == Ok::<
                (KeyModel<C>, Seq<u8>),
                ReadError,
            >((key, tail))
        }),
{
    let key = key_of(domain, fixed_commitments, permutation, cs, selectors);
    lemma_key_round_trip(key, n, tail);
}

/// Points that were read are proper, and as many as were asked for.
proof fn lemma_parsed_points<C: CurveAffine>(n: nat, s: Seq<u8>)
    ensures
        permutation::parse_points::<C>(n, s) matches Ok((points, _)) ==> {
            &&& points.len() == n
            &&& forall|i: int| 0 <= i < points.len() ==> (#[trigger] points[i]).wf()
        },
{
    let parse = |s: Seq<u8>| curve::parse_point::<C>(s);
    let good = |p: C| p.wf();
    codec::lemma_parsed_list(n, parse, s, good);
    if let Ok((points, _)) = permutation::parse_points::<C>(n, s) {
        assert forall|i: int| 0 <= i < points.len() implies (#[trigger] points[i]).wf() by {
            assert(good(points[i]));
        }
    }
}

/// Selectors that were read have as many rows as were asked for.
proof fn lemma_parsed_selectors(s: Seq<u8>, n: nat, expected: nat)
    ensures
        parse_selectors(s, n, expected) matches Ok((selectors, _)) ==> {
            &&& selectors.len() == expected
            &&& selectors.len() <= u32::MAX
            &&& forall|i: int| 0 <= i < selectors.len() ==> (#[trigger] selectors[i]).len() == n
        },
{
    let parse = |s: Seq<u8>| parse_rows(s, n);
    let good = |rows: Seq<bool>| rows.len() == n;
    if let Ok((_, rest)) = codec::parse_u32(s) {
        codec::lemma_parsed_list(expected, parse, rest, good);
        if let Ok((selectors, _)) = parse_selectors(s, n, expected) {
            assert forall|i: int| 0 <= i < selectors.len() implies (
            #[trigger] selectors[i]).len() == n by {
                assert(good(selectors[i]));
            }
        }
    }
}

/// A verifying key that was read can be written and read back unchanged.
pub proof fn lemma_key_read_again<C: CurveAffine>(
    s: Seq<u8>,
    n: nat,
    cs: constraint_system::SystemModel<C::Scalar>,
    domain: EvaluationDomain<C::Scalar>,
    tail: Seq<u8>,
)
    ensures
        parse_key::<C>(s, n, cs, domain) matches Ok((key, _)) ==> {
            &&& key.encodable(n)
            &&& parse_key::<C>(key.encode() + tail, n, cs, domain) == Ok::<
                (KeyModel<C>, Seq<u8>),
                ReadError,
            >((key, tail))
        },
{
    if let Ok((_, rest)) = codec::parse_u8(s) {
        if let Ok((num_fixed_columns, rest)) = codec::parse_u32(rest) {
            lemma_parsed_points::<C>(num_fixed_columns as nat, rest);
            if let Ok((_, rest)) = permutation::parse_points::<C>(num_fixed_columns as nat, rest) {
                lemma_parsed_points::<C>(cs.permutation.len(), rest);
                if let Ok((_, rest)) = permutation::parse_points::<C>(cs.permutation.len(), rest) {
                    lemma_parsed_selectors(rest, n, cs.num_selectors);
                }
            }
        }
    }
    if let Ok((key, _)) = parse_key::<C>(s, n, cs, domain) {
        lemma_key_round_trip(key, n, tail);
    }
}

/// A key can be restored without its circuit: from its constraint system and the key itself,
/// written one behind the other, the same system and then the same key are read back.
pub proof fn lemma_restored_without_circuit<C: CurveAffine>(
    domain: EvaluationDomain<C::Scalar>,
    fixed_commitments: Seq<C>,
    permutation: Seq<C>,
    cs: constraint_system::SystemModel<C::Scalar>,
    selectors: Seq<Seq<bool>>,
    n: nat,
    tail: Seq<u8>,
)
    requires
        cs.encodable(),
        key_of(domain, fixed_commitments, permutation, cs, selectors).encodable(n),
    ensures
        ({
            let key = key_of(domain, fixed_commitments, permutation, cs, selectors);
            let rest = key.encode() + tail;
            &&& system_codec::parse_system::<C::Scalar>(cs.encode() + rest) == Ok::<
                (constraint_system::SystemModel<C::Scalar>, Seq<u8>),
                ReadError,
            >((cs, rest))
            &&& parse_key::<C>(rest, n, cs, domain) == Ok::<(KeyModel<C>, Seq<u8>), ReadError>(
                (key, tail),
            )
        }),
{
    let key = key_of(domain, fixed_commitments, permutation, cs, selectors);
    system_codec::lemma_system_round_trip(cs, key.encode() + tail);
    lemma_key_round_trip(key, n, tail);
}

/// Keys with the same pinned form have the same representative in transcripts, whatever
/// their selectors are.
pub proof fn lemma_representative<C: CurveAffine>(
    domain: EvaluationDomain<C::Scalar>,
    fixed_commitments: Seq<C>,
    permutation: Seq<C>,
    a: constraint_system::SystemModel<C::Scalar>,
    a_selectors: Seq<Seq<bool>>,
    b: constraint_system::SystemModel<C::Scalar>,
    b_selectors: Seq<Seq<bool>>,
)
    requires
        a.pinned_text() == b.pinned_text(),
    ensures
        key_of(domain, fixed_commitments, permutation, a, a_selectors).transcript_repr == key_of(
            domain,
            fixed_commitments,
            permutation,
            b,
            b_selectors,
        ).transcript_repr,
{
}

// ---------------------------------------------------------------------------------
// Progress
// ---------------------------------------------------------------------------------

/// What is reported of the version byte of a key.
pub open spec fn version_line(version: u8) -> Seq<char> {
    "  version_byte: 0x"@ + text::hex_text(seq![version])
}

/// What is reported of a number that stands in a key.
pub open spec fn count_line(start: Seq<char>, count: nat) -> Seq<char> {
    start + text::decimal(count)
}

/// What is reported while a key with `columns` columns in its permutation argument is read
/// from `s`: the version byte, the number of fixed columns, that the permutation argument
/// comes next, and the number of selectors, as far as the reading comes.
pub open spec fn read_log<C: CurveAffine>(s: Seq<u8>, columns: nat) -> Seq<Seq<char>> {
    match codec::parse_u8(s) {
        Ok((version, rest)) => seq![version_line(version)] + (if version == 0x01 {
            commitments_log::<C>(rest, columns)
        } else {
            seq![]
        }),
        Err(_) => seq![],
    }
}

/// What is reported behind the version byte.
pub open spec fn commitments_log<C: CurveAffine>(s: Seq<u8>, columns: nat) -> Seq<Seq<char>> {
    match codec::parse_u32(s) {
        Ok((n, rest)) => seq![count_line("  num_fixed_columns from VK: "@, n as nat)] + (
        match permutation::parse_points::<C>(n as nat, rest) {
            Ok((_, rest)) => seq!["  Reading permutation verifying key..."@] + (
            match permutation::parse_points::<C>(columns, rest) {
                Ok((_, rest)) => match codec::parse_u32(rest) {
                    Ok((n, _)) => seq![count_line("  num_selectors from VK: "@, n as nat)],
                    Err(_) => seq![],
                },
                Err(_) => seq![],
            }),
            Err(_) => seq![],
        }),
        Err(_) => seq![],
    }
}

/// Returns what is reported of a number that stands in a key.
fn report_count(start: &str, count: u32) -> (line: String)
    ensures
        line@ == count_line(start@, count as nat),
{
    let mut line = String::new();
    line.append(start);
    text::append_usize(&mut line, count as usize);
    assert(line@ =~= count_line(start@, count as nat));
    line
}

/// Adds what is reported behind the version byte.
fn report_commitments<C: CurveAffine>(
    log: &mut Vec<String>,
    reader: &mut Reader<'_>,
    cs: &ConstraintSystem<C::Scalar>,
)
    ensures
        lines_text(final(log)@) == lines_text(old(log)@) + commitments_log::<C>(
            old(reader)@,
            cs@.permutation.len(),
        ),
{
    let ghost start = reader@;
    let ghost before = lines_text(log@);
    let ghost columns = cs@.permutation.len();
    let n = match codec::read_u32(reader) {
        Ok(n) => n,
        Err(_) => {
            assert(before =~= before + commitments_log::<C>(start, columns));
            return;
        },
    };
    let line = report_count("  num_fixed_columns from VK: ", n);
    let ghost first = line@;
    log.push(line);
    assert(lines_text(log@) =~= before.push(first));
    if permutation::read_points::<C>(reader, n as usize).is_err() {
        assert(before.push(first) =~= before + commitments_log::<C>(start, columns));
        return;
    }
    let line = "  Reading permutation verifying key...".to_string();
    let ghost second = line@;
    log.push(line);
    assert(lines_text(log@) =~= before.push(first).push(second));
    if permutation::VerifyingKey::<C>::read(reader, &cs.permutation).is_err() {
        assert(before.push(first).push(second) =~= before + commitments_log::<C>(start, columns));
        return;
    }
    match codec::read_u32(reader) {
        Ok(n) => {
            let line = report_count("  num_selectors from VK: ", n);
            let ghost third = line@;
            log.push(line);
            assert(lines_text(log@) =~= before.push(first).push(second).push(third));
            assert(before.push(first).push(second).push(third) =~= before + commitments_log::<C>(
                start,
                columns,
            ));
        },
        Err(_) => {
            assert(before.push(first).push(second) =~= before + commitments_log::<C>(
                start,
                columns,
            ));
        },
    }
}

/// Returns what there is to report while a key for the constraint system `cs` is read from
/// `bytes`, as far as the reading comes.
pub fn report_read<C: CurveAffine>(bytes: &[u8], cs: &ConstraintSystem<C::Scalar>) -> (log: Vec<
    String,
>)
    ensures
        lines_text(log@) == read_log::<C>(bytes@, cs@.permutation.len()),
{
    let mut log: Vec<String> = Vec::new();
    let mut reader = Reader::new(bytes);
    match codec::read_u8(&mut reader) {
        Ok(version) => {
            let mut line = "  version_byte: 0x".to_string();
            text::append_hex_byte(&mut line, version);
            assert(line@ =~= version_line(version));
            log.push(line);
            assert(lines_text(log@) =~= seq![version_line(version)]);
            if version == 0x01 {
                report_commitments::<C>(&mut log, &mut reader, cs);
            } else {
                assert(seq![version_line(version)] + seq![] =~= seq![version_line(version)]);
            }
        },
        Err(_) => {
            assert(lines_text(log@) =~= seq![]);
        },
    }
    log
}

// ---------------------------------------------------------------------------------
// Proving key
// ---------------------------------------------------------------------------------

/// What some polynomials hold.
pub open spec fn polynomials<F>(polys: Seq<Vec<F>>) -> Seq<Seq<F>> {
    polys.map_values(|poly: Vec<F>| poly@)
}

/// Copies some polynomials.
fn copied_polynomials<F: Copy>(polys: &Vec<Vec<F>>) -> (r: Vec<Vec<F>>)
    ensures
        polynomials(r@) == polynomials(polys@),
{
    let mut r: Vec<Vec<F>> = Vec::new();
    let mut i: usize = 0;
    while i < polys.len()
        invariant
            i <= polys@.len(),
            polynomials(r@) == polynomials(polys@.take(i as int)),
        decreases polys@.len() - i,
    {
        let ghost done = r@;
        let ghost poly = polys@[i as int]@;
        r.push(list::copied(&polys[i]));
        proof {
            assert(polynomials(r@) =~= polynomials(done).push(poly));
            assert(polynomials(polys@.take(i + 1)) =~= polynomials(polys@.take(i as int)).push(
                poly,
            ));
        }
        i = i + 1;
    }
    assert(polys@.take(i as int) =~= polys@);
    r
}

/// This is a proving key which allows for the creation of proofs for a
/// particular circuit. Polynomials are held as their coefficients or evaluations.
#[derive(Debug)]
pub struct ProvingKey<C: CurveAffine> {
    /// The verifying key of the circuit.
    pub vk: VerifyingKey<C>,
    /// The polynomial that is one on the first row, on the extended domain.
    pub l0: Vec<C::Scalar>,
    /// The polynomial that is one on the blinding rows, on the extended domain.
    pub l_blind: Vec<C::Scalar>,
    /// The polynomial that is one on the last row, on the extended domain.
    pub l_last: Vec<C::Scalar>,
    /// The values of the fixed columns.
    pub fixed_values: Vec<Vec<C::Scalar>>,
    /// The polynomials of the fixed columns.
    pub fixed_polys: Vec<Vec<C::Scalar>>,
    /// The polynomials of the fixed columns on the extended domain.
    pub fixed_cosets: Vec<Vec<C::Scalar>>,
}

impl<C: CurveAffine> Clone for ProvingKey<C> {
    fn clone(&self) -> (r: Self)
        ensures
            r.vk@ == self.vk@,
            r.l0@ == self.l0@,
            r.l_blind@ == self.l_blind@,
            r.l_last@ == self.l_last@,
            polynomials(r.fixed_values@) == polynomials(self.fixed_values@),
            polynomials(r.fixed_polys@) == polynomials(self.fixed_polys@),
            polynomials(r.fixed_cosets@) == polynomials(self.fixed_cosets@),
    {
        ProvingKey {
            vk: self.vk.clone(),
            l0: list::copied(&self.l0),
            l_blind: list::copied(&self.l_blind),
            l_last: list::copied(&self.l_last),
            fixed_values: copied_polynomials(&self.fixed_values),
            fixed_polys: copied_polynomials(&self.fixed_polys),
            fixed_cosets: copied_polynomials(&self.fixed_cosets),
        }
    }
}

impl<C: CurveAffine> ProvingKey<C> {
    /// Get the underlying [`VerifyingKey`].
    pub fn get_vk(&self) -> (vk: &VerifyingKey<C>)
        ensures
            *vk == self.vk,
    {
        &self.vk
    }
}

} // verus!
