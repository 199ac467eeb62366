use ff::{FromUniformBytes as _, PrimeField as _};
use group::prime::PrimeCurveAffine as _;
use group::GroupEncoding as _;
use sha2::Digest as _;

use halo2_plonk::codec::{ReadError, Reader};
use halo2_plonk::constraint_system::ConstraintSystem;
use halo2_plonk::curve::{CurveAffine, EqAffine};
use halo2_plonk::domain::{EvaluationDomain, Params};
use halo2_plonk::field::{Fp, PrimeField};
use halo2_plonk::permutation;
use halo2_plonk::rotation::Rotation;
use halo2_plonk::verifying_key::{
    report_line, report_read, transcript_hash, transcript_preimage, ProvingKey, VerifyingKey,
};

fn fp(n: u8) -> Fp {
    let mut bytes = [0u8; 32];
    bytes[0] = n;
    Fp::from_repr(&bytes).unwrap()
}

/// A multiple of the generator.
fn pasta_point(n: u64) -> pasta_curves::EqAffine {
    let p = pasta_curves::EqAffine::generator() * pasta_curves::Fp::from(n);
    group::Curve::to_affine(&p)
}

fn point(n: u64) -> EqAffine {
    EqAffine::from_bytes(&pasta_point(n).to_bytes()).unwrap()
}

fn system() -> ConstraintSystem<Fp> {
    let mut meta = ConstraintSystem::<Fp>::default();
    let a = meta.advice_column();
    let b = meta.advice_column();
    let s = meta.selector();
    let _t = meta.complex_selector();
    meta.create_gate("g", |meta| {
        let a = meta.query_advice(a, Rotation(0));
        let s = meta.query_selector(s);
        vec![s * a]
    });
    meta.enable_equality(a);
    meta.enable_equality(b);
    meta
}

fn rows() -> Vec<Vec<bool>> {
    let mut first = vec![false; 11];
    first[0] = true;
    first[9] = true;
    vec![first, vec![true; 11]]
}

fn domain(degree: u32, k: u32) -> EvaluationDomain<Fp> {
    EvaluationDomain { k, extended_k: k + degree, omega: fp(17) }
}

fn key() -> VerifyingKey<EqAffine> {
    VerifyingKey::from_parts(
        domain(3, 4),
        vec![point(1), point(2), point(0)],
        permutation::VerifyingKey { commitments: vec![point(5), point(6)] },
        system(),
        rows(),
    )
}

fn params() -> Params {
    Params { k: 4, n: 11 }
}

fn key_bytes() -> Vec<u8> {
    let mut out = vec![1, 3, 0, 0, 0];
    for n in [1, 2, 0, 5, 6] {
        out.extend_from_slice(&pasta_point(n).to_bytes());
    }
    out.extend_from_slice(&[2, 0, 0, 0, 0x01, 0x02, 0xff, 0x07]);
    out
}

fn read(bytes: &[u8]) -> Result<VerifyingKey<EqAffine>, ReadError> {
    VerifyingKey::from_bytes_with_cs(bytes, &params(), system(), vec![], domain)
}

#[test]
fn points_are_known_by_their_encoding() {
    for n in [0, 1, 2, 3, 1000] {
        let p = point(n);
        assert_eq!(p.to_bytes(), pasta_point(n).to_bytes().to_vec());
        assert_eq!(p.debug(), format!("{:?}", pasta_point(n)));
    }
    assert_eq!(point(0).debug(), "Infinity");
    assert!(point(1).debug().starts_with("(0x"));
    assert_eq!(point(1).debug().len(), 2 * 66 + 4);
    assert!(EqAffine::from_bytes(&[0xff; 32]).is_none());
    let refused = (1u8..=20).filter(|x| {
        let mut bytes = [0u8; 32];
        bytes[0] = *x;
        EqAffine::from_bytes(&bytes).is_none()
    });
    assert!(refused.count() > 0);
    assert_eq!(EqAffine::encoding_size(), 32);
    assert_eq!(
        EqAffine::base_modulus(),
        "0x40000000000000000000000000000000224698fc0994a8dd8c46eb2100000001"
    );
}

#[test]
fn the_same_field_elements_are_read_as_in_the_curve_crate() {
    for n in [0u64, 1, 99, u64::MAX] {
        let f = pasta_curves::Fp::from(n);
        let g = Fp::from_repr(&f.to_repr()).unwrap();
        assert_eq!(g.to_repr(), f.to_repr().to_vec());
        assert_eq!(g.debug(), format!("{:?}", f));
    }
}

#[test]
fn a_key_has_its_binary_form() {
    let mut out = vec![9];
    let log = key().write(&mut out);
    assert_eq!(out[1..], key_bytes());

    let bytes = key_bytes();
    let sha = |part: &[u8]| hex::encode(sha2::Sha256::digest(part));
    assert_eq!(
        log,
        vec![
            format!(
                "halo2::write::vk::fixed_commitments::(checksum::{},length::100) ",
                sha(&bytes[1..101])
            ),
            format!(
                "halo2::write::vk::permutation::(checksum::{},len::64)",
                sha(&bytes[101..165])
            ),
            format!(
                "halo2::write::vk::selectors::(checksum::{},length::8)",
                sha(&bytes[165..173])
            ),
            format!("halo2::write::vk::(checksum::{},length::173)", sha(&bytes)),
        ]
    );
}

#[test]
fn a_report_line_shows_the_hash_in_hexadecimal() {
    assert_eq!(
        report_line("a(", &[0x00, 0x9f, 0xe1], ",length::", 42, ")"),
        "a(009fe1,length::42)"
    );
}

#[test]
fn a_key_is_read_back() {
    let mut out = Vec::new();
    key().write(&mut out);
    let back = read(&out).unwrap();
    assert_eq!(back.pinned().debug(), key().pinned().debug());
    assert_eq!(back.selectors, rows());
    assert_eq!(back.cs_degree, 3);
    assert_eq!(back.transcript_repr, key().transcript_repr);
    assert_eq!(back.cs().pinned().debug(), system().pinned().debug());
    // The degree and the number of rows are handed to the domain.
    assert_eq!(back.get_domain().k, 4);
    assert_eq!(back.get_domain().extended_k, 7);
    let mut again = Vec::new();
    back.write(&mut again);
    assert_eq!(again, out);

    out.extend_from_slice(&[1, 2]);
    let mut reader = Reader::new(&out);
    let back = VerifyingKey::<EqAffine>::read_with_cs(
        &mut reader,
        &params(),
        system(),
        vec![vec![true]],
        domain,
    )
    .unwrap();
    assert_eq!(reader.remaining(), &[1, 2]);
    assert_eq!(back.selectors, rows());
}

#[test]
fn a_key_is_restored_without_its_circuit() {
    let mut out = Vec::new();
    system().write(&mut out);
    key().write(&mut out);
    let mut reader = Reader::new(&out);
    let cs = ConstraintSystem::<Fp>::read(&mut reader).unwrap();
    let back =
        VerifyingKey::<EqAffine>::read_with_cs(&mut reader, &params(), cs, vec![], domain).unwrap();
    assert!(reader.remaining().is_empty());
    assert_eq!(back.transcript_repr, key().transcript_repr);
    assert_eq!(back.selectors, rows());
    assert_eq!(back.fixed_commitments, key().fixed_commitments);
}

#[test]
fn bits_behind_the_last_row_are_ignored() {
    let mut bytes = key_bytes();
    *bytes.last_mut().unwrap() = 0xff;
    assert_eq!(read(&bytes).unwrap().selectors, rows());
}

#[test]
fn bad_keys_are_refused() {
    let bytes = key_bytes();
    for n in 0..bytes.len() {
        assert_eq!(read(&bytes[..n]).err(), Some(ReadError::UnexpectedEof));
    }
    let mut version = bytes.clone();
    version[0] = 2;
    assert_eq!(read(&version).err(), Some(ReadError::UnexpectedVersion(2)));
    let mut fixed = bytes.clone();
    fixed[5..37].copy_from_slice(&[0xff; 32]);
    assert_eq!(read(&fixed).err(), Some(ReadError::InvalidPoint));
    let mut permutation = bytes.clone();
    permutation[101..133].copy_from_slice(&[0xff; 32]);
    assert_eq!(read(&permutation).err(), Some(ReadError::InvalidPoint));
    let mut selectors = bytes.clone();
    selectors[165] = 3;
    assert_eq!(
        read(&selectors).err(),
        Some(ReadError::SelectorCountMismatch { expected: 2, found: 3 })
    );
}

#[test]
fn the_pinned_key_is_printed() {
    let expected = format!(
        "PinnedVerificationKey {{ base_modulus: \
         \"0x40000000000000000000000000000000224698fc0994a8dd8c46eb2100000001\", scalar_modulus: \
         \"0x40000000000000000000000000000000224698fc094cf91b992d30ed00000001\", domain: \
         PinnedEvaluationDomain {{ k: 4, extended_k: 7, omega: 0x{:064x} }}, cs: {}, \
         fixed_commitments: {:?}, permutation: VerifyingKey {{ commitments: {:?} }} }}",
        17,
        system().pinned().debug(),
        vec![pasta_point(1), pasta_point(2), pasta_point(0)],
        vec![pasta_point(5), pasta_point(6)],
    );
    assert_eq!(key().pinned().debug(), expected);
    assert_eq!(format!("{:?}", key().pinned()), expected);
    assert_eq!(*key().pinned().domain.k, 4);
    assert_eq!(*key().pinned().cs.num_fixed_columns, system().num_fixed_columns);
    assert_eq!(
        format!("{:?} {:?}", point(5), point(0)),
        format!("{:?} {:?}", pasta_point(5), pasta_point(0))
    );
}

#[test]
fn a_key_is_represented_by_the_hash_of_its_pinned_form() {
    let text = key().pinned().debug();
    let mut preimage = (text.len() as u64).to_le_bytes().to_vec();
    preimage.extend_from_slice(text.as_bytes());
    assert_eq!(transcript_preimage(&text), preimage);
    let hash = blake2b_simd::Params::new()
        .hash_length(64)
        .personal(b"Halo2-Verify-Key")
        .to_state()
        .update(&(text.len() as u64).to_le_bytes())
        .update(text.as_bytes())
        .finalize();
    assert_eq!(transcript_hash(&text), *hash.as_array());
    let expected = pasta_curves::Fp::from_uniform_bytes(hash.as_array());
    assert_eq!(key().transcript_repr.to_repr(), expected.to_repr().to_vec());
    assert_eq!(key().hash_into(|scalar| scalar), key().transcript_repr);
    assert_eq!(key().clone().transcript_repr, key().transcript_repr);
}

#[test]
fn a_key_can_be_given_its_hash() {
    let mut hash = [0u8; 64];
    hash[0] = 77;
    let vk = VerifyingKey::<EqAffine>::with_hash(
        domain(3, 4),
        vec![],
        permutation::VerifyingKey { commitments: vec![] },
        system(),
        rows(),
        &hash,
    );
    assert_eq!(vk.transcript_repr, fp(77));
    assert_eq!(vk.cs_degree, 3);
}

#[test]
fn selectors_do_not_change_the_representative() {
    let mut other = key();
    other.selectors = vec![vec![false; 11]; 2];
    let other = VerifyingKey::from_parts(
        *other.get_domain(),
        other.fixed_commitments.clone(),
        other.permutation.clone(),
        other.cs(),
        other.selectors,
    );
    assert_eq!(other.transcript_repr, key().transcript_repr);
    let fewer = VerifyingKey::from_parts(
        domain(3, 4),
        vec![point(1)],
        key().permutation,
        system(),
        rows(),
    );
    assert_ne!(fewer.transcript_repr, key().transcript_repr);
}

#[test]
fn a_proving_key_holds_its_verifying_key() {
    let pk = ProvingKey {
        vk: key(),
        l0: vec![fp(1), fp(2)],
        l_blind: vec![],
        l_last: vec![],
        fixed_values: vec![],
        fixed_polys: vec![vec![fp(3)], vec![]],
        fixed_cosets: vec![],
    };
    assert_eq!(pk.get_vk().transcript_repr, key().transcript_repr);
    let copy = pk.clone();
    assert_eq!(copy.vk.transcript_repr, key().transcript_repr);
    assert_eq!(copy.l0, vec![fp(1), fp(2)]);
    assert_eq!(copy.fixed_polys, vec![vec![fp(3)], vec![]]);
    assert!(copy.l_blind.is_empty() && copy.l_last.is_empty());
    assert!(copy.fixed_values.is_empty() && copy.fixed_cosets.is_empty());
}

#[test]
fn the_reading_of_a_key_is_reported() {
    let bytes = key_bytes();
    let log = report_read::<EqAffine>(&bytes, &system());
    assert_eq!(
        log,
        vec![
            "  version_byte: 0x01".to_string(),
            format!("  num_fixed_columns from VK: {}", key().fixed_commitments.len()),
            "  Reading permutation verifying key...".to_string(),
            format!("  num_selectors from VK: {}", rows().len()),
        ]
    );
    assert_eq!(report_read::<EqAffine>(&bytes[..bytes.len() - 1], &system()), log);
    assert_eq!(report_read::<EqAffine>(&bytes[..6], &system()), log[..2]);
    assert_eq!(report_read::<EqAffine>(&[0x2a, 1, 2], &system()), vec!["  version_byte: 0x2a"]);
    assert!(report_read::<EqAffine>(&[], &system()).is_empty());
}
