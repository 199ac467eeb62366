//! Where what stands in the binary forms, byte by byte, and which bytes are refused.

use vstd::prelude::*;

use crate::bits;
use crate::codec;
use crate::codec::ReadError;
use crate::column::{Advice, Any, Column, ColumnType, Fixed, Instance};
use crate::constraint_system;
use crate::curve;
use crate::curve::CurveAffine;
use crate::domain::EvaluationDomain;
use crate::expression;
use crate::expression::{Expression, Selector};
use crate::field;
use crate::field::PrimeField;
use crate::gate;
use crate::gate::VirtualCell;
use crate::lookup;
use crate::permutation;
use crate::rotation::Rotation;
use crate::system_codec;
use crate::verifying_key;

verus! {

// ---------------------------------------------------------------------------------
// Integers, lists and names
// ---------------------------------------------------------------------------------

/// Integers are written lowest byte first: the bytes are the digits of the integer to the base
/// 256, as many as there is room for.
pub proof fn lemma_integer_bytes(x: nat, y: i32)
    ensures
        codec::u16_le(x).len() == 2,
        codec::u16_le(x)[0] + 0x100 * codec::u16_le(x)[1] == x % 0x1_0000,
        codec::u32_le(x).len() == 4,
        codec::u32_le(x)[0] + 0x100 * codec::u32_le(x)[1] + 0x1_0000 * codec::u32_le(x)[2]
            + 0x100_0000 * codec::u32_le(x)[3] == x % 0x1_0000_0000,
        codec::u64_le(x).len() == 8,
        codec::u64_le(x).take(4) == codec::u32_le(x),
        codec::u64_le(x).skip(4) == codec::u32_le(x / 0x1_0000_0000),
        codec::i32_le(y).len() == 4,
        y >= 0 ==> codec::i32_le(y) == codec::u32_le(y as nat),
        y < 0 ==> codec::i32_le(y) == codec::u32_le((0x1_0000_0000 + y) as nat),
{
    lemma_low_bytes(x);
    lemma_four_bytes(x);
    lemma_same_bytes(x);
    assert(codec::u32_le(x % 0x1_0000_0000) =~= codec::u32_le(x));
    assert(codec::u64_le(x).take(4) =~= codec::u32_le(x));
    assert(codec::u64_le(x).skip(4) =~= codec::u32_le(x / 0x1_0000_0000));
    if y < 0 {
        assert(y as int % 0x1_0000_0000 == 0x1_0000_0000 + y);
    }
}

proof fn lemma_low_bytes(x: nat)
    ensures
        x % 256 + 0x100 * (x / 256 % 256) == x % 0x1_0000,
{
}

proof fn lemma_four_bytes(x: nat)
    ensures
        x % 256 + 0x100 * (x / 256 % 256) + 0x1_0000 * (x / 0x1_0000 % 256) + 0x100_0000 * (x
            / 0x100_0000 % 256) == x % 0x1_0000_0000,
{
    let high = x / 0x1_0000;
    lemma_low_bytes(x);
    lemma_low_bytes(high);
    assert(high / 256 == x / 0x100_0000);
    assert(x % 0x1_0000 + 0x1_0000 * (high % 0x1_0000) == x % 0x1_0000_0000);
}

proof fn lemma_same_bytes(x: nat)
    ensures
        (x % 0x1_0000_0000) % 256 == x % 256,
        (x % 0x1_0000_0000) / 256 % 256 == x / 256 % 256,
        (x % 0x1_0000_0000) / 0x1_0000 % 256 == x / 0x1_0000 % 256,
        (x % 0x1_0000_0000) / 0x100_0000 % 256 == x / 0x100_0000 % 256,
{
    let q = x / 0x1_0000_0000;
    let r = x % 0x1_0000_0000;
    assert(x == 0x1_0000_0000 * q + r);
    assert(x / 256 == 0x100_0000 * q + r / 256);
    assert(x / 0x1_0000 == 0x1_0000 * q + r / 0x1_0000);
    assert(x / 0x100_0000 == 0x100 * q + r / 0x100_0000);
}

/// Integers are read lowest byte first, from as many bytes as they take, and the input is
/// refused as too short exactly if it has fewer.
pub proof fn lemma_integers_read(s: Seq<u8>)
    ensures
        codec::parse_u8(s) == (if s.len() < 1 {
            Err(ReadError::UnexpectedEof)
        } else {
            Ok((s[0], s.skip(1)))
        }),
        s.len() < 2 ==> codec::parse_u16(s) == Err::<(u16, Seq<u8>), ReadError>(
            ReadError::UnexpectedEof,
        ),
        s.len() >= 2 ==> (codec::parse_u16(s) matches Ok((x, rest)) && x == s[0] + 0x100 * s[1]
            && rest == s.skip(2)),
        s.len() < 4 ==> codec::parse_u32(s) == Err::<(u32, Seq<u8>), ReadError>(
            ReadError::UnexpectedEof,
        ),
        s.len() >= 4 ==> (codec::parse_u32(s) matches Ok((x, rest)) && x == s[0] + 0x100 * s[1]
            + 0x1_0000 * s[2] + 0x100_0000 * s[3] && rest == s.skip(4)),
        s.len() < 4 ==> codec::parse_i32(s) == Err::<(i32, Seq<u8>), ReadError>(
            ReadError::UnexpectedEof,
        ),
        s.len() >= 4 ==> (codec::parse_i32(s) matches Ok((x, rest)) && x == s[0] + 0x100 * s[1]
            + 0x1_0000 * s[2] + 0x100_0000 * s[3] - (if s[3] >= 0x80 {
            0x1_0000_0000int
        } else {
            0
        }) && rest == s.skip(4)),
{
}

/// Some bytes are read as they are, and the input is refused as too short exactly if it has
/// fewer.
pub proof fn lemma_bytes_read(n: nat, s: Seq<u8>)
    ensures
        s.len() < n ==> codec::parse_bytes(n, s) == Err::<(Seq<u8>, Seq<u8>), ReadError>(
            ReadError::UnexpectedEof,
        ),
        s.len() >= n ==> (codec::parse_bytes(n, s) matches Ok((bytes, rest)) && bytes.len() == n
            && bytes + rest == s),
{
    if s.len() >= n {
        assert(s.take(n as int) + s.skip(n as int) =~= s);
    }
}

/// Lists are written item by item: an empty list takes no bytes, a list of one item is written
/// as the item, and two lists that are put together are written one behind the other. In front
/// of a counted list stands its length.
pub proof fn lemma_list_layout<V>(
    a: Seq<V>,
    b: Seq<V>,
    v: V,
    encode: spec_fn(V) -> Seq<u8>,
)
    ensures
        codec::encode_list(Seq::<V>::empty(), encode).len() == 0,
        codec::encode_list(seq![v], encode) == encode(v),
        codec::encode_list(a + b, encode) == codec::encode_list(a, encode) + codec::encode_list(
            b,
            encode,
        ),
        codec::encode_counted(a, encode).len() >= 2,
        codec::encode_counted(a, encode)[0] + 0x100 * codec::encode_counted(a, encode)[1]
            == a.len() % 0x1_0000,
        codec::encode_counted(a, encode).skip(2) == codec::encode_list(a, encode),
    decreases b.len(),
{
    reveal_with_fuel(codec::encode_list, 2);
    assert(seq![v].drop_last() =~= seq![]);
    assert(codec::encode_list(seq![v], encode) =~= encode(v));
    lemma_low_bytes(a.len());
    assert(codec::encode_counted(a, encode).skip(2) =~= codec::encode_list(a, encode));
    if b.len() == 0 {
        assert(a + b =~= a);
        assert(codec::encode_list(a, encode) =~= codec::encode_list(a, encode)
            + codec::encode_list(b, encode));
    } else {
        lemma_list_layout(a, b.drop_last(), v, encode);
        assert((a + b).drop_last() =~= a + b.drop_last());
        assert((a + b).last() == b.last());
        assert(codec::encode_list(a + b, encode) =~= codec::encode_list(a, encode)
            + codec::encode_list(b, encode));
    }
}

/// Lists are read item by item: reading `m + n` items is reading `m` items and then `n` more,
/// and the first failure is the failure of the whole. A counted list is read by the number in
/// front of it.
pub proof fn lemma_list_read<V>(
    m: nat,
    n: nat,
    parse: spec_fn(Seq<u8>) -> codec::Parsed<V>,
    s: Seq<u8>,
)
    ensures
        codec::parse_list(0, parse, s) == Ok::<(Seq<V>, Seq<u8>), ReadError>((seq![], s)),
        codec::parse_list(1, parse, s) == (match parse(s) {
            Ok((v, rest)) => Ok((seq![v], rest)),
            Err(e) => Err(e),
        }),
        codec::parse_list(m + n, parse, s) == (match codec::parse_list(m, parse, s) {
            Ok((vs, rest)) => match codec::parse_list(n, parse, rest) {
                Ok((ws, rest)) => Ok((vs + ws, rest)),
                Err(e) => Err(e),
            },
            Err(e) => Err(e),
        }),
        s.len() < 2 ==> codec::parse_counted(parse, s) == Err::<(Seq<V>, Seq<u8>), ReadError>(
            ReadError::UnexpectedEof,
        ),
        s.len() >= 2 ==> codec::parse_counted(parse, s) == codec::parse_list(
            (s[0] + 0x100 * s[1]) as nat,
            parse,
            s.skip(2),
        ),
    decreases n,
{
    reveal_with_fuel(codec::parse_list, 2);
    if let Ok((v, rest)) = parse(s) {
        assert(Seq::<V>::empty().push(v) =~= seq![v]);
    }
    if n == 0 {
        if let Ok((vs, rest)) = codec::parse_list(m, parse, s) {
            assert(vs + Seq::<V>::empty() =~= vs);
        }
    } else {
        let k = (n - 1) as nat;
        lemma_list_read(m, k, parse, s);
        if let Ok((vs, rest)) = codec::parse_list(m, parse, s) {
            if let Ok((ws, rest)) = codec::parse_list(k, parse, rest) {
                if let Ok((w, _)) = parse(rest) {
                    assert((vs + ws).push(w) =~= vs + ws.push(w));
                }
            }
        }
    }
}

/// A name is written as the number of its bytes and the bytes of its UTF-8 form, and read from
/// them: it is refused as too short exactly if the bytes are not all there, and otherwise if
/// they are not valid UTF-8, with the length of the longest valid start.
pub proof fn lemma_name_layout(name: Seq<char>, s: Seq<u8>)
    ensures
        codec::encode_name(name).len() >= 2,
        codec::encode_name(name)[0] + 0x100 * codec::encode_name(name)[1]
            == vstd::utf8::encode_utf8(name).len() % 0x1_0000,
        codec::encode_name(name).skip(2) == vstd::utf8::encode_utf8(name),
        match codec::parse_name(s) {
            Ok((name, rest)) => {
                &&& s.len() >= 2
                &&& vstd::utf8::encode_utf8(name).len() == s[0] + 0x100 * s[1]
                &&& s.skip(2) == vstd::utf8::encode_utf8(name) + rest
            },
            Err(ReadError::UnexpectedEof) => s.len() < 2 || s.len() < 2 + s[0] + 0x100 * s[1],
            Err(ReadError::InvalidName { valid_up_to, .. }) => {
                let n = s[0] + 0x100 * s[1];
                let bytes = s.subrange(2, 2 + n);
                &&& s.len() >= 2 + n
                &&& !vstd::utf8::valid_utf8(bytes)
                &&& valid_up_to <= n
                &&& vstd::utf8::valid_utf8(bytes.take(valid_up_to as int)) || valid_up_to == 0
                &&& forall|k: int|
                    valid_up_to < k <= n ==> !vstd::utf8::valid_utf8(#[trigger] bytes.take(k))
            },
            Err(_) => false,
        },
{
    lemma_low_bytes(vstd::utf8::encode_utf8(name).len());
    assert(codec::encode_name(name).skip(2) =~= vstd::utf8::encode_utf8(name));
    if s.len() >= 2 {
        let n = s[0] + 0x100 * s[1];
        let rest = s.skip(2);
        if rest.len() >= n {
            let bytes = rest.take(n);
            assert(bytes =~= s.subrange(2, 2 + n));
            if vstd::utf8::valid_utf8(bytes) {
                vstd::utf8::decode_utf8_encode_utf8(bytes);
                assert(rest =~= bytes + rest.skip(n));
            } else {
                lemma_valid_prefix(bytes, bytes.len());
            }
        }
    }
}

proof fn lemma_valid_prefix(bytes: Seq<u8>, n: nat)
    ensures
        codec::valid_prefix(bytes, n) <= n,
        codec::valid_prefix(bytes, n) == 0 || vstd::utf8::valid_utf8(
            bytes.take(codec::valid_prefix(bytes, n) as int),
        ),
        forall|k: int|
            codec::valid_prefix(bytes, n) < k <= n ==> !vstd::utf8::valid_utf8(
                #[trigger] bytes.take(k),
            ),
    decreases n,
{
    if n > 0 && !vstd::utf8::valid_utf8(bytes.take(n as int)) {
        lemma_valid_prefix(bytes, (n - 1) as nat);
    }
}

/// A read that is described by `parsed` returns exactly what `parsed` says: the value, with the
/// reader behind it, or the error.
pub proof fn lemma_reads<T>(
    r: Result<T, ReadError>,
    parsed: codec::Parsed<T>,
    before: Seq<u8>,
    after: Seq<u8>,
)
    requires
        codec::reads(r, parsed, before, after),
    ensures
        parsed matches Ok((v, rest)) ==> r == Ok::<T, ReadError>(v) && after == rest,
        parsed matches Err(e) ==> r == Err::<T, ReadError>(e),
        after.len() <= before.len(),
        after == before.skip(before.len() - after.len()),
{
    assert(after =~= before.skip(before.len() - after.len()));
}

/// A read that is described by a view returns a value with that view, or the error, and the
/// items of a list that is described are described one by one.
pub proof fn lemma_reads_view<T: View, U, V>(
    r: Result<T, ReadError>,
    parsed: codec::Parsed<T::V>,
    before: Seq<u8>,
    after: Seq<u8>,
    list: Result<Vec<U>, ReadError>,
    view: spec_fn(U) -> V,
)
    requires
        codec::reads_view(r, parsed, before, after),
    ensures
        parsed matches Ok((v, rest)) ==> (r matches Ok(value) && value@ == v && after == rest),
        parsed matches Err(e) ==> (r matches Err(f) && e == f),
        after.len() <= before.len(),
        after == before.skip(before.len() - after.len()),
        list matches Err(e) ==> codec::described_list(list, view) == Err::<Seq<V>, ReadError>(e),
        list matches Ok(us) ==> (codec::described_list(list, view) matches Ok(vs) && vs.len()
            == us@.len() && forall|i: int| 0 <= i < us@.len() ==> vs[i] == view(us@[i])),
{
    assert(after =~= before.skip(before.len() - after.len()));
}

/// The queries that expressions are read with are those that are given, kind by kind.
pub proof fn lemma_queries_given(
    fixed: &[(Column<Fixed>, Rotation)],
    advice: &[(Column<Advice>, Rotation)],
    instance: &[(Column<Instance>, Rotation)],
)
    ensures
        expression::queries_of(fixed, advice, instance).fixed == fixed@,
        expression::queries_of(fixed, advice, instance).advice == advice@,
        expression::queries_of(fixed, advice, instance).instance == instance@,
{
}

/// Bits are packed eight to a byte, lowest first: bit `j` of byte `i` is bit `8 * i + j`, and
/// the bits that are missing in the last byte are zero.
pub proof fn lemma_bits_layout(bits: Seq<bool>, i: int, j: nat)
    requires
        0 <= i < (bits.len() + 7) / 8,
        j < 8,
    ensures
        bits::packed(bits).len() == (bits.len() + 7) / 8,
        bits::packed(bits)[i] as nat / vstd::arithmetic::power2::pow2(j) % 2 == (if 8 * i + j
            < bits.len() && bits[8 * i + j] {
            1nat
        } else {
            0nat
        }),
{
    let c = bits::chunk(bits, i);
    lemma_bits_of_value(c, j);
    lemma_small(c);
    if 8 * i + j < bits.len() {
        assert(c[j as int] == bits[8 * i + j]);
    }
}

proof fn lemma_small(bits: Seq<bool>)
    ensures
        bits::bits_value(bits) < vstd::arithmetic::power2::pow2(bits.len()),
        bits.len() <= 8 ==> bits::bits_value(bits) < 256,
    decreases bits.len(),
{
    vstd::arithmetic::power2::lemma2_to64();
    if bits.len() > 0 {
        lemma_small(bits.drop_first());
        vstd::arithmetic::power2::lemma_pow2_unfold(bits.len());
    }
    if bits.len() <= 8 {
        assert(vstd::arithmetic::power2::pow2(8) == 256);
        if bits.len() < 8 {
            vstd::arithmetic::power2::lemma_pow2_strictly_increases(bits.len(), 8);
        }
    }
}

proof fn lemma_bits_of_value(bits: Seq<bool>, j: nat)
    ensures
        bits::bits_value(bits) / vstd::arithmetic::power2::pow2(j) % 2 == (if j < bits.len()
            && bits[j as int] {
            1nat
        } else {
            0nat
        }),
    decreases j,
{
    vstd::arithmetic::power2::lemma2_to64();
    let v = bits::bits_value(bits);
    if j == 0 {
        assert(v / 1 == v);
        if bits.len() > 0 {
            let rest = bits::bits_value(bits.drop_first());
            assert((2 * rest) % 2 == 0);
        }
    } else {
        let k = (j - 1) as nat;
        let p = vstd::arithmetic::power2::pow2(k);
        vstd::arithmetic::power2::lemma_pow2_unfold(j);
        vstd::arithmetic::power2::lemma_pow2_pos(k);
        if bits.len() == 0 {
            lemma_bits_of_value(bits, k);
            assert(v == 0);
            vstd::arithmetic::div_mod::lemma_div_basics(
                vstd::arithmetic::power2::pow2(j) as int,
            );
            vstd::arithmetic::power2::lemma_pow2_pos(j);
        } else {
            let rest = bits.drop_first();
            lemma_bits_of_value(rest, k);
            assert(v / 2 == bits::bits_value(rest));
            vstd::arithmetic::div_mod::lemma_div_denominator(v as int, 2, p as int);
            assert(v / (2 * p) == (v / 2) / p);
        }
    }
}

/// Bit `i` of some bytes is bit `i % 8` of byte `i / 8`.
pub proof fn lemma_bits_read(bytes: Seq<u8>, n: nat, i: int)
    requires
        0 <= i < n,
    ensures
        bits::unpacked(bytes, n).len() == n,
        bits::unpacked(bytes, n)[i] <==> bytes[i / 8] as nat / vstd::arithmetic::power2::pow2(
            (i % 8) as nat,
        ) % 2 == 1,
{
    lemma_bit_of(bytes[i / 8] as nat, (i % 8) as nat);
}

proof fn lemma_bit_of(n: nat, place: nat)
    ensures
        bits::bit_of(n, place) <==> n / vstd::arithmetic::power2::pow2(place) % 2 == 1,
    decreases place,
{
    vstd::arithmetic::power2::lemma2_to64();
    if place == 0 {
        assert(n / 1 == n);
    } else {
        let k = (place - 1) as nat;
        lemma_bit_of(n / 2, k);
        vstd::arithmetic::power2::lemma_pow2_unfold(place);
        vstd::arithmetic::power2::lemma_pow2_pos(k);
        vstd::arithmetic::div_mod::lemma_div_denominator(
            n as int,
            2,
            vstd::arithmetic::power2::pow2(k) as int,
        );
    }
}

// ---------------------------------------------------------------------------------
// Columns, cells and expressions
// ---------------------------------------------------------------------------------

/// A fixed column has the tag 0, an advice column 1, an instance column 2, and no other byte is
/// the tag of a column.
pub proof fn lemma_column_tags(tag: u8, kind: Any)
    ensures
        Any::Fixed.tag() == 0,
        Any::Advice.tag() == 1,
        Any::Instance.tag() == 2,
        Any::of_tag(kind.tag()) == Some(kind),
        Any::of_tag(tag) is None <==> tag > 2,
        Any::of_tag(tag) matches Some(k) ==> k.tag() == tag,
{
}

/// A column is written as its tag and its index in two bytes, a cell as a column with the
/// rotation in four bytes behind it, a selector as its index in two bytes and a flag, a query of
/// a system as the index of its column and its rotation.
pub proof fn lemma_small_layouts<C: ColumnType>(
    column: Column<Any>,
    cell: VirtualCell,
    selector: Selector,
    query: (Column<C>, Rotation),
    fixed: Column<Fixed>,
    count: usize,
)
    ensures
        ({
            let s = permutation::encode_column(column);
            &&& s.len() == 3
            &&& s[0] == column.column_type.tag()
            &&& s[1] + 0x100 * s[2] == column.index % 0x1_0000
        }),
        ({
            let s = gate::encode_cell(cell);
            &&& s.len() == 7
            &&& s.take(3) == permutation::encode_column(cell.column)
            &&& s.skip(3) == codec::i32_le(cell.rotation.0)
        }),
        ({
            let s = expression::encode_selector(selector);
            &&& s.len() == 3
            &&& s[0] + 0x100 * s[1] == selector.0 % 0x1_0000
            &&& s[2] == (if selector.1 {
                1u8
            } else {
                0u8
            })
        }),
        ({
            let s = system_codec::encode_query(query);
            &&& s.len() == 6
            &&& s[0] + 0x100 * s[1] == query.0.index % 0x1_0000
            &&& s.skip(2) == codec::i32_le(query.1.0)
        }),
        ({
            let s = system_codec::encode_fixed(fixed);
            &&& s.len() == 2
            &&& s[0] + 0x100 * s[1] == fixed.index % 0x1_0000
        }),
        ({
            let s = system_codec::encode_count(count);
            &&& s.len() == 2
            &&& s[0] + 0x100 * s[1] == count % 0x1_0000
        }),
{
    lemma_low_bytes(column.index as nat);
    lemma_low_bytes(cell.column.index as nat);
    lemma_low_bytes(selector.0 as nat);
    lemma_low_bytes(query.0.index as nat);
    lemma_low_bytes(fixed.index as nat);
    lemma_low_bytes(count as nat);
    assert(gate::encode_cell(cell).take(3) =~= permutation::encode_column(cell.column));
    assert(gate::encode_cell(cell).skip(3) =~= codec::i32_le(cell.rotation.0));
    assert(system_codec::encode_query(query).skip(2) =~= codec::i32_le(query.1.0));
}

/// What is read as a column, a cell, a selector, a query or a fixed column: the numbers that
/// stand in the bytes. A byte that is no tag of a column is refused once all bytes are there.
pub proof fn lemma_small_reads<C: ColumnType>(s: Seq<u8>, column_type: C)
    ensures
        s.len() < 3 ==> permutation::parse_column(s) == Err::<(Column<Any>, Seq<u8>), ReadError>(
            ReadError::UnexpectedEof,
        ),
        s.len() >= 3 && s[0] > 2 ==> permutation::parse_column(s) == Err::<
            (Column<Any>, Seq<u8>),
            ReadError,
        >(ReadError::InvalidColumnType(s[0])),
        s.len() >= 3 && s[0] <= 2 ==> (permutation::parse_column(s) matches Ok((column, rest))
            && column.column_type.tag() == s[0] && column.index == s[1] + 0x100 * s[2] && rest
            == s.skip(3)),
        s.len() < 7 ==> gate::parse_cell(s) == Err::<(VirtualCell, Seq<u8>), ReadError>(
            ReadError::UnexpectedEof,
        ),
        s.len() >= 7 && s[0] > 2 ==> gate::parse_cell(s) == Err::<(VirtualCell, Seq<u8>), ReadError>(
            ReadError::InvalidColumnType(s[0]),
        ),
        s.len() >= 7 && s[0] <= 2 ==> (gate::parse_cell(s) matches Ok((cell, rest))
            && cell.column.column_type.tag() == s[0] && cell.column.index == s[1] + 0x100 * s[2]
            && codec::parse_i32(s.skip(3)) == Ok::<(i32, Seq<u8>), ReadError>(
            (cell.rotation.0, rest),
        )),
        s.len() < 3 ==> expression::parse_selector(s) == Err::<(Selector, Seq<u8>), ReadError>(
            ReadError::UnexpectedEof,
        ),
        s.len() >= 3 ==> (expression::parse_selector(s) matches Ok((selector, rest))
            && selector.0 == s[0] + 0x100 * s[1] && (selector.1 <==> s[2] != 0) && rest == s.skip(
            3,
        )),
        s.len() < 6 ==> system_codec::parse_query(s, column_type) == Err::<
            ((Column<C>, Rotation), Seq<u8>),
            ReadError,
        >(ReadError::UnexpectedEof),
        s.len() >= 6 ==> (system_codec::parse_query(s, column_type) matches Ok((query, rest))
            && query.0.column_type == column_type && query.0.index == s[0] + 0x100 * s[1]
            && codec::parse_i32(s.skip(2)) == Ok::<(i32, Seq<u8>), ReadError>((query.1.0, rest))),
        s.len() < 2 ==> system_codec::parse_fixed(s) == Err::<(Column<Fixed>, Seq<u8>), ReadError>(
            ReadError::UnexpectedEof,
        ),
        s.len() >= 2 ==> (system_codec::parse_fixed(s) matches Ok((column, rest)) && column.index
            == s[0] + 0x100 * s[1] && rest == s.skip(2)),
        s.len() < 2 ==> system_codec::parse_count(s) == Err::<(usize, Seq<u8>), ReadError>(
            ReadError::UnexpectedEof,
        ),
        s.len() >= 2 ==> (system_codec::parse_count(s) matches Ok((count, rest)) && count == s[0]
            + 0x100 * s[1] && rest == s.skip(2)),
{
    if s.len() >= 1 {
        let rest = s.skip(1);
        if rest.len() >= 2 {
            assert(rest.skip(2) =~= s.skip(3));
            assert(rest[0] == s[1] && rest[1] == s[2]);
        }
    }
    if s.len() >= 2 {
        let rest = s.skip(2);
        if rest.len() >= 1 {
            assert(rest.skip(1) =~= s.skip(3));
        }
    }
}

/// An expression is written as a tag and its parts: constants and scaling factors in their
/// canonical encoding, selectors as such, queries by their index in two bytes, and operands as
/// expressions, from left to right, in front of the scaling factor.
pub proof fn lemma_expression_layout<F: PrimeField>(e: Expression<F>)
    ensures
        e.encode().len() >= 1,
        ({
            let s = e.encode();
            match e {
                Expression::Constant(f) => s[0] == 0x00 && s.skip(1) == f.repr(),
                Expression::Selector(selector) => s[0] == 0x01 && s.len() == 4 && s[1] + 0x100
                    * s[2] == selector.0 % 0x1_0000 && s[3] == (if selector.1 {
                    1u8
                } else {
                    0u8
                }),
                Expression::Fixed(query) => s[0] == 0x02 && s.len() == 3 && s[1] + 0x100 * s[2]
                    == query.index % 0x1_0000,
                Expression::Advice(query) => s[0] == 0x03 && s.len() == 3 && s[1] + 0x100 * s[2]
                    == query.index % 0x1_0000,
                Expression::Instance(query) => s[0] == 0x04 && s.len() == 3 && s[1] + 0x100 * s[2]
                    == query.index % 0x1_0000,
                Expression::Negated(a) => s[0] == 0x05 && s.skip(1) == a.encode(),
                Expression::Sum(a, b) => s[0] == 0x06 && s.skip(1) == a.encode() + b.encode(),
                Expression::Product(a, b) => s[0] == 0x07 && s.skip(1) == a.encode() + b.encode(),
                Expression::Scaled(a, f) => s[0] == 0x08 && s.skip(1) == a.encode() + f.repr(),
            }
        }),
{
    let s = e.encode();
    match e {
        Expression::Constant(f) => {
            assert(s.skip(1) =~= f.repr());
        },
        Expression::Selector(selector) => {
            lemma_low_bytes(selector.0 as nat);
        },
        Expression::Fixed(query) => {
            lemma_low_bytes(query.index as nat);
        },
        Expression::Advice(query) => {
            lemma_low_bytes(query.index as nat);
        },
        Expression::Instance(query) => {
            lemma_low_bytes(query.index as nat);
        },
        Expression::Negated(a) => {
            assert(s.skip(1) =~= a.encode());
        },
        Expression::Sum(a, b) => {
            assert(s.skip(1) =~= a.encode() + b.encode());
        },
        Expression::Product(a, b) => {
            assert(s.skip(1) =~= a.encode() + b.encode());
        },
        Expression::Scaled(a, f) => {
            assert(s.skip(1) =~= a.encode() + f.repr());
        },
    }
}

/// Which expressions are refused, and as what: empty input and a query index or a selector that
/// is cut off as too short, a first byte above 8 as an unknown tag, an index of a query that
/// does not exist as out of bounds, and bytes that encode no field element as such.
pub proof fn lemma_expression_refused<F: PrimeField>(s: Seq<u8>, queries: expression::Queries)
    requires
        queries.fixed.len() <= usize::MAX,
        queries.advice.len() <= usize::MAX,
        queries.instance.len() <= usize::MAX,
    ensures
        s.len() == 0 ==> expression::parse_expression::<F>(s, queries) == Err::<
            (Expression<F>, Seq<u8>),
            ReadError,
        >(ReadError::UnexpectedEof),
        s.len() > 0 && s[0] > 8 ==> expression::parse_expression::<F>(s, queries) == Err::<
            (Expression<F>, Seq<u8>),
            ReadError,
        >(ReadError::InvalidExpressionTag(s[0])),
        s.len() > 0 && s[0] == 0 && s.len() < 1 + F::repr_len() ==> expression::parse_expression::<
            F,
        >(s, queries) == Err::<(Expression<F>, Seq<u8>), ReadError>(ReadError::UnexpectedEof),
        s.len() > 0 && s[0] == 0 && s.len() >= 1 + F::repr_len() && (forall|f: F|
            f.wf() ==> #[trigger] f.repr() != s.subrange(1, 1 + F::repr_len() as int))
            ==> expression::parse_expression::<F>(s, queries) == Err::<
            (Expression<F>, Seq<u8>),
            ReadError,
        >(ReadError::InvalidFieldElement),
        1 <= s.len() < 4 && s[0] == 1 ==> expression::parse_expression::<F>(s, queries) == Err::<
            (Expression<F>, Seq<u8>),
            ReadError,
        >(ReadError::UnexpectedEof),
        1 <= s.len() < 3 && 2 <= s[0] <= 4 ==> expression::parse_expression::<F>(s, queries)
            == Err::<(Expression<F>, Seq<u8>), ReadError>(ReadError::UnexpectedEof),
        s.len() >= 3 && 2 <= s[0] <= 4 ==> ({
            let kind = if s[0] == 2 {
                Any::Fixed
            } else if s[0] == 3 {
                Any::Advice
            } else {
                Any::Instance
            };
            let len = if s[0] == 2 {
                queries.fixed.len()
            } else if s[0] == 3 {
                queries.advice.len()
            } else {
                queries.instance.len()
            };
            let index = s[1] + 0x100 * s[2];
            index >= len <==> (expression::parse_expression::<F>(s, queries) matches Err(
                ReadError::QueryOutOfBounds { kind: k, index: i, len: l },
            ) && k == kind && i == index && l == len)
        }),
        s.len() > 0 && s[0] == 5 ==> (expression::parse_expression::<F>(s.skip(1), queries) matches Err(
            e,
        ) ==> expression::parse_expression::<F>(s, queries) == Err::<
            (Expression<F>, Seq<u8>),
            ReadError,
        >(e)),
        s.len() > 0 && 6 <= s[0] <= 8 ==> (expression::parse_expression::<F>(
            s.skip(1),
            queries,
        ) matches Err(e) ==> expression::parse_expression::<F>(s, queries) == Err::<
            (Expression<F>, Seq<u8>),
            ReadError,
        >(e)),
{
    if s.len() > 0 {
        let rest = s.skip(1);
        if s[0] == 0 && rest.len() >= F::repr_len() {
            assert(rest.take(F::repr_len() as int) =~= s.subrange(1, 1 + F::repr_len() as int));
        }
        if rest.len() >= 2 {
            assert(rest[0] == s[1] && rest[1] == s[2]);
        }
    }
}

/// What is read as an expression of a query or a selector, and of operands: the tag decides,
/// and each part is read behind the part before it.
pub proof fn lemma_expression_read<F: PrimeField>(s: Seq<u8>, queries: expression::Queries)
    ensures
        expression::parse_expression::<F>(s, queries) matches Ok((e, rest)) ==> {
            &&& s.len() > 0
            &&& s[0] == (match e {
                Expression::Constant(_) => 0x00u8,
                Expression::Selector(_) => 0x01u8,
                Expression::Fixed(_) => 0x02u8,
                Expression::Advice(_) => 0x03u8,
                Expression::Instance(_) => 0x04u8,
                Expression::Negated(_) => 0x05u8,
                Expression::Sum(_, _) => 0x06u8,
                Expression::Product(_, _) => 0x07u8,
                Expression::Scaled(_, _) => 0x08u8,
            })
            &&& match e {
                Expression::Constant(f) => f.wf() && s.skip(1) == f.repr() + rest,
                Expression::Selector(selector) => {
                    &&& selector.0 == s[1] + 0x100 * s[2]
                    &&& selector.1 <==> s[3] != 0
                    &&& rest == s.skip(4)
                },
                Expression::Fixed(query) => {
                    &&& query.index == s[1] + 0x100 * s[2]
                    &&& query.column_index == queries.fixed[query.index as int].0.index
                    &&& query.rotation == queries.fixed[query.index as int].1
                    &&& rest == s.skip(3)
                },
                Expression::Advice(query) => {
                    &&& query.index == s[1] + 0x100 * s[2]
                    &&& query.column_index == queries.advice[query.index as int].0.index
                    &&& query.rotation == queries.advice[query.index as int].1
                    &&& rest == s.skip(3)
                },
                Expression::Instance(query) => {
                    &&& query.index == s[1] + 0x100 * s[2]
                    &&& query.column_index == queries.instance[query.index as int].0.index
                    &&& query.rotation == queries.instance[query.index as int].1
                    &&& rest == s.skip(3)
                },
                Expression::Negated(a) => expression::parse_expression::<F>(s.skip(1), queries)
                    == Ok::<(Expression<F>, Seq<u8>), ReadError>((*a, rest)),
                Expression::Sum(a, b) => expression::parse_expression::<F>(
                    s.skip(1),
                    queries,
                ) matches Ok((x, middle)) && x == *a && expression::parse_expression::<F>(
                    middle,
                    queries,
                ) == Ok::<(Expression<F>, Seq<u8>), ReadError>((*b, rest)),
                Expression::Product(a, b) => expression::parse_expression::<F>(
                    s.skip(1),
                    queries,
                ) matches Ok((x, middle)) && x == *a && expression::parse_expression::<F>(
                    middle,
                    queries,
                ) == Ok::<(Expression<F>, Seq<u8>), ReadError>((*b, rest)),
                Expression::Scaled(a, f) => expression::parse_expression::<F>(
                    s.skip(1),
                    queries,
                ) matches Ok((x, middle)) && x == *a && f.wf() && middle == f.repr() + rest,
            }
        },
{
    if s.len() > 0 {
        let inner = s.skip(1);
        if inner.len() >= 2 {
            assert(inner[0] == s[1] && inner[1] == s[2]);
            assert(inner.skip(2) =~= s.skip(3));
            if inner.len() >= 3 {
                assert(inner.skip(2).skip(1) =~= s.skip(4));
                assert(inner.skip(2)[0] == s[3]);
            }
        }
        if s[0] == 0 {
            lemma_scalar_read::<F>(inner, ReadError::InvalidFieldElement);
        }
        if s[0] == 8 {
            if let Ok((_, middle)) = expression::parse_expression::<F>(inner, queries) {
                lemma_scalar_read::<F>(middle, ReadError::InvalidScaleFactor);
            }
        }
    }
}

/// A field element is read from its canonical encoding; bytes that encode none are refused as
/// said.
pub proof fn lemma_scalar_read<F: PrimeField>(s: Seq<u8>, invalid: ReadError)
    ensures
        match expression::parse_scalar::<F>(s, invalid) {
            Ok((f, rest)) => f.wf() && s == f.repr() + rest,
            Err(e) => if s.len() < F::repr_len() {
                e == ReadError::UnexpectedEof
            } else {
                e == invalid && forall|f: F|
                    f.wf() ==> #[trigger] f.repr() != s.take(F::repr_len() as int)
            },
        },
{
    if let Ok((f, rest)) = expression::parse_scalar::<F>(s, invalid) {
        F::lemma_repr(f, f);
        assert(f.repr() == s.take(F::repr_len() as int));
        assert(s =~= f.repr() + rest);
    }
}

/// An expression that is cut off anywhere is refused as too short.
#[verifier::spinoff_prover]
#[verifier::rlimit(40)]
pub proof fn lemma_expression_cut_off<F: PrimeField>(
    e: Expression<F>,
    queries: expression::Queries,
    n: int,
)
    requires
        e.encodable(queries),
        0 <= n < e.encode().len(),
    ensures
        expression::parse_expression::<F>(e.encode().take(n), queries) == Err::<
            (Expression<F>, Seq<u8>),
            ReadError,
        >(ReadError::UnexpectedEof),
    decreases e,
{
    let s = e.encode().take(n);
    lemma_expression_layout(e);
    if n > 0 {
        let whole = e.encode().skip(1);
        let rest = s.skip(1);
        assert(rest =~= whole.take(n - 1));
        assert(s[0] == e.encode()[0]);
        match e {
            Expression::Constant(f) => {
                F::lemma_repr(f, f);
            },
            Expression::Negated(a) => {
                lemma_expression_cut_off(*a, queries, n - 1);
            },
            Expression::Sum(a, b) => {
                let m = a.encode().len() as int;
                lemma_pair_cut_off(*a, *b, queries, n - 1);
                if n - 1 < m {
                    lemma_expression_cut_off(*a, queries, n - 1);
                } else {
                    lemma_expression_cut_off(*b, queries, n - 1 - m);
                }
            },
            Expression::Product(a, b) => {
                let m = a.encode().len() as int;
                lemma_pair_cut_off(*a, *b, queries, n - 1);
                if n - 1 < m {
                    lemma_expression_cut_off(*a, queries, n - 1);
                } else {
                    lemma_expression_cut_off(*b, queries, n - 1 - m);
                }
            },
            Expression::Scaled(a, f) => {
                F::lemma_repr(f, f);
                let m = a.encode().len() as int;
                if n - 1 < m {
                    assert(whole.take(n - 1) =~= a.encode().take(n - 1));
                    lemma_expression_cut_off(*a, queries, n - 1);
                } else {
                    let tail = f.repr().take(n - 1 - m);
                    assert(whole.take(n - 1) =~= a.encode() + tail);
                    expression::lemma_expression_round_trip(*a, queries, tail);
                }
            },
            _ => {},
        }
    }
}

/// What is left of two operands that are cut off.
proof fn lemma_pair_cut_off<F: PrimeField>(
    a: Expression<F>,
    b: Expression<F>,
    queries: expression::Queries,
    n: int,
)
    requires
        a.encodable(queries),
        0 <= n < a.encode().len() + b.encode().len(),
    ensures
        ({
            let whole = a.encode() + b.encode();
            let m = a.encode().len() as int;
            &&& n < m ==> whole.take(n) == a.encode().take(n)
            &&& n >= m ==> {
                &&& whole.take(n) == a.encode() + b.encode().take(n - m)
                &&& expression::parse_expression::<F>(whole.take(n), queries) == Ok::<
                    (Expression<F>, Seq<u8>),
                    ReadError,
                >((a, b.encode().take(n - m)))
            }
        }),
{
    let whole = a.encode() + b.encode();
    let m = a.encode().len() as int;
    if n < m {
        assert(whole.take(n) =~= a.encode().take(n));
    } else {
        assert(whole.take(n) =~= a.encode() + b.encode().take(n - m));
        expression::lemma_expression_round_trip(a, queries, b.encode().take(n - m));
    }
}

// ---------------------------------------------------------------------------------
// Gates, lookups, systems and keys
// ---------------------------------------------------------------------------------

/// A gate is written as its name, its constraints with their names, the selectors and the cells
/// that were queried for it, each list behind its length. Polynomials beyond the last name have
/// an empty one.
pub proof fn lemma_gate_layout<F: PrimeField>(g: gate::GateModel<F>)
    ensures
        g.encode() == codec::encode_name(g.name) + codec::encode_counted(
            g.named_polys(),
            |c: (Seq<char>, Expression<F>)| codec::encode_name(c.0) + c.1.encode(),
        ) + codec::encode_counted(
            g.queried_selectors,
            |s: Selector| expression::encode_selector(s),
        ) + codec::encode_counted(g.queried_cells, |c: VirtualCell| gate::encode_cell(c)),
        g.named_polys().len() == g.polys.len(),
        forall|i: int|
            #![trigger g.named_polys()[i]]
            0 <= i < g.polys.len() ==> {
                &&& g.named_polys()[i].1 == g.polys[i]
                &&& i < g.constraint_names.len() ==> g.named_polys()[i].0 == g.constraint_names[i]
                &&& i >= g.constraint_names.len() ==> g.named_polys()[i].0.len() == 0
            },
{
    reveal_strlit("");
    let a = |c: (Seq<char>, Expression<F>)| codec::encode_name(c.0) + c.1.encode();
    let b = |c: (Seq<char>, Expression<F>)| gate::encode_constraint(c);
    assert(a =~= b);
}

/// A lookup argument is written as its inputs and then its tables, each list behind its length.
pub proof fn lemma_lookup_layout<F: PrimeField>(l: lookup::ArgumentModel<F>)
    ensures
        l.encode() == codec::encode_counted(l.inputs, |e: Expression<F>| e.encode())
            + codec::encode_counted(l.tables, |e: Expression<F>| e.encode()),
{
}

/// A minimum degree is written as a zero byte if there is none, and as a one and the degree in
/// four bytes otherwise; no other first byte is accepted.
pub proof fn lemma_minimum_degree_layout(degree: Option<usize>, s: Seq<u8>)
    ensures
        degree is None ==> system_codec::encode_minimum_degree(degree) == seq![0u8],
        degree matches Some(d) ==> ({
            let t = system_codec::encode_minimum_degree(degree);
            &&& t.len() == 5
            &&& t[0] == 1
            &&& t[1] + 0x100 * t[2] + 0x1_0000 * t[3] + 0x100_0000 * t[4] == d as int % 0x1_0000_0000
        }),
        s.len() > 0 && s[0] > 1 ==> system_codec::parse_minimum_degree(s) == Err::<
            (Option<usize>, Seq<u8>),
            ReadError,
        >(ReadError::InvalidMinimumDegree),
        s.len() == 0 || (s[0] == 1 && s.len() < 5) ==> system_codec::parse_minimum_degree(s)
            == Err::<(Option<usize>, Seq<u8>), ReadError>(ReadError::UnexpectedEof),
        s.len() > 0 && s[0] == 0 ==> system_codec::parse_minimum_degree(s) == Ok::<
            (Option<usize>, Seq<u8>),
            ReadError,
        >((None, s.skip(1))),
        s.len() >= 5 && s[0] == 1 ==> (system_codec::parse_minimum_degree(s) matches Ok(
            (Some(d), rest),
        ) && d == s[1] + 0x100 * s[2] + 0x1_0000 * s[3] + 0x100_0000 * s[4] && rest == s.skip(5)),
{
    if let Some(d) = degree {
        lemma_four_bytes(d as nat);
    }
    if s.len() >= 5 {
        assert(s.skip(1).skip(4) =~= s.skip(5));
    }
}

/// A system is written as a header of 16 bytes with its numbers of fixed, advice and instance
/// columns, selectors and gates; then the selector map, the queries of advice, instance and
/// fixed columns and the query counts; then the gates, the permutation argument, the lookups,
/// the columns for constants and the minimum degree. Each list stands behind its length.
pub proof fn lemma_system_layout<F: PrimeField>(cs: constraint_system::SystemModel<F>)
    ensures
        cs.encode().len() >= 16,
        ({
            let s = cs.encode();
            &&& s.subrange(0, 4) == codec::u32_le(cs.num_fixed_columns)
            &&& s.subrange(4, 8) == codec::u32_le(cs.num_advice_columns)
            &&& s.subrange(8, 12) == codec::u32_le(cs.num_instance_columns)
            &&& s.subrange(12, 14) == codec::u16_le(cs.num_selectors)
            &&& s.subrange(14, 16) == codec::u16_le(cs.gates.len())
            &&& s.skip(16) == codec::encode_counted(
                cs.selector_map,
                |c: Column<Fixed>| system_codec::encode_fixed(c),
            ) + codec::encode_counted(
                cs.advice_queries,
                |q: (Column<Advice>, Rotation)| system_codec::encode_query(q),
            ) + codec::encode_counted(
                cs.instance_queries,
                |q: (Column<Instance>, Rotation)| system_codec::encode_query(q),
            ) + codec::encode_counted(
                cs.fixed_queries,
                |q: (Column<Fixed>, Rotation)| system_codec::encode_query(q),
            ) + codec::encode_counted(
                cs.num_advice_queries,
                |n: usize| system_codec::encode_count(n),
            ) + (codec::encode_counted(cs.gates, |g: gate::GateModel<F>| g.encode())
                + codec::encode_counted(
                cs.permutation,
                |c: Column<Any>| permutation::encode_column(c),
            ) + codec::encode_counted(cs.lookups, |l: lookup::ArgumentModel<F>| l.encode())
                + codec::encode_counted(
                cs.constants,
                |c: Column<Fixed>| system_codec::encode_fixed(c),
            ) + system_codec::encode_minimum_degree(cs.minimum_degree))
        }),
{
    lemma_header_concat(
        codec::u32_le(cs.num_fixed_columns),
        codec::u32_le(cs.num_advice_columns),
        codec::u32_le(cs.num_instance_columns),
        codec::u16_le(cs.num_selectors),
        codec::u16_le(cs.gates.len()),
        cs.tables().encode(),
        cs.body().encode(),
    );
}

#[verifier::spinoff_prover]
proof fn lemma_header_concat(
    a: Seq<u8>,
    b: Seq<u8>,
    c: Seq<u8>,
    d: Seq<u8>,
    e: Seq<u8>,
    tables: Seq<u8>,
    body: Seq<u8>,
)
    requires
        a.len() == 4,
        b.len() == 4,
        c.len() == 4,
        d.len() == 2,
        e.len() == 2,
    ensures
        ({
            let s = a + b + c + d + e + tables + body;
            &&& s.len() >= 16
            &&& s.subrange(0, 4) == a
            &&& s.subrange(4, 8) == b
            &&& s.subrange(8, 12) == c
            &&& s.subrange(12, 14) == d
            &&& s.subrange(14, 16) == e
            &&& s.skip(16) == tables + body
        }),
{
    let s = a + b + c + d + e + tables + body;
    assert(s.subrange(0, 4) =~= a);
    assert(s.subrange(4, 8) =~= b);
    assert(s.subrange(8, 12) =~= c);
    assert(s.subrange(12, 14) =~= d);
    assert(s.subrange(14, 16) =~= e);
    assert(s.skip(16) =~= tables + body);
}

/// The number of gates in the header is not looked at when a system is read, and a header that
/// is cut off is refused as too short.
pub proof fn lemma_header_read(s: Seq<u8>, t: Seq<u8>)
    requires
        s.len() >= 16,
        t.len() == s.len(),
        forall|i: int| 0 <= i < s.len() && i != 14 && i != 15 ==> s[i] == #[trigger] t[i],
    ensures
        system_codec::parse_header(s) == system_codec::parse_header(t),
        system_codec::parse_header(s) matches Ok((header, rest)) && {
            &&& header.num_fixed_columns == s[0] + 0x100 * s[1] + 0x1_0000 * s[2] + 0x100_0000
                * s[3]
            &&& header.num_advice_columns == s[4] + 0x100 * s[5] + 0x1_0000 * s[6] + 0x100_0000
                * s[7]
            &&& header.num_instance_columns == s[8] + 0x100 * s[9] + 0x1_0000 * s[10]
                + 0x100_0000 * s[11]
            &&& header.num_selectors == s[12] + 0x100 * s[13]
            &&& rest == s.skip(16)
        },
        forall|n: int|
            0 <= n < 16 ==> system_codec::parse_header(#[trigger] s.take(n)) == Err::<
                (system_codec::HeaderModel, Seq<u8>),
                ReadError,
            >(ReadError::UnexpectedEof),
{
    assert(s.skip(4).skip(4) =~= s.skip(8));
    assert(s.skip(8).skip(4) =~= s.skip(12));
    assert(s.skip(12).skip(2) =~= s.skip(14));
    assert(s.skip(14).skip(2) =~= s.skip(16));
    assert(t.skip(4).skip(4) =~= t.skip(8));
    assert(t.skip(8).skip(4) =~= t.skip(12));
    assert(t.skip(12).skip(2) =~= t.skip(14));
    assert(t.skip(14).skip(2) =~= t.skip(16));
    assert(s.skip(16) =~= t.skip(16));
    assert forall|i: int| 0 <= i < 14 implies s[i] == t[i] by {}
}

/// A key is written as the version, the number of fixed columns and their commitments, the
/// commitments of the permutation argument, and the number of selectors and their rows.
pub proof fn lemma_key_form<C: CurveAffine>(key: verifying_key::KeyModel<C>)
    ensures
        key.encode().len() >= 5,
        key.encode()[0] == 0x01,
        key.encode().subrange(1, 5) == codec::u32_le(key.fixed_commitments.len()),
        key.encode().skip(5) == codec::encode_list(key.fixed_commitments, |p: C| p.encoding())
            + codec::encode_list(key.permutation, |p: C| p.encoding()) + codec::u32_le(
            key.selectors.len(),
        ) + codec::encode_list(key.selectors, |rows: Seq<bool>| bits::packed(rows)),
{
    let fixed = permutation::encode_points(key.fixed_commitments);
    let perm = permutation::encode_points(key.permutation);
    let rows = codec::encode_list(key.selectors, |rows: Seq<bool>| bits::packed(rows));
    let count = codec::u32_le(key.fixed_commitments.len());
    let n = codec::u32_le(key.selectors.len());
    lemma_key_concat(count, fixed, perm, n, rows);
}

proof fn lemma_key_concat(a: Seq<u8>, b: Seq<u8>, c: Seq<u8>, d: Seq<u8>, e: Seq<u8>)
    requires
        a.len() == 4,
    ensures
        ({
            let s = seq![0x01u8] + (a + b) + c + (d + e);
            &&& s.len() >= 5
            &&& s[0] == 0x01
            &&& s.subrange(1, 5) == a
            &&& s.skip(5) == b + c + d + e
        }),
{
    let s = seq![0x01u8] + (a + b) + c + (d + e);
    assert(s.subrange(1, 5) =~= a);
    assert(s.skip(5) =~= b + c + d + e);
}

/// Which keys are refused, and as what: no bytes as too short, another version than 1 as
/// unexpected, and another number of selectors than the system has as a mismatch, where it is
/// come to.
pub proof fn lemma_key_refused<C: CurveAffine>(
    s: Seq<u8>,
    n: nat,
    cs: constraint_system::SystemModel<C::Scalar>,
    domain: EvaluationDomain<C::Scalar>,
)
    ensures
        s.len() == 0 ==> verifying_key::parse_key::<C>(s, n, cs, domain) == Err::<
            (verifying_key::KeyModel<C>, Seq<u8>),
            ReadError,
        >(ReadError::UnexpectedEof),
        s.len() > 0 && s[0] != 0x01 ==> verifying_key::parse_key::<C>(s, n, cs, domain) == Err::<
            (verifying_key::KeyModel<C>, Seq<u8>),
            ReadError,
        >(ReadError::UnexpectedVersion(s[0])),
        1 <= s.len() < 5 && s[0] == 0x01 ==> verifying_key::parse_key::<C>(s, n, cs, domain)
            == Err::<(verifying_key::KeyModel<C>, Seq<u8>), ReadError>(ReadError::UnexpectedEof),
        s.len() < 4 ==> verifying_key::parse_selectors(s, n, cs.num_selectors) == Err::<
            (Seq<Seq<bool>>, Seq<u8>),
            ReadError,
        >(ReadError::UnexpectedEof),
        s.len() >= 4 && s[0] + 0x100 * s[1] + 0x1_0000 * s[2] + 0x100_0000 * s[3]
            != cs.num_selectors ==> (verifying_key::parse_selectors(
            s,
            n,
            cs.num_selectors,
        ) matches Err(ReadError::SelectorCountMismatch { expected, found }) && found == s[0]
            + 0x100 * s[1] + 0x1_0000 * s[2] + 0x100_0000 * s[3] && (cs.num_selectors <= usize::MAX
            ==> expected == cs.num_selectors)),
        s.len() < (n + 7) / 8 ==> verifying_key::parse_rows(s, n) == Err::<
            (Seq<bool>, Seq<u8>),
            ReadError,
        >(ReadError::UnexpectedEof),
        s.len() >= (n + 7) / 8 ==> verifying_key::parse_rows(s, n) == Ok::<
            (Seq<bool>, Seq<u8>),
            ReadError,
        >((bits::unpacked(s.take(((n + 7) / 8) as int), n), s.skip(((n + 7) / 8) as int))),
{
}

/// A point is read from its compressed encoding; bytes that encode none are refused.
pub proof fn lemma_point_read<C: CurveAffine>(s: Seq<u8>)
    ensures
        match curve::parse_point::<C>(s) {
            Ok((p, rest)) => p.wf() && s == p.encoding() + rest,
            Err(e) => if s.len() < C::encoding_len() {
                e == ReadError::UnexpectedEof
            } else {
                e == ReadError::InvalidPoint && forall|p: C|
                    p.wf() ==> #[trigger] p.encoding() != s.take(C::encoding_len() as int)
            },
        },
{
    if let Ok((p, rest)) = curve::parse_point::<C>(s) {
        C::lemma_encoding(p, p);
        assert(p.encoding() == s.take(C::encoding_len() as int));
        assert(s =~= p.encoding() + rest);
    }
}

/// A key is made of its parts: the degree is that of its system, and its representative is
/// sampled from the hash of the length and the bytes of its pinned text. No two texts are hashed
/// alike.
pub proof fn lemma_key_made<C: CurveAffine>(
    domain: EvaluationDomain<C::Scalar>,
    fixed_commitments: Seq<C>,
    permutation: Seq<C>,
    cs: constraint_system::SystemModel<C::Scalar>,
    selectors: Seq<Seq<bool>>,
)
    ensures
        ({
            let key = verifying_key::key_of(
                domain,
                fixed_commitments,
                permutation,
                cs,
                selectors,
            );
            &&& key.domain == domain
            &&& key.fixed_commitments == fixed_commitments
            &&& key.permutation == permutation
            &&& key.cs == cs
            &&& key.cs_degree == cs.degree()
            &&& key.selectors == selectors
            &&& key.transcript_repr == <C::Scalar as field::FromUniformBytes>::of_uniform_bytes(
                crate::hash::blake2b(
                    64,
                    vstd::utf8::encode_utf8("Halo2-Verify-Key"@),
                    codec::u64_le(vstd::utf8::encode_utf8(key.pinned_text()).len())
                        + vstd::utf8::encode_utf8(key.pinned_text()),
                ),
            )
        }),
{
}

/// What is hashed to represent a key determines the text: its length in eight bytes, lowest
/// first, then its UTF-8 form.
pub proof fn lemma_preimage_determines(a: Seq<char>, b: Seq<char>)
    ensures
        verifying_key::preimage(a).take(8) == codec::u64_le(vstd::utf8::encode_utf8(a).len()),
        verifying_key::preimage(a).skip(8) == vstd::utf8::encode_utf8(a),
        verifying_key::preimage(a) == verifying_key::preimage(b) ==> a == b,
{
    assert(verifying_key::preimage(a).take(8) =~= codec::u64_le(
        vstd::utf8::encode_utf8(a).len(),
    ));
    assert(verifying_key::preimage(a).skip(8) =~= vstd::utf8::encode_utf8(a));
    assert(verifying_key::preimage(b).skip(8) =~= vstd::utf8::encode_utf8(b));
    vstd::utf8::encode_utf8_decode_utf8(a);
    vstd::utf8::encode_utf8_decode_utf8(b);
}

/// The first failure while something is read part by part is the failure of the whole: a
/// constraint is its name and its expression, a lookup argument its inputs and its tables.
pub proof fn lemma_pairs_read<F: PrimeField>(s: Seq<u8>, queries: expression::Queries)
    ensures
        match (codec::parse_name(s), gate::parse_constraint::<F>(s, queries)) {
            (Err(e), r) => r == Err::<((Seq<char>, Expression<F>), Seq<u8>), ReadError>(e),
            (Ok((name, rest)), r) => match (expression::parse_expression::<F>(rest, queries), r) {
                (Err(e), Err(f)) => e == f,
                (Ok((poly, rest)), Ok((c, after))) => c.0 == name && c.1 == poly && after == rest,
                _ => false,
            },
        },
        ({
            let one = |s: Seq<u8>| expression::parse_expression::<F>(s, queries);
            match (codec::parse_counted(one, s), lookup::parse_argument::<F>(s, queries)) {
                (Err(e), r) => r == Err::<(lookup::ArgumentModel<F>, Seq<u8>), ReadError>(e),
                (Ok((inputs, rest)), r) => match (codec::parse_counted(one, rest), r) {
                    (Err(e), Err(f)) => e == f,
                    (Ok((tables, rest)), Ok((argument, after))) => argument.inputs == inputs
                        && argument.tables == tables && after == rest,
                    _ => false,
                },
            }
        }),
{
}

/// A gate that is read has the name, the constraints, the selectors and the cells that stand
/// one behind the other in the bytes, and what stands behind them is left.
pub proof fn lemma_gate_read<F: PrimeField>(s: Seq<u8>, queries: expression::Queries)
    ensures
        gate::parse_gate::<F>(s, queries) matches Ok((g, rest)) ==> {
            &&& codec::parse_name(s) matches Ok((name, behind_name))
            &&& codec::parse_counted(
                |s: Seq<u8>| gate::parse_constraint::<F>(s, queries),
                behind_name,
            ) matches Ok((named, behind_constraints))
            &&& codec::parse_counted(
                |s: Seq<u8>| expression::parse_selector(s),
                behind_constraints,
            ) matches Ok((selectors, behind_selectors))
            &&& codec::parse_counted(
                |s: Seq<u8>| gate::parse_cell(s),
                behind_selectors,
            ) matches Ok((cells, behind_cells))
            &&& g.name == name
            &&& g.constraint_names.len() == named.len()
            &&& g.polys.len() == named.len()
            &&& forall|i: int|
                #![trigger named[i]]
                0 <= i < named.len() ==> g.constraint_names[i] == named[i].0 && g.polys[i]
                    == named[i].1
            &&& g.queried_selectors == selectors
            &&& g.queried_cells == cells
            &&& rest == behind_cells
        },
{
}

/// A gate is refused for the first of its parts that is refused.
pub proof fn lemma_gate_refused<F: PrimeField>(s: Seq<u8>, queries: expression::Queries)
    ensures
        gate::parse_gate::<F>(s, queries) matches Err(e) ==> match codec::parse_name(s) {
            Err(f) => e == f,
            Ok((_, rest)) => match codec::parse_counted(
                |s: Seq<u8>| gate::parse_constraint::<F>(s, queries),
                rest,
            ) {
                Err(f) => e == f,
                Ok((_, rest)) => match codec::parse_counted(
                    |s: Seq<u8>| expression::parse_selector(s),
                    rest,
                ) {
                    Err(f) => e == f,
                    Ok((_, rest)) => codec::parse_counted(
                        |s: Seq<u8>| gate::parse_cell(s),
                        rest,
                    ) == Err::<(Seq<VirtualCell>, Seq<u8>), ReadError>(e),
                },
            },
        },
{
}

/// The tables of a system that are read are the lists that stand one behind the other in the
/// bytes; they are refused for the first list that is refused.
pub proof fn lemma_tables_read(s: Seq<u8>)
    ensures
        ({
            let map = codec::parse_counted(|s: Seq<u8>| system_codec::parse_fixed(s), s);
            let r = system_codec::parse_tables(s);
            match map {
                Err(e) => r == Err::<(system_codec::TablesModel, Seq<u8>), ReadError>(e),
                Ok((map, rest)) => match codec::parse_counted(
                    |s: Seq<u8>| system_codec::parse_query(s, Advice),
                    rest,
                ) {
                    Err(e) => r == Err::<(system_codec::TablesModel, Seq<u8>), ReadError>(e),
                    Ok((advice, rest)) => match codec::parse_counted(
                        |s: Seq<u8>| system_codec::parse_query(s, Instance),
                        rest,
                    ) {
                        Err(e) => r == Err::<(system_codec::TablesModel, Seq<u8>), ReadError>(e),
                        Ok((instance, rest)) => match codec::parse_counted(
                            |s: Seq<u8>| system_codec::parse_query(s, Fixed),
                            rest,
                        ) {
                            Err(e) => r == Err::<(system_codec::TablesModel, Seq<u8>), ReadError>(
                                e,
                            ),
                            Ok((fixed, rest)) => match (
                                codec::parse_counted(
                                    |s: Seq<u8>| system_codec::parse_count(s),
                                    rest,
                                ),
                                r,
                            ) {
                                (Err(e), Err(f)) => e == f,
                                (Ok((counts, rest)), Ok((tables, after))) => {
                                    &&& tables.selector_map == map
                                    &&& tables.advice_queries == advice
                                    &&& tables.instance_queries == instance
                                    &&& tables.fixed_queries == fixed
                                    &&& tables.num_advice_queries == counts
                                    &&& tables.queries().fixed == fixed
                                    &&& tables.queries().advice == advice
                                    &&& tables.queries().instance == instance
                                    &&& after == rest
                                },
                                _ => false,
                            },
                        },
                    },
                },
            }
        }),
{
}

/// The gates and the arguments of a system that are read stand one behind the other in the
/// bytes; they are refused for the first that is refused.
pub proof fn lemma_body_read<F: PrimeField>(s: Seq<u8>, queries: expression::Queries)
    ensures
        ({
            let r = system_codec::parse_body::<F>(s, queries);
            match codec::parse_counted(|s: Seq<u8>| gate::parse_gate::<F>(s, queries), s) {
                Err(e) => r == Err::<(system_codec::BodyModel<F>, Seq<u8>), ReadError>(e),
                Ok((gates, rest)) => match codec::parse_counted(
                    |s: Seq<u8>| permutation::parse_column(s),
                    rest,
                ) {
                    Err(e) => r == Err::<(system_codec::BodyModel<F>, Seq<u8>), ReadError>(e),
                    Ok((columns, rest)) => match codec::parse_counted(
                        |s: Seq<u8>| lookup::parse_argument::<F>(s, queries),
                        rest,
                    ) {
                        Err(e) => r == Err::<(system_codec::BodyModel<F>, Seq<u8>), ReadError>(e),
                        Ok((lookups, rest)) => match codec::parse_counted(
                            |s: Seq<u8>| system_codec::parse_fixed(s),
                            rest,
                        ) {
                            Err(e) => r == Err::<
                                (system_codec::BodyModel<F>, Seq<u8>),
                                ReadError,
                            >(e),
                            Ok((constants, rest)) => match (
                                system_codec::parse_minimum_degree(rest),
                                r,
                            ) {
                                (Err(e), Err(f)) => e == f,
                                (Ok((degree, rest)), Ok((body, after))) => {
                                    &&& body.gates == gates
                                    &&& body.permutation == columns
                                    &&& body.lookups == lookups
                                    &&& body.constants == constants
                                    &&& body.minimum_degree == degree
                                    &&& after == rest
                                },
                                _ => false,
                            },
                        },
                    },
                },
            }
        }),
{
}

/// A system that is read has the counts, the tables, and the gates and arguments that stand one
/// behind the other in the bytes; its expressions are read with the queries of its tables, and
/// it is refused for the first part that is refused.
pub proof fn lemma_system_read<F: PrimeField>(s: Seq<u8>)
    ensures
        ({
            let r = system_codec::parse_system::<F>(s);
            match system_codec::parse_header(s) {
                Err(e) => r == Err::<(constraint_system::SystemModel<F>, Seq<u8>), ReadError>(e),
                Ok((header, rest)) => match system_codec::parse_tables(rest) {
                    Err(e) => r == Err::<(constraint_system::SystemModel<F>, Seq<u8>), ReadError>(
                        e,
                    ),
                    Ok((tables, rest)) => match (
                        system_codec::parse_body::<F>(
                            rest,
                            expression::Queries {
                                fixed: tables.fixed_queries,
                                advice: tables.advice_queries,
                                instance: tables.instance_queries,
                            },
                        ),
                        r,
                    ) {
                        (Err(e), Err(f)) => e == f,
                        (Ok((body, rest)), Ok((cs, after))) => {
                            &&& cs.num_fixed_columns == header.num_fixed_columns
                            &&& cs.num_advice_columns == header.num_advice_columns
                            &&& cs.num_instance_columns == header.num_instance_columns
                            &&& cs.num_selectors == header.num_selectors
                            &&& cs.selector_map == tables.selector_map
                            &&& cs.advice_queries == tables.advice_queries
                            &&& cs.instance_queries == tables.instance_queries
                            &&& cs.fixed_queries == tables.fixed_queries
                            &&& cs.num_advice_queries == tables.num_advice_queries
                            &&& cs.gates == body.gates
                            &&& cs.permutation == body.permutation
                            &&& cs.lookups == body.lookups
                            &&& cs.constants == body.constants
                            &&& cs.minimum_degree == body.minimum_degree
                            &&& after == rest
                        },
                        _ => false,
                    },
                },
            }
        }),
{
}

/// A key that is read has as many commitments to fixed columns as its bytes say, as many of the
/// permutation argument as the system has columns in it, and a selector of `n` rows for each of
/// the system; it is refused for the first part that is refused.
pub proof fn lemma_key_read<C: CurveAffine>(
    s: Seq<u8>,
    n: nat,
    cs: constraint_system::SystemModel<C::Scalar>,
    domain: EvaluationDomain<C::Scalar>,
)
    requires
        s.len() >= 5,
        s[0] == 0x01,
    ensures
        ({
            let r = verifying_key::parse_key::<C>(s, n, cs, domain);
            let count = (s[1] + 0x100 * s[2] + 0x1_0000 * s[3] + 0x100_0000 * s[4]) as nat;
            let one = |s: Seq<u8>| curve::parse_point::<C>(s);
            match codec::parse_list(count, one, s.skip(5)) {
                Err(e) => r == Err::<(verifying_key::KeyModel<C>, Seq<u8>), ReadError>(e),
                Ok((fixed, rest)) => match codec::parse_list(cs.permutation.len(), one, rest) {
                    Err(e) => r == Err::<(verifying_key::KeyModel<C>, Seq<u8>), ReadError>(e),
                    Ok((columns, rest)) => match (
                        verifying_key::parse_selectors(rest, n, cs.num_selectors),
                        r,
                    ) {
                        (Err(e), Err(f)) => e == f,
                        (Ok((selectors, rest)), Ok((key, after))) => {
                            &&& key.domain == domain
                            &&& key.fixed_commitments == fixed
                            &&& key.permutation == columns
                            &&& key.cs == cs
                            &&& key.selectors == selectors
                            &&& key.cs_degree == cs.degree()
                            &&& after == rest
                        },
                        _ => false,
                    },
                },
            }
        }),
{
    assert(s.skip(1).skip(4) =~= s.skip(5));
}

/// Selectors that are read are as many as are expected, each of them read from `n` bits in as
/// few bytes as hold them.
pub proof fn lemma_selectors_read(s: Seq<u8>, n: nat, expected: nat)
    requires
        s.len() >= 4,
        s[0] + 0x100 * s[1] + 0x1_0000 * s[2] + 0x100_0000 * s[3] == expected,
    ensures
        verifying_key::parse_selectors(s, n, expected) == codec::parse_list(
            expected,
            |s: Seq<u8>| verifying_key::parse_rows(s, n),
            s.skip(4),
        ),
{
}

} // verus!
