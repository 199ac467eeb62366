//! What exactly is printed: the texts of expressions, systems, keys, errors and reports.

use vstd::prelude::*;

use crate::bits;
use crate::codec;
use crate::codec::{ErrorKind, ReadError};
use crate::column::{Any, Column, ColumnType};
use crate::constraint_system;
use crate::constraint_system::ConstraintSystem;
use crate::curve::CurveAffine;
use crate::domain::{EvaluationDomain, PinnedEvaluationDomain};
use crate::expression::{Expression, Selector};
use crate::field::PrimeField;
use crate::hash;
use crate::lookup;
use crate::pinned;
use crate::pinned::PinnedConstraintSystem;
use crate::rotation::Rotation;
use crate::text;
use crate::verifying_key;
use crate::verifying_key::PinnedVerificationKey;

verus! {

/// Two lists of texts that are put together are printed one behind the other, with a comma and a
/// space between them if neither is empty. A list stands in square brackets.
pub proof fn lemma_lists_printed(a: Seq<Seq<char>>, b: Seq<Seq<char>>, x: Seq<char>)
    ensures
        text::joined(Seq::empty()).len() == 0,
        text::joined(seq![x]) == x,
        a.len() > 0 && b.len() > 0 ==> text::joined(a + b) == text::joined(a) + ", "@
            + text::joined(b),
        a.len() == 0 ==> text::joined(a + b) == text::joined(b),
        text::list_text(a) == "["@ + text::joined(a) + "]"@,
        text::quoted(x) == "\""@ + x + "\""@,
    decreases b.len(),
{
    assert(text::joined(seq![x]) == x);
    if a.len() == 0 {
        assert(a + b =~= b);
    } else if b.len() == 1 {
        assert((a + b).drop_last() =~= a);
        assert((a + b).last() == b[0]);
    } else if b.len() > 1 {
        lemma_lists_printed(a, b.drop_last(), x);
        assert((a + b).drop_last() =~= a + b.drop_last());
        assert((a + b).last() == b.last());
        let (p, q) = (text::joined(a), text::joined(b.drop_last()));
        assert(p + ", "@ + q + ", "@ + b.last() =~= p + ", "@ + (q + ", "@ + b.last()));
    }
}

/// How kinds of columns, columns, rotations, queries of a system and selectors are printed.
pub proof fn lemma_columns_printed<C: ColumnType>(
    column: Column<C>,
    rotation: Rotation,
    selector: Selector,
)
    ensures
        Any::Advice.text() == "Advice"@,
        Any::Fixed.text() == "Fixed"@,
        Any::Instance.text() == "Instance"@,
        pinned::column_text(column) == "Column { index: "@ + text::decimal(column.index as nat)
            + ", column_type: "@ + column.column_type.kind().text() + " }"@,
        rotation.0 >= 0 ==> rotation.text() == "Rotation("@ + text::decimal(rotation.0 as nat)
            + ")"@,
        rotation.0 < 0 ==> rotation.text() == "Rotation("@ + ("-"@ + text::decimal(
            (-rotation.0) as nat,
        )) + ")"@,
        pinned::query_text((column, rotation)) == "("@ + pinned::column_text(column) + ", "@
            + rotation.text() + ")"@,
        crate::expression::selector_text(selector) == "Selector("@ + text::decimal(
            selector.0 as nat,
        ) + ", "@ + (if selector.1 {
            "true"@
        } else {
            "false"@
        }) + ")"@,
{
}

/// How an expression is printed: under the name of its kind, with its parts in brackets. A query
/// takes the place of the variant that holds it.
pub proof fn lemma_expressions_printed<F: PrimeField>(e: Expression<F>)
    ensures
        e.debug_text() == (match e {
            Expression::Constant(f) => "Constant("@ + f.debug_text() + ")"@,
            Expression::Selector(s) => "Selector("@ + crate::expression::selector_text(s) + ")"@,
            Expression::Fixed(q) => "Fixed"@ + " { query_index: "@ + text::decimal(q.index as nat)
                + ", column_index: "@ + text::decimal(q.column_index as nat) + ", rotation: "@
                + q.rotation.text() + " }"@,
            Expression::Advice(q) => "Advice"@ + " { query_index: "@ + text::decimal(
                q.index as nat,
            ) + ", column_index: "@ + text::decimal(q.column_index as nat) + ", rotation: "@
                + q.rotation.text() + " }"@,
            Expression::Instance(q) => "Instance"@ + " { query_index: "@ + text::decimal(
                q.index as nat,
            ) + ", column_index: "@ + text::decimal(q.column_index as nat) + ", rotation: "@
                + q.rotation.text() + " }"@,
            Expression::Negated(a) => "Negated("@ + a.debug_text() + ")"@,
            Expression::Sum(a, b) => "Sum("@ + a.debug_text() + ", "@ + b.debug_text() + ")"@,
            Expression::Product(a, b) => "Product("@ + a.debug_text() + ", "@ + b.debug_text()
                + ")"@,
            Expression::Scaled(a, f) => "Scaled("@ + a.debug_text() + ", "@ + f.debug_text()
                + ")"@,
        }),
{
}

/// How the polynomials of the gates of a system are listed: gate by gate.
pub proof fn lemma_polynomials_listed<F>(
    a: Seq<crate::gate::GateModel<F>>,
    b: Seq<crate::gate::GateModel<F>>,
    g: crate::gate::GateModel<F>,
)
    ensures
        constraint_system::polys_of(Seq::<crate::gate::GateModel<F>>::empty()).len() == 0,
        constraint_system::polys_of(seq![g]) == g.polys,
        constraint_system::polys_of(a + b) == constraint_system::polys_of(a)
            + constraint_system::polys_of(b),
    decreases b.len(),
{
    reveal_with_fuel(constraint_system::polys_of, 2);
    assert(seq![g].drop_last() =~= seq![]);
    assert(constraint_system::polys_of(seq![g]) =~= g.polys);
    if b.len() == 0 {
        assert(a + b =~= a);
        assert(constraint_system::polys_of(a + b) =~= constraint_system::polys_of(a)
            + constraint_system::polys_of(b));
    } else {
        lemma_polynomials_listed(a, b.drop_last(), g);
        assert((a + b).drop_last() =~= a + b.drop_last());
        assert((a + b).last() == b.last());
        assert(constraint_system::polys_of(a + b) =~= constraint_system::polys_of(a)
            + constraint_system::polys_of(b));
    }
}

/// How a lookup argument is printed, how a minimum degree is, and how the lists of a pinned
/// system are: item by item, in their order.
pub proof fn lemma_arguments_printed<F: PrimeField, C: ColumnType>(
    argument: lookup::ArgumentModel<F>,
    exprs: Seq<Expression<F>>,
    columns: Seq<Column<C>>,
    queries: Seq<(Column<C>, Rotation)>,
    degree: Option<usize>,
)
    ensures
        pinned::lookup_text(argument) == "Argument { input_expressions: "@
            + pinned::expressions_text(argument.inputs) + ", table_expressions: "@
            + pinned::expressions_text(argument.tables) + " }"@,
        pinned::expressions_text(exprs) == text::list_text(
            Seq::new(exprs.len(), |i: int| exprs[i].debug_text()),
        ),
        pinned::columns_text(columns) == text::list_text(
            Seq::new(columns.len(), |i: int| pinned::column_text(columns[i])),
        ),
        pinned::queries_text(queries) == text::list_text(
            Seq::new(queries.len(), |i: int| pinned::query_text(queries[i])),
        ),
        degree is None ==> pinned::minimum_degree_text(degree) == "None"@,
        degree matches Some(d) ==> pinned::minimum_degree_text(degree) == "Some("@
            + text::decimal(d as nat) + ")"@,
{
    assert(exprs.map_values(|e: Expression<F>| e.debug_text()) =~= Seq::new(
        exprs.len(),
        |i: int| exprs[i].debug_text(),
    ));
    assert(columns.map_values(|c: Column<C>| pinned::column_text(c)) =~= Seq::new(
        columns.len(),
        |i: int| pinned::column_text(columns[i]),
    ));
    assert(queries.map_values(|q: (Column<C>, Rotation)| pinned::query_text(q)) =~= Seq::new(
        queries.len(),
        |i: int| pinned::query_text(queries[i]),
    ));
}

/// How the parts of a pinned system are printed, each under its name.
pub proof fn lemma_parts_printed<F: PrimeField>(cs: constraint_system::SystemModel<F>)
    ensures
        pinned::counts_text(
            cs.num_fixed_columns,
            cs.num_advice_columns,
            cs.num_instance_columns,
            cs.num_selectors,
        ) == "num_fixed_columns: "@ + text::decimal(cs.num_fixed_columns)
            + ", num_advice_columns: "@ + text::decimal(cs.num_advice_columns)
            + ", num_instance_columns: "@ + text::decimal(cs.num_instance_columns)
            + ", num_selectors: "@ + text::decimal(cs.num_selectors),
        pinned::tables_text(cs.advice_queries, cs.instance_queries, cs.fixed_queries)
            == "advice_queries: "@ + pinned::queries_text(cs.advice_queries)
            + ", instance_queries: "@ + pinned::queries_text(cs.instance_queries)
            + ", fixed_queries: "@ + pinned::queries_text(cs.fixed_queries),
        pinned::arguments_text(cs.permutation, cs.lookups, cs.constants, cs.minimum_degree)
            == "permutation: Argument { columns: "@ + pinned::columns_text(cs.permutation)
            + " }, lookups: "@ + text::list_text(
            Seq::new(cs.lookups.len(), |i: int| pinned::lookup_text(cs.lookups[i])),
        ) + ", constants: "@ + pinned::columns_text(cs.constants) + ", minimum_degree: "@
            + pinned::minimum_degree_text(cs.minimum_degree),
{
    assert(cs.lookups.map_values(|l: lookup::ArgumentModel<F>| pinned::lookup_text(l))
        =~= Seq::new(cs.lookups.len(), |i: int| pinned::lookup_text(cs.lookups[i])));
}

/// How a pinned system is printed: its counts, the polynomials of its gates, its queries and its
/// arguments.
pub proof fn lemma_system_printed<F: PrimeField>(cs: constraint_system::SystemModel<F>)
    ensures
        cs.pinned_text() == "PinnedConstraintSystem { "@ + pinned::counts_text(
            cs.num_fixed_columns,
            cs.num_advice_columns,
            cs.num_instance_columns,
            cs.num_selectors,
        ) + ", gates: "@ + pinned::expressions_text(constraint_system::polys_of(cs.gates))
            + ", "@ + pinned::tables_text(
            cs.advice_queries,
            cs.instance_queries,
            cs.fixed_queries,
        ) + ", "@ + pinned::arguments_text(
            cs.permutation,
            cs.lookups,
            cs.constants,
            cs.minimum_degree,
        ) + " }"@,
{
}

/// The pinned form of a system is printed as the text of the system.
pub proof fn lemma_pinned_system_printed<'a, F: PrimeField>(
    cs: ConstraintSystem<F>,
    pinned: PinnedConstraintSystem<'a, F>,
)
    requires
        *pinned.num_fixed_columns == cs.num_fixed_columns,
        *pinned.num_advice_columns == cs.num_advice_columns,
        *pinned.num_instance_columns == cs.num_instance_columns,
        *pinned.num_selectors == cs.num_selectors,
        *pinned.gates.0 == cs.gates,
        *pinned.advice_queries == cs.advice_queries,
        *pinned.instance_queries == cs.instance_queries,
        *pinned.fixed_queries == cs.fixed_queries,
        *pinned.permutation == cs.permutation,
        *pinned.lookups == cs.lookups,
        *pinned.constants == cs.constants,
        *pinned.minimum_degree == cs.minimum_degree,
    ensures
        pinned.debug_text() == cs@.pinned_text(),
{
}

/// How a pinned domain and a pinned key are printed.
pub proof fn lemma_key_printed<C: CurveAffine>(
    domain: EvaluationDomain<C::Scalar>,
    key: verifying_key::KeyModel<C>,
    points: Seq<C>,
)
    ensures
        domain.pinned_text() == "PinnedEvaluationDomain { k: "@ + text::decimal(domain.k as nat)
            + ", extended_k: "@ + text::decimal(domain.extended_k as nat) + ", omega: "@
            + domain.omega.debug_text() + " }"@,
        verifying_key::points_text(points) == text::list_text(
            Seq::new(points.len(), |i: int| points[i].debug_text()),
        ),
        key.pinned_text() == "PinnedVerificationKey { base_modulus: "@ + text::quoted(
            C::base_modulus_text(),
        ) + ", scalar_modulus: "@ + text::quoted(<C::Scalar as PrimeField>::modulus_text())
            + ", domain: "@ + key.domain.pinned_text() + ", cs: "@ + key.cs.pinned_text()
            + ", fixed_commitments: "@ + verifying_key::points_text(key.fixed_commitments)
            + ", permutation: VerifyingKey { commitments: "@ + verifying_key::points_text(
            key.permutation,
        ) + " } }"@,
{
    assert(points.map_values(|p: C| p.debug_text()) =~= Seq::new(
        points.len(),
        |i: int| points[i].debug_text(),
    ));
}

/// The number that some hexadecimal digits in lower case stand for.
pub open spec fn hex_value(digits: Seq<char>) -> nat
    decreases digits.len(),
{
    if digits.len() == 0 {
        0
    } else {
        let d = digits.last();
        16 * hex_value(digits.drop_last()) + (if '0' <= d <= '9' {
            (d as int - '0' as int) as nat
        } else {
            (d as int - 'a' as int + 10) as nat
        })
    }
}

/// A number is printed in hexadecimal digits that stand for it, as far as there is room.
pub proof fn lemma_hex_number(n: nat, digits: nat)
    ensures
        text::hex_number(n, digits).len() == digits,
        hex_value(text::hex_number(n, digits)) == n % vstd::arithmetic::power::pow(
            16,
            digits,
        ) as nat,
    decreases digits,
{
    vstd::arithmetic::power::lemma_pow_positive(16, digits);
    if digits == 0 {
        vstd::arithmetic::power::lemma_pow0(16);
    } else {
        let k = (digits - 1) as nat;
        let p = vstd::arithmetic::power::pow(16, k);
        lemma_hex_number(n / 16, k);
        vstd::arithmetic::power::lemma_pow_positive(16, k);
        reveal(vstd::arithmetic::power::pow);
        assert(vstd::arithmetic::power::pow(16, digits) == 16 * p);
        let t = text::hex_number(n, digits);
        assert(t.drop_last() =~= text::hex_number(n / 16, k));
        vstd::arithmetic::div_mod::lemma_mod_breakdown(n as int, 16, p);
    }
}

/// What an error is reported as: the end of the input as such, a point that is none as some
/// other failure, and everything else as invalid data.
pub proof fn lemma_error_kinds(e: ReadError)
    ensures
        e.error_kind() == ErrorKind::UnexpectedEof <==> e is UnexpectedEof,
        e.error_kind() == ErrorKind::Other <==> e is InvalidPoint,
        e.error_kind() == ErrorKind::InvalidData <==> !(e is UnexpectedEof || e is InvalidPoint),
{
}

/// What an error says.
pub proof fn lemma_errors_printed(e: ReadError)
    ensures
        e.text() == (match e {
            ReadError::UnexpectedEof => "failed to fill whole buffer"@,
            ReadError::InvalidFieldElement => "Invalid field element"@,
            ReadError::InvalidScaleFactor => "Invalid field element in Scaled"@,
            ReadError::QueryOutOfBounds { kind, index, len } => (match kind {
                Any::Fixed => "Fixed"@,
                Any::Advice => "Advice"@,
                Any::Instance => "Instance"@,
            }) + " query index "@ + text::decimal(index as nat) + " out of bounds (len="@
                + text::decimal(len as nat) + ")"@,
            ReadError::InvalidExpressionTag(tag) => "Invalid expression tag: 0x"@
                + text::hex_text(seq![tag]),
            ReadError::InvalidName { valid_up_to, error_len: Some(len) } =>
                "invalid utf-8 sequence of "@ + text::decimal(len as nat) + " bytes from index "@
                + text::decimal(valid_up_to as nat),
            ReadError::InvalidName { valid_up_to, error_len: None } =>
                "incomplete utf-8 byte sequence from index "@ + text::decimal(valid_up_to as nat),
            ReadError::InvalidColumnType(tag) => "Invalid column type: "@ + text::decimal(
                tag as nat,
            ),
            ReadError::InvalidMinimumDegree => "Invalid minimum_degree flag"@,
            ReadError::UnexpectedVersion(version) => "unexpected version byte: 0x"@
                + text::hex_text(seq![version]) + " (expected 0x01)"@,
            ReadError::SelectorCountMismatch { expected, found } =>
                "selector count mismatch: CS has "@ + text::decimal(expected as nat) + ", VK has "@
                + text::decimal(found as nat),
            ReadError::InvalidPoint => "invalid point encoding in proof"@,
        }),
{
}

/// What is reported when a key is written: the checksum and the length of its sections and of
/// the whole, where the sections are those of the binary form.
pub proof fn lemma_write_reported<C: CurveAffine>(key: verifying_key::KeyModel<C>)
    ensures
        ({
            let fixed = codec::u32_le(key.fixed_commitments.len()) + codec::encode_list(
                key.fixed_commitments,
                |p: C| p.encoding(),
            );
            let permutation = codec::encode_list(key.permutation, |p: C| p.encoding());
            let selectors = codec::u32_le(key.selectors.len()) + codec::encode_list(
                key.selectors,
                |rows: Seq<bool>| bits::packed(rows),
            );
            let log = key.write_log();
            &&& log.len() == 4
            &&& log[0] == "halo2::write::vk::fixed_commitments::(checksum::"@ + text::hex_text(
                hash::sha256(fixed),
            ) + ",length::"@ + text::decimal(fixed.len()) + ") "@
            &&& log[1] == "halo2::write::vk::permutation::(checksum::"@ + text::hex_text(
                hash::sha256(permutation),
            ) + ",len::"@ + text::decimal(permutation.len()) + ")"@
            &&& log[2] == "halo2::write::vk::selectors::(checksum::"@ + text::hex_text(
                hash::sha256(selectors),
            ) + ",length::"@ + text::decimal(selectors.len()) + ")"@
            &&& log[3] == "halo2::write::vk::(checksum::"@ + text::hex_text(
                hash::sha256(key.encode()),
            ) + ",length::"@ + text::decimal(key.encode().len()) + ")"@
            &&& key.encode() == seq![0x01u8] + fixed + permutation + selectors
        }),
{
}

/// What is reported when a key is read: nothing of no bytes; otherwise the version byte, and
/// nothing else of another version than 1; then the number of fixed columns, that the
/// permutation argument comes next, and the number of selectors, each as far as all before it
/// could be read.
pub proof fn lemma_read_reported<C: CurveAffine>(s: Seq<u8>, columns: nat)
    ensures
        s.len() == 0 ==> verifying_key::read_log::<C>(s, columns).len() == 0,
        s.len() > 0 ==> {
            &&& verifying_key::read_log::<C>(s, columns).len() > 0
            &&& verifying_key::read_log::<C>(s, columns)[0] == "  version_byte: 0x"@
                + text::hex_text(seq![s[0]])
            &&& s[0] != 0x01 || s.len() < 5 ==> verifying_key::read_log::<C>(s, columns).len() == 1
        },
        s.len() >= 5 && s[0] == 0x01 ==> ({
            let log = verifying_key::read_log::<C>(s, columns);
            let n = (s[1] + 0x100 * s[2] + 0x1_0000 * s[3] + 0x100_0000 * s[4]) as nat;
            &&& log.len() >= 2
            &&& log[1] == "  num_fixed_columns from VK: "@ + text::decimal(n)
            &&& match crate::permutation::parse_points::<C>(n, s.skip(5)) {
                Err(_) => log.len() == 2,
                Ok((_, rest)) => {
                    &&& log.len() >= 3
                    &&& log[2] == "  Reading permutation verifying key..."@
                    &&& match crate::permutation::parse_points::<C>(columns, rest) {
                        Err(_) => log.len() == 3,
                        Ok((_, rest)) => if rest.len() < 4 {
                            log.len() == 3
                        } else {
                            &&& log.len() == 4
                            &&& log[3] == "  num_selectors from VK: "@ + text::decimal(
                                (rest[0] + 0x100 * rest[1] + 0x1_0000 * rest[2] + 0x100_0000
                                    * rest[3]) as nat,
                            )
                        },
                    }
                },
            }
        }),
{
    if s.len() >= 5 {
        assert(s.skip(1).skip(4) =~= s.skip(5));
    }
}

/// The pinned forms of a domain and of a key are printed as what they hold is.
pub proof fn lemma_pinned_forms_printed<'a, C: CurveAffine>(
    domain: PinnedEvaluationDomain<'a, C::Scalar>,
    key: PinnedVerificationKey<'a, C>,
)
    ensures
        domain.debug_text() == "PinnedEvaluationDomain { k: "@ + text::decimal(*domain.k as nat)
            + ", extended_k: "@ + text::decimal(*domain.extended_k as nat) + ", omega: "@
            + domain.omega.debug_text() + " }"@,
        key.debug_text() == "PinnedVerificationKey { base_modulus: "@ + text::quoted(
            C::base_modulus_text(),
        ) + ", scalar_modulus: "@ + text::quoted(<C::Scalar as PrimeField>::modulus_text())
            + ", domain: "@ + key.domain.debug_text() + ", cs: "@ + key.cs.debug_text()
            + ", fixed_commitments: "@ + verifying_key::points_text(key.fixed_commitments@)
            + ", permutation: VerifyingKey { commitments: "@ + verifying_key::points_text(
            key.permutation.commitments@,
        ) + " } }"@,
{
}

/// A line that reports a checksum has the digits of the checksum and the length between its
/// texts, one that reports a version has its two digits, one that reports a count its decimal
/// digits, and the texts of some lines are those of the lines, in their order.
pub proof fn lemma_lines(
    start: Seq<char>,
    hash: Seq<u8>,
    middle: Seq<char>,
    length: nat,
    end: Seq<char>,
    version: u8,
    lines: Seq<String>,
)
    ensures
        verifying_key::checksum_line(start, hash, middle, length, end) == start
            + text::hex_text(hash) + middle + text::decimal(length) + end,
        verifying_key::version_line(version) == "  version_byte: 0x"@ + text::hex_text(
            seq![version],
        ),
        verifying_key::count_line(start, length) == start + text::decimal(length),
        verifying_key::lines_text(lines).len() == lines.len(),
        forall|i: int|
            0 <= i < lines.len() ==> #[trigger] verifying_key::lines_text(lines)[i] == lines[i]@,
{
}

} // verus!
