//! The texts by which systems and keys are identified say all there is to say: what was printed
//! can be read off a text, whatever stands behind it.

use vstd::prelude::*;

use crate::column::{Advice, Any, Column, ColumnType, Fixed, Instance};
use crate::constraint_system;
use crate::curve::CurveAffine;
use crate::domain::EvaluationDomain;
use crate::expression;
use crate::expression::{Expression, Selector};
use crate::field;
use crate::field::{Fp, PrimeField};
use crate::lookup;
use crate::pinned;
use crate::rotation::Rotation;
use crate::text;
use crate::verifying_key;

verus! {

/// States that a value can be read off the text by which it is printed, whatever stands behind
/// the text.
pub open spec fn readable<T>(text: spec_fn(T) -> Seq<char>) -> bool {
    forall|x: T, y: T, r: Seq<char>, s: Seq<char>|
        #![trigger text(x) + r, text(y) + s]
        text(x) + r == text(y) + s ==> x == y && r == s
}

/// States that a value for which `good` holds can be read off the text by which it is printed,
/// whatever stands behind the text.
pub open spec fn readable_where<T>(
    text: spec_fn(T) -> Seq<char>,
    good: spec_fn(T) -> bool,
) -> bool {
    forall|x: T, y: T, r: Seq<char>, s: Seq<char>|
        #![trigger text(x) + r, text(y) + s]
        good(x) && good(y) && text(x) + r == text(y) + s ==> x == y && r == s
}

/// States that a character is a decimal digit.
pub open spec fn is_digit(c: char) -> bool {
    '0' <= c <= '9'
}

/// The number that some decimal digits stand for.
pub open spec fn number(digits: Seq<char>) -> nat
    decreases digits.len(),
{
    if digits.len() == 0 {
        0
    } else {
        (10 * number(digits.drop_last()) + (digits.last() as int - '0' as int)) as nat
    }
}

/// States that a text does not start with a digit.
spec fn no_digit_first(s: Seq<char>) -> bool {
    s.len() > 0 ==> !is_digit(s[0])
}

proof fn lemma_cancel(a: Seq<char>, r: Seq<char>, s: Seq<char>)
    requires
        a + r == a + s,
    ensures
        r == s,
{
    assert(r =~= (a + r).skip(a.len() as int));
    assert(s =~= (a + s).skip(a.len() as int));
}

proof fn lemma_assoc(a: Seq<char>, b: Seq<char>, c: Seq<char>)
    ensures
        a + b + c == a + (b + c),
{
    assert(a + b + c =~= a + (b + c));
}

proof fn lemma_flat_3(a: Seq<char>, b: Seq<char>, c: Seq<char>, r: Seq<char>)
    ensures
        a + b + c + r == a + (b + (c + r)),
{
    lemma_assoc(a + b, c, r);
    lemma_assoc(a, b, c + r);
}

proof fn lemma_flat_5(
    a: Seq<char>,
    b: Seq<char>,
    c: Seq<char>,
    d: Seq<char>,
    e: Seq<char>,
    r: Seq<char>,
)
    ensures
        a + b + c + d + e + r == a + (b + (c + (d + (e + r)))),
{
    lemma_assoc(a + b + c + d, e, r);
    lemma_assoc(a + b + c, d, e + r);
    lemma_assoc(a + b, c, d + (e + r));
    lemma_assoc(a, b, c + (d + (e + r)));
}

proof fn lemma_flat_6(
    a: Seq<char>,
    b: Seq<char>,
    c: Seq<char>,
    d: Seq<char>,
    e: Seq<char>,
    f: Seq<char>,
    r: Seq<char>,
)
    ensures
        a + b + c + d + e + f + r == a + (b + (c + (d + (e + (f + r))))),
{
    lemma_assoc(a + b + c + d + e, f, r);
    lemma_assoc(a + b + c + d, e, f + r);
    lemma_assoc(a + b + c, d, e + (f + r));
    lemma_assoc(a + b, c, d + (e + (f + r)));
    lemma_assoc(a, b, c + (d + (e + (f + r))));
}

proof fn lemma_flat_7(
    a: Seq<char>,
    b: Seq<char>,
    c: Seq<char>,
    d: Seq<char>,
    e: Seq<char>,
    f: Seq<char>,
    g: Seq<char>,
    r: Seq<char>,
)
    ensures
        a + b + c + d + e + f + g + r == a + (b + (c + (d + (e + (f + (g + r)))))),
{
    lemma_assoc(a + b + c + d + e + f, g, r);
    lemma_assoc(a + b + c + d + e, f, g + r);
    lemma_assoc(a + b + c + d, e, f + (g + r));
    lemma_assoc(a + b + c, d, e + (f + (g + r)));
    lemma_assoc(a + b, c, d + (e + (f + (g + r))));
    lemma_assoc(a, b, c + (d + (e + (f + (g + r)))));
}

proof fn lemma_flat_8(
    a: Seq<char>,
    b: Seq<char>,
    c: Seq<char>,
    d: Seq<char>,
    e: Seq<char>,
    f: Seq<char>,
    g: Seq<char>,
    h: Seq<char>,
    r: Seq<char>,
)
    ensures
        a + b + c + d + e + f + g + h + r == a + (b + (c + (d + (e + (f + (g + (h + r))))))),
{
    lemma_assoc(a + b + c + d + e + f + g, h, r);
    lemma_assoc(a + b + c + d + e + f, g, h + r);
    lemma_assoc(a + b + c + d + e, f, g + (h + r));
    lemma_assoc(a + b + c + d, e, f + (g + (h + r)));
    lemma_assoc(a + b + c, d, e + (f + (g + (h + r))));
    lemma_assoc(a + b, c, d + (e + (f + (g + (h + r)))));
    lemma_assoc(a, b, c + (d + (e + (f + (g + (h + r))))));
}

proof fn lemma_flat_9(
    a: Seq<char>,
    b: Seq<char>,
    c: Seq<char>,
    d: Seq<char>,
    e: Seq<char>,
    f: Seq<char>,
    g: Seq<char>,
    h: Seq<char>,
    i: Seq<char>,
    r: Seq<char>,
)
    ensures
        a + b + c + d + e + f + g + h + i + r == a + (b + (c + (d + (e + (f + (g + (h + (i + r)))))))),
{
    lemma_assoc(a + b + c + d + e + f + g + h, i, r);
    lemma_assoc(a + b + c + d + e + f + g, h, i + r);
    lemma_assoc(a + b + c + d + e + f, g, h + (i + r));
    lemma_assoc(a + b + c + d + e, f, g + (h + (i + r)));
    lemma_assoc(a + b + c + d, e, f + (g + (h + (i + r))));
    lemma_assoc(a + b + c, d, e + (f + (g + (h + (i + r)))));
    lemma_assoc(a + b, c, d + (e + (f + (g + (h + (i + r))))));
    lemma_assoc(a, b, c + (d + (e + (f + (g + (h + (i + r)))))));
}

proof fn lemma_same_length(a: Seq<char>, b: Seq<char>, r: Seq<char>, s: Seq<char>)
    requires
        a.len() == b.len(),
        a + r == b + s,
    ensures
        a == b,
        r == s,
{
    assert(a =~= (a + r).take(a.len() as int));
    assert(b =~= (b + s).take(b.len() as int));
    lemma_cancel(a, r, s);
}

/// A number is printed in decimal digits, without leading zeros, that stand for it.
pub proof fn lemma_decimal(n: nat)
    ensures
        text::decimal(n).len() > 0,
        forall|i: int|
            0 <= i < text::decimal(n).len() ==> is_digit(#[trigger] text::decimal(n)[i]),
        number(text::decimal(n)) == n,
        text::decimal(n)[0] == '0' ==> n == 0 && text::decimal(n).len() == 1,
    decreases n,
{
    if n < 10 {
        let d = text::decimal(n);
        assert(d.drop_last() =~= seq![]);
        assert(number(d.drop_last()) == 0);
    } else {
        lemma_decimal(n / 10);
        let d = text::decimal(n);
        assert(d.drop_last() =~= text::decimal(n / 10));
        assert forall|i: int| 0 <= i < d.len() implies is_digit(#[trigger] d[i]) by {
            if i < d.len() - 1 {
                assert(d[i] == text::decimal(n / 10)[i]);
            }
        }
        assert(d[0] == text::decimal(n / 10)[0]);
    }
}

/// A negative number is printed as a minus sign and the digits of its opposite, any other as
/// its digits.
pub proof fn lemma_decimal_int(n: int)
    ensures
        n < 0 ==> text::decimal_int(n) == seq!['-'] + text::decimal((-n) as nat),
        n >= 0 ==> text::decimal_int(n) == text::decimal(n as nat),
{
    reveal_strlit("-");
    assert("-"@ =~= seq!['-']);
}

proof fn lemma_read_decimal(m: nat, n: nat, r: Seq<char>, s: Seq<char>)
    requires
        text::decimal(m) + r == text::decimal(n) + s,
        no_digit_first(r),
        no_digit_first(s),
    ensures
        m == n,
        r == s,
{
    let a = text::decimal(m);
    let b = text::decimal(n);
    lemma_decimal(m);
    lemma_decimal(n);
    if a.len() < b.len() {
        assert((b + s)[a.len() as int] == b[a.len() as int]);
        assert((a + r).len() == (b + s).len());
        assert((a + r)[a.len() as int] == r[0]);
    } else if b.len() < a.len() {
        assert((a + r)[b.len() as int] == a[b.len() as int]);
        assert((a + r).len() == (b + s).len());
        assert((b + s)[b.len() as int] == s[0]);
    } else {
        lemma_same_length(a, b, r, s);
    }
}

proof fn lemma_read_decimal_int(m: int, n: int, r: Seq<char>, s: Seq<char>)
    requires
        text::decimal_int(m) + r == text::decimal_int(n) + s,
        no_digit_first(r),
        no_digit_first(s),
    ensures
        m == n,
        r == s,
{
    lemma_decimal_int(m);
    lemma_decimal_int(n);
    lemma_decimal(if m < 0 {
        (-m) as nat
    } else {
        m as nat
    });
    lemma_decimal(if n < 0 {
        (-n) as nat
    } else {
        n as nat
    });
    let a = text::decimal_int(m) + r;
    let b = text::decimal_int(n) + s;
    if m < 0 {
        assert(a[0] == '-');
        assert(n < 0) by {
            if n >= 0 {
                assert(b[0] == text::decimal(n as nat)[0]);
            }
        }
        let (x, y) = (text::decimal((-m) as nat), text::decimal((-n) as nat));
        assert(a =~= seq!['-'] + (x + r));
        assert(b =~= seq!['-'] + (y + s));
        lemma_cancel(seq!['-'], x + r, y + s);
        lemma_read_decimal((-m) as nat, (-n) as nat, r, s);
    } else {
        assert(n >= 0) by {
            if n < 0 {
                assert(b[0] == '-');
                assert(a[0] == text::decimal(m as nat)[0]);
            }
        }
        lemma_read_decimal(m as nat, n as nat, r, s);
    }
}

proof fn lemma_read_rotation(a: Rotation, b: Rotation, r: Seq<char>, s: Seq<char>)
    requires
        a.text() + r == b.text() + s,
    ensures
        a == b,
        r == s,
{
    let open = "Rotation("@;
    let close = ")"@;
    let (x, y) = (text::decimal_int(a.0 as int), text::decimal_int(b.0 as int));
    lemma_flat_3(open, x, close, r);
    lemma_flat_3(open, y, close, s);
    lemma_cancel(open, x + (close + r), y + (close + s));
    reveal_strlit(")");
    lemma_read_decimal_int(a.0 as int, b.0 as int, close + r, close + s);
    lemma_cancel(close, r, s);
}

proof fn lemma_read_bool(a: bool, b: bool, r: Seq<char>, s: Seq<char>)
    requires
        text::bool_text(a) + r == text::bool_text(b) + s,
    ensures
        a == b,
        r == s,
{
    reveal_strlit("true");
    reveal_strlit("false");
    assert((text::bool_text(a) + r)[0] == text::bool_text(a)[0]);
    assert((text::bool_text(b) + s)[0] == text::bool_text(b)[0]);
    lemma_cancel(text::bool_text(a), r, s);
}

proof fn lemma_read_selector(a: Selector, b: Selector, r: Seq<char>, s: Seq<char>)
    requires
        expression::selector_text(a) + r == expression::selector_text(b) + s,
    ensures
        a == b,
        r == s,
{
    let (open, comma, close) = ("Selector("@, ", "@, ")"@);
    let (x, y) = (text::decimal(a.0 as nat), text::decimal(b.0 as nat));
    let (p, q) = (text::bool_text(a.1) + (close + r), text::bool_text(b.1) + (close + s));
    lemma_flat_5(open, x, comma, text::bool_text(a.1), close, r);
    lemma_flat_5(open, y, comma, text::bool_text(b.1), close, s);
    lemma_cancel(open, x + (comma + p), y + (comma + q));
    reveal_strlit(", ");
    lemma_read_decimal(a.0 as nat, b.0 as nat, comma + p, comma + q);
    lemma_cancel(comma, p, q);
    lemma_read_bool(a.1, b.1, close + r, close + s);
    lemma_cancel(close, r, s);
}

proof fn lemma_read_query(
    kind: Seq<char>,
    index: (usize, usize),
    column_index: (usize, usize),
    rotation: (Rotation, Rotation),
    r: Seq<char>,
    s: Seq<char>,
)
    requires
        expression::query_text(kind, index.0, column_index.0, rotation.0) + r
            == expression::query_text(kind, index.1, column_index.1, rotation.1) + s,
    ensures
        index.0 == index.1,
        column_index.0 == column_index.1,
        rotation.0 == rotation.1,
        r == s,
{
    let (open, second, third, close) = (
        " { query_index: "@,
        ", column_index: "@,
        ", rotation: "@,
        " }"@,
    );
    let (a, b) = (text::decimal(index.0 as nat), text::decimal(index.1 as nat));
    let (c, d) = (text::decimal(column_index.0 as nat), text::decimal(column_index.1 as nat));
    let (e, f) = (rotation.0.text() + (close + r), rotation.1.text() + (close + s));
    let (g, h) = (c + (third + e), d + (third + f));
    lemma_flat_8(kind, open, a, second, c, third, rotation.0.text(), close, r);
    lemma_flat_8(kind, open, b, second, d, third, rotation.1.text(), close, s);
    lemma_cancel(kind, open + (a + (second + g)), open + (b + (second + h)));
    lemma_cancel(open, a + (second + g), b + (second + h));
    reveal_strlit(", column_index: ");
    reveal_strlit(", rotation: ");
    lemma_read_decimal(index.0 as nat, index.1 as nat, second + g, second + h);
    lemma_cancel(second, g, h);
    lemma_read_decimal(column_index.0 as nat, column_index.1 as nat, third + e, third + f);
    lemma_cancel(third, e, f);
    lemma_read_rotation(rotation.0, rotation.1, close + r, close + s);
    lemma_cancel(close, r, s);
}

/// The first two characters by which the variants of an expression are told apart.
spec fn start_of<F>(e: Expression<F>) -> (char, char) {
    match e {
        Expression::Constant(_) => ('C', 'o'),
        Expression::Selector(_) => ('S', 'e'),
        Expression::Fixed(_) => ('F', 'i'),
        Expression::Advice(_) => ('A', 'd'),
        Expression::Instance(_) => ('I', 'n'),
        Expression::Negated(_) => ('N', 'e'),
        Expression::Sum(_, _) => ('S', 'u'),
        Expression::Product(_, _) => ('P', 'r'),
        Expression::Scaled(_, _) => ('S', 'c'),
    }
}

proof fn lemma_start<F: PrimeField>(e: Expression<F>)
    ensures
        e.debug_text().len() >= 2,
        (e.debug_text()[0], e.debug_text()[1]) == start_of(e),
{
    reveal_strlit("Constant(");
    reveal_strlit("Selector(");
    reveal_strlit("Fixed");
    reveal_strlit("Advice");
    reveal_strlit("Instance");
    reveal_strlit("Negated(");
    reveal_strlit("Sum(");
    reveal_strlit("Product(");
    reveal_strlit("Scaled(");
}

/// An expression can be read off its text, if the elements of the field can be read off theirs.
pub proof fn lemma_read_expression<F: PrimeField>(
    a: Expression<F>,
    b: Expression<F>,
    r: Seq<char>,
    s: Seq<char>,
)
    requires
        readable(|f: F| f.debug_text()),
        a.debug_text() + r == b.debug_text() + s,
    ensures
        a == b,
        r == s,
    decreases a,
{
    let scalar = |f: F| f.debug_text();
    let (comma, close) = (", "@, ")"@);
    lemma_start(a);
    lemma_start(b);
    assert((a.debug_text() + r)[0] == a.debug_text()[0]);
    assert((b.debug_text() + s)[0] == b.debug_text()[0]);
    assert((a.debug_text() + r)[1] == a.debug_text()[1]);
    assert((b.debug_text() + s)[1] == b.debug_text()[1]);
    assert(start_of(a) == start_of(b));
    match (a, b) {
        (Expression::Constant(x), Expression::Constant(y)) => {
            lemma_unwrap("Constant("@, x.debug_text(), y.debug_text(), close, r, s);
            assert(scalar(x) + (close + r) == scalar(y) + (close + s));
            lemma_cancel(close, r, s);
        },
        (Expression::Selector(x), Expression::Selector(y)) => {
            let (p, q) = (expression::selector_text(x), expression::selector_text(y));
            lemma_unwrap("Selector("@, p, q, close, r, s);
            lemma_read_selector(x, y, close + r, close + s);
            lemma_cancel(close, r, s);
        },
        (Expression::Fixed(x), Expression::Fixed(y)) => {
            lemma_read_query(
                "Fixed"@,
                (x.index, y.index),
                (x.column_index, y.column_index),
                (x.rotation, y.rotation),
                r,
                s,
            );
        },
        (Expression::Advice(x), Expression::Advice(y)) => {
            lemma_read_query(
                "Advice"@,
                (x.index, y.index),
                (x.column_index, y.column_index),
                (x.rotation, y.rotation),
                r,
                s,
            );
        },
        (Expression::Instance(x), Expression::Instance(y)) => {
            lemma_read_query(
                "Instance"@,
                (x.index, y.index),
                (x.column_index, y.column_index),
                (x.rotation, y.rotation),
                r,
                s,
            );
        },
        (Expression::Negated(x), Expression::Negated(y)) => {
            lemma_unwrap("Negated("@, x.debug_text(), y.debug_text(), close, r, s);
            lemma_read_expression(*x, *y, close + r, close + s);
            lemma_cancel(close, r, s);
        },
        (Expression::Sum(x, u), Expression::Sum(y, v)) => {
            lemma_unwrap_pair(
                "Sum("@,
                (x.debug_text(), y.debug_text()),
                (u.debug_text(), v.debug_text()),
                r,
                s,
            );
            let (p, q) = (u.debug_text() + (close + r), v.debug_text() + (close + s));
            lemma_read_expression(*x, *y, comma + p, comma + q);
            lemma_cancel(comma, p, q);
            lemma_read_expression(*u, *v, close + r, close + s);
            lemma_cancel(close, r, s);
        },
        (Expression::Product(x, u), Expression::Product(y, v)) => {
            lemma_unwrap_pair(
                "Product("@,
                (x.debug_text(), y.debug_text()),
                (u.debug_text(), v.debug_text()),
                r,
                s,
            );
            let (p, q) = (u.debug_text() + (close + r), v.debug_text() + (close + s));
            lemma_read_expression(*x, *y, comma + p, comma + q);
            lemma_cancel(comma, p, q);
            lemma_read_expression(*u, *v, close + r, close + s);
            lemma_cancel(close, r, s);
        },
        (Expression::Scaled(x, u), Expression::Scaled(y, v)) => {
            lemma_unwrap_pair(
                "Scaled("@,
                (x.debug_text(), y.debug_text()),
                (u.debug_text(), v.debug_text()),
                r,
                s,
            );
            let (p, q) = (u.debug_text() + (close + r), v.debug_text() + (close + s));
            lemma_read_expression(*x, *y, comma + p, comma + q);
            lemma_cancel(comma, p, q);
            assert(scalar(u) + (close + r) == scalar(v) + (close + s));
            lemma_cancel(close, r, s);
        },
        _ => {},
    }
}

proof fn lemma_unwrap(
    open: Seq<char>,
    x: Seq<char>,
    y: Seq<char>,
    close: Seq<char>,
    r: Seq<char>,
    s: Seq<char>,
)
    requires
        open + x + close + r == open + y + close + s,
    ensures
        x + (close + r) == y + (close + s),
{
    lemma_flat_3(open, x, close, r);
    lemma_flat_3(open, y, close, s);
    lemma_cancel(open, x + (close + r), y + (close + s));
}

proof fn lemma_unwrap_pair(
    open: Seq<char>,
    first: (Seq<char>, Seq<char>),
    second: (Seq<char>, Seq<char>),
    r: Seq<char>,
    s: Seq<char>,
)
    requires
        open + first.0 + ", "@ + second.0 + ")"@ + r == open + first.1 + ", "@ + second.1 + ")"@
            + s,
    ensures
        first.0 + (", "@ + (second.0 + (")"@ + r))) == first.1 + (", "@ + (second.1 + (")"@ + s))),
{
    let p = first.0 + (", "@ + (second.0 + (")"@ + r)));
    let q = first.1 + (", "@ + (second.1 + (")"@ + s)));
    lemma_flat_5(open, first.0, ", "@, second.0, ")"@, r);
    lemma_flat_5(open, first.1, ", "@, second.1, ")"@, s);
    lemma_cancel(open, p, q);
}

// ---------------------------------------------------------------------------------
// Lists
// ---------------------------------------------------------------------------------

/// Further items of a list, then `tail`.
spec fn more<T>(text: spec_fn(T) -> Seq<char>, xs: Seq<T>, tail: Seq<char>) -> Seq<char>
    decreases xs.len(),
{
    if xs.len() == 0 {
        tail
    } else {
        ", "@ + (text(xs[0]) + more(text, xs.drop_first(), tail))
    }
}

/// The items of a list, then `tail`.
spec fn items<T>(text: spec_fn(T) -> Seq<char>, xs: Seq<T>, tail: Seq<char>) -> Seq<char> {
    if xs.len() == 0 {
        tail
    } else {
        text(xs[0]) + more(text, xs.drop_first(), tail)
    }
}

proof fn lemma_more_last<T>(text: spec_fn(T) -> Seq<char>, xs: Seq<T>, x: T, tail: Seq<char>)
    ensures
        more(text, xs.push(x), tail) == more(text, xs, ", "@ + (text(x) + tail)),
    decreases xs.len(),
{
    reveal_with_fuel(more, 2);
    assert(xs.push(x)[0] == if xs.len() == 0 {
        x
    } else {
        xs[0]
    });
    if xs.len() == 0 {
        assert(xs.push(x).drop_first() =~= xs);
    } else {
        assert(xs.push(x).drop_first() =~= xs.drop_first().push(x));
        lemma_more_last(text, xs.drop_first(), x, tail);
    }
}

proof fn lemma_joined<T>(text: spec_fn(T) -> Seq<char>, xs: Seq<T>, tail: Seq<char>)
    ensures
        text::joined(xs.map_values(text)) + tail == items(text, xs, tail),
    decreases xs.len(),
{
    let texts = xs.map_values(text);
    if xs.len() == 0 {
        assert(text::joined(texts) + tail =~= tail);
    } else if xs.len() == 1 {
        assert(more(text, xs.drop_first(), tail) == tail);
    } else {
        let init = xs.drop_last();
        assert(texts.drop_last() =~= init.map_values(text));
        let behind = ", "@ + (text(xs.last()) + tail);
        lemma_joined(text, init, behind);
        lemma_flat_3(text::joined(init.map_values(text)), ", "@, text(xs.last()), tail);
        lemma_more_last(text, init.drop_first(), xs.last(), tail);
        assert(init.drop_first().push(xs.last()) =~= xs.drop_first());
    }
}

proof fn lemma_read_more<T>(
    text: spec_fn(T) -> Seq<char>,
    good: spec_fn(T) -> bool,
    xs: Seq<T>,
    ys: Seq<T>,
    r: Seq<char>,
    s: Seq<char>,
)
    requires
        readable_where(text, good),
        forall|i: int| 0 <= i < xs.len() ==> good(#[trigger] xs[i]),
        forall|i: int| 0 <= i < ys.len() ==> good(#[trigger] ys[i]),
        more(text, xs, "]"@ + r) == more(text, ys, "]"@ + s),
    ensures
        xs == ys,
        r == s,
    decreases xs.len(),
{
    reveal_strlit("]");
    reveal_strlit(", ");
    assert(("]"@ + r)[0] == ']');
    assert(("]"@ + s)[0] == ']');
    if xs.len() > 0 {
        let p = text(xs[0]) + more(text, xs.drop_first(), "]"@ + r);
        assert((", "@ + p)[0] == ',');
        assert(more(text, xs, "]"@ + r) == ", "@ + p);
        if ys.len() > 0 {
            let q = text(ys[0]) + more(text, ys.drop_first(), "]"@ + s);
            lemma_cancel(", "@, p, q);
            lemma_read_more(text, good, xs.drop_first(), ys.drop_first(), r, s);
            assert(xs =~= seq![xs[0]] + xs.drop_first());
            assert(ys =~= seq![ys[0]] + ys.drop_first());
        }
    } else if ys.len() > 0 {
        let q = text(ys[0]) + more(text, ys.drop_first(), "]"@ + s);
        assert((", "@ + q)[0] == ',');
        assert(more(text, ys, "]"@ + s) == ", "@ + q);
    } else {
        lemma_cancel("]"@, r, s);
        assert(xs =~= ys);
    }
}

/// A list can be read off its text, if its items can be read off theirs and no text of an item
/// starts as a list ends.
pub proof fn lemma_read_list<T>(
    text: spec_fn(T) -> Seq<char>,
    good: spec_fn(T) -> bool,
    xs: Seq<T>,
    ys: Seq<T>,
    r: Seq<char>,
    s: Seq<char>,
)
    requires
        readable_where(text, good),
        forall|x: T| good(x) ==> (#[trigger] text(x)).len() > 0 && text(x)[0] != ']',
        forall|i: int| 0 <= i < xs.len() ==> good(#[trigger] xs[i]),
        forall|i: int| 0 <= i < ys.len() ==> good(#[trigger] ys[i]),
        text::list_text(xs.map_values(text)) + r == text::list_text(ys.map_values(text)) + s,
    ensures
        xs == ys,
        r == s,
{
    let (open, close) = ("["@, "]"@);
    let (p, q) = (text::joined(xs.map_values(text)), text::joined(ys.map_values(text)));
    lemma_flat_3(open, p, close, r);
    lemma_flat_3(open, q, close, s);
    lemma_cancel(open, p + (close + r), q + (close + s));
    lemma_joined(text, xs, close + r);
    lemma_joined(text, ys, close + s);
    reveal_strlit("]");
    assert((close + r)[0] == ']');
    assert((close + s)[0] == ']');
    if xs.len() > 0 {
        let m = more(text, xs.drop_first(), close + r);
        assert((text(xs[0]) + m)[0] == text(xs[0])[0]);
        if ys.len() > 0 {
            let n = more(text, ys.drop_first(), close + s);
            assert(text(xs[0]) + m == text(ys[0]) + n);
            lemma_read_more(text, good, xs.drop_first(), ys.drop_first(), r, s);
            assert(xs =~= seq![xs[0]] + xs.drop_first());
            assert(ys =~= seq![ys[0]] + ys.drop_first());
        }
    } else if ys.len() > 0 {
        let n = more(text, ys.drop_first(), close + s);
        assert((text(ys[0]) + n)[0] == text(ys[0])[0]);
    } else {
        lemma_cancel(close, r, s);
        assert(xs =~= ys);
    }
}

/// A list of expressions can be read off its text.
pub proof fn lemma_read_expressions<F: PrimeField>(
    xs: Seq<Expression<F>>,
    ys: Seq<Expression<F>>,
    r: Seq<char>,
    s: Seq<char>,
)
    requires
        readable(|f: F| f.debug_text()),
        pinned::expressions_text(xs) + r == pinned::expressions_text(ys) + s,
    ensures
        xs == ys,
        r == s,
{
    let text = |e: Expression<F>| e.debug_text();
    assert forall|x: Expression<F>, y: Expression<F>, r: Seq<char>, s: Seq<char>|
        #![trigger text(x) + r, text(y) + s]
        text(x) + r == text(y) + s implies x == y && r == s by {
        lemma_read_expression(x, y, r, s);
    }
    assert forall|x: Expression<F>| (#[trigger] text(x)).len() > 0 && text(x)[0] != ']' by {
        lemma_start(x);
    }
    lemma_read_list(text, |x: Expression<F>| true, xs, ys, r, s);
}

// ---------------------------------------------------------------------------------
// Systems
// ---------------------------------------------------------------------------------

proof fn lemma_read_kind(a: Any, b: Any, r: Seq<char>, s: Seq<char>)
    requires
        a.text() + r == b.text() + s,
    ensures
        a == b,
        r == s,
{
    reveal_strlit("Advice");
    reveal_strlit("Fixed");
    reveal_strlit("Instance");
    assert((a.text() + r)[0] == a.text()[0]);
    assert((b.text() + s)[0] == b.text()[0]);
    lemma_cancel(a.text(), r, s);
}

/// The index and the kind of a column can be read off its text.
pub proof fn lemma_read_column<C: ColumnType>(
    a: Column<C>,
    b: Column<C>,
    r: Seq<char>,
    s: Seq<char>,
)
    requires
        pinned::column_text(a) + r == pinned::column_text(b) + s,
    ensures
        a.index == b.index,
        a.column_type.kind() == b.column_type.kind(),
        r == s,
{
    let (open, second, close) = ("Column { index: "@, ", column_type: "@, " }"@);
    let (x, y) = (text::decimal(a.index as nat), text::decimal(b.index as nat));
    let p = a.column_type.kind().text() + (close + r);
    let q = b.column_type.kind().text() + (close + s);
    lemma_flat_5(open, x, second, a.column_type.kind().text(), close, r);
    lemma_flat_5(open, y, second, b.column_type.kind().text(), close, s);
    lemma_cancel(open, x + (second + p), y + (second + q));
    reveal_strlit(", column_type: ");
    lemma_read_decimal(a.index as nat, b.index as nat, second + p, second + q);
    lemma_cancel(second, p, q);
    lemma_read_kind(a.column_type.kind(), b.column_type.kind(), close + r, close + s);
    lemma_cancel(close, r, s);
}

proof fn lemma_column_start<C: ColumnType>(a: Column<C>)
    ensures
        pinned::column_text(a).len() > 0,
        pinned::column_text(a)[0] == 'C',
{
    reveal_strlit("Column { index: ");
}

proof fn lemma_read_column_query<C: ColumnType>(
    a: (Column<C>, Rotation),
    b: (Column<C>, Rotation),
    r: Seq<char>,
    s: Seq<char>,
)
    requires
        pinned::query_text(a) + r == pinned::query_text(b) + s,
    ensures
        a.0.index == b.0.index,
        a.0.column_type.kind() == b.0.column_type.kind(),
        a.1 == b.1,
        r == s,
{
    let (open, comma, close) = ("("@, ", "@, ")"@);
    let (p, q) = (a.1.text() + (close + r), b.1.text() + (close + s));
    let (x, y) = (pinned::column_text(a.0), pinned::column_text(b.0));
    lemma_flat_5(open, x, comma, a.1.text(), close, r);
    lemma_flat_5(open, y, comma, b.1.text(), close, s);
    lemma_cancel(open, x + (comma + p), y + (comma + q));
    lemma_read_column(a.0, b.0, comma + p, comma + q);
    lemma_cancel(comma, p, q);
    lemma_read_rotation(a.1, b.1, close + r, close + s);
    lemma_cancel(close, r, s);
}

/// States that the columns of a type are told apart by their index and their kind.
spec fn known_by_kind<C: ColumnType>() -> bool {
    forall|a: C, b: C| #![trigger a.kind(), b.kind()] a.kind() == b.kind() ==> a == b
}

proof fn lemma_read_columns<C: ColumnType>(
    xs: Seq<Column<C>>,
    ys: Seq<Column<C>>,
    r: Seq<char>,
    s: Seq<char>,
)
    requires
        known_by_kind::<C>(),
        pinned::columns_text(xs) + r == pinned::columns_text(ys) + s,
    ensures
        xs == ys,
        r == s,
{
    let text = |c: Column<C>| pinned::column_text(c);
    assert forall|x: Column<C>, y: Column<C>, r: Seq<char>, s: Seq<char>|
        #![trigger text(x) + r, text(y) + s]
        text(x) + r == text(y) + s implies x == y && r == s by {
        lemma_read_column(x, y, r, s);
    }
    assert forall|x: Column<C>| (#[trigger] text(x)).len() > 0 && text(x)[0] != ']' by {
        lemma_column_start(x);
    }
    lemma_read_list(text, |x: Column<C>| true, xs, ys, r, s);
}

proof fn lemma_read_queries<C: ColumnType>(
    xs: Seq<(Column<C>, Rotation)>,
    ys: Seq<(Column<C>, Rotation)>,
    r: Seq<char>,
    s: Seq<char>,
)
    requires
        known_by_kind::<C>(),
        pinned::queries_text(xs) + r == pinned::queries_text(ys) + s,
    ensures
        xs == ys,
        r == s,
{
    let text = |q: (Column<C>, Rotation)| pinned::query_text(q);
    assert forall|
        x: (Column<C>, Rotation),
        y: (Column<C>, Rotation),
        r: Seq<char>,
        s: Seq<char>,
    |
        #![trigger text(x) + r, text(y) + s]
        text(x) + r == text(y) + s implies x == y && r == s by {
        lemma_read_column_query(x, y, r, s);
    }
    reveal_strlit("(");
    lemma_read_list(text, |x: (Column<C>, Rotation)| true, xs, ys, r, s);
}

/// Every input and every table of a lookup argument can be read off its text.
pub proof fn lemma_read_lookup<F: PrimeField>(
    a: lookup::ArgumentModel<F>,
    b: lookup::ArgumentModel<F>,
    r: Seq<char>,
    s: Seq<char>,
)
    requires
        readable(|f: F| f.debug_text()),
        pinned::lookup_text(a) + r == pinned::lookup_text(b) + s,
    ensures
        a.inputs == b.inputs,
        a.tables == b.tables,
        r == s,
{
    let (open, second, close) = (
        "Argument { input_expressions: "@,
        ", table_expressions: "@,
        " }"@,
    );
    let (x, y) = (pinned::expressions_text(a.inputs), pinned::expressions_text(b.inputs));
    let p = pinned::expressions_text(a.tables) + (close + r);
    let q = pinned::expressions_text(b.tables) + (close + s);
    lemma_flat_5(open, x, second, pinned::expressions_text(a.tables), close, r);
    lemma_flat_5(open, y, second, pinned::expressions_text(b.tables), close, s);
    lemma_cancel(open, x + (second + p), y + (second + q));
    lemma_read_expressions(a.inputs, b.inputs, second + p, second + q);
    lemma_cancel(second, p, q);
    lemma_read_expressions(a.tables, b.tables, close + r, close + s);
    lemma_cancel(close, r, s);
}

proof fn lemma_read_lookups<F: PrimeField>(
    xs: Seq<lookup::ArgumentModel<F>>,
    ys: Seq<lookup::ArgumentModel<F>>,
    r: Seq<char>,
    s: Seq<char>,
)
    requires
        readable(|f: F| f.debug_text()),
        text::list_text(xs.map_values(|l: lookup::ArgumentModel<F>| pinned::lookup_text(l))) + r
            == text::list_text(
            ys.map_values(|l: lookup::ArgumentModel<F>| pinned::lookup_text(l)),
        ) + s,
    ensures
        xs == ys,
        r == s,
{
    let text = |l: lookup::ArgumentModel<F>| pinned::lookup_text(l);
    assert forall|
        x: lookup::ArgumentModel<F>,
        y: lookup::ArgumentModel<F>,
        r: Seq<char>,
        s: Seq<char>,
    |
        #![trigger text(x) + r, text(y) + s]
        text(x) + r == text(y) + s implies x == y && r == s by {
        lemma_read_lookup(x, y, r, s);
        assert(x =~= y);
    }
    reveal_strlit("Argument { input_expressions: ");
    lemma_read_list(text, |x: lookup::ArgumentModel<F>| true, xs, ys, r, s);
}

proof fn lemma_read_minimum_degree(
    a: Option<usize>,
    b: Option<usize>,
    r: Seq<char>,
    s: Seq<char>,
)
    requires
        pinned::minimum_degree_text(a) + r == pinned::minimum_degree_text(b) + s,
    ensures
        a == b,
        r == s,
{
    reveal_strlit("Some(");
    reveal_strlit("None");
    reveal_strlit(")");
    let (open, close) = ("Some("@, ")"@);
    assert((pinned::minimum_degree_text(a) + r)[0] == pinned::minimum_degree_text(a)[0]);
    assert((pinned::minimum_degree_text(b) + s)[0] == pinned::minimum_degree_text(b)[0]);
    match (a, b) {
        (Some(m), Some(n)) => {
            lemma_unwrap(open, text::decimal(m as nat), text::decimal(n as nat), close, r, s);
            lemma_read_decimal(m as nat, n as nat, close + r, close + s);
            lemma_cancel(close, r, s);
        },
        (None, None) => {
            lemma_cancel("None"@, r, s);
        },
        _ => {},
    }
}

proof fn lemma_read_counts(
    a: (nat, nat, nat, nat),
    b: (nat, nat, nat, nat),
    r: Seq<char>,
    s: Seq<char>,
)
    requires
        pinned::counts_text(a.0, a.1, a.2, a.3) + r == pinned::counts_text(b.0, b.1, b.2, b.3)
            + s,
        no_digit_first(r),
        no_digit_first(s),
    ensures
        a == b,
        r == s,
{
    let (l0, l1, l2, l3) = (
        "num_fixed_columns: "@,
        ", num_advice_columns: "@,
        ", num_instance_columns: "@,
        ", num_selectors: "@,
    );
    reveal_strlit(", num_advice_columns: ");
    reveal_strlit(", num_instance_columns: ");
    reveal_strlit(", num_selectors: ");
    let (a3, b3) = (text::decimal(a.3) + r, text::decimal(b.3) + s);
    let (a2, b2) = (text::decimal(a.2) + (l3 + a3), text::decimal(b.2) + (l3 + b3));
    let (a1, b1) = (text::decimal(a.1) + (l2 + a2), text::decimal(b.1) + (l2 + b2));
    let (a0, b0) = (text::decimal(a.0) + (l1 + a1), text::decimal(b.0) + (l1 + b1));
    lemma_flat_8(
        l0,
        text::decimal(a.0),
        l1,
        text::decimal(a.1),
        l2,
        text::decimal(a.2),
        l3,
        text::decimal(a.3),
        r,
    );
    lemma_flat_8(
        l0,
        text::decimal(b.0),
        l1,
        text::decimal(b.1),
        l2,
        text::decimal(b.2),
        l3,
        text::decimal(b.3),
        s,
    );
    lemma_cancel(l0, a0, b0);
    lemma_read_decimal(a.0, b.0, l1 + a1, l1 + b1);
    lemma_cancel(l1, a1, b1);
    lemma_read_decimal(a.1, b.1, l2 + a2, l2 + b2);
    lemma_cancel(l2, a2, b2);
    lemma_read_decimal(a.2, b.2, l3 + a3, l3 + b3);
    lemma_cancel(l3, a3, b3);
    lemma_read_decimal(a.3, b.3, r, s);
}

proof fn lemma_read_tables<F>(
    a: constraint_system::SystemModel<F>,
    b: constraint_system::SystemModel<F>,
    r: Seq<char>,
    s: Seq<char>,
)
    requires
        pinned::tables_text(a.advice_queries, a.instance_queries, a.fixed_queries) + r
            == pinned::tables_text(b.advice_queries, b.instance_queries, b.fixed_queries) + s,
    ensures
        a.advice_queries == b.advice_queries,
        a.instance_queries == b.instance_queries,
        a.fixed_queries == b.fixed_queries,
        r == s,
{
    let (l0, l1, l2) = ("advice_queries: "@, ", instance_queries: "@, ", fixed_queries: "@);
    let a2 = pinned::queries_text(a.fixed_queries) + r;
    let b2 = pinned::queries_text(b.fixed_queries) + s;
    let a1 = pinned::queries_text(a.instance_queries) + (l2 + a2);
    let b1 = pinned::queries_text(b.instance_queries) + (l2 + b2);
    let a0 = pinned::queries_text(a.advice_queries) + (l1 + a1);
    let b0 = pinned::queries_text(b.advice_queries) + (l1 + b1);
    lemma_flat_6(
        l0,
        pinned::queries_text(a.advice_queries),
        l1,
        pinned::queries_text(a.instance_queries),
        l2,
        pinned::queries_text(a.fixed_queries),
        r,
    );
    lemma_flat_6(
        l0,
        pinned::queries_text(b.advice_queries),
        l1,
        pinned::queries_text(b.instance_queries),
        l2,
        pinned::queries_text(b.fixed_queries),
        s,
    );
    lemma_cancel(l0, a0, b0);
    lemma_read_queries(a.advice_queries, b.advice_queries, l1 + a1, l1 + b1);
    lemma_cancel(l1, a1, b1);
    lemma_read_queries(a.instance_queries, b.instance_queries, l2 + a2, l2 + b2);
    lemma_cancel(l2, a2, b2);
    lemma_read_queries(a.fixed_queries, b.fixed_queries, r, s);
}

proof fn lemma_read_arguments<F: PrimeField>(
    a: constraint_system::SystemModel<F>,
    b: constraint_system::SystemModel<F>,
    r: Seq<char>,
    s: Seq<char>,
)
    requires
        readable(|f: F| f.debug_text()),
        pinned::arguments_text(a.permutation, a.lookups, a.constants, a.minimum_degree) + r
            == pinned::arguments_text(b.permutation, b.lookups, b.constants, b.minimum_degree) + s,
    ensures
        a.permutation == b.permutation,
        a.lookups == b.lookups,
        a.constants == b.constants,
        a.minimum_degree == b.minimum_degree,
        r == s,
{
    let (l0, l1, l2, l3) = (
        "permutation: Argument { columns: "@,
        " }, lookups: "@,
        ", constants: "@,
        ", minimum_degree: "@,
    );
    let f = |l: lookup::ArgumentModel<F>| pinned::lookup_text(l);
    let a3 = pinned::minimum_degree_text(a.minimum_degree) + r;
    let b3 = pinned::minimum_degree_text(b.minimum_degree) + s;
    let a2 = pinned::columns_text(a.constants) + (l3 + a3);
    let b2 = pinned::columns_text(b.constants) + (l3 + b3);
    let a1 = text::list_text(a.lookups.map_values(f)) + (l2 + a2);
    let b1 = text::list_text(b.lookups.map_values(f)) + (l2 + b2);
    let a0 = pinned::columns_text(a.permutation) + (l1 + a1);
    let b0 = pinned::columns_text(b.permutation) + (l1 + b1);
    lemma_flat_8(
        l0,
        pinned::columns_text(a.permutation),
        l1,
        text::list_text(a.lookups.map_values(f)),
        l2,
        pinned::columns_text(a.constants),
        l3,
        pinned::minimum_degree_text(a.minimum_degree),
        r,
    );
    lemma_flat_8(
        l0,
        pinned::columns_text(b.permutation),
        l1,
        text::list_text(b.lookups.map_values(f)),
        l2,
        pinned::columns_text(b.constants),
        l3,
        pinned::minimum_degree_text(b.minimum_degree),
        s,
    );
    lemma_cancel(l0, a0, b0);
    lemma_read_columns(a.permutation, b.permutation, l1 + a1, l1 + b1);
    lemma_cancel(l1, a1, b1);
    lemma_read_lookups(a.lookups, b.lookups, l2 + a2, l2 + b2);
    lemma_cancel(l2, a2, b2);
    lemma_read_columns(a.constants, b.constants, l3 + a3, l3 + b3);
    lemma_cancel(l3, a3, b3);
    lemma_read_minimum_degree(a.minimum_degree, b.minimum_degree, r, s);
}

/// The pinned form of a system can be read off its text, whatever stands behind it.
pub proof fn lemma_read_system<F: PrimeField>(
    a: constraint_system::SystemModel<F>,
    b: constraint_system::SystemModel<F>,
    r: Seq<char>,
    s: Seq<char>,
)
    requires
        readable(|f: F| f.debug_text()),
        a.pinned_text() + r == b.pinned_text() + s,
    ensures
        a.num_fixed_columns == b.num_fixed_columns,
        a.num_advice_columns == b.num_advice_columns,
        a.num_instance_columns == b.num_instance_columns,
        a.num_selectors == b.num_selectors,
        constraint_system::polys_of(a.gates) == constraint_system::polys_of(b.gates),
        a.advice_queries == b.advice_queries,
        a.instance_queries == b.instance_queries,
        a.fixed_queries == b.fixed_queries,
        a.permutation == b.permutation,
        a.lookups == b.lookups,
        a.constants == b.constants,
        a.minimum_degree == b.minimum_degree,
        r == s,
{
    let (l0, l1, comma, close) = ("PinnedConstraintSystem { "@, ", gates: "@, ", "@, " }"@);
    let counts_a = (
        a.num_fixed_columns,
        a.num_advice_columns,
        a.num_instance_columns,
        a.num_selectors,
    );
    let counts_b = (
        b.num_fixed_columns,
        b.num_advice_columns,
        b.num_instance_columns,
        b.num_selectors,
    );
    let a3 = pinned::arguments_text(a.permutation, a.lookups, a.constants, a.minimum_degree) + (
    close + r);
    let b3 = pinned::arguments_text(b.permutation, b.lookups, b.constants, b.minimum_degree) + (
    close + s);
    let a2 = pinned::tables_text(a.advice_queries, a.instance_queries, a.fixed_queries) + (comma
        + a3);
    let b2 = pinned::tables_text(b.advice_queries, b.instance_queries, b.fixed_queries) + (comma
        + b3);
    let a1 = pinned::expressions_text(constraint_system::polys_of(a.gates)) + (comma + a2);
    let b1 = pinned::expressions_text(constraint_system::polys_of(b.gates)) + (comma + b2);
    let a0 = pinned::counts_text(counts_a.0, counts_a.1, counts_a.2, counts_a.3) + (l1 + a1);
    let b0 = pinned::counts_text(counts_b.0, counts_b.1, counts_b.2, counts_b.3) + (l1 + b1);
    lemma_flat_9(
        l0,
        pinned::counts_text(counts_a.0, counts_a.1, counts_a.2, counts_a.3),
        l1,
        pinned::expressions_text(constraint_system::polys_of(a.gates)),
        comma,
        pinned::tables_text(a.advice_queries, a.instance_queries, a.fixed_queries),
        comma,
        pinned::arguments_text(a.permutation, a.lookups, a.constants, a.minimum_degree),
        close,
        r,
    );
    lemma_flat_9(
        l0,
        pinned::counts_text(counts_b.0, counts_b.1, counts_b.2, counts_b.3),
        l1,
        pinned::expressions_text(constraint_system::polys_of(b.gates)),
        comma,
        pinned::tables_text(b.advice_queries, b.instance_queries, b.fixed_queries),
        comma,
        pinned::arguments_text(b.permutation, b.lookups, b.constants, b.minimum_degree),
        close,
        s,
    );
    lemma_cancel(l0, a0, b0);
    reveal_strlit(", gates: ");
    lemma_read_counts(counts_a, counts_b, l1 + a1, l1 + b1);
    lemma_cancel(l1, a1, b1);
    lemma_read_expressions(
        constraint_system::polys_of(a.gates),
        constraint_system::polys_of(b.gates),
        comma + a2,
        comma + b2,
    );
    lemma_cancel(comma, a2, b2);
    lemma_read_tables(a, b, comma + a3, comma + b3);
    lemma_cancel(comma, a3, b3);
    lemma_read_arguments(a, b, close + r, close + s);
    lemma_cancel(close, r, s);
}

/// The pinned text of a system determines what is pinned: two systems with the same text have
/// the same numbers of columns and selectors, the same polynomials in their gates, the same
/// queries, the same columns in the permutation argument, the same lookups with all their inputs
/// and tables, the same columns for constants and the same minimum degree.
pub proof fn lemma_pinned_text_determines<F: PrimeField>(
    a: constraint_system::SystemModel<F>,
    b: constraint_system::SystemModel<F>,
)
    requires
        readable(|f: F| f.debug_text()),
        a.pinned_text() == b.pinned_text(),
    ensures
        a.num_fixed_columns == b.num_fixed_columns,
        a.num_advice_columns == b.num_advice_columns,
        a.num_instance_columns == b.num_instance_columns,
        a.num_selectors == b.num_selectors,
        constraint_system::polys_of(a.gates) == constraint_system::polys_of(b.gates),
        a.advice_queries == b.advice_queries,
        a.instance_queries == b.instance_queries,
        a.fixed_queries == b.fixed_queries,
        a.permutation == b.permutation,
        a.lookups == b.lookups,
        a.constants == b.constants,
        a.minimum_degree == b.minimum_degree,
{
    lemma_read_system(a, b, seq![], seq![]);
}

// ---------------------------------------------------------------------------------
// Scalars and keys
// ---------------------------------------------------------------------------------

/// The elements of the scalar field of the Vesta curve can be read off their texts.
pub proof fn lemma_read_fp()
    ensures
        readable(|f: Fp| f.debug_text()),
{
    let text = |f: Fp| f.debug_text();
    assert forall|x: Fp, y: Fp, r: Seq<char>, s: Seq<char>|
        #![trigger text(x) + r, text(y) + s]
        text(x) + r == text(y) + s implies x == y && r == s by {
        field::lemma_fp_text(x, y);
        field::lemma_fp_text(y, x);
        lemma_same_length(x.debug_text(), y.debug_text(), r, s);
    }
}

/// The pinned text of a system over the scalar field of the Vesta curve determines what is
/// pinned.
pub proof fn lemma_pinned_text_determines_fp(
    a: constraint_system::SystemModel<Fp>,
    b: constraint_system::SystemModel<Fp>,
)
    requires
        a.pinned_text() == b.pinned_text(),
    ensures
        a.num_fixed_columns == b.num_fixed_columns,
        a.num_advice_columns == b.num_advice_columns,
        a.num_instance_columns == b.num_instance_columns,
        a.num_selectors == b.num_selectors,
        constraint_system::polys_of(a.gates) == constraint_system::polys_of(b.gates),
        a.advice_queries == b.advice_queries,
        a.instance_queries == b.instance_queries,
        a.fixed_queries == b.fixed_queries,
        a.permutation == b.permutation,
        a.lookups == b.lookups,
        a.constants == b.constants,
        a.minimum_degree == b.minimum_degree,
{
    lemma_read_fp();
    lemma_pinned_text_determines(a, b);
}

proof fn lemma_read_domain<F: PrimeField>(
    a: EvaluationDomain<F>,
    b: EvaluationDomain<F>,
    r: Seq<char>,
    s: Seq<char>,
)
    requires
        readable(|f: F| f.debug_text()),
        a.pinned_text() + r == b.pinned_text() + s,
    ensures
        a == b,
        r == s,
{
    let scalar = |f: F| f.debug_text();
    let (l0, l1, l2, close) = (
        "PinnedEvaluationDomain { k: "@,
        ", extended_k: "@,
        ", omega: "@,
        " }"@,
    );
    let (a2, b2) = (scalar(a.omega) + (close + r), scalar(b.omega) + (close + s));
    let a1 = text::decimal(a.extended_k as nat) + (l2 + a2);
    let b1 = text::decimal(b.extended_k as nat) + (l2 + b2);
    let a0 = text::decimal(a.k as nat) + (l1 + a1);
    let b0 = text::decimal(b.k as nat) + (l1 + b1);
    lemma_flat_7(
        l0,
        text::decimal(a.k as nat),
        l1,
        text::decimal(a.extended_k as nat),
        l2,
        a.omega.debug_text(),
        close,
        r,
    );
    lemma_flat_7(
        l0,
        text::decimal(b.k as nat),
        l1,
        text::decimal(b.extended_k as nat),
        l2,
        b.omega.debug_text(),
        close,
        s,
    );
    reveal_strlit(", extended_k: ");
    reveal_strlit(", omega: ");
    lemma_cancel(l0, a0, b0);
    lemma_read_decimal(a.k as nat, b.k as nat, l1 + a1, l1 + b1);
    lemma_cancel(l1, a1, b1);
    lemma_read_decimal(a.extended_k as nat, b.extended_k as nat, l2 + a2, l2 + b2);
    lemma_cancel(l2, a2, b2);
    lemma_cancel(close, r, s);
}

proof fn lemma_read_points<C: CurveAffine>(xs: Seq<C>, ys: Seq<C>, r: Seq<char>, s: Seq<char>)
    requires
        readable_where(|p: C| p.debug_text(), |p: C| p.wf()),
        forall|p: C|
            p.wf() ==> (#[trigger] p.debug_text()).len() > 0 && p.debug_text()[0] != ']',
        forall|i: int| 0 <= i < xs.len() ==> (#[trigger] xs[i]).wf(),
        forall|i: int| 0 <= i < ys.len() ==> (#[trigger] ys[i]).wf(),
        verifying_key::points_text(xs) + r == verifying_key::points_text(ys) + s,
    ensures
        xs == ys,
        r == s,
{
    let text = |p: C| p.debug_text();
    lemma_read_list(text, |p: C| p.wf(), xs, ys, r, s);
}

/// States that some points are points of the curve.
pub open spec fn points_wf<C: CurveAffine>(points: Seq<C>) -> bool {
    forall|i: int| 0 <= i < points.len() ==> (#[trigger] points[i]).wf()
}

/// The pinned text of a key determines its domain, its commitments and what is pinned of its
/// system, if points and scalars can be read off their texts.
pub proof fn lemma_pinned_key_text_determines<C: CurveAffine>(
    a: verifying_key::KeyModel<C>,
    b: verifying_key::KeyModel<C>,
)
    requires
        readable(|f: C::Scalar| f.debug_text()),
        readable_where(|p: C| p.debug_text(), |p: C| p.wf()),
        forall|p: C|
            p.wf() ==> (#[trigger] p.debug_text()).len() > 0 && p.debug_text()[0] != ']',
        points_wf(a.fixed_commitments),
        points_wf(a.permutation),
        points_wf(b.fixed_commitments),
        points_wf(b.permutation),
        a.pinned_text() == b.pinned_text(),
    ensures
        a.domain == b.domain,
        a.fixed_commitments == b.fixed_commitments,
        a.permutation == b.permutation,
        a.cs.pinned_text() == b.cs.pinned_text(),
        a.cs.num_fixed_columns == b.cs.num_fixed_columns,
        a.cs.num_advice_columns == b.cs.num_advice_columns,
        a.cs.num_instance_columns == b.cs.num_instance_columns,
        a.cs.num_selectors == b.cs.num_selectors,
        a.cs.minimum_degree == b.cs.minimum_degree,
        constraint_system::polys_of(a.cs.gates) == constraint_system::polys_of(b.cs.gates),
        a.cs.lookups == b.cs.lookups,
        a.cs.advice_queries == b.cs.advice_queries,
        a.cs.instance_queries == b.cs.instance_queries,
        a.cs.fixed_queries == b.cs.fixed_queries,
        a.cs.permutation == b.cs.permutation,
        a.cs.constants == b.cs.constants,
{
    let start = "PinnedVerificationKey { base_modulus: "@ + text::quoted(C::base_modulus_text())
        + ", scalar_modulus: "@ + text::quoted(<C::Scalar as PrimeField>::modulus_text())
        + ", domain: "@;
    let (l1, l2, l3, close) = (
        ", cs: "@,
        ", fixed_commitments: "@,
        ", permutation: VerifyingKey { commitments: "@,
        " } }"@,
    );
    let none: Seq<char> = seq![];
    let a3 = verifying_key::points_text(a.permutation) + (close + none);
    let b3 = verifying_key::points_text(b.permutation) + (close + none);
    let a2 = verifying_key::points_text(a.fixed_commitments) + (l3 + a3);
    let b2 = verifying_key::points_text(b.fixed_commitments) + (l3 + b3);
    let a1 = a.cs.pinned_text() + (l2 + a2);
    let b1 = b.cs.pinned_text() + (l2 + b2);
    let a0 = a.domain.pinned_text() + (l1 + a1);
    let b0 = b.domain.pinned_text() + (l1 + b1);
    assert(a.pinned_text() + none =~= a.pinned_text());
    lemma_flat_9(
        start,
        a.domain.pinned_text(),
        l1,
        a.cs.pinned_text(),
        l2,
        verifying_key::points_text(a.fixed_commitments),
        l3,
        verifying_key::points_text(a.permutation),
        close,
        none,
    );
    assert(b.pinned_text() + none =~= b.pinned_text());
    lemma_flat_9(
        start,
        b.domain.pinned_text(),
        l1,
        b.cs.pinned_text(),
        l2,
        verifying_key::points_text(b.fixed_commitments),
        l3,
        verifying_key::points_text(b.permutation),
        close,
        none,
    );
    lemma_cancel(start, a0, b0);
    lemma_read_domain(a.domain, b.domain, l1 + a1, l1 + b1);
    lemma_cancel(l1, a1, b1);
    lemma_read_system(a.cs, b.cs, l2 + a2, l2 + b2);
    assert(a.cs.pinned_text() == b.cs.pinned_text()) by {
        assert(a.cs.pinned_text() =~= a1.take(a1.len() - (l2 + a2).len()));
        assert(b.cs.pinned_text() =~= b1.take(b1.len() - (l2 + b2).len()));
    }
    lemma_cancel(l2, a2, b2);
    lemma_read_points(a.fixed_commitments, b.fixed_commitments, l3 + a3, l3 + b3);
    lemma_cancel(l3, a3, b3);
    lemma_read_points(a.permutation, b.permutation, close + none, close + none);
}

} // verus!
