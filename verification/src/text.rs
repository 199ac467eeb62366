//! The texts by which values are printed: numbers, bytes and lists.

use vstd::prelude::*;
use vstd::string::StringExecFns;

verus! {

/// The hexadecimal digit of a number below 16, in lower case.
pub open spec fn hex_digit(n: int) -> char {
    if n < 10 {
        ('0' as int + n) as char
    } else {
        ('a' as int + n - 10) as char
    }
}

/// The bytes of `bytes` in order, each as two hexadecimal digits in lower case.
pub open spec fn hex_text(bytes: Seq<u8>) -> Seq<char>
    decreases bytes.len(),
{
    if bytes.len() == 0 {
        seq![]
    } else {
        hex_text(bytes.drop_last()).push(hex_digit(bytes.last() as int / 16)).push(
            hex_digit(bytes.last() as int % 16),
        )
    }
}

/// The lowest `digits` hexadecimal digits of a number, highest first, in lower case.
pub open spec fn hex_number(n: nat, digits: nat) -> Seq<char>
    decreases digits,
{
    if digits == 0 {
        seq![]
    } else {
        hex_number(n / 16, (digits - 1) as nat).push(hex_digit((n % 16) as int))
    }
}

/// Calls `hex::encode`: the bytes of `bytes` in order, each as two hexadecimal digits in
/// lower case.
#[verifier::external_body]
pub(crate) fn hex_encode(bytes: &[u8]) -> (text: String)
    ensures
        text@ == hex_text(bytes@),
{
    hex::encode(bytes)
}

/// The decimal digits of a number.
pub open spec fn decimal(n: nat) -> Seq<char>
    decreases n,
{
    if n < 10 {
        seq![hex_digit(n as int)]
    } else {
        decimal(n / 10).push(hex_digit((n % 10) as int))
    }
}

/// The decimal digits of an integer, behind a minus sign if it is negative.
pub open spec fn decimal_int(n: int) -> Seq<char> {
    if n < 0 {
        "-"@ + decimal((-n) as nat)
    } else {
        decimal(n as nat)
    }
}

/// A truth value.
pub open spec fn bool_text(b: bool) -> Seq<char> {
    if b {
        "true"@
    } else {
        "false"@
    }
}

/// Texts one after the other, with a comma and a space between them.
pub open spec fn joined(items: Seq<Seq<char>>) -> Seq<char>
    decreases items.len(),
{
    if items.len() == 0 {
        seq![]
    } else if items.len() == 1 {
        items[0]
    } else {
        joined(items.drop_last()) + ", "@ + items.last()
    }
}

/// A list in square brackets.
pub open spec fn list_text(items: Seq<Seq<char>>) -> Seq<char> {
    "["@ + joined(items) + "]"@
}

/// A text in double quotes. The text holds no character that would have to be escaped.
pub open spec fn quoted(text: Seq<char>) -> Seq<char> {
    "\""@ + text + "\""@
}

/// Returns the digit of a number below 10.
fn digit(n: usize) -> (text: &'static str)
    requires
        n < 10,
    ensures
        text@ == seq![hex_digit(n as int)],
{
    proof {
        reveal_strlit("0");
        reveal_strlit("1");
        reveal_strlit("2");
        reveal_strlit("3");
        reveal_strlit("4");
        reveal_strlit("5");
        reveal_strlit("6");
        reveal_strlit("7");
        reveal_strlit("8");
        reveal_strlit("9");
    }
    let text = if n == 0 {
        "0"
    } else if n == 1 {
        "1"
    } else if n == 2 {
        "2"
    } else if n == 3 {
        "3"
    } else if n == 4 {
        "4"
    } else if n == 5 {
        "5"
    } else if n == 6 {
        "6"
    } else if n == 7 {
        "7"
    } else if n == 8 {
        "8"
    } else {
        "9"
    };
    assert(text@ =~= seq![hex_digit(n as int)]);
    text
}

/// Appends the decimal digits of a number.
pub fn append_usize(out: &mut String, n: usize)
    ensures
        final(out)@ == old(out)@ + decimal(n as nat),
    decreases n,
{
    if n >= 10 {
        append_usize(out, n / 10);
    }
    out.append(digit(n % 10));
    assert(out@ =~= old(out)@ + decimal(n as nat));
}

/// Appends the decimal digits of an integer, behind a minus sign if it is negative.
pub fn append_i32(out: &mut String, n: i32)
    ensures
        final(out)@ == old(out)@ + decimal_int(n as int),
{
    if n < 0 {
        out.append("-");
        append_usize(out, (-(n as i64)) as usize);
    } else {
        append_usize(out, n as usize);
    }
    assert(out@ =~= old(out)@ + decimal_int(n as int));
}

/// Appends a byte as two hexadecimal digits.
pub fn append_hex_byte(out: &mut String, byte: u8)
    ensures
        final(out)@ == old(out)@ + hex_text(seq![byte]),
{
    let bytes = vec![byte];
    assert(bytes@ =~= seq![byte]);
    out.append(hex_encode(bytes.as_slice()).as_str());
}

/// Appends a truth value.
pub fn append_bool(out: &mut String, b: bool)
    ensures
        final(out)@ == old(out)@ + bool_text(b),
{
    if b {
        out.append("true");
    } else {
        out.append("false");
    }
}

/// Appends a text in double quotes.
pub fn append_quoted(out: &mut String, text: &str)
    ensures
        final(out)@ == old(out)@ + quoted(text@),
{
    out.append("\"");
    out.append(text);
    out.append("\"");
    assert(out@ =~= old(out)@ + quoted(text@));
}

/// Appends more items of a list, with a comma and a space between them, where `text` says
/// what `append_one` appends for an item and `before` are the items so far.
pub(crate) fn append_items<T, A>(
    out: &mut String,
    started: bool,
    items: &[T],
    append_one: A,
    Ghost(text): Ghost<spec_fn(T) -> Seq<char>>,
    Ghost(start): Ghost<Seq<char>>,
    Ghost(before): Ghost<Seq<Seq<char>>>,
) where A: Fn(&mut String, &T)
    requires
        forall|x: &mut String, item: &T| append_one.requires((x, item)),
        forall|x: &mut String, item: &T| #[trigger]
            append_one.ensures((x, item), ()) ==> final(x)@ == x@ + text(*item),
        started <==> before.len() > 0,
        old(out)@ == start + joined(before),
    ensures
        final(out)@ == start + joined(before + items@.map_values(text)),
{
    let ghost texts = items@.map_values(text);
    let mut i: usize = 0;
    assert(before + texts.take(0) =~= before);
    while i < items.len()
        invariant
            i <= items@.len(),
            texts == items@.map_values(text),
            started <==> before.len() > 0,
            out@ == start + joined(before + texts.take(i as int)),
            forall|x: &mut String, item: &T| append_one.requires((x, item)),
            forall|x: &mut String, item: &T| #[trigger]
                append_one.ensures((x, item), ()) ==> final(x)@ == x@ + text(*item),
        decreases items@.len() - i,
    {
        if started || i > 0 {
            out.append(", ");
        }
        append_one(out, &items[i]);
        proof {
            let longer = before + texts.take(i + 1);
            assert(longer.drop_last() =~= before + texts.take(i as int));
            assert(longer.last() == text(items@[i as int]));
            assert(out@ =~= start + joined(longer));
        }
        i = i + 1;
    }
    assert(texts.take(i as int) =~= texts);
}

/// Appends a list in square brackets, where `text` says what `append_one` appends for an
/// item.
pub(crate) fn append_list<T, A>(
    out: &mut String,
    items: &Vec<T>,
    append_one: A,
    Ghost(text): Ghost<spec_fn(T) -> Seq<char>>,
) where A: Fn(&mut String, &T)
    requires
        forall|x: &mut String, item: &T| append_one.requires((x, item)),
        forall|x: &mut String, item: &T| #[trigger]
            append_one.ensures((x, item), ()) ==> final(x)@ == x@ + text(*item),
    ensures
        final(out)@ == old(out)@ + list_text(items@.map_values(text)),
{
    let ghost texts = items@.map_values(text);
    let ghost none = Seq::<Seq<char>>::empty();
    out.append("[");
    let ghost start = out@;
    assert(start =~= start + joined(none));
    append_items(
        out,
        false,
        items.as_slice(),
        append_one,
        Ghost(text),
        Ghost(start),
        Ghost(none),
    );
    assert(none + texts =~= texts);
    out.append("]");
    assert(out@ =~= old(out)@ + list_text(texts));
}

/// Each byte is printed as two hexadecimal digits in its place, of which the first stands for
/// sixteens: a digit up to 9 is that digit, and those from 10 to 15 are `a` to `f`.
pub proof fn lemma_hex_text(bytes: Seq<u8>)
    ensures
        hex_text(bytes).len() == 2 * bytes.len(),
        forall|i: int|
            #![trigger bytes[i]]
            0 <= i < bytes.len() ==> {
                &&& hex_text(bytes)[2 * i] as int == (if bytes[i] / 16 < 10 {
                    '0' as int + bytes[i] / 16
                } else {
                    'a' as int + bytes[i] / 16 - 10
                })
                &&& hex_text(bytes)[2 * i + 1] as int == (if bytes[i] % 16 < 10 {
                    '0' as int + bytes[i] % 16
                } else {
                    'a' as int + bytes[i] % 16 - 10
                })
            },
    decreases bytes.len(),
{
    if bytes.len() > 0 {
        let init = bytes.drop_last();
        lemma_hex_text(init);
        assert forall|i: int| #![trigger bytes[i]] 0 <= i < bytes.len() implies {
            &&& hex_text(bytes)[2 * i] as int == (if bytes[i] / 16 < 10 {
                '0' as int + bytes[i] / 16
            } else {
                'a' as int + bytes[i] / 16 - 10
            })
            &&& hex_text(bytes)[2 * i + 1] as int == (if bytes[i] % 16 < 10 {
                '0' as int + bytes[i] % 16
            } else {
                'a' as int + bytes[i] % 16 - 10
            })
        } by {
            if i < init.len() {
                assert(init[i] == bytes[i]);
                assert(hex_text(bytes)[2 * i] == hex_text(init)[2 * i]);
                assert(hex_text(bytes)[2 * i + 1] == hex_text(init)[2 * i + 1]);
            }
        }
    }
}

/// No two byte strings are printed alike.
pub proof fn lemma_hex_text_injective(a: Seq<u8>, b: Seq<u8>)
    requires
        hex_text(a) == hex_text(b),
    ensures
        a == b,
{
    lemma_hex_text(a);
    lemma_hex_text(b);
    assert forall|i: int| 0 <= i < a.len() implies a[i] == b[i] by {
        let (x, y) = (a[i], b[i]);
        assert(hex_text(a)[2 * i] == hex_text(b)[2 * i]);
        assert(hex_text(a)[2 * i + 1] == hex_text(b)[2 * i + 1]);
        assert(x == 16 * (x / 16) + x % 16);
        assert(y == 16 * (y / 16) + y % 16);
    }
    assert(a =~= b);
}

} // verus!
