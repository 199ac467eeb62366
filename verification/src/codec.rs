//! The binary encoding shared by everything that can be written and read back:
//! little-endian integers, counted lists and names.

use vstd::prelude::*;
use vstd::slice::slice_subrange;
use vstd::string::StringExecFns;

use crate::column::Any;
use crate::text;

verus! {

/// Why a value could not be read back from its binary form.
#[derive(Clone, Copy, Debug, PartialEq, Eq, Structural)]
pub enum ReadError {
    /// The input ended before the value was complete.
    UnexpectedEof,
    /// A constant of an expression is not the encoding of a field element.
    InvalidFieldElement,
    /// A scaling factor of an expression is not the encoding of a field element.
    InvalidScaleFactor,
    /// An expression refers to a query of the given kind that does not exist.
    QueryOutOfBounds {
        /// The kind of column that the query is made of.
        kind: Any,
        /// The index that was read.
        index: usize,
        /// The number of queries of this kind.
        len: usize,
    },
    /// An expression starts with a byte that is not a tag.
    InvalidExpressionTag(u8),
    /// A name is not valid UTF-8.
    InvalidName {
        /// The number of bytes of the name up to which it is valid.
        valid_up_to: usize,
        /// The length of the invalid sequence that follows, or nothing if the name ends within
        /// a sequence.
        error_len: Option<usize>,
    },
    /// A column starts with a byte that is not a column type.
    InvalidColumnType(u8),
    /// The flag in front of the minimum degree is neither 0 nor 1.
    InvalidMinimumDegree,
    /// A verifying key starts with an unknown version byte.
    UnexpectedVersion(u8),
    /// A verifying key has another number of selectors than its constraint system.
    SelectorCountMismatch {
        /// The number of selectors of the constraint system.
        expected: usize,
        /// The number of selectors of the key.
        found: usize,
    },
    /// A commitment is not the encoding of a curve point.
    InvalidPoint,
}

/// What kind of I/O error a failed read is reported as.
#[derive(Clone, Copy, Debug, PartialEq, Eq, Structural)]
pub enum ErrorKind {
    /// The input ended too early.
    UnexpectedEof,
    /// The bytes do not stand for a value.
    InvalidData,
    /// Any other failure.
    Other,
}

impl ReadError {
    /// The kind of this error.
    pub open spec fn error_kind(self) -> ErrorKind {
        match self {
            ReadError::UnexpectedEof => ErrorKind::UnexpectedEof,
            ReadError::InvalidPoint => ErrorKind::Other,
            _ => ErrorKind::InvalidData,
        }
    }

    /// Returns the kind of this error.
    pub fn kind(&self) -> (kind: ErrorKind)
        ensures
            kind == self.error_kind(),
    {
        match self {
            ReadError::UnexpectedEof => ErrorKind::UnexpectedEof,
            ReadError::InvalidPoint => ErrorKind::Other,
            _ => ErrorKind::InvalidData,
        }
    }

    /// What this error says.
    pub open spec fn text(self) -> Seq<char> {
        match self {
            ReadError::UnexpectedEof => "failed to fill whole buffer"@,
            ReadError::InvalidFieldElement => "Invalid field element"@,
            ReadError::InvalidScaleFactor => "Invalid field element in Scaled"@,
            ReadError::QueryOutOfBounds { kind, index, len } => kind.text() + " query index "@
                + text::decimal(index as nat) + " out of bounds (len="@ + text::decimal(
                len as nat,
            ) + ")"@,
            ReadError::InvalidExpressionTag(tag) => "Invalid expression tag: 0x"@
                + text::hex_text(seq![tag]),
            ReadError::InvalidName { valid_up_to, error_len } => match error_len {
                Some(len) => "invalid utf-8 sequence of "@ + text::decimal(len as nat)
                    + " bytes from index "@ + text::decimal(valid_up_to as nat),
                None => "incomplete utf-8 byte sequence from index "@ + text::decimal(
                    valid_up_to as nat,
                ),
            },
            ReadError::InvalidColumnType(tag) => "Invalid column type: "@ + text::decimal(
                tag as nat,
            ),
            ReadError::InvalidMinimumDegree => "Invalid minimum_degree flag"@,
            ReadError::UnexpectedVersion(version) => "unexpected version byte: 0x"@
                + text::hex_text(seq![version]) + " (expected 0x01)"@,
            ReadError::SelectorCountMismatch { expected, found } =>
                "selector count mismatch: CS has "@ + text::decimal(expected as nat) + ", VK has "@
                + text::decimal(found as nat),
            ReadError::InvalidPoint => "invalid point encoding in proof"@,
        }
    }

    /// Returns what this error says.
    pub fn message(&self) -> (message: String)
        ensures
            message@ == self.text(),
    {
        let mut out = String::new();
        match self {
            ReadError::UnexpectedEof => out.append("failed to fill whole buffer"),
            ReadError::InvalidFieldElement => out.append("Invalid field element"),
            ReadError::InvalidScaleFactor => out.append("Invalid field element in Scaled"),
            ReadError::QueryOutOfBounds { kind, index, len } => {
                kind.append_text(&mut out);
                out.append(" query index ");
                text::append_usize(&mut out, *index);
                out.append(" out of bounds (len=");
                text::append_usize(&mut out, *len);
                out.append(")");
            },
            ReadError::InvalidExpressionTag(tag) => {
                out.append("Invalid expression tag: 0x");
                text::append_hex_byte(&mut out, *tag);
            },
            ReadError::InvalidName { valid_up_to, error_len } => {
                match error_len {
                    Some(len) => {
                        out.append("invalid utf-8 sequence of ");
                        text::append_usize(&mut out, *len);
                        out.append(" bytes from index ");
                    },
                    None => out.append("incomplete utf-8 byte sequence from index "),
                }
                text::append_usize(&mut out, *valid_up_to);
            },
            ReadError::InvalidColumnType(tag) => {
                out.append("Invalid column type: ");
                text::append_usize(&mut out, *tag as usize);
            },
            ReadError::InvalidMinimumDegree => out.append("Invalid minimum_degree flag"),
            ReadError::UnexpectedVersion(version) => {
                out.append("unexpected version byte: 0x");
                text::append_hex_byte(&mut out, *version);
                out.append(" (expected 0x01)");
            },
            ReadError::SelectorCountMismatch { expected, found } => {
                out.append("selector count mismatch: CS has ");
                text::append_usize(&mut out, *expected);
                out.append(", VK has ");
                text::append_usize(&mut out, *found);
            },
            ReadError::InvalidPoint => out.append("invalid point encoding in proof"),
        }
        assert(out@ =~= self.text());
        out
    }
}

/// What reading a value of type `T` from some bytes gives: the value and the bytes
/// behind it, or the reason for which there is no value.
pub type Parsed<T> = Result<(T, Seq<u8>), ReadError>;

/// States that a read returned `r` and moved the reader from `before` to `after`, as
/// `parsed` says. A read never moves backwards, whether it succeeds or not.
pub open spec fn reads<T>(
    r: Result<T, ReadError>,
    parsed: Parsed<T>,
    before: Seq<u8>,
    after: Seq<u8>,
) -> bool {
    &&& after.is_suffix_of(before)
    &&& match parsed {
        Ok((v, rest)) => r == Ok::<T, ReadError>(v) && after == rest,
        Err(e) => r == Err::<T, ReadError>(e),
    }
}

/// [`reads`] for a value that is described by its view.
pub open spec fn reads_view<T: View>(
    r: Result<T, ReadError>,
    parsed: Parsed<T::V>,
    before: Seq<u8>,
    after: Seq<u8>,
) -> bool {
    reads(described(r, |v: T| v@), parsed, before, after)
}

/// A result with its value replaced by the description that `view` gives of it.
pub open spec fn described<T, V>(r: Result<T, ReadError>, view: spec_fn(T) -> V) -> Result<
    V,
    ReadError,
> {
    match r {
        Ok(v) => Ok(view(v)),
        Err(e) => Err(e),
    }
}

/// A result with the values of its list replaced by the descriptions that `view` gives
/// of them.
pub open spec fn described_list<T, V>(
    r: Result<Vec<T>, ReadError>,
    view: spec_fn(T) -> V,
) -> Result<Seq<V>, ReadError> {
    match r {
        Ok(vs) => Ok(vs@.map_values(view)),
        Err(e) => Err(e),
    }
}

/// A cursor over a byte string.
pub struct Reader<'a> {
    rest: &'a [u8],
}

impl<'a> View for Reader<'a> {
    type V = Seq<u8>;

    /// The bytes that have not been read yet.
    closed spec fn view(&self) -> Seq<u8> {
        self.rest@
    }
}

impl<'a> Reader<'a> {
    /// A reader at the start of `bytes`.
    pub fn new(bytes: &'a [u8]) -> (reader: Self)
        ensures
            reader@ == bytes@,
    {
        Reader { rest: bytes }
    }

    /// The bytes that have not been read yet.
    pub fn remaining(&self) -> (bytes: &'a [u8])
        ensures
            bytes@ == self@,
    {
        self.rest
    }

    /// Reads the next `n` bytes.
    pub fn read_exact(&mut self, n: usize) -> (r: Result<&'a [u8], ReadError>)
        ensures
            n <= old(self)@.len() ==> {
                &&& r is Ok
                &&& r->Ok_0@ == old(self)@.take(n as int)
                &&& final(self)@ == old(self)@.skip(n as int)
            },
            n > old(self)@.len() ==> {
                &&& r == Err::<&'a [u8], ReadError>(ReadError::UnexpectedEof)
                &&& final(self)@ == old(self)@
            },
    {
        if n > self.rest.len() {
            return Err(ReadError::UnexpectedEof);
        }
        let bytes = slice_subrange(self.rest, 0, n);
        self.rest = slice_subrange(self.rest, n, self.rest.len());
        Ok(bytes)
    }
}

// ---------------------------------------------------------------------------------
// Integers
// ---------------------------------------------------------------------------------

/// The two lowest bytes of `x`, lowest first.
pub open spec fn u16_le(x: nat) -> Seq<u8> {
    seq![(x % 256) as u8, (x / 256 % 256) as u8]
}

/// The four lowest bytes of `x`, lowest first.
pub open spec fn u32_le(x: nat) -> Seq<u8> {
    seq![
        (x % 256) as u8,
        (x / 256 % 256) as u8,
        (x / 0x1_0000 % 256) as u8,
        (x / 0x100_0000 % 256) as u8,
    ]
}

/// The eight lowest bytes of `x`, lowest first.
pub open spec fn u64_le(x: nat) -> Seq<u8> {
    u32_le(x % 0x1_0000_0000) + u32_le(x / 0x1_0000_0000)
}

/// The four bytes of `x` in two's complement, lowest first.
pub open spec fn i32_le(x: i32) -> Seq<u8> {
    u32_le((x as int % 0x1_0000_0000) as nat)
}

/// The integer whose two bytes are given, lowest first.
pub open spec fn u16_of_le(s: Seq<u8>) -> u16 {
    (s[0] + 0x100 * s[1]) as u16
}

/// The integer whose four bytes are given, lowest first.
pub open spec fn u32_of_le(s: Seq<u8>) -> u32 {
    (s[0] + 0x100 * s[1] + 0x1_0000 * s[2] + 0x100_0000 * s[3]) as u32
}

/// The integer whose four bytes in two's complement are given, lowest first.
pub open spec fn i32_of_le(s: Seq<u8>) -> i32 {
    let v = u32_of_le(s);
    if v < 0x8000_0000 {
        v as i32
    } else {
        (v - 0x1_0000_0000) as i32
    }
}

/// Reads one byte.
pub open spec fn parse_u8(s: Seq<u8>) -> Parsed<u8> {
    if s.len() >= 1 {
        Ok((s[0], s.skip(1)))
    } else {
        Err(ReadError::UnexpectedEof)
    }
}

/// Reads two bytes as an unsigned integer.
pub open spec fn parse_u16(s: Seq<u8>) -> Parsed<u16> {
    if s.len() >= 2 {
        Ok((u16_of_le(s), s.skip(2)))
    } else {
        Err(ReadError::UnexpectedEof)
    }
}

/// Reads four bytes as an unsigned integer.
pub open spec fn parse_u32(s: Seq<u8>) -> Parsed<u32> {
    if s.len() >= 4 {
        Ok((u32_of_le(s), s.skip(4)))
    } else {
        Err(ReadError::UnexpectedEof)
    }
}

/// Reads four bytes as a signed integer.
pub open spec fn parse_i32(s: Seq<u8>) -> Parsed<i32> {
    if s.len() >= 4 {
        Ok((i32_of_le(s), s.skip(4)))
    } else {
        Err(ReadError::UnexpectedEof)
    }
}

/// Reads `n` bytes as they are.
pub open spec fn parse_bytes(n: nat, s: Seq<u8>) -> Parsed<Seq<u8>> {
    if s.len() >= n {
        Ok((s.take(n as int), s.skip(n as int)))
    } else {
        Err(ReadError::UnexpectedEof)
    }
}

/// Reads one byte.
pub fn read_u8(reader: &mut Reader<'_>) -> (r: Result<u8, ReadError>)
    ensures
        reads(r, parse_u8(old(reader)@), old(reader)@, final(reader)@),
{
    match reader.read_exact(1) {
        Ok(buf) => Ok(buf[0]),
        Err(e) => Err(e),
    }
}

/// Reads a two-byte unsigned integer, lowest byte first.
pub fn read_u16(reader: &mut Reader<'_>) -> (r: Result<u16, ReadError>)
    ensures
        reads(r, parse_u16(old(reader)@), old(reader)@, final(reader)@),
{
    match reader.read_exact(2) {
        Ok(buf) => Ok(buf[0] as u16 + 0x100 * (buf[1] as u16)),
        Err(e) => Err(e),
    }
}

/// Reads a four-byte unsigned integer, lowest byte first.
pub fn read_u32(reader: &mut Reader<'_>) -> (r: Result<u32, ReadError>)
    ensures
        reads(r, parse_u32(old(reader)@), old(reader)@, final(reader)@),
{
    match reader.read_exact(4) {
        Ok(buf) => Ok(
            buf[0] as u32 + 0x100 * (buf[1] as u32) + 0x1_0000 * (buf[2] as u32) + 0x100_0000 * (
            buf[3] as u32),
        ),
        Err(e) => Err(e),
    }
}

/// Reads a four-byte signed integer in two's complement, lowest byte first.
pub fn read_i32(reader: &mut Reader<'_>) -> (r: Result<i32, ReadError>)
    ensures
        reads(r, parse_i32(old(reader)@), old(reader)@, final(reader)@),
{
    match read_u32(reader) {
        Ok(v) => if v < 0x8000_0000 {
            Ok(v as i32)
        } else {
            Ok((v as i64 - 0x1_0000_0000) as i32)
        },
        Err(e) => Err(e),
    }
}

/// Appends the two lowest bytes of `x`, lowest first.
pub fn write_u16(writer: &mut Vec<u8>, x: usize)
    ensures
        final(writer)@ == old(writer)@ + u16_le(x as nat),
{
    writer.push((x % 256) as u8);
    writer.push((x / 256 % 256) as u8);
    assert(writer@ =~= old(writer)@ + u16_le(x as nat));
}

/// Appends the four lowest bytes of `x`, lowest first.
pub fn write_u32(writer: &mut Vec<u8>, x: usize)
    ensures
        final(writer)@ == old(writer)@ + u32_le(x as nat),
{
    writer.push((x % 256) as u8);
    writer.push((x / 256 % 256) as u8);
    writer.push((x / 0x1_0000 % 256) as u8);
    writer.push((x / 0x100_0000 % 256) as u8);
    assert(writer@ =~= old(writer)@ + u32_le(x as nat));
}

/// Appends the eight bytes of `x`, lowest first.
pub fn write_u64(writer: &mut Vec<u8>, x: u64)
    ensures
        final(writer)@ == old(writer)@ + u64_le(x as nat),
{
    write_u32(writer, (x % 0x1_0000_0000) as usize);
    write_u32(writer, (x / 0x1_0000_0000) as usize);
    assert(writer@ =~= old(writer)@ + u64_le(x as nat));
}

/// Appends the four bytes of `x` in two's complement, lowest first.
pub fn write_i32(writer: &mut Vec<u8>, x: i32)
    ensures
        final(writer)@ == old(writer)@ + i32_le(x),
{
    let v: u32 = if x >= 0 {
        x as u32
    } else {
        (x as i64 + 0x1_0000_0000) as u32
    };
    write_u32(writer, v as usize);
}

/// Appends `bytes` as they are.
pub fn write_all(writer: &mut Vec<u8>, bytes: &[u8])
    ensures
        final(writer)@ == old(writer)@ + bytes@,
{
    writer.extend_from_slice(bytes);
    assert(writer@ =~= old(writer)@ + bytes@);
}

// ---------------------------------------------------------------------------------
// Lists
// ---------------------------------------------------------------------------------

/// The encodings of the values in `vs`, one after the other.
pub open spec fn encode_list<V>(vs: Seq<V>, encode: spec_fn(V) -> Seq<u8>) -> Seq<u8>
    decreases vs.len(),
{
    if vs.len() == 0 {
        seq![]
    } else {
        encode_list(vs.drop_last(), encode) + encode(vs.last())
    }
}

/// The number of values in `vs` in two bytes, then their encodings.
pub open spec fn encode_counted<V>(vs: Seq<V>, encode: spec_fn(V) -> Seq<u8>) -> Seq<u8> {
    u16_le(vs.len()) + encode_list(vs, encode)
}

/// Reads `n` values, one after the other.
pub open spec fn parse_list<V>(
    n: nat,
    parse: spec_fn(Seq<u8>) -> Parsed<V>,
    s: Seq<u8>,
) -> Parsed<Seq<V>>
    decreases n,
{
    if n == 0 {
        Ok((seq![], s))
    } else {
        match parse_list((n - 1) as nat, parse, s) {
            Ok((vs, rest)) => match parse(rest) {
                Ok((v, rest)) => Ok((vs.push(v), rest)),
                Err(e) => Err(e),
            },
            Err(e) => Err(e),
        }
    }
}

/// Reads a number of values in two bytes, then that many values.
pub open spec fn parse_counted<V>(
    parse: spec_fn(Seq<u8>) -> Parsed<V>,
    s: Seq<u8>,
) -> Parsed<Seq<V>> {
    match parse_u16(s) {
        Ok((n, rest)) => parse_list(n as nat, parse, rest),
        Err(e) => Err(e),
    }
}

/// A list that fails to be read after `m` values fails in the same way when more values
/// are asked for.
proof fn lemma_parse_list_err<V>(
    m: nat,
    n: nat,
    parse: spec_fn(Seq<u8>) -> Parsed<V>,
    s: Seq<u8>,
)
    requires
        m <= n,
        parse_list(m, parse, s) is Err,
    ensures
        parse_list(n, parse, s) == parse_list(m, parse, s),
    decreases n,
{
    if m < n {
        lemma_parse_list_err(m, (n - 1) as nat, parse, s);
    }
}

/// A byte string is a suffix of itself.
pub proof fn lemma_suffix_refl(a: Seq<u8>)
    ensures
        a.is_suffix_of(a),
{
    assert(a =~= a.subrange(0, a.len() as int));
}

/// A suffix of a suffix is a suffix.
pub proof fn lemma_suffix_trans(a: Seq<u8>, b: Seq<u8>, c: Seq<u8>)
    requires
        a.is_suffix_of(b),
        b.is_suffix_of(c),
    ensures
        a.is_suffix_of(c),
{
    assert(a =~= c.subrange(c.len() - a.len(), c.len() as int));
}

/// Reads `n` values with `read_one`, where `parse` says what `read_one` reads and `view`
/// how a value is described.
pub(crate) fn read_list<T, V, R>(
    reader: &mut Reader<'_>,
    n: usize,
    read_one: R,
    Ghost(view): Ghost<spec_fn(T) -> V>,
    Ghost(parse): Ghost<spec_fn(Seq<u8>) -> Parsed<V>>,
) -> (r: Result<Vec<T>, ReadError>) where R: Fn(&mut Reader<'_>) -> Result<T, ReadError>
    requires
        forall|x: &mut Reader<'_>| read_one.requires((x,)),
        forall|x: &mut Reader<'_>, out: Result<T, ReadError>| #[trigger]
            read_one.ensures((x,), out) ==> reads(
                described(out, view),
                parse(x@),
                x@,
                final(x)@,
            ),
    ensures
        reads(
            described_list(r, view),
            parse_list(n as nat, parse, old(reader)@),
            old(reader)@,
            final(reader)@,
        ),
{
    let mut items: Vec<T> = Vec::new();
    let mut i: usize = 0;
    let ghost start = reader@;
    assert(items@.map_values(view) =~= seq![]);
    while i < n
        invariant
            i <= n,
            start == old(reader)@,
            reader@.is_suffix_of(start),
            parse_list(i as nat, parse, start) == Ok::<(Seq<V>, Seq<u8>), ReadError>(
                (items@.map_values(view), reader@),
            ),
            forall|x: &mut Reader<'_>| read_one.requires((x,)),
            forall|x: &mut Reader<'_>, out: Result<T, ReadError>| #[trigger]
                read_one.ensures((x,), out) ==> reads(
                    described(out, view),
                    parse(x@),
                    x@,
                    final(x)@,
                ),
        decreases n - i,
    {
        let ghost before = reader@;
        let ghost seen = items@;
        match read_one(reader) {
            Ok(item) => {
                items.push(item);
                i = i + 1;
                proof {
                    lemma_suffix_trans(reader@, before, start);
                    assert(items@.map_values(view) =~= seen.map_values(view).push(view(item)));
                }
            },
            Err(e) => {
                proof {
                    lemma_suffix_trans(reader@, before, start);
                    lemma_parse_list_err((i + 1) as nat, n as nat, parse, start);
                }
                return Err(e);
            },
        }
    }
    Ok(items)
}

/// Appends the encodings of `items`, where `view` says how an item is described and
/// `encode` what `write_one` appends for it.
pub(crate) fn write_list<T, V, W>(
    writer: &mut Vec<u8>,
    items: &Vec<T>,
    write_one: W,
    Ghost(view): Ghost<spec_fn(T) -> V>,
    Ghost(encode): Ghost<spec_fn(V) -> Seq<u8>>,
) where W: Fn(&mut Vec<u8>, &T)
    requires
        forall|x: &mut Vec<u8>, item: &T| write_one.requires((x, item)),
        forall|x: &mut Vec<u8>, item: &T| #[trigger]
            write_one.ensures((x, item), ()) ==> final(x)@ == x@ + encode(view(*item)),
    ensures
        final(writer)@ == old(writer)@ + encode_list(items@.map_values(view), encode),
{
    let ghost start = writer@;
    let ghost views = items@.map_values(view);
    let mut i: usize = 0;
    assert(views.take(0) =~= seq![]);
    assert(start =~= start + encode_list(views.take(0), encode));
    while i < items.len()
        invariant
            i <= items.len(),
            start == old(writer)@,
            views == items@.map_values(view),
            writer@ == start + encode_list(views.take(i as int), encode),
            forall|x: &mut Vec<u8>, item: &T| write_one.requires((x, item)),
            forall|x: &mut Vec<u8>, item: &T| #[trigger]
                write_one.ensures((x, item), ()) ==> final(x)@ == x@ + encode(view(*item)),
        decreases items.len() - i,
    {
        write_one(writer, &items[i]);
        proof {
            assert(views.take(i + 1).drop_last() =~= views.take(i as int));
            assert(views.take(i + 1).last() == view(items@[i as int]));
            assert(writer@ =~= start + encode_list(views.take(i + 1), encode));
        }
        i = i + 1;
    }
    assert(views.take(i as int) =~= views);
}

/// Reads a number of values in two bytes, then that many values with `read_one`, where
/// `parse` says what `read_one` reads and `view` how a value is described.
pub(crate) fn read_counted<T, V, R>(
    reader: &mut Reader<'_>,
    read_one: R,
    Ghost(view): Ghost<spec_fn(T) -> V>,
    Ghost(parse): Ghost<spec_fn(Seq<u8>) -> Parsed<V>>,
) -> (r: Result<Vec<T>, ReadError>) where R: Fn(&mut Reader<'_>) -> Result<T, ReadError>
    requires
        forall|x: &mut Reader<'_>| read_one.requires((x,)),
        forall|x: &mut Reader<'_>, out: Result<T, ReadError>| #[trigger]
            read_one.ensures((x,), out) ==> reads(
                described(out, view),
                parse(x@),
                x@,
                final(x)@,
            ),
    ensures
        reads(
            described_list(r, view),
            parse_counted(parse, old(reader)@),
            old(reader)@,
            final(reader)@,
        ),
{
    let ghost start = reader@;
    let n = match read_u16(reader) {
        Ok(n) => n as usize,
        Err(e) => {
            return Err(e);
        },
    };
    let ghost middle = reader@;
    let r = read_list::<T, V, R>(reader, n, read_one, Ghost(view), Ghost(parse));
    proof {
        lemma_suffix_trans(reader@, middle, start);
    }
    r
}

/// Appends the number of `items` in two bytes, then their encodings, where `view` says how
/// an item is described and `encode` what `write_one` appends for it.
pub(crate) fn write_counted<T, V, W>(
    writer: &mut Vec<u8>,
    items: &Vec<T>,
    write_one: W,
    Ghost(view): Ghost<spec_fn(T) -> V>,
    Ghost(encode): Ghost<spec_fn(V) -> Seq<u8>>,
) where W: Fn(&mut Vec<u8>, &T)
    requires
        forall|x: &mut Vec<u8>, item: &T| write_one.requires((x, item)),
        forall|x: &mut Vec<u8>, item: &T| #[trigger]
            write_one.ensures((x, item), ()) ==> final(x)@ == x@ + encode(view(*item)),
    ensures
        final(writer)@ == old(writer)@ + encode_counted(items@.map_values(view), encode),
{
    write_u16(writer, items.len());
    write_list::<T, V, W>(writer, items, write_one, Ghost(view), Ghost(encode));
    assert(writer@ =~= old(writer)@ + encode_counted(items@.map_values(view), encode));
}

// ---------------------------------------------------------------------------------
// Names
// ---------------------------------------------------------------------------------

/// The length in bytes of the UTF-8 form of `name`, in two bytes, then that form.
pub open spec fn encode_name(name: Seq<char>) -> Seq<u8> {
    u16_le(vstd::utf8::encode_utf8(name).len()) + vstd::utf8::encode_utf8(name)
}

/// Reads a length in two bytes, then that many bytes as UTF-8.
pub open spec fn parse_name(s: Seq<u8>) -> Parsed<Seq<char>> {
    match parse_u16(s) {
        Ok((n, rest)) => match parse_bytes(n as nat, rest) {
            Ok((bytes, rest)) => if vstd::utf8::valid_utf8(bytes) {
                Ok((vstd::utf8::decode_utf8(bytes), rest))
            } else {
                Err(
                    ReadError::InvalidName {
                        valid_up_to: valid_prefix(bytes, bytes.len()) as usize,
                        error_len: utf8_error_len(bytes),
                    },
                )
            },
            Err(e) => Err(e),
        },
        Err(e) => Err(e),
    }
}

/// The largest number of bytes, `n` at most, that `bytes` start with and that are valid UTF-8.
pub open spec fn valid_prefix(bytes: Seq<u8>, n: nat) -> nat
    decreases n,
{
    if n == 0 || vstd::utf8::valid_utf8(bytes.take(n as int)) {
        n
    } else {
        valid_prefix(bytes, (n - 1) as nat)
    }
}

/// What `Utf8Error::error_len` returns for the error that `String::from_utf8` gives on
/// `bytes`: the length of the first invalid sequence, or nothing if the bytes end within a
/// sequence.
pub uninterp spec fn utf8_error_len(bytes: Seq<u8>) -> Option<usize>;

/// Calls `String::from_utf8`: the string that `bytes` encode, if they are valid UTF-8.
/// Otherwise the error is taken apart: `valid_up_to` is the largest number of bytes from the
/// start that are valid, and `error_len` is named; if it is nothing, the valid bytes end one to
/// three bytes before the end. How long an invalid sequence is taken to be is not stated.
#[verifier::external_body]
fn string_from_utf8(bytes: Vec<u8>) -> (r: Result<String, (usize, Option<usize>)>)
    ensures
        match r {
            Ok(string) => {
                &&& vstd::utf8::valid_utf8(bytes@)
                &&& string@ == vstd::utf8::decode_utf8(bytes@)
            },
            Err((valid_up_to, error_len)) => {
                &&& !vstd::utf8::valid_utf8(bytes@)
                &&& valid_up_to == valid_prefix(bytes@, bytes@.len())
                &&& error_len == utf8_error_len(bytes@)
                &&& error_len is None ==> valid_up_to + 1 <= bytes@.len() <= valid_up_to + 3
            },
        },
{
    match String::from_utf8(bytes) {
        Ok(string) => Ok(string),
        Err(e) => Err((e.utf8_error().valid_up_to(), e.utf8_error().error_len())),
    }
}

/// Appends a name: its length in two bytes, then its UTF-8 form.
pub fn write_name(writer: &mut Vec<u8>, name: &str)
    ensures
        final(writer)@ == old(writer)@ + encode_name(name@),
{
    let name_bytes = name.as_bytes();
    write_u16(writer, name_bytes.len());
    write_all(writer, name_bytes);
    assert(writer@ =~= old(writer)@ + encode_name(name@));
}

/// Reads a name: its length in two bytes, then its UTF-8 form.
pub fn read_name(reader: &mut Reader<'_>) -> (r: Result<String, ReadError>)
    ensures
        reads_view(r, parse_name(old(reader)@), old(reader)@, final(reader)@),
{
    let ghost start = reader@;
    let len = match read_u16(reader) {
        Ok(len) => len,
        Err(e) => {
            return Err(e);
        },
    };
    let ghost middle = reader@;
    match reader.read_exact(len as usize) {
        Ok(buf) => {
            proof {
                lemma_suffix_trans(reader@, middle, start);
            }
            let mut bytes: Vec<u8> = Vec::new();
            write_all(&mut bytes, buf);
            assert(bytes@ =~= buf@);
            match string_from_utf8(bytes) {
                Ok(name) => Ok(name),
                Err((valid_up_to, error_len)) => Err(
                    ReadError::InvalidName { valid_up_to, error_len },
                ),
            }
        },
        Err(e) => Err(e),
    }
}

// ---------------------------------------------------------------------------------
// What is written can be read back
// ---------------------------------------------------------------------------------

/// Three byte strings with a tail behind them, taken apart from the front.
pub proof fn lemma_concat(a: Seq<u8>, b: Seq<u8>, c: Seq<u8>, tail: Seq<u8>)
    ensures
        a + b + c + tail == a + (b + (c + tail)),
{
    assert(a + b + c + tail =~= a + (b + (c + tail)));
}

/// Four byte strings with a tail behind them, taken apart from the front.
pub proof fn lemma_concat_4(a: Seq<u8>, b: Seq<u8>, c: Seq<u8>, d: Seq<u8>, tail: Seq<u8>)
    ensures
        a + b + c + d + tail == a + (b + (c + (d + tail))),
{
    assert(a + b + c + d + tail =~= a + (b + (c + (d + tail))));
}

/// Five byte strings with a tail behind them, taken apart from the front.
pub proof fn lemma_concat_5(
    a: Seq<u8>,
    b: Seq<u8>,
    c: Seq<u8>,
    d: Seq<u8>,
    e: Seq<u8>,
    tail: Seq<u8>,
)
    ensures
        a + b + c + d + e + tail == a + (b + (c + (d + (e + tail)))),
{
    assert(a + b + c + d + e + tail =~= a + (b + (c + (d + (e + tail)))));
}

/// States that `v` is read back from its encoding, whatever stands behind it.
pub open spec fn round_trips<V>(
    v: V,
    encode: spec_fn(V) -> Seq<u8>,
    parse: spec_fn(Seq<u8>) -> Parsed<V>,
) -> bool {
    forall|tail: Seq<u8>| #[trigger]
        parse(encode(v) + tail) == Ok::<(V, Seq<u8>), ReadError>((v, tail))
}

/// A two-byte integer is read back as it was written.
pub proof fn lemma_u16_round_trip(x: nat, tail: Seq<u8>)
    requires
        x < 0x1_0000,
    ensures
        parse_u16(u16_le(x) + tail) == Ok::<(u16, Seq<u8>), ReadError>((x as u16, tail)),
{
    assert((u16_le(x) + tail).skip(2) =~= tail);
}

/// An integer that was read from two bytes is written in the same two bytes.
pub proof fn lemma_u16_written_as_read(s: Seq<u8>)
    ensures
        parse_u16(s) matches Ok((x, rest)) ==> s == u16_le(x as nat) + rest,
{
    if let Ok((x, rest)) = parse_u16(s) {
        assert(s =~= u16_le(x as nat) + rest);
    }
}

/// A four-byte integer is read back as it was written.
#[verifier::spinoff_prover]
pub proof fn lemma_u32_round_trip(x: nat, tail: Seq<u8>)
    requires
        x < 0x1_0000_0000,
    ensures
        parse_u32(u32_le(x) + tail) == Ok::<(u32, Seq<u8>), ReadError>((x as u32, tail)),
{
    assert(x == x % 256 + 0x100 * (x / 256 % 256) + 0x1_0000 * (x / 0x1_0000 % 256) + 0x100_0000 * (
    x / 0x100_0000 % 256));
    let s = u32_le(x) + tail;
    assert(s[0] == x % 256);
    assert(s[1] == x / 256 % 256);
    assert(s[2] == x / 0x1_0000 % 256);
    assert(s[3] == x / 0x100_0000 % 256);
    assert(s.skip(4) =~= tail);
}

/// A signed four-byte integer is read back as it was written.
pub proof fn lemma_i32_round_trip(x: i32, tail: Seq<u8>)
    ensures
        parse_i32(i32_le(x) + tail) == Ok::<(i32, Seq<u8>), ReadError>((x, tail)),
{
    lemma_u32_round_trip((x as int % 0x1_0000_0000) as nat, tail);
}

/// Less than 65536 bytes behind their number are read back as they were written.
proof fn lemma_sized_bytes_round_trip(bytes: Seq<u8>, tail: Seq<u8>)
    requires
        bytes.len() < 0x1_0000,
    ensures
        parse_u16(u16_le(bytes.len()) + bytes + tail) == Ok::<(u16, Seq<u8>), ReadError>(
            (bytes.len() as u16, bytes + tail),
        ),
        parse_bytes(bytes.len(), bytes + tail) == Ok::<(Seq<u8>, Seq<u8>), ReadError>(
            (bytes, tail),
        ),
{
    lemma_u16_round_trip(bytes.len(), bytes + tail);
    assert(u16_le(bytes.len()) + bytes + tail =~= u16_le(bytes.len()) + (bytes + tail));
    assert((bytes + tail).take(bytes.len() as int) =~= bytes);
    assert((bytes + tail).skip(bytes.len() as int) =~= tail);
}

/// A name whose UTF-8 form has less than 65536 bytes is read back as it was written.
#[verifier::spinoff_prover]
pub proof fn lemma_name_round_trip(name: Seq<char>, tail: Seq<u8>)
    requires
        vstd::utf8::encode_utf8(name).len() < 0x1_0000,
    ensures
        parse_name(encode_name(name) + tail) == Ok::<(Seq<char>, Seq<u8>), ReadError>(
            (name, tail),
        ),
{
    lemma_sized_bytes_round_trip(vstd::utf8::encode_utf8(name), tail);
    vstd::utf8::encode_utf8_valid_utf8(name);
    vstd::utf8::encode_utf8_decode_utf8(name);
}

/// A list of values that are read back as they were written is read back as it was
/// written.
pub proof fn lemma_list_round_trip<V>(
    vs: Seq<V>,
    encode: spec_fn(V) -> Seq<u8>,
    parse: spec_fn(Seq<u8>) -> Parsed<V>,
    tail: Seq<u8>,
)
    requires
        forall|i: int| 0 <= i < vs.len() ==> round_trips(#[trigger] vs[i], encode, parse),
    ensures
        parse_list(vs.len(), parse, encode_list(vs, encode) + tail) == Ok::<
            (Seq<V>, Seq<u8>),
            ReadError,
        >((vs, tail)),
    decreases vs.len(),
{
    if vs.len() == 0 {
        assert(encode_list(vs, encode) + tail =~= tail);
        assert(vs =~= seq![]);
    } else {
        let init = vs.drop_last();
        let last = encode(vs.last());
        lemma_list_round_trip(init, encode, parse, last + tail);
        assert(encode_list(vs, encode) + tail =~= encode_list(init, encode) + (last + tail));
        assert(round_trips(vs[vs.len() - 1], encode, parse));
        assert(init.push(vs.last()) =~= vs);
    }
}

proof fn lemma_concat_3(a: Seq<u8>, b: Seq<u8>, tail: Seq<u8>)
    ensures
        a + b + tail == a + (b + tail),
{
    assert(a + b + tail =~= a + (b + tail));
}

/// A counted list of less than 65536 values that are read back as they were written is
/// read back as it was written.
#[verifier::spinoff_prover]
pub proof fn lemma_counted_round_trip<V>(
    vs: Seq<V>,
    encode: spec_fn(V) -> Seq<u8>,
    parse: spec_fn(Seq<u8>) -> Parsed<V>,
    tail: Seq<u8>,
)
    requires
        vs.len() < 0x1_0000,
        forall|i: int| 0 <= i < vs.len() ==> round_trips(#[trigger] vs[i], encode, parse),
    ensures
        parse_counted(parse, encode_counted(vs, encode) + tail) == Ok::<
            (Seq<V>, Seq<u8>),
            ReadError,
        >((vs, tail)),
{
    let list = encode_list(vs, encode);
    lemma_u16_round_trip(vs.len(), list + tail);
    lemma_concat_3(u16_le(vs.len()), list, tail);
    lemma_list_round_trip(vs, encode, parse, tail);
}

/// States that every value that `parse` reads has the property `p`.
pub open spec fn always_reads<V>(
    parse: spec_fn(Seq<u8>) -> Parsed<V>,
    p: spec_fn(V) -> bool,
) -> bool {
    forall|s: Seq<u8>| (#[trigger] parse(s)) matches Ok((v, _)) ==> p(v)
}

/// A list that was read has as many values as were asked for, and they have the property
/// that every value has that is read.
pub proof fn lemma_parsed_list<V>(
    n: nat,
    parse: spec_fn(Seq<u8>) -> Parsed<V>,
    s: Seq<u8>,
    p: spec_fn(V) -> bool,
)
    requires
        always_reads(parse, p),
    ensures
        parse_list(n, parse, s) matches Ok((vs, _)) ==> {
            &&& vs.len() == n
            &&& forall|i: int| 0 <= i < vs.len() ==> p(#[trigger] vs[i])
        },
    decreases n,
{
    if n > 0 {
        lemma_parsed_list((n - 1) as nat, parse, s, p);
    }
}

/// A counted list that was read has less than 65536 values, and they have the property that
/// every value has that is read.
pub proof fn lemma_parsed_counted<V>(
    parse: spec_fn(Seq<u8>) -> Parsed<V>,
    s: Seq<u8>,
    p: spec_fn(V) -> bool,
)
    requires
        always_reads(parse, p),
    ensures
        parse_counted(parse, s) matches Ok((vs, _)) ==> {
            &&& vs.len() < 0x1_0000
            &&& forall|i: int| 0 <= i < vs.len() ==> p(#[trigger] vs[i])
        },
{
    if let Ok((n, rest)) = parse_u16(s) {
        lemma_parsed_list(n as nat, parse, rest, p);
    }
}

/// A name that was read has a UTF-8 form of less than 65536 bytes.
pub proof fn lemma_parsed_name(s: Seq<u8>)
    ensures
        parse_name(s) matches Ok((name, _)) ==> vstd::utf8::encode_utf8(name).len() < 0x1_0000,
{
    if let Ok((n, rest)) = parse_u16(s) {
        if let Ok((bytes, _)) = parse_bytes(n as nat, rest) {
            if vstd::utf8::valid_utf8(bytes) {
                vstd::utf8::decode_utf8_encode_utf8(bytes);
            }
        }
    }
}

} // verus!
