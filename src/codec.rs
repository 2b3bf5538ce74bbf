//! Strict codec core: little-endian fixed-width integers and byte strings
//! with a 16-bit length prefix, read back from an exact position of a buffer.

use vstd::prelude::*;

verus! {

/// Why a byte string could not be decoded.
#[derive(Clone, Copy, Debug, PartialEq, Eq)]
pub enum DecodeError {
    /// The input ended before the value did.
    UnexpectedEof,
    /// Bytes remained after one whole value was read.
    TrailingBytes,
    /// A TLV entry's type id was not greater than the previous entry's.
    OutOfOrderTlv,
    /// A TLV schema names one type id twice.
    DuplicateTlvType(u16),
    /// The keys of an encoded map do not strictly ascend.
    UnorderedKeys,
    /// A TLV entry carries the default value of a field that is not
    /// optional; such a field is left out while it holds its default.
    DefaultValuePresent(u16),
    /// A TLV entry's type id is not known to a record without a bucket for
    /// unknown entries.
    UnknownTlvType(u16),
    /// No message variant is registered under this type id.
    UnknownType(u16),
}

/// The two little-endian bytes of `n`.
pub open spec fn le16(n: u16) -> Seq<u8> {
    seq![(n % 256) as u8, (n / 256) as u8]
}

/// The four little-endian bytes of `n`.
pub open spec fn le32(n: u32) -> Seq<u8> {
    seq![(n % 256) as u8, ((n / 256) % 256) as u8, ((n / 65536) % 256) as u8, (n / 16777216) as u8]
}

/// The `u16` stored little-endian at position `i` of `s`.
pub open spec fn u16_at(s: Seq<u8>, i: int) -> u16 {
    (s[i] + 256 * s[i + 1]) as u16
}

/// The `u32` stored little-endian at position `i` of `s`.
pub open spec fn u32_at(s: Seq<u8>, i: int) -> u32 {
    (s[i] + 256 * s[i + 1] + 65536 * s[i + 2] + 16777216 * s[i + 3]) as u32
}

/// A byte string preceded by its length as a `u16`.
pub open spec fn prefixed(b: Seq<u8>) -> Seq<u8> {
    le16(b.len() as u16) + b
}

/// Whether `s` holds `w` from position `pos` on.
pub open spec fn holds_at(s: Seq<u8>, pos: int, w: Seq<u8>) -> bool {
    0 <= pos && pos + w.len() <= s.len() && s.subrange(pos, pos + w.len()) == w
}

pub proof fn lemma_u16_at(s: Seq<u8>, pos: int, n: u16)
    requires
        holds_at(s, pos, le16(n)),
    ensures
        u16_at(s, pos) == n,
{
    assert(s[pos] == s.subrange(pos, pos + 2)[0]);
    assert(s[pos + 1] == s.subrange(pos, pos + 2)[1]);
}

pub proof fn lemma_u32_at(s: Seq<u8>, pos: int, n: u32)
    requires
        holds_at(s, pos, le32(n)),
    ensures
        u32_at(s, pos) == n,
{
    assert(s[pos] == s.subrange(pos, pos + 4)[0]);
    assert(s[pos + 1] == s.subrange(pos, pos + 4)[1]);
    assert(s[pos + 2] == s.subrange(pos, pos + 4)[2]);
    assert(s[pos + 3] == s.subrange(pos, pos + 4)[3]);
}

/// The two bytes at `i` are the little-endian encoding of what they hold.
pub proof fn lemma_le16_of_u16_at(s: Seq<u8>, i: int)
    requires
        0 <= i,
        i + 2 <= s.len(),
    ensures
        le16(u16_at(s, i)) == s.subrange(i, i + 2),
{
    let a = s[i];
    let b = s[i + 1];
    let n = u16_at(s, i);
    assert(n == a + 256 * b);
    assert(n % 256 == a && n / 256 == b);
    assert(le16(n) =~= s.subrange(i, i + 2));
}

/// If `s` holds `a + b` at `pos`, it holds `a` there and `b` right after.
pub proof fn lemma_holds_split(s: Seq<u8>, pos: int, a: Seq<u8>, b: Seq<u8>)
    requires
        holds_at(s, pos, a + b),
    ensures
        holds_at(s, pos, a),
        holds_at(s, pos + a.len(), b),
{
    let w = s.subrange(pos, pos + a.len() + b.len());
    assert(w == a + b);
    assert(s.subrange(pos, pos + a.len()) =~= w.subrange(0, a.len() as int));
    assert(w.subrange(0, a.len() as int) =~= a);
    assert(s.subrange(pos + a.len(), pos + a.len() + b.len()) =~= w.subrange(
        a.len() as int,
        w.len() as int,
    ));
    assert(w.subrange(a.len() as int, w.len() as int) =~= b);
}

/// Appends `n` in little-endian order.
pub fn push_u16(out: &mut Vec<u8>, n: u16)
    ensures
        final(out)@ == old(out)@ + le16(n),
{
    out.push((n % 256) as u8);
    out.push((n / 256) as u8);
    assert(final(out)@ =~= old(out)@ + le16(n));
}

/// Appends `n` in little-endian order.
pub fn push_u32(out: &mut Vec<u8>, n: u32)
    ensures
        final(out)@ == old(out)@ + le32(n),
{
    out.push((n % 256) as u8);
    out.push(((n / 256) % 256) as u8);
    out.push(((n / 65536) % 256) as u8);
    out.push((n / 16777216) as u8);
    assert(final(out)@ =~= old(out)@ + le32(n));
}

/// Appends the bytes of `b` as they are.
pub fn push_raw(out: &mut Vec<u8>, b: &[u8])
    ensures
        final(out)@ == old(out)@ + b@,
{
    let mut i: usize = 0;
    while i < b.len()
        invariant
            i <= b@.len(),
            out@ == old(out)@ + b@.subrange(0, i as int),
        decreases b@.len() - i,
    {
        out.push(b[i]);
        i = i + 1;
        assert(out@ =~= old(out)@ + b@.subrange(0, i as int));
    }
    assert(b@.subrange(0, b@.len() as int) =~= b@);
}

/// Appends `b` after its length as a `u16`.
pub fn push_prefixed(out: &mut Vec<u8>, b: &[u8])
    requires
        b@.len() <= u16::MAX,
    ensures
        final(out)@ == old(out)@ + prefixed(b@),
{
    push_u16(out, b.len() as u16);
    push_raw(out, b);
    assert(final(out)@ =~= old(out)@ + prefixed(b@));
}

/// Reads the byte at `pos`.
pub fn read_u8(s: &[u8], pos: usize) -> (r: Result<u8, DecodeError>)
    ensures
        pos + 1 <= s@.len() <==> r.is_ok(),
        r matches Ok(v) ==> v == s@[pos as int],
        r matches Err(e) ==> e == DecodeError::UnexpectedEof,
{
    if pos >= s.len() {
        return Err(DecodeError::UnexpectedEof);
    }
    Ok(s[pos])
}

/// Reads the little-endian `u16` at `pos`.
pub fn read_u16(s: &[u8], pos: usize) -> (r: Result<u16, DecodeError>)
    ensures
        pos + 2 <= s@.len() <==> r.is_ok(),
        r matches Ok(v) ==> v == u16_at(s@, pos as int),
        r matches Err(e) ==> e == DecodeError::UnexpectedEof,
{
    if pos >= s.len() || s.len() - pos < 2 {
        return Err(DecodeError::UnexpectedEof);
    }
    Ok(s[pos] as u16 + 256 * (s[pos + 1] as u16))
}

/// Reads the little-endian `u32` at `pos`.
pub fn read_u32(s: &[u8], pos: usize) -> (r: Result<u32, DecodeError>)
    ensures
        pos + 4 <= s@.len() <==> r.is_ok(),
        r matches Ok(v) ==> v == u32_at(s@, pos as int),
        r matches Err(e) ==> e == DecodeError::UnexpectedEof,
{
    if pos >= s.len() || s.len() - pos < 4 {
        return Err(DecodeError::UnexpectedEof);
    }
    Ok(s[pos] as u32 + 256 * (s[pos + 1] as u32) + 65536 * (s[pos + 2] as u32) + 16777216 * (
    s[pos + 3] as u32))
}

/// Copies the `len` bytes that start at `pos`.
pub fn read_raw(s: &[u8], pos: usize, len: usize) -> (r: Result<Vec<u8>, DecodeError>)
    ensures
        pos + len <= s@.len() <==> r.is_ok(),
        r matches Ok(v) ==> v@ == s@.subrange(pos as int, pos + len),
        r matches Err(e) ==> e == DecodeError::UnexpectedEof,
{
    if pos > s.len() || s.len() - pos < len {
        return Err(DecodeError::UnexpectedEof);
    }
    let mut v: Vec<u8> = Vec::new();
    let end = pos + len;
    let mut i: usize = pos;
    while i < end
        invariant
            end == pos + len,
            pos <= i <= end <= s@.len(),
            v@ == s@.subrange(pos as int, i as int),
        decreases end - i,
    {
        v.push(s[i]);
        i = i + 1;
        assert(v@ =~= s@.subrange(pos as int, i as int));
    }
    Ok(v)
}

/// The shape of a value that a field holds.
#[derive(Clone, Copy, Debug, PartialEq, Eq)]
pub enum ValueKind {
    U8,
    U16,
    U32,
    /// A byte string (or UTF-8 text) of at most `u16::MAX` bytes.
    Bytes,
    /// A map from `u8` keys to byte strings, in ascending key order.
    ByteMap,
}

/// A value of one of the codec's field kinds.
#[derive(Clone, Debug, PartialEq, Eq)]
pub enum Value {
    U8(u8),
    U16(u16),
    U32(u32),
    Bytes(Vec<u8>),
    ByteMap(Vec<(u8, Vec<u8>)>),
}

/// What a `Value` stands for.
pub enum ValueModel {
    U8(u8),
    U16(u16),
    U32(u32),
    Bytes(Seq<u8>),
    ByteMap(Seq<(u8, Seq<u8>)>),
}

/// The model of a byte map's entries.
pub open spec fn map_view(m: Seq<(u8, Vec<u8>)>) -> Seq<(u8, Seq<u8>)> {
    m.map_values(|e: (u8, Vec<u8>)| (e.0, e.1@))
}

/// Keys strictly ascending, and every value fits its length prefix.
pub open spec fn map_wf(m: Seq<(u8, Seq<u8>)>) -> bool {
    &&& m.len() <= u16::MAX
    &&& forall|i: int, j: int| 0 <= i < j < m.len() ==> m[i].0 < m[j].0
    &&& forall|i: int| 0 <= i < m.len() ==> m[i].1.len() <= u16::MAX
}

/// The encoded entries of a byte map: each key, then its value prefixed.
pub open spec fn map_entries_bytes(m: Seq<(u8, Seq<u8>)>) -> Seq<u8>
    decreases m.len(),
{
    if m.len() == 0 {
        Seq::empty()
    } else {
        map_entries_bytes(m.drop_last()) + (seq![m.last().0] + prefixed(m.last().1))
    }
}

/// Reads `n` byte map entries from `start` on, with strictly ascending keys:
/// the entries and the position after them.
pub open spec fn parse_map(s: Seq<u8>, start: int, n: nat) -> Result<
    (Seq<(u8, Seq<u8>)>, int),
    DecodeError,
>
    decreases n,
{
    if n == 0 {
        Ok((Seq::empty(), start))
    } else {
        match parse_map(s, start, (n - 1) as nat) {
            Err(e) => Err(e),
            Ok((es, p)) => if p + 1 > s.len() {
                Err(DecodeError::UnexpectedEof)
            } else if es.len() > 0 && s[p] <= es.last().0 {
                Err(DecodeError::UnorderedKeys)
            } else if p + 3 > s.len() || p + 3 + u16_at(s, p + 1) > s.len() {
                Err(DecodeError::UnexpectedEof)
            } else {
                let end = p + 3 + u16_at(s, p + 1);
                Ok((es.push((s[p], s.subrange(p + 3, end))), end))
            },
        }
    }
}

pub proof fn lemma_map_round_trip(m: Seq<(u8, Seq<u8>)>, s: Seq<u8>, pos: int)
    requires
        map_wf(m),
        holds_at(s, pos, map_entries_bytes(m)),
    ensures
        parse_map(s, pos, m.len()) == Ok::<(Seq<(u8, Seq<u8>)>, int), DecodeError>(
            (m, pos + map_entries_bytes(m).len()),
        ),
    decreases m.len(),
{
    if m.len() == 0 {
        assert(m =~= Seq::<(u8, Seq<u8>)>::empty());
    } else {
        let m2 = m.drop_last();
        let (k, v) = m.last();
        let p = pos + map_entries_bytes(m2).len();
        lemma_holds_split(s, pos, map_entries_bytes(m2), seq![k] + prefixed(v));
        lemma_holds_split(s, p, seq![k], prefixed(v));
        lemma_holds_split(s, p + 1, le16(v.len() as u16), v);
        assert(s[p] == s.subrange(p, p + 1)[0]);
        lemma_u16_at(s, p + 1, v.len() as u16);
        assert(map_wf(m2));
        lemma_map_round_trip(m2, s, pos);
        if m2.len() > 0 {
            assert(m2.last().0 == m[m.len() - 2].0);
            assert(m[m.len() - 2].0 < m[m.len() - 1].0);
        }
        assert(m2.push((k, v)) =~= m);
    }
}

impl View for Value {
    type V = ValueModel;

    open spec fn view(&self) -> ValueModel {
        match self {
            Value::U8(x) => ValueModel::U8(*x),
            Value::U16(x) => ValueModel::U16(*x),
            Value::U32(x) => ValueModel::U32(*x),
            Value::Bytes(b) => ValueModel::Bytes(b@),
            Value::ByteMap(m) => ValueModel::ByteMap(map_view(m@)),
        }
    }
}

impl ValueModel {
    /// Whether the value can be encoded: a byte string fits its prefix.
    pub open spec fn wf(self) -> bool {
        match self {
            ValueModel::Bytes(b) => b.len() <= u16::MAX,
            ValueModel::ByteMap(m) => map_wf(m),
            _ => true,
        }
    }

    pub open spec fn kind(self) -> ValueKind {
        match self {
            ValueModel::U8(_) => ValueKind::U8,
            ValueModel::U16(_) => ValueKind::U16,
            ValueModel::U32(_) => ValueKind::U32,
            ValueModel::Bytes(_) => ValueKind::Bytes,
            ValueModel::ByteMap(_) => ValueKind::ByteMap,
        }
    }

    /// Whether the value is its kind's default: zero, or empty.
    pub open spec fn is_default(self) -> bool {
        match self {
            ValueModel::U8(x) => x == 0,
            ValueModel::U16(x) => x == 0,
            ValueModel::U32(x) => x == 0,
            ValueModel::Bytes(b) => b.len() == 0,
            ValueModel::ByteMap(m) => m.len() == 0,
        }
    }

    /// The canonical encoding of the value.
    pub open spec fn bytes(self) -> Seq<u8> {
        match self {
            ValueModel::U8(x) => seq![x],
            ValueModel::U16(x) => le16(x),
            ValueModel::U32(x) => le32(x),
            ValueModel::Bytes(b) => prefixed(b),
            ValueModel::ByteMap(m) => le16(m.len() as u16) + map_entries_bytes(m),
        }
    }
}

/// Reads a value of `kind` at `pos`: the value and the position after it.
pub open spec fn parse_value(kind: ValueKind, s: Seq<u8>, pos: int) -> Result<
    (ValueModel, int),
    DecodeError,
> {
    match kind {
        ValueKind::U8 => if pos + 1 <= s.len() {
            Ok((ValueModel::U8(s[pos]), pos + 1))
        } else {
            Err(DecodeError::UnexpectedEof)
        },
        ValueKind::U16 => if pos + 2 <= s.len() {
            Ok((ValueModel::U16(u16_at(s, pos)), pos + 2))
        } else {
            Err(DecodeError::UnexpectedEof)
        },
        ValueKind::U32 => if pos + 4 <= s.len() {
            Ok((ValueModel::U32(u32_at(s, pos)), pos + 4))
        } else {
            Err(DecodeError::UnexpectedEof)
        },
        ValueKind::Bytes => if pos + 2 <= s.len() && pos + 2 + u16_at(s, pos) <= s.len() {
            let end = pos + 2 + u16_at(s, pos);
            Ok((ValueModel::Bytes(s.subrange(pos + 2, end)), end))
        } else {
            Err(DecodeError::UnexpectedEof)
        },
        ValueKind::ByteMap => if pos + 2 <= s.len() {
            match parse_map(s, pos + 2, u16_at(s, pos) as nat) {
                Ok((m, end)) => Ok((ValueModel::ByteMap(m), end)),
                Err(e) => Err(e),
            }
        } else {
            Err(DecodeError::UnexpectedEof)
        },
    }
}

/// A decoding result seen through the view of its value.
pub open spec fn value_result(r: Result<(Value, usize), DecodeError>) -> Result<
    (ValueModel, int),
    DecodeError,
> {
    match r {
        Ok((v, end)) => Ok((v@, end as int)),
        Err(e) => Err(e),
    }
}

/// A value encoded at `pos` reads back as itself, ending right after its
/// encoding.
pub proof fn lemma_value_round_trip(m: ValueModel, s: Seq<u8>, pos: int)
    requires
        m.wf(),
        holds_at(s, pos, m.bytes()),
    ensures
        parse_value(m.kind(), s, pos) == Ok::<(ValueModel, int), DecodeError>(
            (m, pos + m.bytes().len()),
        ),
{
    match m {
        ValueModel::U8(x) => {
            assert(s[pos] == s.subrange(pos, pos + 1)[0]);
        },
        ValueModel::U16(x) => {
            lemma_u16_at(s, pos, x);
        },
        ValueModel::U32(x) => {
            lemma_u32_at(s, pos, x);
        },
        ValueModel::Bytes(b) => {
            lemma_holds_split(s, pos, le16(b.len() as u16), b);
            lemma_u16_at(s, pos, b.len() as u16);
        },
        ValueModel::ByteMap(m) => {
            lemma_holds_split(s, pos, le16(m.len() as u16), map_entries_bytes(m));
            lemma_u16_at(s, pos, m.len() as u16);
            lemma_map_round_trip(m, s, pos + 2);
        },
    }
}

impl Value {
    pub fn kind(&self) -> (r: ValueKind)
        ensures
            r == self@.kind(),
    {
        match self {
            Value::U8(_) => ValueKind::U8,
            Value::U16(_) => ValueKind::U16,
            Value::U32(_) => ValueKind::U32,
            Value::Bytes(_) => ValueKind::Bytes,
            Value::ByteMap(_) => ValueKind::ByteMap,
        }
    }

    /// Whether the value is its kind's default: zero, or empty.
    pub fn is_default(&self) -> (r: bool)
        ensures
            r == self@.is_default(),
    {
        match self {
            Value::U8(x) => *x == 0,
            Value::U16(x) => *x == 0,
            Value::U32(x) => *x == 0,
            Value::Bytes(b) => b.len() == 0,
            Value::ByteMap(m) => m.len() == 0,
        }
    }

    /// Appends the canonical encoding of the value.
    pub fn encode_into(&self, out: &mut Vec<u8>)
        requires
            self@.wf(),
        ensures
            final(out)@ == old(out)@ + self@.bytes(),
    {
        match self {
            Value::U8(x) => {
                out.push(*x);
                assert(final(out)@ =~= old(out)@ + self@.bytes());
            },
            Value::U16(x) => push_u16(out, *x),
            Value::U32(x) => push_u32(out, *x),
            Value::Bytes(b) => push_prefixed(out, b.as_slice()),
            Value::ByteMap(m) => push_map(out, m),
        }
    }

    /// Reads a value of `kind` at `pos`.
    pub fn decode_at(kind: ValueKind, s: &[u8], pos: usize) -> (r: Result<
        (Value, usize),
        DecodeError,
    >)
        ensures
            value_result(r) == parse_value(kind, s@, pos as int),
    {
        let total = s.len();
        assert(total == s@.len());
        match kind {
            ValueKind::U8 => match read_u8(s, pos) {
                Ok(x) => Ok((Value::U8(x), pos + 1)),
                Err(e) => Err(e),
            },
            ValueKind::U16 => match read_u16(s, pos) {
                Ok(x) => Ok((Value::U16(x), pos + 2)),
                Err(e) => Err(e),
            },
            ValueKind::U32 => match read_u32(s, pos) {
                Ok(x) => Ok((Value::U32(x), pos + 4)),
                Err(e) => Err(e),
            },
            ValueKind::Bytes => match read_u16(s, pos) {
                Ok(len) => match read_raw(s, pos + 2, len as usize) {
                    Ok(b) => Ok((Value::Bytes(b), pos + 2 + len as usize)),
                    Err(e) => Err(e),
                },
                Err(e) => Err(e),
            },
            ValueKind::ByteMap => match read_u16(s, pos) {
                Ok(n) => match decode_map(s, pos + 2, n) {
                    Ok((m, end)) => Ok((Value::ByteMap(m), end)),
                    Err(e) => Err(e),
                },
                Err(e) => Err(e),
            },
        }
    }
}

/// Appends a byte map: its entry count, then each key and prefixed value.
fn push_map(out: &mut Vec<u8>, m: &Vec<(u8, Vec<u8>)>)
    requires
        map_wf(map_view(m@)),
    ensures
        final(out)@ == old(out)@ + le16(m@.len() as u16) + map_entries_bytes(map_view(m@)),
{
    let ghost mv = map_view(m@);
    push_u16(out, m.len() as u16);
    let mut i: usize = 0;
    while i < m.len()
        invariant
            mv == map_view(m@),
            map_wf(mv),
            i <= m@.len(),
            out@ == old(out)@ + le16(m@.len() as u16) + map_entries_bytes(mv.subrange(0, i as int)),
        decreases m@.len() - i,
    {
        let (k, v) = &m[i];
        assert(mv[i as int] == (*k, v@));
        out.push(*k);
        push_prefixed(out, v.as_slice());
        proof {
            let sub = mv.subrange(0, i + 1);
            assert(sub.drop_last() =~= mv.subrange(0, i as int));
            assert(sub.last() == mv[i as int]);
            assert(out@ =~= old(out)@ + le16(m@.len() as u16) + map_entries_bytes(sub));
        }
        i = i + 1;
    }
    assert(mv.subrange(0, m@.len() as int) =~= mv);
}

/// Reads `n` byte map entries from `start` on.
fn decode_map(s: &[u8], start: usize, n: u16) -> (r: Result<(Vec<(u8, Vec<u8>)>, usize), DecodeError>)
    ensures
        match r {
            Ok((m, end)) => parse_map(s@, start as int, n as nat) == Ok::<
                (Seq<(u8, Seq<u8>)>, int),
                DecodeError,
            >((map_view(m@), end as int)),
            Err(e) => parse_map(s@, start as int, n as nat) == Err::<
                (Seq<(u8, Seq<u8>)>, int),
                DecodeError,
            >(e),
        },
{
    let total = s.len();
    let mut m: Vec<(u8, Vec<u8>)> = Vec::new();
    let mut at: usize = start;
    let mut i: u16 = 0;
    assert(map_view(m@) =~= Seq::<(u8, Seq<u8>)>::empty());
    while i < n
        invariant
            total == s@.len(),
            i <= n,
            parse_map(s@, start as int, i as nat) == Ok::<(Seq<(u8, Seq<u8>)>, int), DecodeError>(
                (map_view(m@), at as int),
            ),
        decreases n - i,
    {
        let key = match read_u8(s, at) {
            Ok(k) => k,
            Err(e) => {
                proof {
                    lemma_map_refused(s@, start as int, n as nat, (i + 1) as nat);
                }
                return Err(e);
            },
        };
        let len_m = m.len();
        if len_m > 0 && key <= m[len_m - 1].0 {
            proof {
                assert(map_view(m@).last().0 == m@[len_m - 1].0);
                lemma_map_refused(s@, start as int, n as nat, (i + 1) as nat);
            }
            return Err(DecodeError::UnorderedKeys);
        }
        let len = match read_u16(s, at + 1) {
            Ok(l) => l,
            Err(e) => {
                proof {
                    lemma_map_refused(s@, start as int, n as nat, (i + 1) as nat);
                }
                return Err(e);
            },
        };
        let v = match read_raw(s, at + 3, len as usize) {
            Ok(v) => v,
            Err(e) => {
                proof {
                    lemma_map_refused(s@, start as int, n as nat, (i + 1) as nat);
                }
                return Err(e);
            },
        };
        let ghost before = map_view(m@);
        m.push((key, v));
        assert(map_view(m@) =~= before.push((key, s@.subrange(at + 3, at + 3 + len))));
        at = at + 3 + len as usize;
        i = i + 1;
    }
    Ok((m, at))
}

/// Once the first `k` map entries cannot be read, no longer run of them can.
proof fn lemma_map_refused(s: Seq<u8>, start: int, n: nat, k: nat)
    requires
        k <= n,
        parse_map(s, start, k) is Err,
    ensures
        parse_map(s, start, n) == parse_map(s, start, k),
    decreases n - k,
{
    if k < n {
        lemma_map_refused(s, start, n, k + 1);
    }
}

} // verus!
