//! TLV extension streams: a `u16` count of entries, then each entry as
//! `(type: u16, length: u16, value)`, strictly ascending by type id.

use vstd::prelude::*;
use crate::codec::{
    DecodeError, le16, prefixed, u16_at, holds_at, lemma_u16_at, lemma_holds_split, push_u16,
    push_prefixed, read_u16, read_raw, lemma_le16_of_u16_at,
};

verus! {

/// One entry of a TLV stream: a type id and the raw bytes of its value.
#[derive(Clone, Debug, PartialEq, Eq)]
pub struct TlvEntry {
    pub type_id: u16,
    pub value: Vec<u8>,
}

impl TlvEntry {
    /// A copy of the entry.
    pub fn duplicate(&self) -> (r: TlvEntry)
        ensures
            r@ == self@,
    {
        TlvEntry { type_id: self.type_id, value: vstd::slice::slice_to_vec(self.value.as_slice()) }
    }
}

/// The model of a TLV entry: its type id and value bytes.
pub type EntryModel = (u16, Seq<u8>);

impl View for TlvEntry {
    type V = EntryModel;

    open spec fn view(&self) -> EntryModel {
        (self.type_id, self.value@)
    }
}

/// A TLV stream; well-formed streams are strictly ascending by type id.
#[derive(Clone, Debug, PartialEq, Eq, Default)]
pub struct TlvStream {
    pub entries: Vec<TlvEntry>,
}

impl View for TlvStream {
    type V = Seq<EntryModel>;

    open spec fn view(&self) -> Seq<EntryModel> {
        self.entries@.map_values(|e: TlvEntry| e@)
    }
}

/// Type ids strictly ascending, all of them above `prev`.
pub open spec fn ascending_above(e: Seq<EntryModel>, prev: int) -> bool {
    &&& forall|i: int, j: int| 0 <= i < j < e.len() ==> e[i].0 < e[j].0
    &&& forall|i: int| 0 <= i < e.len() ==> prev < e[i].0
}

/// A stream that can be written: ascending, and every count and length fits
/// its `u16` field.
pub open spec fn stream_wf(e: Seq<EntryModel>) -> bool {
    &&& e.len() <= u16::MAX
    &&& ascending_above(e, -1)
    &&& forall|i: int| 0 <= i < e.len() ==> e[i].1.len() <= u16::MAX
}

pub open spec fn entry_bytes(e: EntryModel) -> Seq<u8> {
    le16(e.0) + prefixed(e.1)
}

pub open spec fn entries_bytes(e: Seq<EntryModel>) -> Seq<u8>
    decreases e.len(),
{
    if e.len() == 0 {
        Seq::empty()
    } else {
        entry_bytes(e[0]) + entries_bytes(e.drop_first())
    }
}

/// The canonical encoding of a TLV stream.
pub open spec fn stream_bytes(e: Seq<EntryModel>) -> Seq<u8> {
    le16(e.len() as u16) + entries_bytes(e)
}

/// `r` with the entries `done` put in front of its entries.
pub open spec fn prepend(done: Seq<EntryModel>, r: Result<(Seq<EntryModel>, int), DecodeError>) -> Result<
    (Seq<EntryModel>, int),
    DecodeError,
> {
    match r {
        Ok((rest, end)) => Ok((done + rest, end)),
        Err(e) => Err(e),
    }
}

/// Reads `n` entries from `pos` on, each with a type id above the one before
/// (the first above `prev`): the entries and the position after them.
pub open spec fn parse_entries(s: Seq<u8>, pos: int, n: nat, prev: int) -> Result<
    (Seq<EntryModel>, int),
    DecodeError,
>
    decreases n,
{
    if n == 0 {
        Ok((Seq::empty(), pos))
    } else if pos + 2 > s.len() {
        Err(DecodeError::UnexpectedEof)
    } else if u16_at(s, pos) <= prev {
        Err(DecodeError::OutOfOrderTlv)
    } else if pos + 4 > s.len() || pos + 4 + u16_at(s, pos + 2) > s.len() {
        Err(DecodeError::UnexpectedEof)
    } else {
        let t = u16_at(s, pos);
        let end = pos + 4 + u16_at(s, pos + 2);
        prepend(seq![(t, s.subrange(pos + 4, end))], parse_entries(s, end, (n - 1) as nat, t as int))
    }
}

/// Reads a whole TLV stream, count first, from `pos` on.
pub open spec fn parse_stream(s: Seq<u8>, pos: int) -> Result<(Seq<EntryModel>, int), DecodeError> {
    if pos + 2 > s.len() {
        Err(DecodeError::UnexpectedEof)
    } else {
        parse_entries(s, pos + 2, u16_at(s, pos) as nat, -1)
    }
}

/// Decoding of a byte string that must hold exactly one TLV stream.
pub open spec fn stream_from_bytes(s: Seq<u8>) -> Result<Seq<EntryModel>, DecodeError> {
    match parse_stream(s, 0) {
        Ok((e, end)) => if end == s.len() {
            Ok(e)
        } else {
            Err(DecodeError::TrailingBytes)
        },
        Err(x) => Err(x),
    }
}

pub proof fn lemma_entries_bytes_push(e: Seq<EntryModel>, x: EntryModel)
    ensures
        entries_bytes(e.push(x)) == entries_bytes(e) + entry_bytes(x),
    decreases e.len(),
{
    if e.len() == 0 {
        assert(e.push(x).drop_first() =~= Seq::<EntryModel>::empty());
        assert(e.push(x)[0] == x);
        assert(entries_bytes(e.push(x).drop_first()) == Seq::<u8>::empty());
        assert(entries_bytes(e) == Seq::<u8>::empty());
        assert(entries_bytes(e.push(x)) =~= entries_bytes(e) + entry_bytes(x));
    } else {
        assert(e.push(x).drop_first() =~= e.drop_first().push(x));
        lemma_entries_bytes_push(e.drop_first(), x);
        assert(entries_bytes(e.push(x)) =~= entries_bytes(e) + entry_bytes(x));
    }
}

/// Encoded entries that ascend above `prev` read back as themselves.
pub proof fn lemma_entries_round_trip(e: Seq<EntryModel>, s: Seq<u8>, pos: int, prev: int)
    requires
        ascending_above(e, prev),
        forall|i: int| 0 <= i < e.len() ==> e[i].1.len() <= u16::MAX,
        holds_at(s, pos, entries_bytes(e)),
    ensures
        parse_entries(s, pos, e.len(), prev) == Ok::<(Seq<EntryModel>, int), DecodeError>(
            (e, pos + entries_bytes(e).len()),
        ),
    decreases e.len(),
{
    if e.len() > 0 {
        let t = e[0].0;
        let v = e[0].1;
        lemma_holds_split(s, pos, entry_bytes(e[0]), entries_bytes(e.drop_first()));
        lemma_holds_split(s, pos, le16(t), prefixed(v));
        lemma_holds_split(s, pos + 2, le16(v.len() as u16), v);
        lemma_u16_at(s, pos, t);
        lemma_u16_at(s, pos + 2, v.len() as u16);
        let end = pos + 4 + v.len();
        assert(end == pos + entry_bytes(e[0]).len());
        lemma_entries_round_trip(e.drop_first(), s, end, t as int);
        assert(seq![(t, v)] + e.drop_first() =~= e);
        assert(s.subrange(pos + 4, end) == v);
    } else {
        assert(e =~= Seq::<EntryModel>::empty());
    }
}

/// Entries that do not ascend above `prev` are refused, whatever their
/// lengths say.
pub proof fn lemma_entries_out_of_order(e: Seq<EntryModel>, s: Seq<u8>, pos: int, prev: int)
    requires
        !ascending_above(e, prev),
        forall|i: int| 0 <= i < e.len() ==> e[i].1.len() <= u16::MAX,
        holds_at(s, pos, entries_bytes(e)),
    ensures
        parse_entries(s, pos, e.len(), prev) == Err::<(Seq<EntryModel>, int), DecodeError>(
            DecodeError::OutOfOrderTlv,
        ),
    decreases e.len(),
{
    let t = e[0].0;
    let v = e[0].1;
    lemma_holds_split(s, pos, entry_bytes(e[0]), entries_bytes(e.drop_first()));
    lemma_holds_split(s, pos, le16(t), prefixed(v));
    lemma_holds_split(s, pos + 2, le16(v.len() as u16), v);
    lemma_u16_at(s, pos, t);
    lemma_u16_at(s, pos + 2, v.len() as u16);
    if t > prev {
        let end = pos + 4 + v.len();
        let rest = e.drop_first();
        assert(!ascending_above(rest, t as int)) by {
            if ascending_above(rest, t as int) {
                assert forall|i: int, j: int| 0 <= i < j < e.len() implies e[i].0 < e[j].0 by {
                    if i > 0 {
                        assert(e[i] == rest[i - 1] && e[j] == rest[j - 1]);
                    } else {
                        assert(e[j] == rest[j - 1]);
                    }
                }
                assert forall|i: int| 0 <= i < e.len() implies prev < e[i].0 by {
                    if i > 0 {
                        assert(e[i] == rest[i - 1]);
                    }
                }
            }
        }
        lemma_entries_out_of_order(rest, s, end, t as int);
    }
}

/// Whatever reads as entries is ascending, fits its length fields, and is
/// exactly the encoding of those entries.
pub proof fn lemma_entries_canonical(s: Seq<u8>, pos: int, n: nat, prev: int)
    requires
        0 <= pos <= s.len(),
        parse_entries(s, pos, n, prev) is Ok,
    ensures
        ({
            let (e, end) = parse_entries(s, pos, n, prev)->Ok_0;
            &&& e.len() == n
            &&& ascending_above(e, prev)
            &&& forall|i: int| 0 <= i < e.len() ==> e[i].1.len() <= u16::MAX
            &&& pos <= end <= s.len()
            &&& s.subrange(pos, end) == entries_bytes(e)
        }),
    decreases n,
{
    let (e, end) = parse_entries(s, pos, n, prev)->Ok_0;
    if n == 0 {
        assert(e =~= Seq::<EntryModel>::empty());
        assert(s.subrange(pos, end) =~= entries_bytes(e));
    } else {
        let t = u16_at(s, pos);
        let l = u16_at(s, pos + 2);
        let mid = pos + 4 + l;
        lemma_entries_canonical(s, mid, (n - 1) as nat, t as int);
        let (rest, end2) = parse_entries(s, mid, (n - 1) as nat, t as int)->Ok_0;
        let v = s.subrange(pos + 4, mid);
        assert(e == seq![(t, v)] + rest);
        assert(e[0] == (t, v));
        assert(e.drop_first() =~= rest);
        assert forall|i: int, j: int| 0 <= i < j < e.len() implies e[i].0 < e[j].0 by {
            if i > 0 {
                assert(e[i] == rest[i - 1] && e[j] == rest[j - 1]);
            } else {
                assert(e[j] == rest[j - 1]);
            }
        }
        assert forall|i: int| 0 <= i < e.len() implies prev < e[i].0 && e[i].1.len() <= u16::MAX by {
            if i > 0 {
                assert(e[i] == rest[i - 1]);
            }
        }
        lemma_le16_of_u16_at(s, pos);
        lemma_le16_of_u16_at(s, pos + 2);
        assert(v.len() == l);
        assert(s.subrange(pos, end) =~= s.subrange(pos, pos + 2) + (s.subrange(pos + 2, pos + 4)
            + v) + s.subrange(mid, end));
        assert(entry_bytes(e[0]) == le16(t) + (le16(v.len() as u16) + v));
        assert(s.subrange(pos, end) =~= entries_bytes(e));
    }
}

/// A well-formed stream reads back from its encoding, which it uses whole.
pub proof fn lemma_stream_round_trip(e: Seq<EntryModel>, s: Seq<u8>, pos: int)
    requires
        stream_wf(e),
        holds_at(s, pos, stream_bytes(e)),
    ensures
        parse_stream(s, pos) == Ok::<(Seq<EntryModel>, int), DecodeError>(
            (e, pos + stream_bytes(e).len()),
        ),
{
    lemma_holds_split(s, pos, le16(e.len() as u16), entries_bytes(e));
    lemma_u16_at(s, pos, e.len() as u16);
    lemma_entries_round_trip(e, s, pos + 2, -1);
}

impl TlvStream {
    pub fn new() -> (r: Self)
        ensures
            r@ == Seq::<EntryModel>::empty(),
    {
        TlvStream { entries: Vec::new() }
    }

    pub fn len(&self) -> (r: usize)
        ensures
            r == self@.len(),
    {
        self.entries.len()
    }

    /// Appends the canonical encoding of the stream.
    pub fn encode_into(&self, out: &mut Vec<u8>)
        requires
            stream_wf(self@),
        ensures
            final(out)@ == old(out)@ + stream_bytes(self@),
    {
        let n = self.entries.len();
        push_u16(out, n as u16);
        let mut i: usize = 0;
        while i < n
            invariant
                n == self@.len(),
                stream_wf(self@),
                i <= n,
                out@ == old(out)@ + le16(n as u16) + entries_bytes(self@.subrange(0, i as int)),
            decreases n - i,
        {
            let entry = &self.entries[i];
            assert(entry@ == self@[i as int]);
            let ghost before = out@;
            push_u16(out, entry.type_id);
            push_prefixed(out, entry.value.as_slice());
            proof {
                lemma_entries_bytes_push(self@.subrange(0, i as int), self@[i as int]);
                assert(self@.subrange(0, i as int).push(self@[i as int]) =~= self@.subrange(
                    0,
                    i + 1,
                ));
                assert(out@ =~= before + entry_bytes(self@[i as int]));
            }
            i = i + 1;
        }
        assert(self@.subrange(0, n as int) =~= self@);
        assert(final(out)@ =~= old(out)@ + stream_bytes(self@));
    }

    /// The canonical encoding of the stream.
    pub fn encode(&self) -> (r: Vec<u8>)
        requires
            stream_wf(self@),
        ensures
            r@ == stream_bytes(self@),
    {
        let mut out: Vec<u8> = Vec::new();
        self.encode_into(&mut out);
        assert(out@ =~= stream_bytes(self@));
        out
    }

    /// Reads a TLV stream at `pos`: the stream and the position after it.
    /// Entries whose type ids do not strictly ascend are refused.
    pub fn decode_at(s: &[u8], pos: usize) -> (r: Result<(TlvStream, usize), DecodeError>)
        ensures
            match r {
                Ok((st, end)) => parse_stream(s@, pos as int) == Ok::<
                    (Seq<EntryModel>, int),
                    DecodeError,
                >((st@, end as int)),
                Err(x) => parse_stream(s@, pos as int) == Err::<
                    (Seq<EntryModel>, int),
                    DecodeError,
                >(x),
            },
    {
        let total = s.len();
        let n = match read_u16(s, pos) {
            Ok(n) => n,
            Err(e) => return Err(e),
        };
        let mut entries: Vec<TlvEntry> = Vec::new();
        let mut at: usize = pos + 2;
        let mut prev: i32 = -1;
        let mut i: u16 = 0;
        while i < n
            invariant
                total == s@.len(),
                at <= total,
                i <= n,
                -1 <= prev <= u16::MAX,
                n == u16_at(s@, pos as int),
                pos + 2 <= s@.len(),
                parse_stream(s@, pos as int) == prepend(
                    entries@.map_values(|e: TlvEntry| e@),
                    parse_entries(s@, at as int, (n - i) as nat, prev as int),
                ),
            decreases n - i,
        {
            let t = match read_u16(s, at) {
                Ok(t) => t,
                Err(e) => return Err(e),
            };
            if t as i32 <= prev {
                return Err(DecodeError::OutOfOrderTlv);
            }
            let len = match read_u16(s, at + 2) {
                Ok(len) => len,
                Err(e) => return Err(e),
            };
            let value = match read_raw(s, at + 4, len as usize) {
                Ok(v) => v,
                Err(e) => return Err(e),
            };
            let ghost done = entries@.map_values(|e: TlvEntry| e@);
            let ghost rest = parse_entries(s@, at + 4 + len, (n - i - 1) as nat, t as int);
            let entry = TlvEntry { type_id: t, value };
            entries.push(entry);
            proof {
                assert(entries@.map_values(|e: TlvEntry| e@) =~= done + seq![entry@]);
                match rest {
                    Ok((r, end)) => {
                        assert(done + (seq![entry@] + r) =~= (done + seq![entry@]) + r);
                    },
                    Err(_) => {},
                }
            }
            at = at + 4 + len as usize;
            prev = t as i32;
            i = i + 1;
        }
        let stream = TlvStream { entries };
        proof {
            assert(stream@ =~= stream@ + Seq::<EntryModel>::empty());
        }
        Ok((stream, at))
    }

    /// Decodes a byte string that must hold exactly one TLV stream.
    pub fn decode(s: &[u8]) -> (r: Result<TlvStream, DecodeError>)
        ensures
            match r {
                Ok(st) => stream_from_bytes(s@) == Ok::<Seq<EntryModel>, DecodeError>(st@),
                Err(x) => stream_from_bytes(s@) == Err::<Seq<EntryModel>, DecodeError>(x),
            },
    {
        match TlvStream::decode_at(s, 0) {
            Ok((st, end)) => if end == s.len() {
                Ok(st)
            } else {
                Err(DecodeError::TrailingBytes)
            },
            Err(x) => Err(x),
        }
    }
}

/// Decoding the encoding of a well-formed stream gives the stream back.
pub proof fn law_stream_round_trip(e: Seq<EntryModel>)
    requires
        stream_wf(e),
    ensures
        stream_from_bytes(stream_bytes(e)) == Ok::<Seq<EntryModel>, DecodeError>(e),
{
    let s = stream_bytes(e);
    assert(s.subrange(0, s.len() as int) =~= s);
    lemma_stream_round_trip(e, s, 0);
}

/// The encoding is canonical: whatever decodes as a stream is well-formed
/// and is exactly the encoding of the stream it decodes to.
pub proof fn law_stream_canonical(s: Seq<u8>)
    requires
        stream_from_bytes(s) is Ok,
    ensures
        stream_wf(stream_from_bytes(s)->Ok_0),
        stream_bytes(stream_from_bytes(s)->Ok_0) == s,
{
    let n = u16_at(s, 0);
    lemma_entries_canonical(s, 2, n as nat, -1);
    let e = stream_from_bytes(s)->Ok_0;
    lemma_le16_of_u16_at(s, 0);
    assert(e.len() == n);
    assert(s =~= s.subrange(0, 2) + s.subrange(2, s.len() as int));
    assert(stream_bytes(e) =~= s);
}

/// Entries whose type ids do not strictly ascend are never decoded: the
/// stream is refused with `OutOfOrderTlv`, neither reordered nor cut.
pub proof fn law_stream_order_enforced(e: Seq<EntryModel>)
    requires
        e.len() <= u16::MAX,
        forall|i: int| 0 <= i < e.len() ==> e[i].1.len() <= u16::MAX,
        !ascending_above(e, -1),
    ensures
        stream_from_bytes(stream_bytes(e)) == Err::<Seq<EntryModel>, DecodeError>(
            DecodeError::OutOfOrderTlv,
        ),
{
    let s = stream_bytes(e);
    assert(s.subrange(0, s.len() as int) =~= s);
    lemma_holds_split(s, 0, le16(e.len() as u16), entries_bytes(e));
    lemma_u16_at(s, 0, e.len() as u16);
    lemma_entries_out_of_order(e, s, 2, -1);
}

/// A stream followed by any further byte is refused with `TrailingBytes`.
pub proof fn law_stream_consumed_whole(e: Seq<EntryModel>, extra: Seq<u8>)
    requires
        stream_wf(e),
        extra.len() > 0,
    ensures
        stream_from_bytes(stream_bytes(e) + extra) == Err::<Seq<EntryModel>, DecodeError>(
            DecodeError::TrailingBytes,
        ),
{
    let s = stream_bytes(e) + extra;
    assert(s.subrange(0, stream_bytes(e).len() as int) =~= stream_bytes(e));
    lemma_stream_round_trip(e, s, 0);
}

} // verus!
