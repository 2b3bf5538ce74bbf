//! Composite records: fixed fields in order, then a TLV stream that carries
//! the record's TLV-tagged fields (omitted while they hold their default) and,
//! where the schema keeps one, a bucket of entries it does not know.

use vstd::prelude::*;
use crate::codec::{
    DecodeError, ValueKind, Value, ValueModel, parse_value, holds_at, lemma_holds_split,
    lemma_value_round_trip,
};
use crate::codec::{le16, lemma_u16_at};
use crate::tlv::{
    EntryModel, TlvEntry, TlvStream, ascending_above, stream_wf, stream_bytes, entries_bytes,
    parse_stream, lemma_stream_round_trip, lemma_entries_out_of_order,
};

verus! {

/// A TLV-tagged field of a schema: its type id, the kind of its value, and
/// whether it is optional. An optional field's default is to hold no value;
/// any value it holds is written. A field that is not optional defaults to
/// its kind's zero or empty value, which is never written: it is held as no
/// value.
#[derive(Clone, Copy, Debug, PartialEq, Eq)]
pub struct TlvField {
    pub type_id: u16,
    pub kind: ValueKind,
    pub optional: bool,
}

/// The layout of a record: the kinds of its fixed fields, its TLV fields in
/// ascending order of type id, and whether it keeps unknown TLV entries.
#[derive(Clone, Debug, PartialEq, Eq)]
pub struct Schema {
    pub fixed: Vec<ValueKind>,
    pub tlv: Vec<TlvField>,
    pub unknown_bucket: bool,
}

/// TLV fields strictly ascending by type id.
pub open spec fn fields_ascending(f: Seq<TlvField>) -> bool {
    forall|i: int, j: int| 0 <= i < j < f.len() ==> f[i].type_id < f[j].type_id
}

/// The position of the field with type id `id`, if there is one.
pub open spec fn field_index(f: Seq<TlvField>, id: u16) -> Option<int> {
    if exists|k: int| 0 <= k < f.len() && f[k].type_id == id {
        Some(choose|k: int| 0 <= k < f.len() && f[k].type_id == id)
    } else {
        None
    }
}

pub proof fn lemma_field_index(f: Seq<TlvField>, k: int)
    requires
        fields_ascending(f),
        0 <= k < f.len(),
    ensures
        field_index(f, f[k].type_id) == Some(k),
{
    let id = f[k].type_id;
    assert(0 <= k < f.len() && f[k].type_id == id);
    let c = choose|c: int| 0 <= c < f.len() && f[c].type_id == id;
    if c < k {
        assert(f[c].type_id < f[k].type_id);
    } else if c > k {
        assert(f[k].type_id < f[c].type_id);
    }
}

impl Schema {
    pub open spec fn wf(&self) -> bool {
        fields_ascending(self.tlv@)
    }

    /// A schema with the given fixed fields and no TLV field yet.
    pub fn new(fixed: Vec<ValueKind>, unknown_bucket: bool) -> (r: Schema)
        ensures
            r.wf(),
            r.fixed@ == fixed@,
            r.tlv@.len() == 0,
            r.unknown_bucket == unknown_bucket,
    {
        Schema { fixed, tlv: Vec::new(), unknown_bucket }
    }

    /// Registers a TLV field at its place in type id order. A type id that
    /// the schema already has is refused with `DuplicateTlvType`, and the
    /// schema is left as it was.
    pub fn add_tlv_field(&mut self, type_id: u16, kind: ValueKind, optional: bool) -> (r: Result<
        (),
        DecodeError,
    >)
        requires
            old(self).wf(),
        ensures
            final(self).wf(),
            final(self).fixed@ == old(self).fixed@,
            final(self).unknown_bucket == old(self).unknown_bucket,
            (exists|k: int| 0 <= k < old(self).tlv@.len() && old(self).tlv@[k].type_id == type_id)
                <==> r is Err,
            r matches Err(e) ==> e == DecodeError::DuplicateTlvType(type_id) && final(self).tlv@
                == old(self).tlv@,
            r is Ok ==> exists|p: int|
                0 <= p <= old(self).tlv@.len() && final(self).tlv@ == old(self).tlv@.insert(
                    p,
                    TlvField { type_id, kind, optional },
                ),
    {
        let n = self.tlv.len();
        let mut p: usize = 0;
        while p < n && self.tlv[p].type_id < type_id
            invariant
                n == self.tlv@.len(),
                p <= n,
                self.wf(),
                forall|k: int| 0 <= k < p ==> self.tlv@[k].type_id < type_id,
            decreases n - p,
        {
            p = p + 1;
        }
        if p < n && self.tlv[p].type_id == type_id {
            return Err(DecodeError::DuplicateTlvType(type_id));
        }
        proof {
            assert forall|k: int| 0 <= k < n implies self.tlv@[k].type_id != type_id by {
                if k > p {
                    assert(self.tlv@[p as int].type_id < self.tlv@[k].type_id);
                }
            }
        }
        let field = TlvField { type_id, kind, optional };
        self.tlv.insert(p, field);
        proof {
            let s = self.tlv@;
            assert forall|i: int, j: int| 0 <= i < j < s.len() implies s[i].type_id
                < s[j].type_id by {
                let o = old(self).tlv@;
                if i < p && j > p {
                    assert(s[j] == o[j - 1]);
                    assert(o[i].type_id < type_id);
                    if p < o.len() {
                        assert(o[p as int].type_id > type_id);
                        if j - 1 > p {
                            assert(o[p as int].type_id < o[j - 1].type_id);
                        }
                    }
                } else if i == p && j > p {
                    assert(s[j] == o[j - 1]);
                    if j - 1 > p {
                        assert(o[p as int].type_id < o[j - 1].type_id);
                    }
                } else if i > p {
                    assert(s[i] == o[i - 1] && s[j] == o[j - 1]);
                }
            }
        }
        Ok(())
    }

    /// The position of the TLV field with type id `id`, if there is one.
    pub fn find_field(&self, id: u16) -> (r: Option<usize>)
        requires
            self.wf(),
        ensures
            r matches Some(k) ==> field_index(self.tlv@, id) == Some(k as int),
            r is None ==> field_index(self.tlv@, id) is None,
    {
        let mut k: usize = 0;
        while k < self.tlv.len()
            invariant
                self.wf(),
                k <= self.tlv@.len(),
                forall|j: int| 0 <= j < k ==> self.tlv@[j].type_id != id,
            decreases self.tlv@.len() - k,
        {
            if self.tlv[k].type_id == id {
                proof {
                    lemma_field_index(self.tlv@, k as int);
                }
                return Some(k);
            }
            k = k + 1;
        }
        None
    }
}

/// What a record holds: its fixed values, one optional value per TLV field
/// (`None` is the field's default), and the unknown entries it keeps.
pub struct RecordModel {
    pub fixed: Seq<ValueModel>,
    pub tlv: Seq<Option<ValueModel>>,
    pub unknown: Seq<EntryModel>,
}

/// A record laid out by a `Schema`.
#[derive(Clone, Debug, PartialEq, Eq)]
pub struct Record {
    pub fixed: Vec<Value>,
    pub tlv: Vec<Option<Value>>,
    pub unknown: TlvStream,
}

pub open spec fn option_view(o: Option<Value>) -> Option<ValueModel> {
    match o {
        Some(v) => Some(v@),
        None => None,
    }
}

impl View for Record {
    type V = RecordModel;

    open spec fn view(&self) -> RecordModel {
        RecordModel {
            fixed: self.fixed@.map_values(|v: Value| v@),
            tlv: self.tlv@.map_values(|o: Option<Value>| option_view(o)),
            unknown: self.unknown@,
        }
    }
}

/// The encoded fixed values, one after another.
pub open spec fn values_bytes(v: Seq<ValueModel>) -> Seq<u8>
    decreases v.len(),
{
    if v.len() == 0 {
        Seq::empty()
    } else {
        values_bytes(v.drop_last()) + v.last().bytes()
    }
}

/// The TLV entries of the fields that hold a value, in field order.
pub open spec fn known_entries(f: Seq<TlvField>, vals: Seq<Option<ValueModel>>) -> Seq<EntryModel>
    decreases vals.len(),
{
    if vals.len() == 0 {
        Seq::empty()
    } else {
        let rest = known_entries(f, vals.drop_last());
        match vals.last() {
            Some(v) => rest.push((f[vals.len() - 1].type_id, v.bytes())),
            None => rest,
        }
    }
}

/// Two ascending entry sequences merged into one, by type id.
pub open spec fn merged(a: Seq<EntryModel>, b: Seq<EntryModel>) -> Seq<EntryModel>
    decreases a.len() + b.len(),
{
    if a.len() == 0 {
        b
    } else if b.len() == 0 {
        a
    } else if a.last().0 > b.last().0 {
        merged(a.drop_last(), b).push(a.last())
    } else {
        merged(a, b.drop_last()).push(b.last())
    }
}

/// The TLV stream that a record is written with.
pub open spec fn record_stream(schema: Schema, r: RecordModel) -> Seq<EntryModel> {
    merged(known_entries(schema.tlv@, r.tlv), r.unknown)
}

/// The canonical encoding of a record.
pub open spec fn record_bytes(schema: Schema, r: RecordModel) -> Seq<u8> {
    values_bytes(r.fixed) + crate::tlv::stream_bytes(record_stream(schema, r))
}

/// Whether a TLV field's value has the field's kind and fits an entry.
pub open spec fn field_value_ok(f: TlvField, o: Option<ValueModel>) -> bool {
    match o {
        Some(v) => v.kind() == f.kind && v.wf() && v.bytes().len() <= u16::MAX && (!f.optional
            ==> !v.is_default()),
        None => true,
    }
}

/// Whether `r` is a record of `schema` that can be written.
pub open spec fn record_wf(schema: Schema, r: RecordModel) -> bool {
    &&& schema.wf()
    &&& r.fixed.len() == schema.fixed@.len()
    &&& forall|i: int| 0 <= i < r.fixed.len() ==> (#[trigger] r.fixed[i]).kind() == schema.fixed@[i] && r.fixed[i].wf()
    &&& r.tlv.len() == schema.tlv@.len()
    &&& forall|k: int| 0 <= k < r.tlv.len() ==> field_value_ok(schema.tlv@[k], #[trigger] r.tlv[k])
    &&& stream_wf(r.unknown)
    &&& forall|i: int| 0 <= i < r.unknown.len() ==> field_index(schema.tlv@, r.unknown[i].0) is None
    &&& (!schema.unknown_bucket ==> r.unknown.len() == 0)
    &&& known_entries(schema.tlv@, r.tlv).len() + r.unknown.len() <= u16::MAX
}

/// Decodes value bytes that must hold exactly one value of `kind`.
pub open spec fn value_from_bytes(kind: ValueKind, s: Seq<u8>) -> Result<ValueModel, DecodeError> {
    match parse_value(kind, s, 0) {
        Ok((v, end)) => if end == s.len() {
            Ok(v)
        } else {
            Err(DecodeError::TrailingBytes)
        },
        Err(e) => Err(e),
    }
}

/// The fields of a record of `schema` and the unknown entries it keeps,
/// read from the entries of its TLV stream. Unknown entries are refused
/// where the schema keeps none.
pub open spec fn absorb(schema: Schema, e: Seq<EntryModel>) -> Result<
    (Seq<Option<ValueModel>>, Seq<EntryModel>),
    DecodeError,
>
    decreases e.len(),
{
    if e.len() == 0 {
        Ok((Seq::new(schema.tlv@.len(), |k: int| None), Seq::empty()))
    } else {
        match absorb(schema, e.drop_last()) {
            Err(x) => Err(x),
            Ok((vals, unk)) => {
                let x = e.last();
                match field_index(schema.tlv@, x.0) {
                    Some(k) => match value_from_bytes(schema.tlv@[k].kind, x.1) {
                        Ok(v) => if !schema.tlv@[k].optional && v.is_default() {
                            Err(DecodeError::DefaultValuePresent(x.0))
                        } else {
                            Ok((vals.update(k, Some(v)), unk))
                        },
                        Err(err) => Err(err),
                    },
                    None => if schema.unknown_bucket {
                        Ok((vals, unk.push(x)))
                    } else {
                        Err(DecodeError::UnknownTlvType(x.0))
                    },
                }
            },
        }
    }
}

/// Entry sequences with no type id in common.
pub open spec fn ids_disjoint(a: Seq<EntryModel>, b: Seq<EntryModel>) -> bool {
    forall|i: int, j: int| 0 <= i < a.len() && 0 <= j < b.len() ==> a[i].0 != b[j].0
}

/// Every value of an entry sequence fits its `u16` length field.
pub open spec fn lengths_fit(e: Seq<EntryModel>) -> bool {
    forall|i: int| 0 <= i < e.len() ==> e[i].1.len() <= u16::MAX
}

pub proof fn lemma_merged(a: Seq<EntryModel>, b: Seq<EntryModel>)
    ensures
        merged(a, b).len() == a.len() + b.len(),
        forall|i: int| 0 <= i < merged(a, b).len() ==> a.contains(#[trigger] merged(a, b)[i]) || b.contains(
            merged(a, b)[i],
        ),
        ascending_above(a, -1) && ascending_above(b, -1) && ids_disjoint(a, b) ==> ascending_above(
            merged(a, b),
            -1,
        ),
        lengths_fit(a) && lengths_fit(b) ==> lengths_fit(merged(a, b)),
    decreases a.len() + b.len(),
{
    let m = merged(a, b);
    if a.len() == 0 || b.len() == 0 {
        if a.len() == 0 {
            assert forall|i: int| 0 <= i < m.len() implies b.contains(m[i]) by {}
        } else {
            assert forall|i: int| 0 <= i < m.len() implies a.contains(m[i]) by {}
        }
    } else if a.last().0 > b.last().0 {
        let a2 = a.drop_last();
        lemma_merged(a2, b);
        let m2 = merged(a2, b);
        assert forall|i: int| 0 <= i < m.len() implies a.contains(#[trigger] m[i]) || b.contains(m[i]) by {
            if i < m2.len() {
                assert(m[i] == m2[i]);
                if a2.contains(m2[i]) {
                    let j = choose|j: int| 0 <= j < a2.len() && a2[j] == m2[i];
                    assert(a[j] == m2[i]);
                }
            } else {
                assert(a[a.len() - 1] == m[i]);
            }
        }
        if ascending_above(a, -1) && ascending_above(b, -1) && ids_disjoint(a, b) {
            assert(ascending_above(a2, -1));
            assert(ids_disjoint(a2, b));
            assert forall|i: int, j: int| 0 <= i < j < m.len() implies m[i].0 < m[j].0 by {
                if j == m.len() - 1 {
                    assert(m[i] == m2[i]);
                    if a2.contains(m2[i]) {
                        let k = choose|k: int| 0 <= k < a2.len() && a2[k] == m2[i];
                        assert(a[k] == a2[k]);
                    } else {
                        let k = choose|k: int| 0 <= k < b.len() && b[k] == m2[i];
                        if k < b.len() - 1 {
                            assert(b[k].0 < b[b.len() - 1].0);
                        }
                    }
                } else {
                    assert(m[i] == m2[i] && m[j] == m2[j]);
                }
            }
        }
        if lengths_fit(a) && lengths_fit(b) {
            assert(lengths_fit(a2));
            assert forall|i: int| 0 <= i < m.len() implies m[i].1.len() <= u16::MAX by {
                if i < m2.len() {
                    assert(m[i] == m2[i]);
                }
            }
        }
    } else {
        let b2 = b.drop_last();
        lemma_merged(a, b2);
        let m2 = merged(a, b2);
        assert forall|i: int| 0 <= i < m.len() implies a.contains(#[trigger] m[i]) || b.contains(m[i]) by {
            if i < m2.len() {
                assert(m[i] == m2[i]);
                if b2.contains(m2[i]) {
                    let j = choose|j: int| 0 <= j < b2.len() && b2[j] == m2[i];
                    assert(b[j] == m2[i]);
                }
            } else {
                assert(b[b.len() - 1] == m[i]);
            }
        }
        if ascending_above(a, -1) && ascending_above(b, -1) && ids_disjoint(a, b) {
            assert(ascending_above(b2, -1));
            assert(ids_disjoint(a, b2));
            assert(a.last().0 != b.last().0);
            assert forall|i: int, j: int| 0 <= i < j < m.len() implies m[i].0 < m[j].0 by {
                if j == m.len() - 1 {
                    assert(m[i] == m2[i]);
                    if b2.contains(m2[i]) {
                        let k = choose|k: int| 0 <= k < b2.len() && b2[k] == m2[i];
                        assert(b[k] == b2[k]);
                    } else {
                        let k = choose|k: int| 0 <= k < a.len() && a[k] == m2[i];
                        if k < a.len() - 1 {
                            assert(a[k].0 < a[a.len() - 1].0);
                        }
                    }
                } else {
                    assert(m[i] == m2[i] && m[j] == m2[j]);
                }
            }
        }
        if lengths_fit(a) && lengths_fit(b) {
            assert(lengths_fit(b2));
            assert forall|i: int| 0 <= i < m.len() implies m[i].1.len() <= u16::MAX by {
                if i < m2.len() {
                    assert(m[i] == m2[i]);
                }
            }
        }
    }
}

/// Whether some field among the first `vals.len()` holds a value and has
/// type id `id`.
pub open spec fn present_field_id(f: Seq<TlvField>, vals: Seq<Option<ValueModel>>, id: u16) -> bool {
    exists|k: int| 0 <= k < vals.len() && vals[k] is Some && f[k].type_id == id
}

/// The entries of present fields carry the ids of those fields, ascend with
/// them, and fit their length fields.
pub proof fn lemma_known_entries(f: Seq<TlvField>, vals: Seq<Option<ValueModel>>)
    requires
        fields_ascending(f),
        vals.len() <= f.len(),
        forall|k: int| 0 <= k < vals.len() ==> field_value_ok(f[k], #[trigger] vals[k]),
    ensures
        ascending_above(known_entries(f, vals), -1),
        lengths_fit(known_entries(f, vals)),
        known_entries(f, vals).len() <= vals.len(),
        forall|i: int| 0 <= i < known_entries(f, vals).len() ==> present_field_id(
            f,
            vals,
            #[trigger] known_entries(f, vals)[i].0,
        ),
    decreases vals.len(),
{
    if vals.len() > 0 {
        let v2 = vals.drop_last();
        assert forall|k: int| 0 <= k < v2.len() implies field_value_ok(f[k], #[trigger] v2[k]) by {
            assert(v2[k] == vals[k]);
        }
        lemma_known_entries(f, v2);
        let r = known_entries(f, v2);
        let n = vals.len() - 1;
        let e = known_entries(f, vals);
        assert forall|i: int| 0 <= i < r.len() implies present_field_id(f, vals, #[trigger] r[i].0) by {
            assert(present_field_id(f, v2, r[i].0));
            let k = choose|k: int| 0 <= k < v2.len() && v2[k] is Some && f[k].type_id == r[i].0;
            assert(vals[k] == v2[k]);
            assert(0 <= k < vals.len() && vals[k] is Some && f[k].type_id == r[i].0);
        }
        match vals.last() {
            Some(v) => {
                assert(field_value_ok(f[n], vals[n]));
                assert(e == r.push((f[n].type_id, v.bytes())));
                assert forall|i: int| 0 <= i < r.len() implies r[i].0 < f[n].type_id by {
                    assert(present_field_id(f, v2, r[i].0));
                    let k = choose|k: int| 0 <= k < v2.len() && v2[k] is Some && f[k].type_id == r[i].0;
                    assert(f[k].type_id < f[n].type_id);
                }
                assert forall|i: int| 0 <= i < e.len() implies present_field_id(f, vals, #[trigger] e[i].0) by {
                    if i < r.len() {
                        assert(e[i] == r[i]);
                        assert(present_field_id(f, vals, r[i].0));
                    } else {
                        assert(0 <= n < vals.len() && vals[n] is Some && f[n].type_id == e[i].0);
                    }
                }
                assert forall|i: int, j: int| 0 <= i < j < e.len() implies e[i].0 < e[j].0 by {
                    if j < r.len() {
                        assert(e[i] == r[i] && e[j] == r[j]);
                    } else {
                        assert(e[i] == r[i]);
                    }
                }
                assert forall|i: int| 0 <= i < e.len() implies e[i].1.len() <= u16::MAX by {
                    if i < r.len() {
                        assert(e[i] == r[i]);
                    }
                }
            },
            None => {
                assert(e == r);
                assert forall|i: int| 0 <= i < e.len() implies present_field_id(f, vals, #[trigger] e[i].0) by {
                    assert(present_field_id(f, vals, r[i].0));
                }
            },
        }
    }
}

/// The stream of a well-formed record can be written.
pub proof fn lemma_record_stream_wf(schema: Schema, r: RecordModel)
    requires
        record_wf(schema, r),
    ensures
        stream_wf(record_stream(schema, r)),
{
    let f = schema.tlv@;
    lemma_known_entries(f, r.tlv);
    let a = known_entries(f, r.tlv);
    let b = r.unknown;
    assert forall|i: int, j: int| 0 <= i < a.len() && 0 <= j < b.len() implies a[i].0 != b[j].0 by {
        assert(present_field_id(f, r.tlv, a[i].0));
        let k = choose|k: int| 0 <= k < r.tlv.len() && r.tlv[k] is Some && f[k].type_id == a[i].0;
        lemma_field_index(f, k);
        assert(field_index(f, b[j].0) is None);
    }
    lemma_merged(a, b);
}

/// Reads values of the given kinds one after another from `pos` on: the
/// values and the position after them.
pub open spec fn parse_values(kinds: Seq<ValueKind>, s: Seq<u8>, pos: int) -> Result<
    (Seq<ValueModel>, int),
    DecodeError,
>
    decreases kinds.len(),
{
    if kinds.len() == 0 {
        Ok((Seq::empty(), pos))
    } else {
        match parse_values(kinds.drop_last(), s, pos) {
            Ok((vs, p)) => match parse_value(kinds.last(), s, p) {
                Ok((v, end)) => Ok((vs.push(v), end)),
                Err(e) => Err(e),
            },
            Err(e) => Err(e),
        }
    }
}

/// Reads a record of `schema` at `pos`: the record and the position after it.
pub open spec fn parse_record(schema: Schema, s: Seq<u8>, pos: int) -> Result<
    (RecordModel, int),
    DecodeError,
> {
    match parse_values(schema.fixed@, s, pos) {
        Ok((fixed, p)) => match parse_stream(s, p) {
            Ok((e, end)) => match absorb(schema, e) {
                Ok((tlv, unknown)) => Ok((RecordModel { fixed, tlv, unknown }, end)),
                Err(x) => Err(x),
            },
            Err(x) => Err(x),
        },
        Err(x) => Err(x),
    }
}

/// Decoding of a byte string that must hold exactly one record of `schema`.
pub open spec fn record_from_bytes(schema: Schema, s: Seq<u8>) -> Result<RecordModel, DecodeError> {
    match parse_record(schema, s, 0) {
        Ok((r, end)) => if end == s.len() {
            Ok(r)
        } else {
            Err(DecodeError::TrailingBytes)
        },
        Err(x) => Err(x),
    }
}

/// The first `m` TLV values, with every later one at its default.
pub open spec fn first_fields(vals: Seq<Option<ValueModel>>, m: int) -> Seq<Option<ValueModel>> {
    Seq::new(vals.len(), |k: int| if k < m { vals[k] } else { None })
}

pub proof fn lemma_values_round_trip(kinds: Seq<ValueKind>, v: Seq<ValueModel>, s: Seq<u8>, pos: int)
    requires
        kinds.len() == v.len(),
        forall|i: int| 0 <= i < v.len() ==> (#[trigger] v[i]).kind() == kinds[i] && v[i].wf(),
        holds_at(s, pos, values_bytes(v)),
    ensures
        parse_values(kinds, s, pos) == Ok::<(Seq<ValueModel>, int), DecodeError>(
            (v, pos + values_bytes(v).len()),
        ),
    decreases v.len(),
{
    if v.len() == 0 {
        assert(v =~= Seq::<ValueModel>::empty());
    } else {
        let v2 = v.drop_last();
        lemma_holds_split(s, pos, values_bytes(v2), v.last().bytes());
        assert(kinds.drop_last().len() == v2.len());
        assert forall|i: int| 0 <= i < v2.len() implies (#[trigger] v2[i]).kind() == kinds.drop_last()[i]
            && v2[i].wf() by {
            assert(v2[i] == v[i]);
        }
        lemma_values_round_trip(kinds.drop_last(), v2, s, pos);
        assert(v[v.len() - 1].wf());
        lemma_value_round_trip(v.last(), s, pos + values_bytes(v2).len());
        assert(v2.push(v.last()) =~= v);
    }
}

/// The encoding of a value reads back as that value, with nothing left over.
pub proof fn lemma_value_from_bytes(v: ValueModel)
    requires
        v.wf(),
    ensures
        value_from_bytes(v.kind(), v.bytes()) == Ok::<ValueModel, DecodeError>(v),
{
    let s = v.bytes();
    assert(s.subrange(0, s.len() as int) =~= s);
    lemma_value_round_trip(v, s, 0);
}

/// The entries of the first `m` fields merged with the first `u` unknown
/// entries are absorbed into exactly those fields and entries.
pub proof fn lemma_absorb_merged(schema: Schema, r: RecordModel, m: int, u: int)
    requires
        record_wf(schema, r),
        0 <= m <= r.tlv.len(),
        0 <= u <= r.unknown.len(),
    ensures
        absorb(
            schema,
            merged(known_entries(schema.tlv@, r.tlv.subrange(0, m)), r.unknown.subrange(0, u)),
        ) == Ok::<(Seq<Option<ValueModel>>, Seq<EntryModel>), DecodeError>(
            (first_fields(r.tlv, m), r.unknown.subrange(0, u)),
        ),
    decreases m + u,
{
    let f = schema.tlv@;
    let sub = r.tlv.subrange(0, m);
    let k_m = known_entries(f, sub);
    let u_s = r.unknown.subrange(0, u);
    let e = merged(k_m, u_s);
    if m == 0 && u == 0 {
        assert(sub =~= Seq::<Option<ValueModel>>::empty());
        assert(u_s =~= Seq::<EntryModel>::empty());
        assert(first_fields(r.tlv, 0) =~= Seq::new(f.len(), |k: int| None::<ValueModel>));
    } else if m > 0 && r.tlv[m - 1] is None {
        assert(sub.drop_last() =~= r.tlv.subrange(0, m - 1));
        lemma_absorb_merged(schema, r, m - 1, u);
        assert(first_fields(r.tlv, m - 1) =~= first_fields(r.tlv, m));
    } else {
        let take_field = m > 0 && (u == 0 || f[m - 1].type_id > r.unknown[u - 1].0);
        if take_field {
            let v = r.tlv[m - 1]->Some_0;
            assert(field_value_ok(f[m - 1], r.tlv[m - 1]));
            let x = (f[m - 1].type_id, v.bytes());
            assert(sub.drop_last() =~= r.tlv.subrange(0, m - 1));
            let k2 = known_entries(f, r.tlv.subrange(0, m - 1));
            assert(k_m == k2.push(x));
            if u == 0 {
                assert(u_s =~= Seq::<EntryModel>::empty());
                assert(merged(k2, u_s) == k2);
                assert(e == k2.push(x));
            } else {
                assert(u_s.last() == r.unknown[u - 1]);
                assert(k_m.drop_last() =~= k2);
                assert(k_m.last() == x);
                assert(e == merged(k2, u_s).push(x));
            }
            lemma_absorb_merged(schema, r, m - 1, u);
            assert(e.drop_last() =~= merged(k2, u_s));
            lemma_field_index(f, m - 1);
            lemma_value_from_bytes(v);
            assert(first_fields(r.tlv, m - 1).update(m - 1, Some(v)) =~= first_fields(r.tlv, m));
        } else {
            let y = r.unknown[u - 1];
            assert(field_index(f, y.0) is None);
            assert(schema.unknown_bucket);
            let u2 = r.unknown.subrange(0, u - 1);
            assert(u_s.drop_last() =~= u2);
            assert(u_s.last() == y);
            if k_m.len() == 0 {
                assert(merged(k_m, u2) == u2);
                assert(u_s =~= u2.push(y));
            } else {
                assert(m > 0);
                assert(r.tlv[m - 1] is Some);
                let v = r.tlv[m - 1]->Some_0;
                assert(sub.drop_last() =~= r.tlv.subrange(0, m - 1));
                assert(k_m.last().0 == f[m - 1].type_id);
                assert(k_m.last().0 != y.0) by {
                    assert(0 <= m - 1 < f.len() && f[m - 1].type_id == f[m - 1].type_id);
                    if k_m.last().0 == y.0 {
                        assert(exists|k: int| 0 <= k < f.len() && f[k].type_id == y.0);
                    }
                }
                assert(e == merged(k_m, u2).push(y));
            }
            lemma_absorb_merged(schema, r, m, u - 1);
            assert(e.drop_last() =~= merged(k_m, u2));
            assert(u2.push(y) =~= u_s);
        }
    }
}

/// Once a prefix of the entries is refused, so is the whole stream.
pub proof fn lemma_absorb_refused(schema: Schema, e: Seq<EntryModel>, n: int)
    requires
        0 <= n <= e.len(),
        absorb(schema, e.subrange(0, n)) is Err,
    ensures
        absorb(schema, e) == absorb(schema, e.subrange(0, n)),
    decreases e.len() - n,
{
    if n < e.len() {
        let e2 = e.subrange(0, n + 1);
        assert(e2.drop_last() =~= e.subrange(0, n));
        lemma_absorb_refused(schema, e, n + 1);
    } else {
        assert(e.subrange(0, n) =~= e);
    }
}

/// Once a prefix of the fixed values cannot be read, neither can the whole.
pub proof fn lemma_values_refused(kinds: Seq<ValueKind>, s: Seq<u8>, pos: int, n: int)
    requires
        0 <= n <= kinds.len(),
        parse_values(kinds.subrange(0, n), s, pos) is Err,
    ensures
        parse_values(kinds, s, pos) == parse_values(kinds.subrange(0, n), s, pos),
    decreases kinds.len() - n,
{
    if n < kinds.len() {
        let k2 = kinds.subrange(0, n + 1);
        assert(k2.drop_last() =~= kinds.subrange(0, n));
        lemma_values_refused(kinds, s, pos, n + 1);
    } else {
        assert(kinds.subrange(0, n) =~= kinds);
    }
}

/// A well-formed record decodes from its encoding to itself.
pub proof fn law_record_round_trip(schema: Schema, r: RecordModel)
    requires
        record_wf(schema, r),
    ensures
        record_from_bytes(schema, record_bytes(schema, r)) == Ok::<RecordModel, DecodeError>(r),
{
    lemma_record_parse(schema, r, Seq::empty());
    assert(record_bytes(schema, r) + Seq::<u8>::empty() =~= record_bytes(schema, r));
}

/// A well-formed record followed by any further byte is refused with
/// `TrailingBytes`.
pub proof fn law_record_consumed_whole(schema: Schema, r: RecordModel, extra: Seq<u8>)
    requires
        record_wf(schema, r),
        extra.len() > 0,
    ensures
        record_from_bytes(schema, record_bytes(schema, r) + extra) == Err::<RecordModel, DecodeError>(
            DecodeError::TrailingBytes,
        ),
{
    lemma_record_parse(schema, r, extra);
}

/// A record's encoding, whatever follows it, reads back as the record and
/// ends where the encoding does.
pub proof fn lemma_record_parse(schema: Schema, r: RecordModel, extra: Seq<u8>)
    requires
        record_wf(schema, r),
    ensures
        parse_record(schema, record_bytes(schema, r) + extra, 0) == Ok::<(RecordModel, int), DecodeError>(
            (r, record_bytes(schema, r).len() as int),
        ),
{
    let s = record_bytes(schema, r) + extra;
    let fb = values_bytes(r.fixed);
    let st = record_stream(schema, r);
    assert(s.subrange(0, record_bytes(schema, r).len() as int) =~= record_bytes(schema, r));
    lemma_holds_split(s, 0, fb, stream_bytes(st));
    lemma_values_round_trip(schema.fixed@, r.fixed, s, 0);
    lemma_record_stream_wf(schema, r);
    lemma_stream_round_trip(st, s, fb.len() as int);
    lemma_absorb_merged(schema, r, r.tlv.len() as int, r.unknown.len() as int);
    assert(r.tlv.subrange(0, r.tlv.len() as int) =~= r.tlv);
    assert(r.unknown.subrange(0, r.unknown.len() as int) =~= r.unknown);
    assert(first_fields(r.tlv, r.tlv.len() as int) =~= r.tlv);
}

/// A record whose TLV entries do not strictly ascend by type id is refused
/// with `OutOfOrderTlv`, whatever the entries hold.
pub proof fn law_record_order_enforced(schema: Schema, fixed: Seq<ValueModel>, e: Seq<EntryModel>)
    requires
        fixed.len() == schema.fixed@.len(),
        forall|i: int| 0 <= i < fixed.len() ==> (#[trigger] fixed[i]).kind() == schema.fixed@[i] && fixed[i].wf(),
        e.len() <= u16::MAX,
        lengths_fit(e),
        !ascending_above(e, -1),
    ensures
        record_from_bytes(schema, values_bytes(fixed) + stream_bytes(e)) == Err::<RecordModel, DecodeError>(
            DecodeError::OutOfOrderTlv,
        ),
{
    let fb = values_bytes(fixed);
    let s = fb + stream_bytes(e);
    assert(s.subrange(0, s.len() as int) =~= s);
    lemma_holds_split(s, 0, fb, stream_bytes(e));
    lemma_values_round_trip(schema.fixed@, fixed, s, 0);
    let p = fb.len() as int;
    lemma_holds_split(s, p, le16(e.len() as u16), entries_bytes(e));
    lemma_u16_at(s, p, e.len() as u16);
    lemma_entries_out_of_order(e, s, p + 2, -1);
}

/// A TLV field at its default is left out of the record's stream. A field
/// at its default holds no value: for a field that is not optional,
/// `record_wf` rules out holding its kind's zero or empty value.
pub proof fn law_default_field_omitted(schema: Schema, r: RecordModel, k: int)
    requires
        record_wf(schema, r),
        0 <= k < r.tlv.len(),
        r.tlv[k] is None,
    ensures
        forall|i: int| 0 <= i < record_stream(schema, r).len() ==> (#[trigger] record_stream(schema, r)[i]).0
            != schema.tlv@[k].type_id,
{
    let f = schema.tlv@;
    let a = known_entries(f, r.tlv);
    lemma_known_entries(f, r.tlv);
    lemma_merged(a, r.unknown);
    let st = record_stream(schema, r);
    assert forall|i: int| 0 <= i < st.len() implies (#[trigger] st[i]).0 != f[k].type_id by {
        if a.contains(st[i]) {
            let j = choose|j: int| 0 <= j < a.len() && a[j] == st[i];
            assert(present_field_id(f, r.tlv, a[j].0));
            let k2 = choose|k2: int| 0 <= k2 < r.tlv.len() && r.tlv[k2] is Some && f[k2].type_id == a[j].0;
            if st[i].0 == f[k].type_id {
                if k2 < k {
                    assert(f[k2].type_id < f[k].type_id);
                } else if k2 > k {
                    assert(f[k].type_id < f[k2].type_id);
                }
            }
        } else {
            let j = choose|j: int| 0 <= j < r.unknown.len() && r.unknown[j] == st[i];
            assert(field_index(f, r.unknown[j].0) is None);
        }
    }
}

/// A stream without a field's type id leaves that field at its default.
pub proof fn law_absent_field_default(schema: Schema, e: Seq<EntryModel>, k: int)
    requires
        0 <= k < schema.tlv@.len(),
        absorb(schema, e) is Ok,
        forall|i: int| 0 <= i < e.len() ==> (#[trigger] e[i]).0 != schema.tlv@[k].type_id,
    ensures
        (absorb(schema, e)->Ok_0).0.len() == schema.tlv@.len(),
        (absorb(schema, e)->Ok_0).0[k] is None,
    decreases e.len(),
{
    if e.len() > 0 {
        let e2 = e.drop_last();
        assert forall|i: int| 0 <= i < e2.len() implies (#[trigger] e2[i]).0 != schema.tlv@[k].type_id by {
            assert(e2[i] == e[i]);
        }
        assert(absorb(schema, e2) is Ok);
        law_absent_field_default(schema, e2, k);
        let vals = (absorb(schema, e2)->Ok_0).0;
        let x = e.last();
        assert(x.0 != schema.tlv@[k].type_id);
        match field_index(schema.tlv@, x.0) {
            Some(k2) => {
                assert(schema.tlv@[k2].type_id == x.0);
                assert(k2 != k);
                let v = value_from_bytes(schema.tlv@[k2].kind, x.1)->Ok_0;
                assert((absorb(schema, e)->Ok_0).0 == vals.update(k2, Some(v)));
            },
            None => {},
        }
    }
}

impl Record {
    /// Appends the canonical encoding of the record: its fixed values, then
    /// the TLV stream of its present TLV fields and unknown entries,
    /// ascending by type id.
    pub fn encode_into(&self, schema: &Schema, out: &mut Vec<u8>)
        requires
            record_wf(*schema, self@),
        ensures
            final(out)@ == old(out)@ + record_bytes(*schema, self@),
    {
        let ghost model = self@;
        let mut i: usize = 0;
        while i < self.fixed.len()
            invariant
                model == self@,
                record_wf(*schema, model),
                i <= self.fixed@.len(),
                model.fixed.len() == self.fixed@.len(),
                out@ == old(out)@ + values_bytes(model.fixed.subrange(0, i as int)),
            decreases self.fixed@.len() - i,
        {
            assert(self.fixed@[i as int]@ == model.fixed[i as int]);
            assert(model.fixed[i as int].wf());
            self.fixed[i].encode_into(out);
            proof {
                let sub = model.fixed.subrange(0, i + 1);
                assert(sub.drop_last() =~= model.fixed.subrange(0, i as int));
                assert(out@ =~= old(out)@ + values_bytes(sub));
            }
            i = i + 1;
        }
        assert(model.fixed.subrange(0, model.fixed.len() as int) =~= model.fixed);
        let stream = self.record_stream(schema);
        stream.encode_into(out);
        assert(final(out)@ =~= old(out)@ + record_bytes(*schema, self@));
    }

    /// The TLV stream that the record is written with.
    pub fn record_stream(&self, schema: &Schema) -> (r: TlvStream)
        requires
            record_wf(*schema, self@),
        ensures
            r@ == record_stream(*schema, self@),
            stream_wf(r@),
    {
        let ghost model = self@;
        let ghost f = schema.tlv@;
        let mut known: Vec<TlvEntry> = Vec::new();
        assert(model.tlv.subrange(0, 0) =~= Seq::<Option<ValueModel>>::empty());
        let mut k: usize = 0;
        while k < self.tlv.len()
            invariant
                model == self@,
                f == schema.tlv@,
                record_wf(*schema, model),
                k <= self.tlv@.len(),
                known@.map_values(|e: TlvEntry| e@) == known_entries(f, model.tlv.subrange(0, k as int)),
            decreases self.tlv@.len() - k,
        {
            let ghost sub = model.tlv.subrange(0, k + 1);
            assert(sub.drop_last() =~= model.tlv.subrange(0, k as int));
            assert(option_view(self.tlv@[k as int]) == model.tlv[k as int]);
            match &self.tlv[k] {
                Some(v) => {
                    assert(field_value_ok(f[k as int], model.tlv[k as int]));
                    let mut bytes: Vec<u8> = Vec::new();
                    v.encode_into(&mut bytes);
                    assert(bytes@ =~= v@.bytes());
                    known.push(TlvEntry { type_id: schema.tlv[k].type_id, value: bytes });
                    assert(known@.map_values(|e: TlvEntry| e@) =~= known_entries(f, sub));
                },
                None => {},
            }
            k = k + 1;
        }
        assert(model.tlv.subrange(0, model.tlv.len() as int) =~= model.tlv);
        let ghost a = known_entries(f, model.tlv);
        assert(a.subrange(0, known@.len() as int) =~= a);
        let ghost b = model.unknown;
        assert(b.subrange(0, self.unknown.entries@.len() as int) =~= b);
        let unknown = &self.unknown.entries;
        let mut out: Vec<TlvEntry> = Vec::new();
        let mut j: usize = unknown.len();
        while known.len() > 0 || j > 0
            invariant
                j <= unknown@.len(),
                known@.len() <= a.len(),
                known@.map_values(|e: TlvEntry| e@) == a.subrange(0, known@.len() as int),
                unknown@.map_values(|e: TlvEntry| e@) == b,
                merged(a, b) == merged(a.subrange(0, known@.len() as int), b.subrange(0, j as int))
                    + out@.map_values(|e: TlvEntry| e@),
            decreases known@.len() + j,
        {
            let ghost sa = a.subrange(0, known@.len() as int);
            let ghost sb = b.subrange(0, j as int);
            let ghost rest = out@.map_values(|e: TlvEntry| e@);
            let i = known.len();
            let take_known = if j == 0 {
                true
            } else if i == 0 {
                false
            } else {
                known[i - 1].type_id > unknown[j - 1].type_id
            };
            if take_known {
                assert(known@[i - 1]@ == sa.last());
                let entry = known.pop().unwrap();
                out.insert(0, entry);
                proof {
                    let sa2 = a.subrange(0, i - 1);
                    assert(sa.drop_last() =~= sa2);
                    assert(known@.map_values(|e: TlvEntry| e@) =~= sa2);
                    if j == 0 {
                        assert(sb =~= Seq::<EntryModel>::empty());
                        assert(sa =~= sa2.push(sa.last()));
                    }
                    assert(merged(sa, sb) == merged(sa2, sb).push(sa.last()));
                    assert(out@.map_values(|e: TlvEntry| e@) =~= seq![sa.last()] + rest);
                    assert(merged(sa2, sb).push(sa.last()) + rest =~= merged(sa2, sb) + (seq![sa.last()]
                        + rest));
                }
            } else {
                assert(unknown@[j - 1]@ == sb.last());
                let entry = unknown[j - 1].duplicate();
                out.insert(0, entry);
                proof {
                    let sb2 = b.subrange(0, j - 1);
                    assert(sb.drop_last() =~= sb2);
                    if i == 0 {
                        assert(sa =~= Seq::<EntryModel>::empty());
                        assert(sb =~= sb2.push(sb.last()));
                    }
                    assert(merged(sa, sb) == merged(sa, sb2).push(sb.last()));
                    assert(out@.map_values(|e: TlvEntry| e@) =~= seq![sb.last()] + rest);
                    assert(merged(sa, sb2).push(sb.last()) + rest =~= merged(sa, sb2) + (seq![sb.last()]
                        + rest));
                }
                j = j - 1;
            }
        }
        assert(a.subrange(0, 0) =~= Seq::<EntryModel>::empty());
        assert(b.subrange(0, 0) =~= Seq::<EntryModel>::empty());
        assert(out@.map_values(|e: TlvEntry| e@) =~= merged(a, b));
        proof {
            lemma_record_stream_wf(*schema, model);
        }
        TlvStream { entries: out }
    }
}

impl Record {
    /// Reads a record of `schema` at `pos`: the record and the position after
    /// it. Entries of the TLV stream must ascend strictly; unknown type ids
    /// are refused unless the schema keeps them; each TLV value must use its
    /// entry's bytes exactly.
    pub fn decode_at(schema: &Schema, s: &[u8], pos: usize) -> (r: Result<(Record, usize), DecodeError>)
        requires
            schema.wf(),
        ensures
            match r {
                Ok((rec, end)) => parse_record(*schema, s@, pos as int) == Ok::<
                    (RecordModel, int),
                    DecodeError,
                >((rec@, end as int)),
                Err(x) => parse_record(*schema, s@, pos as int) == Err::<(RecordModel, int), DecodeError>(
                    x,
                ),
            },
    {
        let total = s.len();
        let kinds = &schema.fixed;
        let mut fixed: Vec<Value> = Vec::new();
        let mut at: usize = pos;
        let mut i: usize = 0;
        assert(kinds@.subrange(0, 0) =~= Seq::<ValueKind>::empty());
        assert(fixed@.map_values(|v: Value| v@) =~= Seq::<ValueModel>::empty());
        while i < kinds.len()
            invariant
                total == s@.len(),
                kinds@ == schema.fixed@,
                i <= kinds@.len(),
                parse_values(kinds@.subrange(0, i as int), s@, pos as int) == Ok::<
                    (Seq<ValueModel>, int),
                    DecodeError,
                >((fixed@.map_values(|v: Value| v@), at as int)),
            decreases kinds@.len() - i,
        {
            let ghost sub = kinds@.subrange(0, i + 1);
            assert(sub.drop_last() =~= kinds@.subrange(0, i as int));
            assert(sub.last() == kinds@[i as int]);
            match Value::decode_at(kinds[i], s, at) {
                Ok((v, end)) => {
                    let ghost before = fixed@.map_values(|v: Value| v@);
                    fixed.push(v);
                    assert(fixed@.map_values(|v: Value| v@) =~= before.push(v@));
                    at = end;
                },
                Err(e) => {
                    proof {
                        lemma_values_refused(kinds@, s@, pos as int, i + 1);
                    }
                    return Err(e);
                },
            }
            i = i + 1;
        }
        assert(kinds@.subrange(0, kinds@.len() as int) =~= kinds@);
        let (stream, end) = match TlvStream::decode_at(s, at) {
            Ok(x) => x,
            Err(e) => return Err(e),
        };
        let (tlv, unknown) = match Record::absorb_stream(schema, &stream) {
            Ok(x) => x,
            Err(e) => return Err(e),
        };
        let rec = Record { fixed, tlv, unknown };
        Ok((rec, end))
    }

    /// Sorts the entries of a decoded stream into the fields of `schema` and
    /// its bucket of unknown entries.
    fn absorb_stream(schema: &Schema, stream: &TlvStream) -> (r: Result<
        (Vec<Option<Value>>, TlvStream),
        DecodeError,
    >)
        requires
            schema.wf(),
        ensures
            match r {
                Ok((vals, unk)) => absorb(*schema, stream@) == Ok::<
                    (Seq<Option<ValueModel>>, Seq<EntryModel>),
                    DecodeError,
                >((vals@.map_values(|o: Option<Value>| option_view(o)), unk@)),
                Err(x) => absorb(*schema, stream@) == Err::<
                    (Seq<Option<ValueModel>>, Seq<EntryModel>),
                    DecodeError,
                >(x),
            },
    {
        let n = schema.tlv.len();
        let mut vals: Vec<Option<Value>> = Vec::new();
        let mut k: usize = 0;
        while k < n
            invariant
                n == schema.tlv@.len(),
                k <= n,
                vals@.len() == k,
                forall|j: int| 0 <= j < k ==> vals@[j] is None,
            decreases n - k,
        {
            vals.push(None);
            k = k + 1;
        }
        assert(vals@.map_values(|o: Option<Value>| option_view(o)) =~= Seq::new(
            n as nat,
            |j: int| None::<ValueModel>,
        ));
        let mut unk = TlvStream::new();
        let entries = &stream.entries;
        let mut i: usize = 0;
        assert(stream@.subrange(0, 0) =~= Seq::<EntryModel>::empty());
        while i < entries.len()
            invariant
                schema.wf(),
                i <= entries@.len(),
                vals@.len() == schema.tlv@.len(),
                stream@ == entries@.map_values(|e: TlvEntry| e@),
                absorb(*schema, stream@.subrange(0, i as int)) == Ok::<
                    (Seq<Option<ValueModel>>, Seq<EntryModel>),
                    DecodeError,
                >((vals@.map_values(|o: Option<Value>| option_view(o)), unk@)),
            decreases entries@.len() - i,
        {
            let ghost sub = stream@.subrange(0, i + 1);
            assert(sub.drop_last() =~= stream@.subrange(0, i as int));
            let entry = &entries[i];
            assert(sub.last() == entry@);
            let ghost before = vals@.map_values(|o: Option<Value>| option_view(o));
            match schema.find_field(entry.type_id) {
                Some(k) => {
                    let bytes = entry.value.as_slice();
                    match Value::decode_at(schema.tlv[k].kind, bytes, 0) {
                        Ok((v, end)) => {
                            if end != bytes.len() {
                                proof {
                                    lemma_absorb_refused(*schema, stream@, i + 1);
                                }
                                return Err(DecodeError::TrailingBytes);
                            }
                            if !schema.tlv[k].optional && v.is_default() {
                                proof {
                                    lemma_absorb_refused(*schema, stream@, i + 1);
                                }
                                return Err(DecodeError::DefaultValuePresent(entry.type_id));
                            }
                            vals.set(k, Some(v));
                            assert(vals@.map_values(|o: Option<Value>| option_view(o)) =~= before.update(
                                k as int,
                                Some(v@),
                            ));
                        },
                        Err(e) => {
                            proof {
                                lemma_absorb_refused(*schema, stream@, i + 1);
                            }
                            return Err(e);
                        },
                    }
                },
                None => {
                    if !schema.unknown_bucket {
                        proof {
                            lemma_absorb_refused(*schema, stream@, i + 1);
                        }
                        return Err(DecodeError::UnknownTlvType(entry.type_id));
                    }
                    let ghost unk_before = unk@;
                    unk.entries.push(entry.duplicate());
                    assert(unk@ =~= unk_before.push(entry@));
                },
            }
            i = i + 1;
        }
        assert(stream@.subrange(0, entries@.len() as int) =~= stream@);
        Ok((vals, unk))
    }

    /// Decodes a byte string that must hold exactly one record of `schema`.
    pub fn decode(schema: &Schema, s: &[u8]) -> (r: Result<Record, DecodeError>)
        requires
            schema.wf(),
        ensures
            match r {
                Ok(rec) => record_from_bytes(*schema, s@) == Ok::<RecordModel, DecodeError>(rec@),
                Err(x) => record_from_bytes(*schema, s@) == Err::<RecordModel, DecodeError>(x),
            },
    {
        match Record::decode_at(schema, s, 0) {
            Ok((rec, end)) => if end == s.len() {
                Ok(rec)
            } else {
                Err(DecodeError::TrailingBytes)
            },
            Err(x) => Err(x),
        }
    }

    /// The canonical encoding of the record.
    pub fn encode(&self, schema: &Schema) -> (r: Vec<u8>)
        requires
            record_wf(*schema, self@),
        ensures
            r@ == record_bytes(*schema, self@),
    {
        let mut out: Vec<u8> = Vec::new();
        self.encode_into(schema, &mut out);
        assert(out@ =~= record_bytes(*schema, self@));
        out
    }
}

} // verus!
