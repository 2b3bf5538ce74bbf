//! Message type registry: maps 16-bit type ids to the record schema of each
//! message variant, and dispatches received payloads by type id.

use vstd::prelude::*;
use crate::codec::{DecodeError, le16, u16_at, lemma_u16_at, push_u16, read_u16};
use crate::record::{Schema, Record, RecordModel, record_wf, record_bytes, record_from_bytes, law_record_round_trip};

verus! {

/// A type id was registered twice.
#[derive(Clone, Copy, Debug, PartialEq, Eq)]
pub struct DuplicateTypeError(pub u16);

/// A registered message variant: its type id and its payload's schema.
#[derive(Clone, Debug, PartialEq, Eq)]
pub struct MessageType {
    pub type_id: u16,
    pub schema: Schema,
}

/// The message variants of one protocol, each under its own type id.
#[derive(Clone, Debug, PartialEq, Eq)]
pub struct Registry {
    types: Vec<MessageType>,
}

/// A typed message: a type id and the record it carries.
#[derive(Clone, Debug, PartialEq, Eq)]
pub struct Message {
    pub type_id: u16,
    pub payload: Record,
}

/// What a message stands for.
pub struct MessageModel {
    pub type_id: u16,
    pub payload: RecordModel,
}

impl View for Message {
    type V = MessageModel;

    open spec fn view(&self) -> MessageModel {
        MessageModel { type_id: self.type_id, payload: self.payload@ }
    }
}

/// The position of the variant registered under `id`, if there is one.
pub open spec fn type_index(t: Seq<MessageType>, id: u16) -> Option<int> {
    if exists|k: int| 0 <= k < t.len() && t[k].type_id == id {
        Some(choose|k: int| 0 <= k < t.len() && t[k].type_id == id)
    } else {
        None
    }
}

/// Type ids pairwise distinct, and every schema well-formed.
pub open spec fn types_wf(t: Seq<MessageType>) -> bool {
    &&& forall|i: int, j: int| 0 <= i < t.len() && 0 <= j < t.len() && i != j ==> t[i].type_id != t[j].type_id
    &&& forall|i: int| 0 <= i < t.len() ==> (#[trigger] t[i]).schema.wf()
}

/// Decoding of a payload sent under type id `id`.
pub open spec fn dispatch_spec(t: Seq<MessageType>, id: u16, payload: Seq<u8>) -> Result<
    MessageModel,
    DecodeError,
> {
    match type_index(t, id) {
        Some(k) => match record_from_bytes(t[k].schema, payload) {
            Ok(r) => Ok(MessageModel { type_id: id, payload: r }),
            Err(x) => Err(x),
        },
        None => Err(DecodeError::UnknownType(id)),
    }
}

/// Whether `m` is a message of a registered variant that can be written.
pub open spec fn message_wf(t: Seq<MessageType>, m: MessageModel) -> bool {
    match type_index(t, m.type_id) {
        Some(k) => record_wf(t[k].schema, m.payload),
        None => false,
    }
}

/// The strict encoding of a message's payload.
pub open spec fn payload_bytes(t: Seq<MessageType>, m: MessageModel) -> Seq<u8> {
    record_bytes(t[type_index(t, m.type_id)->Some_0].schema, m.payload)
}

/// The wire envelope of a message: its type id, then its payload.
pub open spec fn frame_bytes(t: Seq<MessageType>, m: MessageModel) -> Seq<u8> {
    le16(m.type_id) + payload_bytes(t, m)
}

/// Decoding of a wire envelope.
pub open spec fn frame_from_bytes(t: Seq<MessageType>, s: Seq<u8>) -> Result<MessageModel, DecodeError> {
    if s.len() < 2 {
        Err(DecodeError::UnexpectedEof)
    } else {
        dispatch_spec(t, u16_at(s, 0), s.subrange(2, s.len() as int))
    }
}

pub proof fn lemma_type_index(t: Seq<MessageType>, k: int)
    requires
        types_wf(t),
        0 <= k < t.len(),
    ensures
        type_index(t, t[k].type_id) == Some(k),
{
    let id = t[k].type_id;
    assert(0 <= k < t.len() && t[k].type_id == id);
}

impl Message {
    /// The type id of the message's variant.
    pub fn type_of(&self) -> (r: u16)
        ensures
            r == self.type_id,
    {
        self.type_id
    }
}

impl Registry {
    pub closed spec fn types(&self) -> Seq<MessageType> {
        self.types@
    }

    pub open spec fn wf(&self) -> bool {
        types_wf(self.types())
    }

    /// A registry with no variant.
    pub fn new() -> (r: Registry)
        ensures
            r.wf(),
            r.types() == Seq::<MessageType>::empty(),
    {
        Registry { types: Vec::new() }
    }

    /// Registers a variant. A type id that is registered already is refused
    /// and the registry is left as it was.
    pub fn register(&mut self, type_id: u16, schema: Schema) -> (r: Result<(), DuplicateTypeError>)
        requires
            old(self).wf(),
            schema.wf(),
        ensures
            final(self).wf(),
            type_index(old(self).types(), type_id) is Some <==> r is Err,
            r matches Err(e) ==> e == DuplicateTypeError(type_id) && final(self).types() == old(
                self,
            ).types(),
            r is Ok ==> final(self).types() == old(self).types().push(MessageType { type_id, schema }),
    {
        let mut k: usize = 0;
        while k < self.types.len()
            invariant
                self.wf(),
                k <= self.types@.len(),
                forall|j: int| 0 <= j < k ==> self.types@[j].type_id != type_id,
            decreases self.types@.len() - k,
        {
            if self.types[k].type_id == type_id {
                assert(0 <= k < self.types@.len() && self.types@[k as int].type_id == type_id);
                return Err(DuplicateTypeError(type_id));
            }
            k = k + 1;
        }
        let ghost before = self.types@;
        self.types.push(MessageType { type_id, schema });
        proof {
            let t = self.types@;
            assert forall|i: int| 0 <= i < t.len() implies (#[trigger] t[i]).schema.wf() by {
                if i < before.len() {
                    assert(t[i] == before[i]);
                }
            }
            assert forall|i: int, j: int|
                0 <= i < t.len() && 0 <= j < t.len() && i != j implies t[i].type_id != t[j].type_id by {
                if i < before.len() && j < before.len() {
                    assert(t[i] == before[i] && t[j] == before[j]);
                }
            }
        }
        Ok(())
    }

    /// The position of the variant registered under `id`, if there is one.
    fn find(&self, id: u16) -> (r: Option<usize>)
        requires
            self.wf(),
        ensures
            r matches Some(k) ==> type_index(self.types(), id) == Some(k as int),
            r is None ==> type_index(self.types(), id) is None,
    {
        let mut k: usize = 0;
        while k < self.types.len()
            invariant
                types_wf(self.types@),
                k <= self.types@.len(),
                forall|j: int| 0 <= j < k ==> self.types@[j].type_id != id,
            decreases self.types@.len() - k,
        {
            if self.types[k].type_id == id {
                proof {
                    lemma_type_index(self.types@, k as int);
                }
                return Some(k);
            }
            k = k + 1;
        }
        None
    }

    /// Decodes `payload` as the variant registered under `type_id`; an id
    /// that nobody registered fails with `UnknownType`.
    pub fn dispatch(&self, type_id: u16, payload: &[u8]) -> (r: Result<Message, DecodeError>)
        requires
            self.wf(),
        ensures
            match r {
                Ok(m) => dispatch_spec(self.types(), type_id, payload@) == Ok::<MessageModel, DecodeError>(m@),
                Err(x) => dispatch_spec(self.types(), type_id, payload@) == Err::<MessageModel, DecodeError>(x),
            },
    {
        match self.find(type_id) {
            Some(k) => {
                let schema = &self.types[k].schema;
                assert(self.types@[k as int].schema.wf());
                match Record::decode(schema, payload) {
                    Ok(rec) => Ok(Message { type_id, payload: rec }),
                    Err(x) => Err(x),
                }
            },
            None => Err(DecodeError::UnknownType(type_id)),
        }
    }

    /// The strict encoding of a message's payload.
    pub fn encode_payload(&self, m: &Message) -> (r: Vec<u8>)
        requires
            self.wf(),
            message_wf(self.types(), m@),
        ensures
            r@ == payload_bytes(self.types(), m@),
    {
        let k = self.find(m.type_id).unwrap();
        m.payload.encode(&self.types[k].schema)
    }

    /// The wire envelope of a message: its type id, then its payload.
    pub fn encode_frame(&self, m: &Message) -> (r: Vec<u8>)
        requires
            self.wf(),
            message_wf(self.types(), m@),
        ensures
            r@ == frame_bytes(self.types(), m@),
    {
        let mut out: Vec<u8> = Vec::new();
        push_u16(&mut out, m.type_id);
        let payload = self.encode_payload(m);
        let mut i: usize = 0;
        while i < payload.len()
            invariant
                i <= payload@.len(),
                out@ == le16(m.type_id) + payload@.subrange(0, i as int),
            decreases payload@.len() - i,
        {
            out.push(payload[i]);
            i = i + 1;
            assert(out@ =~= le16(m.type_id) + payload@.subrange(0, i as int));
        }
        assert(payload@.subrange(0, payload@.len() as int) =~= payload@);
        out
    }

    /// Reads a wire envelope: the type id, then the payload of that variant.
    pub fn decode_frame(&self, s: &[u8]) -> (r: Result<Message, DecodeError>)
        requires
            self.wf(),
        ensures
            match r {
                Ok(m) => frame_from_bytes(self.types(), s@) == Ok::<MessageModel, DecodeError>(m@),
                Err(x) => frame_from_bytes(self.types(), s@) == Err::<MessageModel, DecodeError>(x),
            },
    {
        let type_id = match read_u16(s, 0) {
            Ok(t) => t,
            Err(e) => return Err(e),
        };
        let payload = vstd::slice::slice_subrange(s, 2, s.len());
        self.dispatch(type_id, payload)
    }
}

/// Every message of a registered variant dispatches back to itself from its
/// type id and its encoded payload.
pub proof fn law_dispatch_identity(t: Seq<MessageType>, m: MessageModel)
    requires
        types_wf(t),
        message_wf(t, m),
    ensures
        dispatch_spec(t, m.type_id, payload_bytes(t, m)) == Ok::<MessageModel, DecodeError>(m),
{
    let k = type_index(t, m.type_id)->Some_0;
    law_record_round_trip(t[k].schema, m.payload);
}

/// A type id that nobody registered is refused with `UnknownType`, whatever
/// the payload.
pub proof fn law_dispatch_unknown(t: Seq<MessageType>, id: u16, payload: Seq<u8>)
    requires
        forall|k: int| 0 <= k < t.len() ==> t[k].type_id != id,
    ensures
        dispatch_spec(t, id, payload) == Err::<MessageModel, DecodeError>(DecodeError::UnknownType(id)),
{
}

/// Every message of a registered variant reads back from its wire envelope.
pub proof fn law_frame_round_trip(t: Seq<MessageType>, m: MessageModel)
    requires
        types_wf(t),
        message_wf(t, m),
    ensures
        frame_from_bytes(t, frame_bytes(t, m)) == Ok::<MessageModel, DecodeError>(m),
{
    let s = frame_bytes(t, m);
    assert(s.subrange(0, 2) =~= le16(m.type_id));
    lemma_u16_at(s, 0, m.type_id);
    assert(s.subrange(2, s.len() as int) =~= payload_bytes(t, m));
    law_dispatch_identity(t, m);
}

} // verus!
