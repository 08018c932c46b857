//! Runtime schema description: the descriptor pool a dynamic message is
//! interpreted against.  Messages refer to their descriptor by index into
//! the pool, and message- or enum-typed fields name their target the same
//! way, so descriptor graphs may be cyclic.

use vstd::prelude::*;
use crate::wire::MAX_FIELD_NUMBER;

verus! {

/// The file-level syntax a message was declared under.
#[derive(Clone, Copy, Debug, PartialEq, Eq, Structural)]
pub enum Syntax {
    Proto2,
    Proto3,
}

/// The declared `.proto` type of a field, which fixes its wire format.
#[derive(Clone, Copy, Debug, PartialEq, Eq, Structural)]
pub enum ProtoType {
    Double,
    Float,
    Int64,
    Uint64,
    Int32,
    Fixed64,
    Fixed32,
    Bool,
    String,
    Group,
    Message,
    Bytes,
    Uint32,
    Enum,
    Sfixed32,
    Sfixed64,
    Sint32,
    Sint64,
}

/// The runtime storage type of one value: the tag every value box carries.
/// `Enum` and `Message` name their descriptor; an enum id is opaque, a
/// message id indexes the pool.
#[derive(Clone, Copy, Debug, PartialEq, Eq, Structural)]
pub enum RuntimeTypeBox {
    I32,
    I64,
    U32,
    U64,
    F32,
    F64,
    Bool,
    String,
    VecU8,
    Enum(usize),
    Message(usize),
}

/// The shape of a field: one value, a sequence, or a keyed collection.
#[derive(Clone, Copy, Debug, PartialEq, Eq, Structural)]
pub enum RuntimeFieldType {
    Singular(RuntimeTypeBox),
    Repeated(RuntimeTypeBox),
    Keyed(RuntimeTypeBox, RuntimeTypeBox),
}

/// The shape a field was declared with, before its scalar type is resolved.
#[derive(Clone, Copy, Debug, PartialEq, Eq, Structural)]
pub enum FieldKind {
    Singular,
    Repeated,
    Keyed(RuntimeTypeBox, RuntimeTypeBox),
}

/// One field of a message descriptor.
#[derive(Clone, Copy, Debug, PartialEq, Eq, Structural)]
pub struct FieldDescriptor {
    /// The field number, as it travels inside wire tags.
    pub number: u32,
    /// The declared `.proto` type.
    pub proto_type: ProtoType,
    /// Singular, repeated, or map.
    pub kind: FieldKind,
    /// For `Message`/`Group` fields the pool index of the target message;
    /// for `Enum` fields an opaque enum id; 0 otherwise.
    pub type_ref: usize,
    /// The oneof group this field belongs to, if any; members share an index.
    pub oneof_index: Option<u32>,
}

/// One message type: its syntax and its fields in declaration order.
#[derive(Clone, Debug)]
pub struct MessageDescriptor {
    pub syntax: Syntax,
    pub fields: Vec<FieldDescriptor>,
}

/// Every message type a value graph can mention, indexed by message id.
#[derive(Clone, Debug)]
pub struct DescriptorPool {
    pub messages: Vec<MessageDescriptor>,
}

/// The storage type a declared `.proto` type is boxed as.
pub open spec fn spec_runtime_type(pt: ProtoType, type_ref: usize) -> RuntimeTypeBox {
    match pt {
        ProtoType::Double => RuntimeTypeBox::F64,
        ProtoType::Float => RuntimeTypeBox::F32,
        ProtoType::Int64 => RuntimeTypeBox::I64,
        ProtoType::Uint64 => RuntimeTypeBox::U64,
        ProtoType::Int32 => RuntimeTypeBox::I32,
        ProtoType::Fixed64 => RuntimeTypeBox::U64,
        ProtoType::Fixed32 => RuntimeTypeBox::U32,
        ProtoType::Bool => RuntimeTypeBox::Bool,
        ProtoType::String => RuntimeTypeBox::String,
        ProtoType::Group => RuntimeTypeBox::Message(type_ref),
        ProtoType::Message => RuntimeTypeBox::Message(type_ref),
        ProtoType::Bytes => RuntimeTypeBox::VecU8,
        ProtoType::Uint32 => RuntimeTypeBox::U32,
        ProtoType::Enum => RuntimeTypeBox::Enum(type_ref),
        ProtoType::Sfixed32 => RuntimeTypeBox::I32,
        ProtoType::Sfixed64 => RuntimeTypeBox::I64,
        ProtoType::Sint32 => RuntimeTypeBox::I32,
        ProtoType::Sint64 => RuntimeTypeBox::I64,
    }
}

pub fn runtime_type(pt: ProtoType, type_ref: usize) -> (r: RuntimeTypeBox)
    ensures
        r == spec_runtime_type(pt, type_ref),
{
    match pt {
        ProtoType::Double => RuntimeTypeBox::F64,
        ProtoType::Float => RuntimeTypeBox::F32,
        ProtoType::Int64 => RuntimeTypeBox::I64,
        ProtoType::Uint64 => RuntimeTypeBox::U64,
        ProtoType::Int32 => RuntimeTypeBox::I32,
        ProtoType::Fixed64 => RuntimeTypeBox::U64,
        ProtoType::Fixed32 => RuntimeTypeBox::U32,
        ProtoType::Bool => RuntimeTypeBox::Bool,
        ProtoType::String => RuntimeTypeBox::String,
        ProtoType::Group => RuntimeTypeBox::Message(type_ref),
        ProtoType::Message => RuntimeTypeBox::Message(type_ref),
        ProtoType::Bytes => RuntimeTypeBox::VecU8,
        ProtoType::Uint32 => RuntimeTypeBox::U32,
        ProtoType::Enum => RuntimeTypeBox::Enum(type_ref),
        ProtoType::Sfixed32 => RuntimeTypeBox::I32,
        ProtoType::Sfixed64 => RuntimeTypeBox::I64,
        ProtoType::Sint32 => RuntimeTypeBox::I32,
        ProtoType::Sint64 => RuntimeTypeBox::I64,
    }
}

impl FieldDescriptor {
    /// The field's shape with its scalar types resolved.
    pub open spec fn spec_runtime_field_type(self) -> RuntimeFieldType {
        match self.kind {
            FieldKind::Singular => RuntimeFieldType::Singular(
                spec_runtime_type(self.proto_type, self.type_ref),
            ),
            FieldKind::Repeated => RuntimeFieldType::Repeated(
                spec_runtime_type(self.proto_type, self.type_ref),
            ),
            FieldKind::Keyed(k, v) => RuntimeFieldType::Keyed(k, v),
        }
    }

    pub fn runtime_field_type(&self) -> (r: RuntimeFieldType)
        ensures
            r == self.spec_runtime_field_type(),
    {
        match self.kind {
            FieldKind::Singular => RuntimeFieldType::Singular(
                runtime_type(self.proto_type, self.type_ref),
            ),
            FieldKind::Repeated => RuntimeFieldType::Repeated(
                runtime_type(self.proto_type, self.type_ref),
            ),
            FieldKind::Keyed(k, v) => RuntimeFieldType::Keyed(k, v),
        }
    }
}

/// A runtime type allowed as a map key: an integral, bool or string type,
/// as the protobuf language requires.
pub open spec fn valid_map_key_type(t: RuntimeTypeBox) -> bool {
    match t {
        RuntimeTypeBox::I32 => true,
        RuntimeTypeBox::I64 => true,
        RuntimeTypeBox::U32 => true,
        RuntimeTypeBox::U64 => true,
        RuntimeTypeBox::Bool => true,
        RuntimeTypeBox::String => true,
        _ => false,
    }
}

/// A well-formed field under `pool`: a legal number, message references in
/// range, and for map fields a legal key type and an in-range value type.
pub open spec fn field_wf(pool: DescriptorPool, f: FieldDescriptor) -> bool {
    &&& 1 <= f.number <= MAX_FIELD_NUMBER
    &&& ((f.proto_type is Message || f.proto_type is Group) && !(f.kind is Keyed) ==> f.type_ref
        < pool.messages@.len())
    &&& match f.kind {
        FieldKind::Keyed(k, v) => valid_map_key_type(k) && (match v {
            RuntimeTypeBox::Message(i) => i < pool.messages@.len(),
            _ => true,
        }),
        _ => true,
    }
}

/// A well-formed message descriptor: every field is well formed.
pub open spec fn msg_desc_wf(pool: DescriptorPool, m: MessageDescriptor) -> bool {
    forall|i: int| 0 <= i < m.fields@.len() ==> field_wf(pool, #[trigger] m.fields@[i])
}

/// A well-formed pool: every message descriptor in it is well formed.
pub open spec fn pool_wf(pool: DescriptorPool) -> bool {
    forall|i: int| 0 <= i < pool.messages@.len() ==> msg_desc_wf(
        pool,
        #[trigger] pool.messages@[i],
    )
}

/// The index of the first field numbered `num` at or after `i`, if any.
pub open spec fn spec_find_field_from(fields: Seq<FieldDescriptor>, num: u32, i: int) -> Option<
    int,
>
    decreases fields.len() - i,
{
    if i < 0 || i >= fields.len() {
        None
    } else if fields[i].number == num {
        Some(i)
    } else {
        spec_find_field_from(fields, num, i + 1)
    }
}

/// The index of the first field numbered `num`, if any.
pub open spec fn spec_find_field(m: MessageDescriptor, num: u32) -> Option<int> {
    spec_find_field_from(m.fields@, num, 0)
}

impl MessageDescriptor {
    /// Looks a field up by its number.
    pub fn get_field_by_number(&self, num: u32) -> (r: Option<usize>)
        ensures
            match spec_find_field(*self, num) {
                Some(i) => r is Some && r->Some_0 == i,
                None => r is None,
            },
    {
        let n = self.fields.len();
        let mut i: usize = 0;
        while i < n
            invariant
                i <= n,
                n == self.fields@.len(),
                spec_find_field(*self, num) == spec_find_field_from(self.fields@, num, i as int),
            decreases n - i,
        {
            if self.fields[i].number == num {
                return Some(i);
            }
            i = i + 1;
        }
        None
    }
}

/// A found field index is in range and carries the number searched for.
pub proof fn lemma_find_field_valid(m: MessageDescriptor, num: u32)
    requires
        spec_find_field(m, num) is Some,
    ensures
        0 <= spec_find_field(m, num)->Some_0 < m.fields@.len(),
        m.fields@[spec_find_field(m, num)->Some_0].number == num,
{
    lemma_find_field_from_valid(m.fields@, num, 0);
}

proof fn lemma_find_field_from_valid(fields: Seq<FieldDescriptor>, num: u32, i: int)
    requires
        spec_find_field_from(fields, num, i) is Some,
    ensures
        i <= spec_find_field_from(fields, num, i)->Some_0 < fields.len(),
        fields[spec_find_field_from(fields, num, i)->Some_0].number == num,
    decreases fields.len() - i,
{
    if i < 0 || i >= fields.len() {
    } else if fields[i].number == num {
    } else {
        lemma_find_field_from_valid(fields, num, i + 1);
    }
}

} // verus!
