//! Encoder and sizer: descriptor-order emission with proto3
//! default-suppression, against a spec-level encoding, plus the law that
//! the sizer's answer is exactly the encoder's byte count.

use vstd::prelude::*;
use vstd::pervasive::unreached;
use crate::descriptor::{DescriptorPool, FieldDescriptor, ProtoType};
use crate::value::{
    cell_model, cell_view_wf, lemma_cells_model_len, lemma_cells_view_wf_index,
    lemma_values_model_len, lemma_values_view_wf_index, msg_view_wf, spec_is_non_zero, value_model,
    values_model, value_view_wf, CellView, DynamicFieldValue, DynamicMessage, MessageView,
    ReflectValueBox, ValueView,
};
use crate::message::desc_of;
use crate::wire::{
    exec_u32_from_i32, exec_u64_from_i64, exec_zigzag32, exec_zigzag64, le32_encode, le64_encode,
    raw_varint64_len, tag_encode, u32_from_i32, u64_from_i64, varint_encode, write_raw_le32,
    write_raw_le64, write_raw_varint64, write_tag, zigzag32, zigzag64, WireType, MAX_FIELD_NUMBER,
};

verus! {

/// The wire type a `.proto` type's payload travels under.
pub open spec fn wire_type_for(pt: ProtoType) -> WireType {
    match pt {
        ProtoType::Double => WireType::Fixed64,
        ProtoType::Float => WireType::Fixed32,
        ProtoType::Int64 => WireType::Varint,
        ProtoType::Uint64 => WireType::Varint,
        ProtoType::Int32 => WireType::Varint,
        ProtoType::Fixed64 => WireType::Fixed64,
        ProtoType::Fixed32 => WireType::Fixed32,
        ProtoType::Bool => WireType::Varint,
        ProtoType::String => WireType::LengthDelimited,
        ProtoType::Group => WireType::StartGroup,
        ProtoType::Message => WireType::LengthDelimited,
        ProtoType::Bytes => WireType::LengthDelimited,
        ProtoType::Uint32 => WireType::Varint,
        ProtoType::Enum => WireType::Varint,
        ProtoType::Sfixed32 => WireType::Fixed32,
        ProtoType::Sfixed64 => WireType::Fixed64,
        ProtoType::Sint32 => WireType::Varint,
        ProtoType::Sint64 => WireType::Varint,
    }
}

/// The value variant a `.proto` type stores, and for message values their
/// well-formedness: what the writer demands of its argument.
pub open spec fn value_compat(pool: DescriptorPool, pt: ProtoType, v: ValueView) -> bool {
    match pt {
        ProtoType::Int32 => v is I32,
        ProtoType::Sint32 => v is I32,
        ProtoType::Sfixed32 => v is I32,
        ProtoType::Int64 => v is I64,
        ProtoType::Sint64 => v is I64,
        ProtoType::Sfixed64 => v is I64,
        ProtoType::Uint32 => v is U32,
        ProtoType::Fixed32 => v is U32,
        ProtoType::Uint64 => v is U64,
        ProtoType::Fixed64 => v is U64,
        ProtoType::Float => v is F32,
        ProtoType::Double => v is F64,
        ProtoType::Bool => v is Bool,
        ProtoType::String => v is String,
        ProtoType::Bytes => v is Bytes,
        ProtoType::Enum => v is Enum,
        ProtoType::Message => v is Message && msg_view_wf(pool, v->Message_0),
        ProtoType::Group => v is Message && msg_view_wf(pool, v->Message_0),
    }
}

// ----------------------------------------------------------------------------
// Spec encoding.  These are total functions; the `_ok` predicates delimit
// where the executable encoder actually succeeds (no map fields on the
// walk, no group value emitted).
// ----------------------------------------------------------------------------

/// The bytes one (tag, payload) record of value `v` occupies.
pub open spec fn spec_enc_value(pool: DescriptorPool, pt: ProtoType, num: u32, v: ValueView) -> Seq<u8>
    decreases v, 1int,
{
    let tag = tag_encode(num, wire_type_for(pt));
    match pt {
        ProtoType::Int32 => match v {
            ValueView::I32(x) => tag + varint_encode(u64_from_i64(x as i64)),
            _ => Seq::empty(),
        },
        ProtoType::Int64 => match v {
            ValueView::I64(x) => tag + varint_encode(u64_from_i64(x)),
            _ => Seq::empty(),
        },
        ProtoType::Uint32 => match v {
            ValueView::U32(x) => tag + varint_encode(x as u64),
            _ => Seq::empty(),
        },
        ProtoType::Uint64 => match v {
            ValueView::U64(x) => tag + varint_encode(x),
            _ => Seq::empty(),
        },
        ProtoType::Sint32 => match v {
            ValueView::I32(x) => tag + varint_encode(zigzag32(x) as u64),
            _ => Seq::empty(),
        },
        ProtoType::Sint64 => match v {
            ValueView::I64(x) => tag + varint_encode(zigzag64(x)),
            _ => Seq::empty(),
        },
        ProtoType::Bool => match v {
            ValueView::Bool(b) => tag + varint_encode(if b { 1u64 } else { 0u64 }),
            _ => Seq::empty(),
        },
        ProtoType::Enum => match v {
            ValueView::Enum(_, n) => tag + varint_encode(u64_from_i64(n as i64)),
            _ => Seq::empty(),
        },
        ProtoType::Fixed32 => match v {
            ValueView::U32(x) => tag + le32_encode(x),
            _ => Seq::empty(),
        },
        ProtoType::Sfixed32 => match v {
            ValueView::I32(x) => tag + le32_encode(u32_from_i32(x)),
            _ => Seq::empty(),
        },
        ProtoType::Float => match v {
            ValueView::F32(bits) => tag + le32_encode(bits),
            _ => Seq::empty(),
        },
        ProtoType::Fixed64 => match v {
            ValueView::U64(x) => tag + le64_encode(x),
            _ => Seq::empty(),
        },
        ProtoType::Sfixed64 => match v {
            ValueView::I64(x) => tag + le64_encode(u64_from_i64(x)),
            _ => Seq::empty(),
        },
        ProtoType::Double => match v {
            ValueView::F64(bits) => tag + le64_encode(bits),
            _ => Seq::empty(),
        },
        ProtoType::String => match v {
            ValueView::String(s) => tag + varint_encode(s.len() as u64) + s,
            _ => Seq::empty(),
        },
        ProtoType::Bytes => match v {
            ValueView::Bytes(b) => tag + varint_encode(b.len() as u64) + b,
            _ => Seq::empty(),
        },
        ProtoType::Message => match v {
            ValueView::Message(mv) => tag + varint_encode(
                spec_enc_msg(pool, mv).len() as u64,
            ) + spec_enc_msg(pool, mv),
            _ => Seq::empty(),
        },
        ProtoType::Group => Seq::empty(),
    }
}

/// The records of elements `i..` of a repeated field, one per element.
pub open spec fn spec_enc_values(
    pool: DescriptorPool,
    pt: ProtoType,
    num: u32,
    vs: Seq<ValueView>,
    i: int,
) -> Seq<u8>
    decreases vs, vs.len() - i,
{
    if i < 0 || i >= vs.len() {
        Seq::empty()
    } else {
        spec_enc_value(pool, pt, num, vs[i]) + spec_enc_values(pool, pt, num, vs, i + 1)
    }
}

/// The bytes one field cell contributes: a set, non-zero singular value is
/// one record; repeated elements are one record each (never packed); an
/// empty or suppressed cell contributes nothing.
pub open spec fn spec_enc_cell(pool: DescriptorPool, f: FieldDescriptor, c: CellView) -> Seq<u8>
    decreases c, 2int,
{
    match c {
        CellView::Singular(o) => match o {
            Option::Some(v) => if spec_is_non_zero(v) {
                spec_enc_value(pool, f.proto_type, f.number, v)
            } else {
                Seq::empty()
            },
            Option::None => Seq::empty(),
        },
        CellView::Repeated(vs) => spec_enc_values(pool, f.proto_type, f.number, vs, 0),
        CellView::Keyed(_) => Seq::empty(),
    }
}

/// The concatenation of the records of fields `i..`, in descriptor order.
pub open spec fn spec_enc_fields(
    pool: DescriptorPool,
    fds: Seq<FieldDescriptor>,
    cs: Seq<CellView>,
    i: int,
) -> Seq<u8>
    decreases cs, cs.len() - i,
{
    if i < 0 || i >= cs.len() {
        Seq::empty()
    } else {
        spec_enc_cell(pool, fds[i], cs[i]) + spec_enc_fields(pool, fds, cs, i + 1)
    }
}

/// The serialized form of a message: its fields in descriptor order.  A
/// lazy message has no cells and encodes to nothing.
pub open spec fn spec_enc_msg(pool: DescriptorPool, m: MessageView) -> Seq<u8>
    decreases m, 3int,
{
    spec_enc_fields(pool, desc_of(pool, m).fields@, m.fields, 0)
}

/// Where the encoder succeeds on one emitted value: groups never encode,
/// and a message value must itself encode.
pub open spec fn spec_enc_value_ok(pool: DescriptorPool, pt: ProtoType, v: ValueView) -> bool
    decreases v, 1int,
{
    match pt {
        ProtoType::Group => false,
        ProtoType::Message => match v {
            ValueView::Message(mv) => spec_enc_msg_ok(pool, mv),
            _ => true,
        },
        _ => true,
    }
}

pub open spec fn spec_enc_values_ok(
    pool: DescriptorPool,
    pt: ProtoType,
    vs: Seq<ValueView>,
    i: int,
) -> bool
    decreases vs, vs.len() - i,
{
    if i < 0 || i >= vs.len() {
        true
    } else {
        spec_enc_value_ok(pool, pt, vs[i]) && spec_enc_values_ok(pool, pt, vs, i + 1)
    }
}

/// Where the encoder succeeds on one cell: a map cell never encodes; a
/// suppressed or empty singular cell always does (even of group type).
pub open spec fn spec_enc_cell_ok(pool: DescriptorPool, f: FieldDescriptor, c: CellView) -> bool
    decreases c, 2int,
{
    match c {
        CellView::Singular(o) => match o {
            Option::Some(v) => if spec_is_non_zero(v) {
                spec_enc_value_ok(pool, f.proto_type, v)
            } else {
                true
            },
            Option::None => true,
        },
        CellView::Repeated(vs) => spec_enc_values_ok(pool, f.proto_type, vs, 0),
        CellView::Keyed(_) => false,
    }
}

pub open spec fn spec_enc_fields_ok(
    pool: DescriptorPool,
    fds: Seq<FieldDescriptor>,
    cs: Seq<CellView>,
    i: int,
) -> bool
    decreases cs, cs.len() - i,
{
    if i < 0 || i >= cs.len() {
        true
    } else {
        spec_enc_cell_ok(pool, fds[i], cs[i]) && spec_enc_fields_ok(pool, fds, cs, i + 1)
    }
}

/// Where the encoder succeeds on a whole message.
pub open spec fn spec_enc_msg_ok(pool: DescriptorPool, m: MessageView) -> bool
    decreases m, 3int,
{
    spec_enc_fields_ok(pool, desc_of(pool, m).fields@, m.fields, 0)
}

// ----------------------------------------------------------------------------
// Sizes, per the wire-format table, and the law that they are lengths.
// ----------------------------------------------------------------------------

/// The serialized size of one record: tag plus payload, by type family.
pub open spec fn spec_value_size(pool: DescriptorPool, pt: ProtoType, num: u32, v: ValueView) -> int
    decreases v, 1int,
{
    let tag = tag_encode(num, wire_type_for(pt)).len() as int;
    match pt {
        ProtoType::Int32 => match v {
            ValueView::I32(x) => tag + varint_encode(u64_from_i64(x as i64)).len(),
            _ => 0,
        },
        ProtoType::Int64 => match v {
            ValueView::I64(x) => tag + varint_encode(u64_from_i64(x)).len(),
            _ => 0,
        },
        ProtoType::Uint32 => match v {
            ValueView::U32(x) => tag + varint_encode(x as u64).len(),
            _ => 0,
        },
        ProtoType::Uint64 => match v {
            ValueView::U64(x) => tag + varint_encode(x).len(),
            _ => 0,
        },
        ProtoType::Sint32 => match v {
            ValueView::I32(x) => tag + varint_encode(zigzag32(x) as u64).len(),
            _ => 0,
        },
        ProtoType::Sint64 => match v {
            ValueView::I64(x) => tag + varint_encode(zigzag64(x)).len(),
            _ => 0,
        },
        ProtoType::Bool => match v {
            ValueView::Bool(_) => tag + 1,
            _ => 0,
        },
        ProtoType::Enum => match v {
            ValueView::Enum(_, n) => tag + varint_encode(u64_from_i64(n as i64)).len(),
            _ => 0,
        },
        ProtoType::Fixed32 => match v {
            ValueView::U32(_) => tag + 4,
            _ => 0,
        },
        ProtoType::Sfixed32 => match v {
            ValueView::I32(_) => tag + 4,
            _ => 0,
        },
        ProtoType::Float => match v {
            ValueView::F32(_) => tag + 4,
            _ => 0,
        },
        ProtoType::Fixed64 => match v {
            ValueView::U64(_) => tag + 8,
            _ => 0,
        },
        ProtoType::Sfixed64 => match v {
            ValueView::I64(_) => tag + 8,
            _ => 0,
        },
        ProtoType::Double => match v {
            ValueView::F64(_) => tag + 8,
            _ => 0,
        },
        ProtoType::String => match v {
            ValueView::String(s) => tag + varint_encode(s.len() as u64).len() + s.len(),
            _ => 0,
        },
        ProtoType::Bytes => match v {
            ValueView::Bytes(b) => tag + varint_encode(b.len() as u64).len() + b.len(),
            _ => 0,
        },
        ProtoType::Message => match v {
            ValueView::Message(mv) => tag + varint_encode(spec_msg_size(pool, mv) as u64).len()
                + spec_msg_size(pool, mv),
            _ => 0,
        },
        ProtoType::Group => 0,
    }
}

pub open spec fn spec_values_size(
    pool: DescriptorPool,
    pt: ProtoType,
    num: u32,
    vs: Seq<ValueView>,
    i: int,
) -> int
    decreases vs, vs.len() - i,
{
    if i < 0 || i >= vs.len() {
        0
    } else {
        spec_value_size(pool, pt, num, vs[i]) + spec_values_size(pool, pt, num, vs, i + 1)
    }
}

pub open spec fn spec_cell_size(pool: DescriptorPool, f: FieldDescriptor, c: CellView) -> int
    decreases c, 2int,
{
    match c {
        CellView::Singular(o) => match o {
            Option::Some(v) => if spec_is_non_zero(v) {
                spec_value_size(pool, f.proto_type, f.number, v)
            } else {
                0
            },
            Option::None => 0,
        },
        CellView::Repeated(vs) => spec_values_size(pool, f.proto_type, f.number, vs, 0),
        CellView::Keyed(_) => 0,
    }
}

pub open spec fn spec_fields_size(
    pool: DescriptorPool,
    fds: Seq<FieldDescriptor>,
    cs: Seq<CellView>,
    i: int,
) -> int
    decreases cs, cs.len() - i,
{
    if i < 0 || i >= cs.len() {
        0
    } else {
        spec_cell_size(pool, fds[i], cs[i]) + spec_fields_size(pool, fds, cs, i + 1)
    }
}

/// The serialized size of a whole message.
pub open spec fn spec_msg_size(pool: DescriptorPool, m: MessageView) -> int
    decreases m, 3int,
{
    spec_fields_size(pool, desc_of(pool, m).fields@, m.fields, 0)
}

pub proof fn lemma_value_size_nonneg(pool: DescriptorPool, pt: ProtoType, num: u32, v: ValueView)
    ensures
        spec_value_size(pool, pt, num, v) >= 0,
    decreases v, 1int,
{
    match pt {
        ProtoType::Message => match v {
            ValueView::Message(mv) => {
                lemma_msg_size_nonneg(pool, mv);
            },
            _ => {},
        },
        _ => {},
    }
}

pub proof fn lemma_values_size_nonneg(
    pool: DescriptorPool,
    pt: ProtoType,
    num: u32,
    vs: Seq<ValueView>,
    i: int,
)
    ensures
        spec_values_size(pool, pt, num, vs, i) >= 0,
    decreases vs, vs.len() - i,
{
    if 0 <= i < vs.len() {
        lemma_value_size_nonneg(pool, pt, num, vs[i]);
        lemma_values_size_nonneg(pool, pt, num, vs, i + 1);
    }
}

pub proof fn lemma_cell_size_nonneg(pool: DescriptorPool, f: FieldDescriptor, c: CellView)
    ensures
        spec_cell_size(pool, f, c) >= 0,
    decreases c, 2int,
{
    match c {
        CellView::Singular(o) => match o {
            Option::Some(v) => {
                lemma_value_size_nonneg(pool, f.proto_type, f.number, v);
            },
            Option::None => {},
        },
        CellView::Repeated(vs) => {
            lemma_values_size_nonneg(pool, f.proto_type, f.number, vs, 0);
        },
        CellView::Keyed(_) => {},
    }
}

pub proof fn lemma_fields_size_nonneg(
    pool: DescriptorPool,
    fds: Seq<FieldDescriptor>,
    cs: Seq<CellView>,
    i: int,
)
    ensures
        spec_fields_size(pool, fds, cs, i) >= 0,
    decreases cs, cs.len() - i,
{
    if 0 <= i < cs.len() {
        lemma_cell_size_nonneg(pool, fds[i], cs[i]);
        lemma_fields_size_nonneg(pool, fds, cs, i + 1);
    }
}

pub proof fn lemma_msg_size_nonneg(pool: DescriptorPool, m: MessageView)
    ensures
        spec_msg_size(pool, m) >= 0,
    decreases m, 3int,
{
    lemma_fields_size_nonneg(pool, desc_of(pool, m).fields@, m.fields, 0);
}

/// Size-then-write consistency, value level.
pub proof fn lemma_value_size_is_len(pool: DescriptorPool, pt: ProtoType, num: u32, v: ValueView)
    requires
        spec_enc_value_ok(pool, pt, v),
    ensures
        spec_value_size(pool, pt, num, v) == spec_enc_value(pool, pt, num, v).len(),
    decreases v, 1int,
{
    match pt {
        ProtoType::Message => match v {
            ValueView::Message(mv) => {
                lemma_msg_size_is_len(pool, mv);
                lemma_msg_size_nonneg(pool, mv);
            },
            _ => {},
        },
        _ => {},
    }
}

pub proof fn lemma_values_size_is_len(
    pool: DescriptorPool,
    pt: ProtoType,
    num: u32,
    vs: Seq<ValueView>,
    i: int,
)
    requires
        spec_enc_values_ok(pool, pt, vs, i),
    ensures
        spec_values_size(pool, pt, num, vs, i) == spec_enc_values(pool, pt, num, vs, i).len(),
    decreases vs, vs.len() - i,
{
    if 0 <= i < vs.len() {
        lemma_value_size_is_len(pool, pt, num, vs[i]);
        lemma_values_size_is_len(pool, pt, num, vs, i + 1);
    }
}

/// Size-then-write consistency, cell level.
pub proof fn lemma_cell_size_is_len(pool: DescriptorPool, f: FieldDescriptor, c: CellView)
    requires
        spec_enc_cell_ok(pool, f, c),
    ensures
        spec_cell_size(pool, f, c) == spec_enc_cell(pool, f, c).len(),
    decreases c, 2int,
{
    match c {
        CellView::Singular(o) => match o {
            Option::Some(v) => {
                if spec_is_non_zero(v) {
                    lemma_value_size_is_len(pool, f.proto_type, f.number, v);
                }
            },
            Option::None => {},
        },
        CellView::Repeated(vs) => {
            lemma_values_size_is_len(pool, f.proto_type, f.number, vs, 0);
        },
        CellView::Keyed(_) => {},
    }
}

pub proof fn lemma_fields_size_is_len(
    pool: DescriptorPool,
    fds: Seq<FieldDescriptor>,
    cs: Seq<CellView>,
    i: int,
)
    requires
        spec_enc_fields_ok(pool, fds, cs, i),
    ensures
        spec_fields_size(pool, fds, cs, i) == spec_enc_fields(pool, fds, cs, i).len(),
    decreases cs, cs.len() - i,
{
    if 0 <= i < cs.len() {
        lemma_cell_size_is_len(pool, fds[i], cs[i]);
        lemma_fields_size_is_len(pool, fds, cs, i + 1);
    }
}

/// Size-then-write consistency: wherever the encoder succeeds, the sizer's
/// answer equals the number of bytes the encoder writes.
pub proof fn lemma_msg_size_is_len(pool: DescriptorPool, m: MessageView)
    requires
        spec_enc_msg_ok(pool, m),
    ensures
        spec_msg_size(pool, m) == spec_enc_msg(pool, m).len(),
    decreases m, 3int,
{
    lemma_fields_size_is_len(pool, desc_of(pool, m).fields@, m.fields, 0);
}

// ----------------------------------------------------------------------------
// Executable encoder and sizer
// ----------------------------------------------------------------------------

/// The byte sink the encoder writes into.
#[derive(Debug)]
pub struct CodedOutputStream {
    pub bytes: Vec<u8>,
}

impl CodedOutputStream {
    /// A fresh, empty sink.
    pub fn new() -> (r: CodedOutputStream)
        ensures
            r.bytes@ == Seq::<u8>::empty(),
    {
        CodedOutputStream { bytes: Vec::new() }
    }
}

/// Appends a copy of `b` to `out`.
fn write_bytes_out(out: &mut Vec<u8>, b: &Vec<u8>)
    ensures
        final(out)@ == old(out)@ + b@,
{
    let n = b.len();
    let mut i: usize = 0;
    while i < n
        invariant
            i <= n,
            n == b@.len(),
            out@ == old(out)@ + b@.subrange(0, i as int),
        decreases n - i,
    {
        out.push(b[i]);
        proof {
            assert(out@ =~= old(out)@ + b@.subrange(0, i + 1 as int));
        }
        i = i + 1;
    }
    proof {
        assert(b@.subrange(0, n as int) =~= b@);
    }
}

fn exec_wire_code(wt: WireType) -> (r: u64)
    ensures
        r == crate::wire::wire_type_code(wt),
{
    match wt {
        WireType::Varint => 0,
        WireType::Fixed64 => 1,
        WireType::LengthDelimited => 2,
        WireType::StartGroup => 3,
        WireType::EndGroup => 4,
        WireType::Fixed32 => 5,
    }
}

/// The byte count of the tag of `(num, wt)`.
pub fn exec_tag_len(num: u32, wt: WireType) -> (r: u32)
    requires
        1 <= num <= MAX_FIELD_NUMBER,
    ensures
        r as int == tag_encode(num, wt).len(),
        1 <= r <= 10,
{
    let code = exec_wire_code(wt);
    raw_varint64_len(8 * (num as u64) + code)
}

fn exec_wire_type_for(pt: ProtoType) -> (r: WireType)
    ensures
        r == wire_type_for(pt),
{
    match pt {
        ProtoType::Double => WireType::Fixed64,
        ProtoType::Float => WireType::Fixed32,
        ProtoType::Int64 => WireType::Varint,
        ProtoType::Uint64 => WireType::Varint,
        ProtoType::Int32 => WireType::Varint,
        ProtoType::Fixed64 => WireType::Fixed64,
        ProtoType::Fixed32 => WireType::Fixed32,
        ProtoType::Bool => WireType::Varint,
        ProtoType::String => WireType::LengthDelimited,
        ProtoType::Group => WireType::StartGroup,
        ProtoType::Message => WireType::LengthDelimited,
        ProtoType::Bytes => WireType::LengthDelimited,
        ProtoType::Uint32 => WireType::Varint,
        ProtoType::Enum => WireType::Varint,
        ProtoType::Sfixed32 => WireType::Fixed32,
        ProtoType::Sfixed64 => WireType::Fixed64,
        ProtoType::Sint32 => WireType::Varint,
        ProtoType::Sint64 => WireType::Varint,
    }
}

/// A value that inhabits its field's declared runtime type also satisfies
/// what the writer asks of it.
pub proof fn lemma_compat_of_wf(
    pool: DescriptorPool,
    pt: ProtoType,
    type_ref: usize,
    v: ValueView,
)
    requires
        value_view_wf(pool, crate::descriptor::spec_runtime_type(pt, type_ref), v),
    ensures
        value_compat(pool, pt, v),
{
}

/// Writes one (tag, payload) record for a set singular value or one
/// repeated element.  Fails, writing nothing, on a group; fails on a
/// message value whose own encoding fails.
#[verifier::rlimit(100)]
pub fn singular_write_to(
    pool: &DescriptorPool,
    proto_type: ProtoType,
    field_number: u32,
    v: &ReflectValueBox,
    os: &mut CodedOutputStream,
) -> (r: Result<(), crate::Error>)
    requires
        crate::descriptor::pool_wf(*pool),
        1 <= field_number <= MAX_FIELD_NUMBER,
        value_compat(*pool, proto_type, value_model(*v)),
    ensures
        spec_enc_value_ok(*pool, proto_type, value_model(*v)) ==> r is Ok && final(os).bytes@
            == old(os).bytes@ + spec_enc_value(*pool, proto_type, field_number, value_model(*v)),
        !spec_enc_value_ok(*pool, proto_type, value_model(*v)) ==> r == Err::<(), crate::Error>(
            crate::Error::Unsupported,
        ),
    decreases *v, 0int, 0int,
{
    let wt = exec_wire_type_for(proto_type);
    match proto_type {
        ProtoType::Int32 => match v {
            ReflectValueBox::I32(x) => {
                write_tag(&mut os.bytes, field_number, wt);
                write_raw_varint64(&mut os.bytes, exec_u64_from_i64(*x as i64));
                Ok(())
            },
            _ => unreached(),
        },
        ProtoType::Int64 => match v {
            ReflectValueBox::I64(x) => {
                write_tag(&mut os.bytes, field_number, wt);
                write_raw_varint64(&mut os.bytes, exec_u64_from_i64(*x));
                Ok(())
            },
            _ => unreached(),
        },
        ProtoType::Uint32 => match v {
            ReflectValueBox::U32(x) => {
                write_tag(&mut os.bytes, field_number, wt);
                write_raw_varint64(&mut os.bytes, *x as u64);
                Ok(())
            },
            _ => unreached(),
        },
        ProtoType::Uint64 => match v {
            ReflectValueBox::U64(x) => {
                write_tag(&mut os.bytes, field_number, wt);
                write_raw_varint64(&mut os.bytes, *x);
                Ok(())
            },
            _ => unreached(),
        },
        ProtoType::Sint32 => match v {
            ReflectValueBox::I32(x) => {
                write_tag(&mut os.bytes, field_number, wt);
                write_raw_varint64(&mut os.bytes, exec_zigzag32(*x) as u64);
                Ok(())
            },
            _ => unreached(),
        },
        ProtoType::Sint64 => match v {
            ReflectValueBox::I64(x) => {
                write_tag(&mut os.bytes, field_number, wt);
                write_raw_varint64(&mut os.bytes, exec_zigzag64(*x));
                Ok(())
            },
            _ => unreached(),
        },
        ProtoType::Bool => match v {
            ReflectValueBox::Bool(b) => {
                write_tag(&mut os.bytes, field_number, wt);
                write_raw_varint64(&mut os.bytes, if *b { 1u64 } else { 0u64 });
                Ok(())
            },
            _ => unreached(),
        },
        ProtoType::Enum => match v {
            ReflectValueBox::Enum(_, n) => {
                write_tag(&mut os.bytes, field_number, wt);
                write_raw_varint64(&mut os.bytes, exec_u64_from_i64(*n as i64));
                Ok(())
            },
            _ => unreached(),
        },
        ProtoType::Fixed32 => match v {
            ReflectValueBox::U32(x) => {
                write_tag(&mut os.bytes, field_number, wt);
                write_raw_le32(&mut os.bytes, *x);
                Ok(())
            },
            _ => unreached(),
        },
        ProtoType::Sfixed32 => match v {
            ReflectValueBox::I32(x) => {
                write_tag(&mut os.bytes, field_number, wt);
                write_raw_le32(&mut os.bytes, exec_u32_from_i32(*x));
                Ok(())
            },
            _ => unreached(),
        },
        ProtoType::Float => match v {
            ReflectValueBox::F32(bits) => {
                write_tag(&mut os.bytes, field_number, wt);
                write_raw_le32(&mut os.bytes, *bits);
                Ok(())
            },
            _ => unreached(),
        },
        ProtoType::Fixed64 => match v {
            ReflectValueBox::U64(x) => {
                write_tag(&mut os.bytes, field_number, wt);
                write_raw_le64(&mut os.bytes, *x);
                Ok(())
            },
            _ => unreached(),
        },
        ProtoType::Sfixed64 => match v {
            ReflectValueBox::I64(x) => {
                write_tag(&mut os.bytes, field_number, wt);
                write_raw_le64(&mut os.bytes, exec_u64_from_i64(*x));
                Ok(())
            },
            _ => unreached(),
        },
        ProtoType::Double => match v {
            ReflectValueBox::F64(bits) => {
                write_tag(&mut os.bytes, field_number, wt);
                write_raw_le64(&mut os.bytes, *bits);
                Ok(())
            },
            _ => unreached(),
        },
        ProtoType::String => match v {
            ReflectValueBox::String(s) => {
                write_tag(&mut os.bytes, field_number, wt);
                write_raw_varint64(&mut os.bytes, s.len() as u64);
                write_bytes_out(&mut os.bytes, s);
                Ok(())
            },
            _ => unreached(),
        },
        ProtoType::Bytes => match v {
            ReflectValueBox::Bytes(b) => {
                write_tag(&mut os.bytes, field_number, wt);
                write_raw_varint64(&mut os.bytes, b.len() as u64);
                write_bytes_out(&mut os.bytes, b);
                Ok(())
            },
            _ => unreached(),
        },
        ProtoType::Message => match v {
            ReflectValueBox::Message(m) => {
                proof {
                    assert(value_model(*v)->Message_0 == crate::value::msg_model(**m));
                }
                let mut tmp = CodedOutputStream::new();
                match (&**m).write_to_with_cached_sizes(pool, &mut tmp) {
                    Ok(()) => {
                        write_tag(&mut os.bytes, field_number, wt);
                        write_raw_varint64(&mut os.bytes, tmp.bytes.len() as u64);
                        write_bytes_out(&mut os.bytes, &tmp.bytes);
                        Ok(())
                    },
                    Err(e) => Err(e),
                }
            },
            _ => unreached(),
        },
        ProtoType::Group => Err(crate::Error::Unsupported),
    }
}

impl DynamicMessage {
    /// Serializes this message in descriptor order: each set, non-default
    /// singular field and each repeated element as one record.  A map field
    /// or an emitted group value aborts with `Unsupported`.
    pub fn write_to_with_cached_sizes(
        &self,
        pool: &DescriptorPool,
        os: &mut CodedOutputStream,
    ) -> (r: Result<(), crate::Error>)
        requires
            self.descriptor < pool.messages@.len(),
            self.wf(*pool),
            crate::descriptor::pool_wf(*pool),
        ensures
            spec_enc_msg_ok(*pool, self.model()) ==> r is Ok && final(os).bytes@ == old(os).bytes@
                + spec_enc_msg(*pool, self.model()),
            !spec_enc_msg_ok(*pool, self.model()) ==> r == Err::<(), crate::Error>(
                crate::Error::Unsupported,
            ),
        decreases *self, 2int, 0int,
    {
        let desc = &pool.messages[self.descriptor];
        let ghost fds = desc.fields@;
        let ghost cs = self.model().fields;
        let ghost base = os.bytes@;
        proof {
            lemma_cells_model_len(self.fields@);
        }
        let len = self.fields.len();
        let mut i: usize = 0;
        while i < len
            invariant
                i <= len,
                len == self.fields@.len(),
                cs.len() == len,
                cs == self.model().fields,
                fds == desc.fields@,
                desc == pool.messages@[self.descriptor as int],
                self.descriptor < pool.messages@.len(),
                self.wf(*pool),
                crate::descriptor::pool_wf(*pool),
                len <= fds.len(),
                os.bytes@ + spec_enc_fields(*pool, fds, cs, i as int) == base + spec_enc_fields(
                    *pool,
                    fds,
                    cs,
                    0,
                ),
                spec_enc_fields_ok(*pool, fds, cs, 0) == spec_enc_fields_ok(
                    *pool,
                    fds,
                    cs,
                    i as int,
                ),
            decreases *self, 1int, len - i,
        {
            proof {
                lemma_cells_model_len(self.fields@);
                lemma_cells_view_wf_index(*pool, fds, cs, i as int);
                assert(crate::descriptor::field_wf(*pool, fds[i as int]));
            }
            let f = desc.fields[i];
            let ghost bytes_before = os.bytes@;
            match &self.fields[i] {
                DynamicFieldValue::Singular(o) => match &o.value {
                    Option::Some(v) => {
                        if v.is_non_zero() {
                            proof {
                                let cellv = self.fields@[i as int];
                                vstd::std_specs::vec::axiom_vec_index_decreases(
                                    self.fields,
                                    i as int,
                                );
                                assert(decreases_to!(*self => self.fields));
                                assert(decreases_to!(self.fields => cellv));
                                assert(decreases_to!(cellv => cellv->Singular_0.value->Some_0));
                                lemma_compat_of_wf(
                                    *pool,
                                    f.proto_type,
                                    f.type_ref,
                                    value_model(*v),
                                );
                            }
                            match singular_write_to(pool, f.proto_type, f.number, v, os) {
                                Ok(()) => {},
                                Err(e) => {
                                    proof {
                                        assert(cs[i as int] == CellView::Singular(
                                            Option::Some(value_model(*v)),
                                        ));
                                        assert(!spec_enc_value_ok(
                                            *pool,
                                            f.proto_type,
                                            value_model(*v),
                                        ));
                                        assert(!spec_enc_cell_ok(*pool, fds[i as int], cs[i as int]));
                                    }
                                    return Err(e);
                                },
                            }
                        }
                    },
                    Option::None => {},
                },
                DynamicFieldValue::Repeated(rp) => {
                    let k = rp.values.len();
                    let ghost vs = values_model(rp.values@);
                    let ghost rep_base = os.bytes@;
                    proof {
                        lemma_values_model_len(rp.values@);
                        assert(cs[i as int] == CellView::Repeated(vs));
                        assert(fds[i as int] == f);
                    }
                    let mut j: usize = 0;
                    while j < k
                        invariant
                            j <= k,
                            k == rp.values@.len(),
                            vs == values_model(rp.values@),
                            vs.len() == k,
                            i < self.fields@.len(),
                            i < cs.len(),
                            i < fds.len(),
                            self.fields@[i as int] == DynamicFieldValue::Repeated(*rp),
                            cs[i as int] == CellView::Repeated(vs),
                            fds[i as int] == f,
                            cs == self.model().fields,
                            self.descriptor < pool.messages@.len(),
                            fds == pool.messages@[self.descriptor as int].fields@,
                            spec_enc_fields_ok(*pool, fds, cs, 0) == spec_enc_fields_ok(
                                *pool,
                                fds,
                                cs,
                                i as int,
                            ),
                            crate::descriptor::pool_wf(*pool),
                            crate::value::values_view_wf(
                                *pool,
                                crate::descriptor::spec_runtime_type(f.proto_type, f.type_ref),
                                vs,
                            ),
                            1 <= f.number <= MAX_FIELD_NUMBER,
                            os.bytes@ + spec_enc_values(
                                *pool,
                                f.proto_type,
                                f.number,
                                vs,
                                j as int,
                            ) == rep_base + spec_enc_values(*pool, f.proto_type, f.number, vs, 0),
                            spec_enc_values_ok(*pool, f.proto_type, vs, 0) == spec_enc_values_ok(
                                *pool,
                                f.proto_type,
                                vs,
                                j as int,
                            ),
                        decreases *self, 0int, k - j,
                    {
                        proof {
                            lemma_values_model_len(rp.values@);
                            lemma_values_view_wf_index(
                                *pool,
                                crate::descriptor::spec_runtime_type(f.proto_type, f.type_ref),
                                vs,
                                j as int,
                            );
                            let cellv = self.fields@[i as int];
                            let elemv = rp.values@[j as int];
                            vstd::std_specs::vec::axiom_vec_index_decreases(self.fields, i as int);
                            vstd::std_specs::vec::axiom_vec_index_decreases(
                                cellv->Repeated_0.values,
                                j as int,
                            );
                            assert(decreases_to!(*self => self.fields));
                            assert(decreases_to!(self.fields => cellv));
                            assert(decreases_to!(cellv => cellv->Repeated_0.values));
                            assert(decreases_to!(cellv->Repeated_0.values => elemv));
                            lemma_compat_of_wf(
                                *pool,
                                f.proto_type,
                                f.type_ref,
                                vs[j as int],
                            );
                        }
                        match singular_write_to(pool, f.proto_type, f.number, &rp.values[j], os) {
                            Ok(()) => {},
                            Err(e) => {
                                proof {
                                    assert(!spec_enc_value_ok(*pool, f.proto_type, vs[j as int]));
                                    assert(!spec_enc_values_ok(*pool, f.proto_type, vs, j as int));
                                    assert(cs[i as int] == CellView::Repeated(vs));
                                    assert(!spec_enc_cell_ok(*pool, fds[i as int], cs[i as int]));
                                }
                                return Err(e);
                            },
                        }
                        proof {
                            assert(os.bytes@ + spec_enc_values(
                                *pool,
                                f.proto_type,
                                f.number,
                                vs,
                                j + 1,
                            ) =~= rep_base + spec_enc_values(*pool, f.proto_type, f.number, vs, 0));
                        }
                        j = j + 1;
                    }
                    proof {
                        assert(spec_enc_values(*pool, f.proto_type, f.number, vs, k as int)
                            =~= Seq::<u8>::empty());
                        assert(os.bytes@ =~= rep_base + spec_enc_values(
                            *pool,
                            f.proto_type,
                            f.number,
                            vs,
                            0,
                        ));
                    }
                },
                DynamicFieldValue::Keyed(_) => {
                    proof {
                        assert(!spec_enc_cell_ok(*pool, fds[i as int], cs[i as int]));
                    }
                    return Err(crate::Error::Unsupported);
                },
            }
            proof {
                assert(spec_enc_fields(*pool, fds, cs, i as int) == spec_enc_cell(
                    *pool,
                    fds[i as int],
                    cs[i as int],
                ) + spec_enc_fields(*pool, fds, cs, i + 1));
                assert(spec_enc_cell_ok(*pool, fds[i as int], cs[i as int]));
                assert(os.bytes@ =~= bytes_before + spec_enc_cell(*pool, fds[i as int], cs[i as int]));
                assert(os.bytes@ + spec_enc_fields(*pool, fds, cs, i + 1) =~= base
                    + spec_enc_fields(*pool, fds, cs, 0));
            }
            i = i + 1;
        }
        proof {
            assert(spec_enc_fields(*pool, fds, cs, len as int) =~= Seq::<u8>::empty());
            assert(os.bytes@ =~= base + spec_enc_fields(*pool, fds, cs, 0));
            if len == 0 {
                assert(spec_enc_fields(*pool, fds, cs, 0) =~= Seq::<u8>::empty());
            }
        }
        Ok(())
    }

    /// The serialized size of this message, as the encoder would write it.
    /// The cached-size cell is left untouched; callers store the result
    /// there themselves before writing.
    pub fn compute_size(&self, pool: &DescriptorPool) -> (r: u32)
        requires
            self.descriptor < pool.messages@.len(),
            self.wf(*pool),
            crate::descriptor::pool_wf(*pool),
            spec_enc_msg_ok(*pool, self.model()),
            spec_msg_size(*pool, self.model()) < 0x1_0000_0000,
        ensures
            r as int == spec_msg_size(*pool, self.model()),
        decreases *self, 2int, 0int,
    {
        let desc = &pool.messages[self.descriptor];
        let ghost fds = desc.fields@;
        let ghost cs = self.model().fields;
        proof {
            lemma_cells_model_len(self.fields@);
        }
        let len = self.fields.len();
        let mut m_size: u32 = 0;
        let mut i: usize = 0;
        while i < len
            invariant
                i <= len,
                len == self.fields@.len(),
                cs.len() == len,
                cs == self.model().fields,
                fds == desc.fields@,
                desc == pool.messages@[self.descriptor as int],
                self.descriptor < pool.messages@.len(),
                self.wf(*pool),
                crate::descriptor::pool_wf(*pool),
                len <= fds.len(),
                spec_enc_fields_ok(*pool, fds, cs, i as int),
                spec_fields_size(*pool, fds, cs, 0) < 0x1_0000_0000,
                m_size as int + spec_fields_size(*pool, fds, cs, i as int) == spec_fields_size(
                    *pool,
                    fds,
                    cs,
                    0,
                ),
            decreases *self, 1int, len - i,
        {
            proof {
                lemma_cells_model_len(self.fields@);
                lemma_cells_view_wf_index(*pool, fds, cs, i as int);
                assert(crate::descriptor::field_wf(*pool, fds[i as int]));
                lemma_fields_size_nonneg(*pool, fds, cs, i + 1);
                lemma_cell_size_nonneg(*pool, fds[i as int], cs[i as int]);
            }
            let f = desc.fields[i];
            match &self.fields[i] {
                DynamicFieldValue::Singular(o) => match &o.value {
                    Option::Some(v) => {
                        if v.is_non_zero() {
                            proof {
                                let cellv = self.fields@[i as int];
                                vstd::std_specs::vec::axiom_vec_index_decreases(
                                    self.fields,
                                    i as int,
                                );
                                assert(decreases_to!(*self => self.fields));
                                assert(decreases_to!(self.fields => cellv));
                                assert(decreases_to!(cellv => cellv->Singular_0.value->Some_0));
                                lemma_compat_of_wf(
                                    *pool,
                                    f.proto_type,
                                    f.type_ref,
                                    value_model(*v),
                                );
                                assert(cs[i as int] == CellView::Singular(
                                    Option::Some(value_model(*v)),
                                ));
                                assert(spec_enc_cell_ok(*pool, fds[i as int], cs[i as int]));
                                assert(spec_cell_size(*pool, fds[i as int], cs[i as int])
                                    == spec_value_size(
                                    *pool,
                                    f.proto_type,
                                    f.number,
                                    value_model(*v),
                                ));
                            }
                            let sz = compute_singular_size(pool, f.proto_type, f.number, v);
                            m_size = m_size + sz;
                        }
                    },
                    Option::None => {},
                },
                DynamicFieldValue::Repeated(rp) => {
                    let k = rp.values.len();
                    let ghost vs = values_model(rp.values@);
                    proof {
                        lemma_values_model_len(rp.values@);
                        assert(cs[i as int] == CellView::Repeated(vs));
                        assert(spec_enc_cell_ok(*pool, fds[i as int], cs[i as int]));
                        assert(spec_cell_size(*pool, fds[i as int], cs[i as int])
                            == spec_values_size(*pool, f.proto_type, f.number, vs, 0));
                        lemma_values_size_nonneg(*pool, f.proto_type, f.number, vs, 0);
                    }
                    let mut j: usize = 0;
                    while j < k
                        invariant
                            j <= k,
                            k == rp.values@.len(),
                            vs == values_model(rp.values@),
                            vs.len() == k,
                            i < self.fields@.len(),
                            self.fields@[i as int] == DynamicFieldValue::Repeated(*rp),
                            crate::value::values_view_wf(
                                *pool,
                                crate::descriptor::spec_runtime_type(f.proto_type, f.type_ref),
                                vs,
                            ),
                            1 <= f.number <= MAX_FIELD_NUMBER,
                            crate::descriptor::pool_wf(*pool),
                            spec_enc_values_ok(*pool, f.proto_type, vs, j as int),
                            spec_values_size(*pool, f.proto_type, f.number, vs, 0)
                                < 0x1_0000_0000,
                            m_size as int + spec_values_size(
                                *pool,
                                f.proto_type,
                                f.number,
                                vs,
                                j as int,
                            ) <= spec_fields_size(*pool, fds, cs, 0),
                            m_size as int + spec_values_size(
                                *pool,
                                f.proto_type,
                                f.number,
                                vs,
                                j as int,
                            ) + spec_fields_size(*pool, fds, cs, i + 1) == spec_fields_size(
                                *pool,
                                fds,
                                cs,
                                0,
                            ),
                            spec_fields_size(*pool, fds, cs, i + 1) >= 0,
                            spec_fields_size(*pool, fds, cs, 0) < 0x1_0000_0000,
                        decreases *self, 0int, k - j,
                    {
                        proof {
                            lemma_values_model_len(rp.values@);
                            lemma_values_view_wf_index(
                                *pool,
                                crate::descriptor::spec_runtime_type(f.proto_type, f.type_ref),
                                vs,
                                j as int,
                            );
                            lemma_value_size_nonneg(*pool, f.proto_type, f.number, vs[j as int]);
                            lemma_values_size_nonneg(
                                *pool,
                                f.proto_type,
                                f.number,
                                vs,
                                j + 1,
                            );
                            let cellv = self.fields@[i as int];
                            let elemv = rp.values@[j as int];
                            vstd::std_specs::vec::axiom_vec_index_decreases(self.fields, i as int);
                            vstd::std_specs::vec::axiom_vec_index_decreases(
                                cellv->Repeated_0.values,
                                j as int,
                            );
                            assert(decreases_to!(*self => self.fields));
                            assert(decreases_to!(self.fields => cellv));
                            assert(decreases_to!(cellv => cellv->Repeated_0.values));
                            assert(decreases_to!(cellv->Repeated_0.values => elemv));
                            lemma_compat_of_wf(
                                *pool,
                                f.proto_type,
                                f.type_ref,
                                vs[j as int],
                            );
                        }
                        let sz = compute_singular_size(pool, f.proto_type, f.number, &rp.values[j]);
                        m_size = m_size + sz;
                        j = j + 1;
                    }
                },
                DynamicFieldValue::Keyed(_) => {
                    proof {
                        assert(cs[i as int] is Keyed);
                        assert(spec_enc_cell_ok(*pool, fds[i as int], cs[i as int]));
                        assert(false);
                    }
                },
            }
            i = i + 1;
        }
        m_size
    }
}

/// The serialized size of one record, as `write_to` would emit it.
#[verifier::rlimit(100)]
pub fn compute_singular_size(
    pool: &DescriptorPool,
    proto_type: ProtoType,
    field_number: u32,
    v: &ReflectValueBox,
) -> (r: u32)
    requires
        crate::descriptor::pool_wf(*pool),
        1 <= field_number <= MAX_FIELD_NUMBER,
        value_compat(*pool, proto_type, value_model(*v)),
        spec_enc_value_ok(*pool, proto_type, value_model(*v)),
        spec_value_size(*pool, proto_type, field_number, value_model(*v)) < 0x1_0000_0000,
    ensures
        r as int == spec_value_size(*pool, proto_type, field_number, value_model(*v)),
    decreases *v, 0int, 0int,
{
    let wt = exec_wire_type_for(proto_type);
    let tag_len = exec_tag_len(field_number, wt);
    match proto_type {
        ProtoType::Int32 => match v {
            ReflectValueBox::I32(x) => tag_len + raw_varint64_len(exec_u64_from_i64(*x as i64)),
            _ => unreached(),
        },
        ProtoType::Int64 => match v {
            ReflectValueBox::I64(x) => tag_len + raw_varint64_len(exec_u64_from_i64(*x)),
            _ => unreached(),
        },
        ProtoType::Uint32 => match v {
            ReflectValueBox::U32(x) => tag_len + raw_varint64_len(*x as u64),
            _ => unreached(),
        },
        ProtoType::Uint64 => match v {
            ReflectValueBox::U64(x) => tag_len + raw_varint64_len(*x),
            _ => unreached(),
        },
        ProtoType::Sint32 => match v {
            ReflectValueBox::I32(x) => tag_len + raw_varint64_len(exec_zigzag32(*x) as u64),
            _ => unreached(),
        },
        ProtoType::Sint64 => match v {
            ReflectValueBox::I64(x) => tag_len + raw_varint64_len(exec_zigzag64(*x)),
            _ => unreached(),
        },
        ProtoType::Bool => match v {
            ReflectValueBox::Bool(_) => tag_len + 1,
            _ => unreached(),
        },
        ProtoType::Enum => match v {
            ReflectValueBox::Enum(_, n) => tag_len + raw_varint64_len(exec_u64_from_i64(*n as i64)),
            _ => unreached(),
        },
        ProtoType::Fixed32 => match v {
            ReflectValueBox::U32(_) => tag_len + 4,
            _ => unreached(),
        },
        ProtoType::Sfixed32 => match v {
            ReflectValueBox::I32(_) => tag_len + 4,
            _ => unreached(),
        },
        ProtoType::Float => match v {
            ReflectValueBox::F32(_) => tag_len + 4,
            _ => unreached(),
        },
        ProtoType::Fixed64 => match v {
            ReflectValueBox::U64(_) => tag_len + 8,
            _ => unreached(),
        },
        ProtoType::Sfixed64 => match v {
            ReflectValueBox::I64(_) => tag_len + 8,
            _ => unreached(),
        },
        ProtoType::Double => match v {
            ReflectValueBox::F64(_) => tag_len + 8,
            _ => unreached(),
        },
        ProtoType::String => match v {
            ReflectValueBox::String(s) => {
                let l = s.len();
                tag_len + raw_varint64_len(l as u64) + (l as u32)
            },
            _ => unreached(),
        },
        ProtoType::Bytes => match v {
            ReflectValueBox::Bytes(b) => {
                let l = b.len();
                tag_len + raw_varint64_len(l as u64) + (l as u32)
            },
            _ => unreached(),
        },
        ProtoType::Message => match v {
            ReflectValueBox::Message(m) => {
                proof {
                    assert(value_model(*v)->Message_0 == crate::value::msg_model(**m));
                    lemma_msg_size_nonneg(*pool, value_model(*v)->Message_0);
                }
                let child = (&**m).compute_size(pool);
                tag_len + raw_varint64_len(child as u64) + child
            },
            _ => unreached(),
        },
        ProtoType::Group => unreached(),
    }
}

/// Default suppression, encode half: a singular cell whose value equals
/// its type's default contributes no bytes to the wire.
pub proof fn lemma_default_suppression(
    pool: DescriptorPool,
    f: FieldDescriptor,
    v: ValueView,
)
    requires
        !spec_is_non_zero(v),
    ensures
        spec_enc_cell(pool, f, CellView::Singular(Option::Some(v))) == Seq::<u8>::empty(),
        spec_cell_size(pool, f, CellView::Singular(Option::Some(v))) == 0,
{
}

} // verus!
