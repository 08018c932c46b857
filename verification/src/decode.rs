//! Wire-format decoder: a tag loop over a coded input stream, dispatching
//! on field number and wire type, accepting packed and unpacked repeated
//! scalars, guarding recursion, and skipping unknown fields — specified by
//! a recursive spec-level decoder the executable one is proved against.

use vstd::prelude::*;
use vstd::pervasive::unreached;
use crate::descriptor::{
    spec_find_field, spec_runtime_type, DescriptorPool, FieldDescriptor, FieldKind, ProtoType,
};
use crate::message::{
    desc_of, spec_repeated_push, spec_set_field, spec_set_fields_default,
};
use crate::value::{
    value_model, values_model, CellView, DynamicMessage, MessageView, ReflectValueBox, ValueView,
};
use crate::utf8::is_utf8;
use crate::wire::{
    i32_from_u64, i64_from_u64, le32_parse, le64_parse, u32_from_u64, unzigzag32, unzigzag64,
    varint_parse,
};
use crate::Error;

verus! {

/// The recursion budget a fresh stream starts with.
pub const DEFAULT_RECURSION_LIMIT: u32 = 100;

/// A fresh message over pool entry `d`, as the decoder creates one for a
/// nested record.
pub open spec fn spec_fresh_msg(d: int) -> MessageView {
    MessageView { descriptor: d, fields: Seq::empty() }
}

/// Reads one scalar payload of `.proto` type `pt` (anything but a message
/// or group).  Singular decoding never consults the observed wire type:
/// each type reads its own fixed payload shape.
pub open spec fn spec_read_scalar_value(
    pt: ProtoType,
    type_ref: usize,
    data: Seq<u8>,
    pos: int,
    end: int,
) -> Result<(ValueView, int), Error> {
    match pt {
        ProtoType::Int32 => match varint_parse(data, pos, end) {
            Ok((v, p)) => Ok((ValueView::I32(i32_from_u64(v)), p)),
            Err(e) => Err(e),
        },
        ProtoType::Int64 => match varint_parse(data, pos, end) {
            Ok((v, p)) => Ok((ValueView::I64(i64_from_u64(v)), p)),
            Err(e) => Err(e),
        },
        ProtoType::Uint32 => match varint_parse(data, pos, end) {
            Ok((v, p)) => Ok((ValueView::U32(u32_from_u64(v)), p)),
            Err(e) => Err(e),
        },
        ProtoType::Uint64 => match varint_parse(data, pos, end) {
            Ok((v, p)) => Ok((ValueView::U64(v), p)),
            Err(e) => Err(e),
        },
        ProtoType::Sint32 => match varint_parse(data, pos, end) {
            Ok((v, p)) => Ok((ValueView::I32(unzigzag32(u32_from_u64(v))), p)),
            Err(e) => Err(e),
        },
        ProtoType::Sint64 => match varint_parse(data, pos, end) {
            Ok((v, p)) => Ok((ValueView::I64(unzigzag64(v)), p)),
            Err(e) => Err(e),
        },
        ProtoType::Bool => match varint_parse(data, pos, end) {
            Ok((v, p)) => Ok((ValueView::Bool(v != 0), p)),
            Err(e) => Err(e),
        },
        ProtoType::Enum => match varint_parse(data, pos, end) {
            Ok((v, p)) => Ok((ValueView::Enum(type_ref, i32_from_u64(v)), p)),
            Err(e) => Err(e),
        },
        ProtoType::Fixed32 => match le32_parse(data, pos, end) {
            Ok((v, p)) => Ok((ValueView::U32(v), p)),
            Err(e) => Err(e),
        },
        ProtoType::Sfixed32 => match le32_parse(data, pos, end) {
            Ok((v, p)) => Ok((ValueView::I32(i32_from_u64(v as u64)), p)),
            Err(e) => Err(e),
        },
        ProtoType::Float => match le32_parse(data, pos, end) {
            Ok((v, p)) => Ok((ValueView::F32(v), p)),
            Err(e) => Err(e),
        },
        ProtoType::Fixed64 => match le64_parse(data, pos, end) {
            Ok((v, p)) => Ok((ValueView::U64(v), p)),
            Err(e) => Err(e),
        },
        ProtoType::Sfixed64 => match le64_parse(data, pos, end) {
            Ok((v, p)) => Ok((ValueView::I64(i64_from_u64(v)), p)),
            Err(e) => Err(e),
        },
        ProtoType::Double => match le64_parse(data, pos, end) {
            Ok((v, p)) => Ok((ValueView::F64(v), p)),
            Err(e) => Err(e),
        },
        ProtoType::String => match varint_parse(data, pos, end) {
            Ok((len, p)) => if len > (end - p) as u64 {
                Err(Error::Truncated)
            } else {
                let bytes = data.subrange(p, p + len);
                if is_utf8(bytes) {
                    Ok((ValueView::String(bytes), p + len))
                } else {
                    Err(Error::InvalidUtf8)
                }
            },
            Err(e) => Err(e),
        },
        ProtoType::Bytes => match varint_parse(data, pos, end) {
            Ok((len, p)) => if len > (end - p) as u64 {
                Err(Error::Truncated)
            } else {
                Ok((ValueView::Bytes(data.subrange(p, p + len)), p + len))
            },
            Err(e) => Err(e),
        },
        ProtoType::Message => Err(Error::Unsupported),
        ProtoType::Group => Err(Error::Unsupported),
    }
}

/// Skips the payload of an unknown field, by wire-type code: groups cannot
/// be skipped, and codes 6 and 7 are malformed.
pub open spec fn spec_skip_value(wt: u64, data: Seq<u8>, pos: int, end: int) -> Result<int, Error> {
    if wt == 0 {
        match varint_parse(data, pos, end) {
            Ok((_, p)) => Ok(p),
            Err(e) => Err(e),
        }
    } else if wt == 1 {
        if pos + 8 <= end {
            Ok(pos + 8)
        } else {
            Err(Error::Truncated)
        }
    } else if wt == 2 {
        match varint_parse(data, pos, end) {
            Ok((len, p)) => if len > (end - p) as u64 {
                Err(Error::Truncated)
            } else {
                Ok(p + len)
            },
            Err(e) => Err(e),
        }
    } else if wt == 5 {
        if pos + 4 <= end {
            Ok(pos + 4)
        } else {
            Err(Error::Truncated)
        }
    } else if wt == 3 || wt == 4 {
        Err(Error::Unsupported)
    } else {
        Err(Error::Malformed)
    }
}

/// Reads packed scalar elements until `sub_end`.
pub open spec fn spec_read_packed(
    pt: ProtoType,
    type_ref: usize,
    data: Seq<u8>,
    pos: int,
    sub_end: int,
) -> Result<(Seq<ValueView>, int), Error>
    decreases sub_end - pos,
{
    if pos >= sub_end {
        Ok((Seq::empty(), pos))
    } else {
        match spec_read_scalar_value(pt, type_ref, data, pos, sub_end) {
            Err(e) => Err(e),
            Ok((v, p)) => if p > pos && p <= sub_end {
                match spec_read_packed(pt, type_ref, data, p, sub_end) {
                    Err(e) => Err(e),
                    Ok((vs, e)) => Ok((seq![v] + vs, e)),
                }
            } else {
                Err(Error::Malformed)
            },
        }
    }
}

/// The wire-type code a packable scalar's unpacked elements travel under.
pub open spec fn spec_unpacked_wt(pt: ProtoType) -> u64 {
    match pt {
        ProtoType::Float => 5,
        ProtoType::Double => 1,
        ProtoType::Fixed32 => 5,
        ProtoType::Sfixed32 => 5,
        ProtoType::Fixed64 => 1,
        ProtoType::Sfixed64 => 1,
        _ => 0,
    }
}

/// Whether a repeated field of this type dispatches on the observed wire
/// type (the packable scalars); strings, bytes, enums and messages read
/// their fixed shape instead.
pub open spec fn spec_is_packable(pt: ProtoType) -> bool {
    match pt {
        ProtoType::Float => true,
        ProtoType::Double => true,
        ProtoType::Int32 => true,
        ProtoType::Int64 => true,
        ProtoType::Uint32 => true,
        ProtoType::Uint64 => true,
        ProtoType::Fixed32 => true,
        ProtoType::Fixed64 => true,
        ProtoType::Sfixed32 => true,
        ProtoType::Sfixed64 => true,
        ProtoType::Sint32 => true,
        ProtoType::Sint64 => true,
        ProtoType::Bool => true,
        _ => false,
    }
}

/// The message after appending every element of `vs` to repeated field
/// `idx`.
pub open spec fn spec_repeated_push_seq(
    pool: DescriptorPool,
    m: MessageView,
    idx: int,
    vs: Seq<ValueView>,
) -> MessageView {
    let m1 = crate::message::spec_materialize(pool, m);
    match m1.fields[idx] {
        CellView::Repeated(old_vs) => MessageView {
            descriptor: m1.descriptor,
            fields: m1.fields.update(idx, CellView::Repeated(old_vs + vs)),
        },
        _ => m1,
    }
}

/// One field record of a singular field, value read and stored through
/// `set_field` (which clears the field's oneof siblings).
pub open spec fn spec_step_singular(
    pool: DescriptorPool,
    m: MessageView,
    fi: int,
    data: Seq<u8>,
    pos: int,
    end: int,
    depth: int,
    rlimit: int,
) -> Result<(MessageView, int), Error>
    decreases end - pos, 0int,
{
    let f = desc_of(pool, m).fields@[fi];
    match f.proto_type {
        ProtoType::Group => Err(Error::Unsupported),
        ProtoType::Message => match varint_parse(data, pos, end) {
            Err(e) => Err(e),
            Ok((len, p)) => if p <= pos || p > end {
                Err(Error::Malformed)
            } else if len > (end - p) as u64 {
                Err(Error::Truncated)
            } else if depth + 1 > rlimit {
                Err(Error::RecursionLimitExceeded)
            } else {
                match spec_merge_msg(
                    pool,
                    spec_fresh_msg(f.type_ref as int),
                    data,
                    p,
                    p + len,
                    depth + 1,
                    rlimit,
                ) {
                    Err(e) => Err(e),
                    Ok((child, _)) => Ok(
                        (
                            spec_set_field(pool, m, fi, ValueView::Message(child)),
                            p + len,
                        ),
                    ),
                }
            },
        },
        _ => match spec_read_scalar_value(f.proto_type, f.type_ref, data, pos, end) {
            Err(e) => Err(e),
            Ok((v, p)) => Ok((spec_set_field(pool, m, fi, v), p)),
        },
    }
}

/// One field record of a repeated field: packable scalars dispatch on the
/// observed wire type (their own unpacked shape, or a packed run under
/// length delimiting); strings, bytes and enums read their fixed shape;
/// messages recurse under the recursion guard.
pub open spec fn spec_step_repeated(
    pool: DescriptorPool,
    m: MessageView,
    fi: int,
    wt: u64,
    data: Seq<u8>,
    pos: int,
    end: int,
    depth: int,
    rlimit: int,
) -> Result<(MessageView, int), Error>
    decreases end - pos, 0int,
{
    let f = desc_of(pool, m).fields@[fi];
    match f.proto_type {
        ProtoType::Group => Err(Error::Unsupported),
        ProtoType::Message => match varint_parse(data, pos, end) {
            Err(e) => Err(e),
            Ok((len, p)) => if p <= pos || p > end {
                Err(Error::Malformed)
            } else if len > (end - p) as u64 {
                Err(Error::Truncated)
            } else if depth + 1 > rlimit {
                Err(Error::RecursionLimitExceeded)
            } else {
                match spec_merge_msg(
                    pool,
                    spec_fresh_msg(f.type_ref as int),
                    data,
                    p,
                    p + len,
                    depth + 1,
                    rlimit,
                ) {
                    Err(e) => Err(e),
                    Ok((child, _)) => Ok(
                        (
                            spec_repeated_push(pool, m, fi, ValueView::Message(child)),
                            p + len,
                        ),
                    ),
                }
            },
        },
        _ => if spec_is_packable(f.proto_type) {
            if wt == spec_unpacked_wt(f.proto_type) {
                match spec_read_scalar_value(f.proto_type, f.type_ref, data, pos, end) {
                    Err(e) => Err(e),
                    Ok((v, p)) => Ok((spec_repeated_push(pool, m, fi, v), p)),
                }
            } else if wt == 2 {
                match varint_parse(data, pos, end) {
                    Err(e) => Err(e),
                    Ok((len, p)) => if len > (end - p) as u64 {
                        Err(Error::Truncated)
                    } else {
                        match spec_read_packed(f.proto_type, f.type_ref, data, p, p + len) {
                            Err(e) => Err(e),
                            Ok((vs, _)) => Ok((spec_repeated_push_seq(pool, m, fi, vs), p + len)),
                        }
                    },
                }
            } else {
                Err(Error::UnexpectedWireType)
            }
        } else {
            match spec_read_scalar_value(f.proto_type, f.type_ref, data, pos, end) {
                Err(e) => Err(e),
                Ok((v, p)) => Ok((spec_repeated_push(pool, m, fi, v), p)),
            }
        },
    }
}

/// One iteration of the tag loop: read a tag, look the field up, dispatch
/// by its shape; an unknown number skips its payload; a map field consumes
/// only the tag in this revision.
pub open spec fn spec_step(
    pool: DescriptorPool,
    m: MessageView,
    data: Seq<u8>,
    pos: int,
    end: int,
    depth: int,
    rlimit: int,
) -> Result<(MessageView, int), Error>
    decreases end - pos, 1int,
{
    match varint_parse(data, pos, end) {
        Err(e) => Err(e),
        Ok((tagv, p1)) => if p1 <= pos || p1 > end {
            Err(Error::Malformed)
        } else if tagv > u32::MAX as u64 {
            Err(Error::Malformed)
        } else {
            let num = tagv / 8;
            let wt = tagv % 8;
            if num == 0 {
                Err(Error::Malformed)
            } else {
                match spec_find_field(desc_of(pool, m), num as u32) {
                    Option::None => match spec_skip_value(wt, data, p1, end) {
                        Err(e) => Err(e),
                        Ok(p2) => Ok((m, p2)),
                    },
                    Option::Some(fi) => match desc_of(pool, m).fields@[fi].kind {
                        FieldKind::Singular => spec_step_singular(
                            pool,
                            m,
                            fi,
                            data,
                            p1,
                            end,
                            depth,
                            rlimit,
                        ),
                        FieldKind::Repeated => spec_step_repeated(
                            pool,
                            m,
                            fi,
                            wt,
                            data,
                            p1,
                            end,
                            depth,
                            rlimit,
                        ),
                        FieldKind::Keyed(_, _) => Ok((m, p1)),
                    },
                }
            }
        },
    }
}

/// The tag loop itself: step until the end of the current region.
pub open spec fn spec_merge_run(
    pool: DescriptorPool,
    m: MessageView,
    data: Seq<u8>,
    pos: int,
    end: int,
    depth: int,
    rlimit: int,
) -> Result<(MessageView, int), Error>
    decreases end - pos, 2int,
{
    if pos >= end {
        Ok((m, pos))
    } else {
        match spec_step(pool, m, data, pos, end, depth, rlimit) {
            Err(e) => Err(e),
            Ok((m2, p2)) => if p2 > pos && p2 <= end {
                spec_merge_run(pool, m2, data, p2, end, depth, rlimit)
            } else {
                Err(Error::Malformed)
            },
        }
    }
}

/// A whole merge: install proto3 defaults, then run the tag loop over the
/// region `[pos, end)`.
pub open spec fn spec_merge_msg(
    pool: DescriptorPool,
    m: MessageView,
    data: Seq<u8>,
    pos: int,
    end: int,
    depth: int,
    rlimit: int,
) -> Result<(MessageView, int), Error>
    decreases end - pos, 3int,
{
    spec_merge_run(pool, spec_set_fields_default(pool, m), data, pos, end, depth, rlimit)
}

// ----------------------------------------------------------------------------
// Executable stream and readers
// ----------------------------------------------------------------------------

/// The coded input stream the decoder consumes: the whole buffer, a cursor,
/// the current region's end (nested messages narrow it), and the recursion
/// budget.
#[derive(Debug)]
pub struct CodedInputStream {
    pub data: Vec<u8>,
    pub pos: usize,
    pub limit: usize,
    pub recursion_depth: u32,
    pub recursion_limit: u32,
}

impl CodedInputStream {
    /// The cursor sits inside the current region, which sits inside the
    /// buffer.
    pub open spec fn wf(self) -> bool {
        self.pos <= self.limit <= self.data@.len() && self.recursion_depth <= self.recursion_limit
    }

    /// A stream over `data`, at the start, with the default recursion
    /// budget.
    pub fn new(data: Vec<u8>) -> (r: CodedInputStream)
        ensures
            r.data == data,
            r.pos == 0,
            r.limit == data@.len(),
            r.recursion_depth == 0,
            r.recursion_limit == DEFAULT_RECURSION_LIMIT,
            r.wf(),
    {
        let limit = data.len();
        CodedInputStream { data, pos: 0, limit, recursion_depth: 0, recursion_limit: DEFAULT_RECURSION_LIMIT }
    }

    /// Whether the current region is exhausted.
    pub fn eof(&self) -> (r: bool)
        requires
            self.wf(),
        ensures
            r == (self.pos == self.limit),
    {
        self.pos >= self.limit
    }
}

/// Copies `data[start..stop]` out of the buffer.
fn read_bytes_range(data: &Vec<u8>, start: usize, stop: usize) -> (r: Vec<u8>)
    requires
        start <= stop <= data@.len(),
    ensures
        r@ == data@.subrange(start as int, stop as int),
{
    let mut out: Vec<u8> = Vec::new();
    let mut i = start;
    while i < stop
        invariant
            start <= i <= stop,
            stop <= data@.len(),
            out@ == data@.subrange(start as int, i as int),
        decreases stop - i,
    {
        out.push(data[i]);
        proof {
            assert(out@ =~= data@.subrange(start as int, i + 1 as int));
        }
        i = i + 1;
    }
    out
}

/// Reads one scalar payload; exactly the spec-level read, and the value
/// inhabits its runtime type under any pool.
fn read_scalar_value(pt: ProtoType, type_ref: usize, data: &Vec<u8>, pos: usize, end: usize) -> (r:
    Result<(ReflectValueBox, usize), Error>)
    requires
        end <= data@.len(),
        !(pt is Message),
        !(pt is Group),
    ensures
        match spec_read_scalar_value(pt, type_ref, data@, pos as int, end as int) {
            Ok((v, p)) => r is Ok && value_model(r->Ok_0.0) == v && r->Ok_0.1 == p,
            Err(e) => r == Err::<(ReflectValueBox, usize), Error>(e),
        },
        r is Ok ==> pos < r->Ok_0.1 <= end,
        r is Ok ==> forall|pool: DescriptorPool|
            crate::value::value_view_wf(
                pool,
                spec_runtime_type(pt, type_ref),
                value_model(r->Ok_0.0),
            ),
{
    match pt {
        ProtoType::Int32 => match crate::wire::read_raw_varint64(data, pos, end) {
            Ok((v, p)) => {
                proof {
                    crate::wire::lemma_varint_parse_advances(data@, pos as int, end as int);
                }
                Ok((ReflectValueBox::I32(crate::wire::exec_i32_from_u64(v)), p))
            },
            Err(e) => Err(e),
        },
        ProtoType::Int64 => match crate::wire::read_raw_varint64(data, pos, end) {
            Ok((v, p)) => {
                proof {
                    crate::wire::lemma_varint_parse_advances(data@, pos as int, end as int);
                }
                Ok((ReflectValueBox::I64(crate::wire::exec_i64_from_u64(v)), p))
            },
            Err(e) => Err(e),
        },
        ProtoType::Uint32 => match crate::wire::read_raw_varint64(data, pos, end) {
            Ok((v, p)) => {
                proof {
                    crate::wire::lemma_varint_parse_advances(data@, pos as int, end as int);
                }
                Ok((ReflectValueBox::U32(crate::wire::exec_u32_from_u64(v)), p))
            },
            Err(e) => Err(e),
        },
        ProtoType::Uint64 => match crate::wire::read_raw_varint64(data, pos, end) {
            Ok((v, p)) => {
                proof {
                    crate::wire::lemma_varint_parse_advances(data@, pos as int, end as int);
                }
                Ok((ReflectValueBox::U64(v), p))
            },
            Err(e) => Err(e),
        },
        ProtoType::Sint32 => match crate::wire::read_raw_varint64(data, pos, end) {
            Ok((v, p)) => {
                proof {
                    crate::wire::lemma_varint_parse_advances(data@, pos as int, end as int);
                }
                Ok(
                    (
                        ReflectValueBox::I32(
                            crate::wire::exec_unzigzag32(crate::wire::exec_u32_from_u64(v)),
                        ),
                        p,
                    ),
                )
            },
            Err(e) => Err(e),
        },
        ProtoType::Sint64 => match crate::wire::read_raw_varint64(data, pos, end) {
            Ok((v, p)) => {
                proof {
                    crate::wire::lemma_varint_parse_advances(data@, pos as int, end as int);
                }
                Ok((ReflectValueBox::I64(crate::wire::exec_unzigzag64(v)), p))
            },
            Err(e) => Err(e),
        },
        ProtoType::Bool => match crate::wire::read_raw_varint64(data, pos, end) {
            Ok((v, p)) => {
                proof {
                    crate::wire::lemma_varint_parse_advances(data@, pos as int, end as int);
                }
                Ok((ReflectValueBox::Bool(v != 0), p))
            },
            Err(e) => Err(e),
        },
        ProtoType::Enum => match crate::wire::read_raw_varint64(data, pos, end) {
            Ok((v, p)) => {
                proof {
                    crate::wire::lemma_varint_parse_advances(data@, pos as int, end as int);
                }
                Ok((ReflectValueBox::Enum(type_ref, crate::wire::exec_i32_from_u64(v)), p))
            },
            Err(e) => Err(e),
        },
        ProtoType::Fixed32 => match crate::wire::read_raw_le32(data, pos, end) {
            Ok((v, p)) => Ok((ReflectValueBox::U32(v), p)),
            Err(e) => Err(e),
        },
        ProtoType::Sfixed32 => match crate::wire::read_raw_le32(data, pos, end) {
            Ok((v, p)) => Ok((ReflectValueBox::I32(crate::wire::exec_i32_from_u64(v as u64)), p)),
            Err(e) => Err(e),
        },
        ProtoType::Float => match crate::wire::read_raw_le32(data, pos, end) {
            Ok((v, p)) => Ok((ReflectValueBox::F32(v), p)),
            Err(e) => Err(e),
        },
        ProtoType::Fixed64 => match crate::wire::read_raw_le64(data, pos, end) {
            Ok((v, p)) => Ok((ReflectValueBox::U64(v), p)),
            Err(e) => Err(e),
        },
        ProtoType::Sfixed64 => match crate::wire::read_raw_le64(data, pos, end) {
            Ok((v, p)) => Ok((ReflectValueBox::I64(crate::wire::exec_i64_from_u64(v)), p)),
            Err(e) => Err(e),
        },
        ProtoType::Double => match crate::wire::read_raw_le64(data, pos, end) {
            Ok((v, p)) => Ok((ReflectValueBox::F64(v), p)),
            Err(e) => Err(e),
        },
        ProtoType::String => match crate::wire::read_raw_varint64(data, pos, end) {
            Ok((len, p)) => {
                proof {
                    crate::wire::lemma_varint_parse_advances(data@, pos as int, end as int);
                }
                if len > (end - p) as u64 {
                    Err(Error::Truncated)
                } else {
                    let stop = p + (len as usize);
                    let bytes = read_bytes_range(data, p, stop);
                    if crate::utf8::validate_utf8(&bytes) {
                        Ok((ReflectValueBox::String(bytes), stop))
                    } else {
                        Err(Error::InvalidUtf8)
                    }
                }
            },
            Err(e) => Err(e),
        },
        ProtoType::Bytes => match crate::wire::read_raw_varint64(data, pos, end) {
            Ok((len, p)) => {
                proof {
                    crate::wire::lemma_varint_parse_advances(data@, pos as int, end as int);
                }
                if len > (end - p) as u64 {
                    Err(Error::Truncated)
                } else {
                    let stop = p + (len as usize);
                    let bytes = read_bytes_range(data, p, stop);
                    Ok((ReflectValueBox::Bytes(bytes), stop))
                }
            },
            Err(e) => Err(e),
        },
        ProtoType::Message => unreached(),
        ProtoType::Group => unreached(),
    }
}

/// Skips an unknown field's payload; exactly the spec-level skip.
fn skip_value(data: &Vec<u8>, pos: usize, end: usize, wt: u64) -> (r: Result<usize, Error>)
    requires
        end <= data@.len(),
    ensures
        match spec_skip_value(wt, data@, pos as int, end as int) {
            Ok(p) => r is Ok && r->Ok_0 == p,
            Err(e) => r == Err::<usize, Error>(e),
        },
        r is Ok ==> pos < r->Ok_0 <= end,
{
    if wt == 0 {
        match crate::wire::read_raw_varint64(data, pos, end) {
            Ok((_, p)) => {
                proof {
                    crate::wire::lemma_varint_parse_advances(data@, pos as int, end as int);
                }
                Ok(p)
            },
            Err(e) => Err(e),
        }
    } else if wt == 1 {
        if pos < end && end - pos >= 8 {
            Ok(pos + 8)
        } else {
            Err(Error::Truncated)
        }
    } else if wt == 2 {
        match crate::wire::read_raw_varint64(data, pos, end) {
            Ok((len, p)) => {
                proof {
                    crate::wire::lemma_varint_parse_advances(data@, pos as int, end as int);
                }
                if len > (end - p) as u64 {
                    Err(Error::Truncated)
                } else {
                    Ok(p + (len as usize))
                }
            },
            Err(e) => Err(e),
        }
    } else if wt == 5 {
        if pos < end && end - pos >= 4 {
            Ok(pos + 4)
        } else {
            Err(Error::Truncated)
        }
    } else if wt == 3 || wt == 4 {
        Err(Error::Unsupported)
    } else {
        Err(Error::Malformed)
    }
}

/// Prefixes already-read elements onto the remainder of a packed run.
pub open spec fn packed_prepend(vs: Seq<ValueView>, r: Result<(Seq<ValueView>, int), Error>) -> Result<(Seq<ValueView>, int), Error> {
    match r {
        Ok((ws, e)) => Ok((vs + ws, e)),
        Err(e) => Err(e),
    }
}

/// Reads a packed run of scalars until `sub_end`; exactly the spec-level
/// packed read.
#[verifier::rlimit(100)]
fn read_packed(pt: ProtoType, type_ref: usize, data: &Vec<u8>, pos: usize, sub_end: usize) -> (r:
    Result<(Vec<ReflectValueBox>, usize), Error>)
    requires
        sub_end <= data@.len(),
        spec_is_packable(pt),
    ensures
        match spec_read_packed(pt, type_ref, data@, pos as int, sub_end as int) {
            Ok((vs, e)) => r is Ok && values_model(r->Ok_0.0@) == vs && r->Ok_0.1 == e,
            Err(e) => r == Err::<(Vec<ReflectValueBox>, usize), Error>(e),
        },
        r is Ok ==> forall|pool: DescriptorPool|
            crate::value::values_view_wf(
                pool,
                spec_runtime_type(pt, type_ref),
                values_model(r->Ok_0.0@),
            ),
{
    let mut acc: Vec<ReflectValueBox> = Vec::new();
    let mut cur = pos;
    proof {
        crate::value::lemma_values_model_len(acc@);
    }
    while cur < sub_end
        invariant
            cur <= sub_end || cur == pos,
            sub_end <= data@.len(),
            spec_is_packable(pt),
            !(pt is Message),
            !(pt is Group),
            spec_read_packed(pt, type_ref, data@, pos as int, sub_end as int) == packed_prepend(
                values_model(acc@),
                spec_read_packed(pt, type_ref, data@, cur as int, sub_end as int),
            ),
            forall|pool: DescriptorPool|
                crate::value::values_view_wf(
                    pool,
                    spec_runtime_type(pt, type_ref),
                    values_model(acc@),
                ),
        decreases sub_end - cur,
    {
        match read_scalar_value(pt, type_ref, data, cur, sub_end) {
            Err(e) => {
                return Err(e);
            },
            Ok((v, p)) => {
                let ghost prev_vec = acc@;
                let ghost prev_models = values_model(acc@);
                acc.push(v);
                proof {
                    crate::message::lemma_values_model_push(prev_vec, v);
                    assert(values_model(acc@) == prev_models.push(value_model(v)));
                    let rest = spec_read_packed(pt, type_ref, data@, p as int, sub_end as int);
                    match rest {
                        Ok((ws, e)) => {
                            assert((prev_models + seq![value_model(v)]) + ws =~= prev_models + (
                            seq![value_model(v)] + ws));
                            assert(prev_models.push(value_model(v)) =~= prev_models + seq![
                                value_model(v),
                            ]);
                        },
                        Err(_) => {},
                    }
                    assert forall|pool: DescriptorPool|
                        crate::value::values_view_wf(
                            pool,
                            spec_runtime_type(pt, type_ref),
                            values_model(acc@),
                        ) by {
                        crate::value::lemma_values_view_wf_push(
                            pool,
                            spec_runtime_type(pt, type_ref),
                            prev_models,
                            value_model(v),
                        );
                    }
                }
                cur = p;
            },
        }
    }
    proof {
        assert(values_model(acc@) + Seq::<ValueView>::empty() =~= values_model(acc@));
    }
    Ok((acc, cur))
}

/// A successful run of the tag loop always consumes its region exactly.
pub proof fn lemma_merge_run_end(
    pool: DescriptorPool,
    m: MessageView,
    data: Seq<u8>,
    pos: int,
    end: int,
    depth: int,
    rlimit: int,
)
    requires
        pos <= end,
        spec_merge_run(pool, m, data, pos, end, depth, rlimit) is Ok,
    ensures
        spec_merge_run(pool, m, data, pos, end, depth, rlimit)->Ok_0.1 == end,
    decreases end - pos,
{
    if pos >= end {
    } else {
        match spec_step(pool, m, data, pos, end, depth, rlimit) {
            Err(_) => {},
            Ok((m2, p2)) => {
                lemma_merge_run_end(pool, m2, data, p2, end, depth, rlimit);
            },
        }
    }
}

/// A pointwise-well-formed value sequence is well formed.
pub proof fn lemma_values_view_wf_pointwise(
    pool: DescriptorPool,
    t: crate::descriptor::RuntimeTypeBox,
    vs: Seq<ValueView>,
)
    requires
        forall|i: int| 0 <= i < vs.len() ==> crate::value::value_view_wf(pool, t, #[trigger] vs[i]),
    ensures
        crate::value::values_view_wf(pool, t, vs),
    decreases vs,
{
    if vs.len() > 0 {
        assert forall|i: int| 0 <= i < vs.drop_last().len() implies crate::value::value_view_wf(
            pool,
            t,
            #[trigger] vs.drop_last()[i],
        ) by {
            assert(vs.drop_last()[i] == vs[i]);
        }
        lemma_values_view_wf_pointwise(pool, t, vs.drop_last());
        assert(vs.last() == vs[vs.len() - 1]);
    }
}

/// One push peeled off a sequence of pushes into a repeated field.
proof fn lemma_push_seq_step(pool: DescriptorPool, m: MessageView, idx: int, vs: Seq<ValueView>)
    requires
        vs.len() > 0,
        crate::value::msg_view_wf(pool, m),
        0 <= idx < desc_of(pool, m).fields@.len(),
        desc_of(pool, m).fields@[idx].spec_runtime_field_type() is Repeated,
    ensures
        spec_repeated_push_seq(pool, m, idx, vs) == spec_repeated_push_seq(
            pool,
            spec_repeated_push(pool, m, idx, vs[0]),
            idx,
            vs.drop_first(),
        ),
{
    let m1 = crate::message::spec_materialize(pool, m);
    crate::message::lemma_materialize_wf(pool, m);
    crate::value::lemma_cells_view_wf_index(pool, desc_of(pool, m).fields@, m1.fields, idx);
    let old_vs = m1.fields[idx]->Repeated_0;
    let m2 = spec_repeated_push(pool, m, idx, vs[0]);
    assert(m2.fields.len() == m1.fields.len());
    assert(crate::message::spec_materialize(pool, m2) == m2);
    assert(m2.fields[idx] == CellView::Repeated(old_vs.push(vs[0])));
    let lhs = spec_repeated_push_seq(pool, m, idx, vs);
    let rhs = spec_repeated_push_seq(pool, m2, idx, vs.drop_first());
    assert(old_vs.push(vs[0]) + vs.drop_first() =~= old_vs + vs) by {
        assert(seq![vs[0]] + vs.drop_first() =~= vs);
        assert(old_vs.push(vs[0]) =~= old_vs + seq![vs[0]]);
        assert((old_vs + seq![vs[0]]) + vs.drop_first() =~= old_vs + (seq![vs[0]]
            + vs.drop_first()));
    }
    assert(rhs.fields =~= lhs.fields) by {
        assert(rhs.fields == m2.fields.update(
            idx,
            CellView::Repeated(old_vs.push(vs[0]) + vs.drop_first()),
        ));
        assert(lhs.fields == m1.fields.update(idx, CellView::Repeated(old_vs + vs)));
        assert forall|j: int| 0 <= j < lhs.fields.len() implies rhs.fields[j] == lhs.fields[j] by {
            if j != idx {
                assert(m2.fields[j] == m1.fields[j]);
            }
        }
    }
}

/// Round trip, one record: decoding one step of exactly the bytes the
/// encoder emits for a set singular scalar field (any `.proto` type but
/// message and group) stores the encoded value back through `set_field`
/// and consumes the record.  With the decoder's functional contract this
/// extends pointwise to whole scalar messages; message-valued fields are
/// not covered here.
pub proof fn lemma_scalar_record_round_trip(
    pool: DescriptorPool,
    m: MessageView,
    fi: int,
    v: ValueView,
    data: Seq<u8>,
    pos: int,
    end: int,
    depth: int,
    rlimit: int,
)
    requires
        0 <= fi < desc_of(pool, m).fields@.len(),
        desc_of(pool, m).fields@[fi].kind is Singular,
        !(desc_of(pool, m).fields@[fi].proto_type is Message),
        !(desc_of(pool, m).fields@[fi].proto_type is Group),
        1 <= desc_of(pool, m).fields@[fi].number <= crate::wire::MAX_FIELD_NUMBER,
        spec_find_field(desc_of(pool, m), desc_of(pool, m).fields@[fi].number) == Option::Some(fi),
        crate::value::value_view_wf(
            pool,
            spec_runtime_type(
                desc_of(pool, m).fields@[fi].proto_type,
                desc_of(pool, m).fields@[fi].type_ref,
            ),
            v,
        ),
        0 <= pos,
        end <= usize::MAX as int,
        pos + spec_enc_value_at(pool, m, fi, v).len() <= end <= data.len(),
        data.subrange(pos, pos + spec_enc_value_at(pool, m, fi, v).len()) == spec_enc_value_at(
            pool,
            m,
            fi,
            v,
        ),
    ensures
        spec_step(pool, m, data, pos, end, depth, rlimit) == Ok::<(MessageView, int), Error>(
            (
                spec_set_field(pool, m, fi, v),
                pos + spec_enc_value_at(pool, m, fi, v).len(),
            ),
        ),
{
    let f = desc_of(pool, m).fields@[fi];
    let pt = f.proto_type;
    let num = f.number;
    let wt = crate::encode::wire_type_for(pt);
    let enc = spec_enc_value_at(pool, m, fi, v);
    let tagb = crate::wire::tag_encode(num, wt);
    let tagval = (8 * (num as u64) + crate::wire::wire_type_code(wt)) as u64;
    let payload = enc.skip(tagb.len() as int);
    assert(enc == tagb + payload) by {
        reveal_with_fuel(crate::encode::spec_enc_value, 1);
        assert(enc =~= tagb + payload);
    }
    crate::wire::lemma_varint_encode_len(tagval);
    assert(data.subrange(pos, pos + tagb.len()) =~= tagb) by {
        assert forall|i: int| 0 <= i < tagb.len() implies data.subrange(pos, pos + tagb.len())[i]
            == tagb[i] by {
            assert(data.subrange(pos, pos + enc.len())[i] == enc[i]);
            assert(enc[i] == (tagb + payload)[i]);
        }
    }
    crate::wire::lemma_varint_round_trip(data, pos, end, tagval);
    let p1 = pos + tagb.len();
    assert(varint_parse(data, pos, end) == Ok::<(u64, int), Error>((tagval, p1)));
    assert(tagval / 8 == num && tagval % 8 == crate::wire::wire_type_code(wt)) by (nonlinear_arith)
        requires
            tagval == 8 * (num as u64) + crate::wire::wire_type_code(wt),
            crate::wire::wire_type_code(wt) < 8,
    ;
    assert(tagval <= u32::MAX as u64);
    assert(data.subrange(p1, p1 + payload.len()) =~= payload) by {
        assert forall|i: int| 0 <= i < payload.len() implies data.subrange(
            p1,
            p1 + payload.len(),
        )[i] == payload[i] by {
            assert(data.subrange(pos, pos + enc.len())[i + tagb.len()] == enc[i + tagb.len()]);
            assert(enc[i + tagb.len()] == (tagb + payload)[i + tagb.len()]);
        }
    }
    lemma_scalar_payload_reads_back(pool, f, v, data, p1, end);
    assert(spec_read_scalar_value(pt, f.type_ref, data, p1, end) == Ok::<(ValueView, int), Error>(
        (v, p1 + payload.len()),
    ));
}

/// The payload the encoder writes for one scalar value reads back as that
/// value.
#[verifier::rlimit(100)]
proof fn lemma_scalar_payload_reads_back(
    pool: DescriptorPool,
    f: FieldDescriptor,
    v: ValueView,
    data: Seq<u8>,
    p1: int,
    end: int,
)
    requires
        !(f.proto_type is Message),
        !(f.proto_type is Group),
        crate::value::value_view_wf(pool, spec_runtime_type(f.proto_type, f.type_ref), v),
        0 <= p1,
        end <= usize::MAX as int,
        p1 + payload_of(pool, f, v).len() <= end <= data.len(),
        data.subrange(p1, p1 + payload_of(pool, f, v).len()) == payload_of(pool, f, v),
    ensures
        spec_read_scalar_value(f.proto_type, f.type_ref, data, p1, end) == Ok::<
            (ValueView, int),
            Error,
        >((v, p1 + payload_of(pool, f, v).len())),
{
    match f.proto_type {
        ProtoType::Fixed32 => lemma_wide_payload_reads_back(pool, f, v, data, p1, end),
        ProtoType::Sfixed32 => lemma_wide_payload_reads_back(pool, f, v, data, p1, end),
        ProtoType::Float => lemma_wide_payload_reads_back(pool, f, v, data, p1, end),
        ProtoType::Fixed64 => lemma_wide_payload_reads_back(pool, f, v, data, p1, end),
        ProtoType::Sfixed64 => lemma_wide_payload_reads_back(pool, f, v, data, p1, end),
        ProtoType::Double => lemma_wide_payload_reads_back(pool, f, v, data, p1, end),
        ProtoType::String => lemma_wide_payload_reads_back(pool, f, v, data, p1, end),
        ProtoType::Bytes => lemma_wide_payload_reads_back(pool, f, v, data, p1, end),
        _ => lemma_varint_payload_reads_back(pool, f, v, data, p1, end),
    }
}

#[verifier::rlimit(100)]
proof fn lemma_varint_payload_reads_back(
    pool: DescriptorPool,
    f: FieldDescriptor,
    v: ValueView,
    data: Seq<u8>,
    p1: int,
    end: int,
)
    requires
        f.proto_type is Int32 || f.proto_type is Int64 || f.proto_type is Uint32 || f.proto_type
            is Uint64 || f.proto_type is Sint32 || f.proto_type is Sint64 || f.proto_type is Bool
            || f.proto_type is Enum,
        !(f.proto_type is Message),
        !(f.proto_type is Group),
        crate::value::value_view_wf(pool, spec_runtime_type(f.proto_type, f.type_ref), v),
        0 <= p1,
        end <= usize::MAX as int,
        p1 + payload_of(pool, f, v).len() <= end <= data.len(),
        data.subrange(p1, p1 + payload_of(pool, f, v).len()) == payload_of(pool, f, v),
    ensures
        spec_read_scalar_value(f.proto_type, f.type_ref, data, p1, end) == Ok::<
            (ValueView, int),
            Error,
        >((v, p1 + payload_of(pool, f, v).len())),
{
    let pt = f.proto_type;
    let payload = payload_of(pool, f, v);
    match pt {
        ProtoType::Int32 => {
            let x = v->I32_0;
            assert(payload =~= crate::wire::varint_encode(crate::wire::u64_from_i64(x as i64)));
            crate::wire::lemma_varint_round_trip(data, p1, end, crate::wire::u64_from_i64(x as i64));
            crate::wire::lemma_i32_sign_extend_round_trip(x);
        },
        ProtoType::Int64 => {
            let x = v->I64_0;
            assert(payload =~= crate::wire::varint_encode(crate::wire::u64_from_i64(x)));
            crate::wire::lemma_varint_round_trip(data, p1, end, crate::wire::u64_from_i64(x));
            crate::wire::lemma_i64_bits_round_trip(x);
        },
        ProtoType::Uint32 => {
            let x = v->U32_0;
            assert(payload =~= crate::wire::varint_encode(x as u64));
            crate::wire::lemma_varint_round_trip(data, p1, end, x as u64);
            assert(crate::wire::u32_from_u64(x as u64) == x);
        },
        ProtoType::Uint64 => {
            assert(payload =~= crate::wire::varint_encode(v->U64_0));
            crate::wire::lemma_varint_round_trip(data, p1, end, v->U64_0);
        },
        ProtoType::Sint32 => {
            let x = v->I32_0;
            assert(payload =~= crate::wire::varint_encode(crate::wire::zigzag32(x) as u64));
            crate::wire::lemma_varint_round_trip(
                data,
                p1,
                end,
                crate::wire::zigzag32(x) as u64,
            );
            assert(crate::wire::u32_from_u64(crate::wire::zigzag32(x) as u64)
                == crate::wire::zigzag32(x));
            crate::wire::lemma_zigzag32_round_trip(x);
        },
        ProtoType::Sint64 => {
            let x = v->I64_0;
            assert(payload =~= crate::wire::varint_encode(crate::wire::zigzag64(x)));
            crate::wire::lemma_varint_round_trip(data, p1, end, crate::wire::zigzag64(x));
            crate::wire::lemma_zigzag64_round_trip(x);
        },
        ProtoType::Bool => {
            let b = v->Bool_0;
            assert(payload =~= crate::wire::varint_encode(if b { 1u64 } else { 0u64 }));
            crate::wire::lemma_varint_round_trip(data, p1, end, if b { 1u64 } else { 0u64 });
        },
        ProtoType::Enum => {
            let n = v->Enum_1;
            assert(payload =~= crate::wire::varint_encode(crate::wire::u64_from_i64(n as i64)));
            crate::wire::lemma_varint_round_trip(data, p1, end, crate::wire::u64_from_i64(n as i64));
            crate::wire::lemma_i32_sign_extend_round_trip(n);
        },
        _ => {},
    }
}

#[verifier::rlimit(100)]
proof fn lemma_wide_payload_reads_back(
    pool: DescriptorPool,
    f: FieldDescriptor,
    v: ValueView,
    data: Seq<u8>,
    p1: int,
    end: int,
)
    requires
        f.proto_type is Fixed32 || f.proto_type is Sfixed32 || f.proto_type is Float
            || f.proto_type is Fixed64 || f.proto_type is Sfixed64 || f.proto_type is Double
            || f.proto_type is String || f.proto_type is Bytes,
        !(f.proto_type is Message),
        !(f.proto_type is Group),
        crate::value::value_view_wf(pool, spec_runtime_type(f.proto_type, f.type_ref), v),
        0 <= p1,
        end <= usize::MAX as int,
        p1 + payload_of(pool, f, v).len() <= end <= data.len(),
        data.subrange(p1, p1 + payload_of(pool, f, v).len()) == payload_of(pool, f, v),
    ensures
        spec_read_scalar_value(f.proto_type, f.type_ref, data, p1, end) == Ok::<
            (ValueView, int),
            Error,
        >((v, p1 + payload_of(pool, f, v).len())),
{
    match f.proto_type {
        ProtoType::String => lemma_ld_payload_reads_back(pool, f, v, data, p1, end),
        ProtoType::Bytes => lemma_ld_payload_reads_back(pool, f, v, data, p1, end),
        _ => lemma_fixed_payload_reads_back(pool, f, v, data, p1, end),
    }
}

#[verifier::rlimit(100)]
proof fn lemma_fixed_payload_reads_back(
    pool: DescriptorPool,
    f: FieldDescriptor,
    v: ValueView,
    data: Seq<u8>,
    p1: int,
    end: int,
)
    requires
        f.proto_type is Fixed32 || f.proto_type is Sfixed32 || f.proto_type is Float
            || f.proto_type is Fixed64 || f.proto_type is Sfixed64 || f.proto_type is Double,
        !(f.proto_type is Message),
        !(f.proto_type is Group),
        crate::value::value_view_wf(pool, spec_runtime_type(f.proto_type, f.type_ref), v),
        0 <= p1,
        end <= usize::MAX as int,
        p1 + payload_of(pool, f, v).len() <= end <= data.len(),
        data.subrange(p1, p1 + payload_of(pool, f, v).len()) == payload_of(pool, f, v),
    ensures
        spec_read_scalar_value(f.proto_type, f.type_ref, data, p1, end) == Ok::<
            (ValueView, int),
            Error,
        >((v, p1 + payload_of(pool, f, v).len())),
{
    let pt = f.proto_type;
    let payload = payload_of(pool, f, v);
    match pt {
        ProtoType::Fixed32 => {
            assert(payload =~= crate::wire::le32_encode(v->U32_0));
            crate::wire::lemma_le32_round_trip(data, p1, end, v->U32_0);
        },
        ProtoType::Sfixed32 => {
            let x = v->I32_0;
            assert(payload =~= crate::wire::le32_encode(crate::wire::u32_from_i32(x)));
            crate::wire::lemma_le32_round_trip(data, p1, end, crate::wire::u32_from_i32(x));
            assert(crate::wire::i32_from_u64(crate::wire::u32_from_i32(x) as u64) == x);
        },
        ProtoType::Float => {
            assert(payload =~= crate::wire::le32_encode(v->F32_0));
            crate::wire::lemma_le32_round_trip(data, p1, end, v->F32_0);
        },
        ProtoType::Fixed64 => {
            assert(payload =~= crate::wire::le64_encode(v->U64_0));
            crate::wire::lemma_le64_round_trip(data, p1, end, v->U64_0);
        },
        ProtoType::Sfixed64 => {
            let x = v->I64_0;
            assert(payload =~= crate::wire::le64_encode(crate::wire::u64_from_i64(x)));
            crate::wire::lemma_le64_round_trip(data, p1, end, crate::wire::u64_from_i64(x));
            crate::wire::lemma_i64_bits_round_trip(x);
        },
        ProtoType::Double => {
            assert(payload =~= crate::wire::le64_encode(v->F64_0));
            crate::wire::lemma_le64_round_trip(data, p1, end, v->F64_0);
        },
        _ => {},
    }
}

#[verifier::rlimit(100)]
proof fn lemma_ld_payload_reads_back(
    pool: DescriptorPool,
    f: FieldDescriptor,
    v: ValueView,
    data: Seq<u8>,
    p1: int,
    end: int,
)
    requires
        f.proto_type is String || f.proto_type is Bytes,
        !(f.proto_type is Message),
        !(f.proto_type is Group),
        crate::value::value_view_wf(pool, spec_runtime_type(f.proto_type, f.type_ref), v),
        0 <= p1,
        end <= usize::MAX as int,
        p1 + payload_of(pool, f, v).len() <= end <= data.len(),
        data.subrange(p1, p1 + payload_of(pool, f, v).len()) == payload_of(pool, f, v),
    ensures
        spec_read_scalar_value(f.proto_type, f.type_ref, data, p1, end) == Ok::<
            (ValueView, int),
            Error,
        >((v, p1 + payload_of(pool, f, v).len())),
{
    let pt = f.proto_type;
    let payload = payload_of(pool, f, v);
    match pt {
        ProtoType::String => {
            let s = v->String_0;
            let lenb = crate::wire::varint_encode(s.len() as u64);
            assert(payload =~= lenb + s);
            assert(data.subrange(p1, p1 + lenb.len()) =~= lenb) by {
                assert forall|i: int| 0 <= i < lenb.len() implies data.subrange(
                    p1,
                    p1 + lenb.len(),
                )[i] == lenb[i] by {
                    assert(data.subrange(p1, p1 + payload.len())[i] == payload[i]);
                }
            }
            crate::wire::lemma_varint_round_trip(data, p1, end, s.len() as u64);
            let p2 = p1 + lenb.len();
            assert(data.subrange(p2, p2 + s.len()) =~= s) by {
                assert forall|i: int| 0 <= i < s.len() implies data.subrange(p2, p2 + s.len())[i]
                    == s[i] by {
                    assert(data.subrange(p1, p1 + payload.len())[i + lenb.len()] == payload[i
                        + lenb.len()]);
                }
            }
        },
        ProtoType::Bytes => {
            let b = v->Bytes_0;
            let lenb = crate::wire::varint_encode(b.len() as u64);
            assert(payload =~= lenb + b);
            assert(data.subrange(p1, p1 + lenb.len()) =~= lenb) by {
                assert forall|i: int| 0 <= i < lenb.len() implies data.subrange(
                    p1,
                    p1 + lenb.len(),
                )[i] == lenb[i] by {
                    assert(data.subrange(p1, p1 + payload.len())[i] == payload[i]);
                }
            }
            crate::wire::lemma_varint_round_trip(data, p1, end, b.len() as u64);
            let p2 = p1 + lenb.len();
            assert(data.subrange(p2, p2 + b.len()) =~= b) by {
                assert forall|i: int| 0 <= i < b.len() implies data.subrange(p2, p2 + b.len())[i]
                    == b[i] by {
                    assert(data.subrange(p1, p1 + payload.len())[i + lenb.len()] == payload[i
                        + lenb.len()]);
                }
            }
        },
        _ => {},
    }
}

/// The concatenated payloads of elements `i..` of a packed run.
pub open spec fn packed_payloads(
    pool: DescriptorPool,
    f: FieldDescriptor,
    vs: Seq<ValueView>,
    i: int,
) -> Seq<u8>
    decreases vs.len() - i,
{
    if i < 0 || i >= vs.len() {
        Seq::empty()
    } else {
        payload_of(pool, f, vs[i]) + packed_payloads(pool, f, vs, i + 1)
    }
}

/// Packed acceptance, element level: a length-delimited run holding the
/// concatenated payloads of `vs` decodes to exactly `vs` — the same
/// sequence that reading the elements as separate unpacked records yields,
/// one `spec_read_scalar_value` at a time.
pub proof fn lemma_packed_run_reads_all(
    pool: DescriptorPool,
    f: FieldDescriptor,
    vs: Seq<ValueView>,
    data: Seq<u8>,
    pos: int,
    sub_end: int,
)
    requires
        spec_is_packable(f.proto_type),
        forall|j: int| 0 <= j < vs.len() ==> crate::value::value_view_wf(
            pool,
            spec_runtime_type(f.proto_type, f.type_ref),
            #[trigger] vs[j],
        ),
        0 <= pos,
        sub_end <= usize::MAX as int,
        sub_end <= data.len(),
        pos + packed_payloads(pool, f, vs, 0).len() == sub_end,
        data.subrange(pos, sub_end) == packed_payloads(pool, f, vs, 0),
    ensures
        spec_read_packed(f.proto_type, f.type_ref, data, pos, sub_end) == Ok::<
            (Seq<ValueView>, int),
            Error,
        >((vs, sub_end)),
{
    lemma_packed_run_reads_from(pool, f, vs, 0, data, pos, sub_end);
    assert(vs.skip(0) =~= vs);
}

proof fn lemma_packed_run_reads_from(
    pool: DescriptorPool,
    f: FieldDescriptor,
    vs: Seq<ValueView>,
    i: int,
    data: Seq<u8>,
    pos: int,
    sub_end: int,
)
    requires
        spec_is_packable(f.proto_type),
        0 <= i <= vs.len(),
        forall|j: int| i <= j < vs.len() ==> crate::value::value_view_wf(
            pool,
            spec_runtime_type(f.proto_type, f.type_ref),
            #[trigger] vs[j],
        ),
        0 <= pos,
        sub_end <= usize::MAX as int,
        sub_end <= data.len(),
        pos + packed_payloads(pool, f, vs, i).len() == sub_end,
        data.subrange(pos, sub_end) == packed_payloads(pool, f, vs, i),
    ensures
        spec_read_packed(f.proto_type, f.type_ref, data, pos, sub_end) == Ok::<
            (Seq<ValueView>, int),
            Error,
        >((vs.skip(i), sub_end)),
    decreases vs.len() - i,
{
    let pt = f.proto_type;
    if i == vs.len() {
        assert(packed_payloads(pool, f, vs, i).len() == 0);
        assert(vs.skip(i) =~= Seq::<ValueView>::empty());
    } else {
        let v0 = vs[i];
        let pl = payload_of(pool, f, v0);
        let rest = packed_payloads(pool, f, vs, i + 1);
        assert(data.subrange(pos, pos + pl.len()) =~= pl) by {
            assert forall|k: int| 0 <= k < pl.len() implies data.subrange(pos, pos + pl.len())[k]
                == pl[k] by {
                assert(data.subrange(pos, sub_end)[k] == packed_payloads(pool, f, vs, i)[k]);
                assert(packed_payloads(pool, f, vs, i)[k] == (pl + rest)[k]);
            }
        }
        lemma_scalar_payload_reads_back(pool, f, v0, data, pos, sub_end);
        let p = pos + pl.len();
        assert(pos < p) by {
            match pt {
                ProtoType::Int32 => {
                    crate::wire::lemma_varint_encode_len(
                        crate::wire::u64_from_i64(v0->I32_0 as i64),
                    );
                },
                ProtoType::Int64 => {
                    crate::wire::lemma_varint_encode_len(crate::wire::u64_from_i64(v0->I64_0));
                },
                ProtoType::Uint32 => {
                    crate::wire::lemma_varint_encode_len(v0->U32_0 as u64);
                },
                ProtoType::Uint64 => {
                    crate::wire::lemma_varint_encode_len(v0->U64_0);
                },
                ProtoType::Sint32 => {
                    crate::wire::lemma_varint_encode_len(crate::wire::zigzag32(v0->I32_0) as u64);
                },
                ProtoType::Sint64 => {
                    crate::wire::lemma_varint_encode_len(crate::wire::zigzag64(v0->I64_0));
                },
                ProtoType::Bool => {
                    crate::wire::lemma_varint_encode_len(
                        if v0->Bool_0 {
                            1u64
                        } else {
                            0u64
                        },
                    );
                },
                _ => {},
            }
        }
        assert(data.subrange(p, sub_end) =~= rest) by {
            assert forall|k: int| 0 <= k < rest.len() implies data.subrange(p, sub_end)[k]
                == rest[k] by {
                assert(data.subrange(pos, sub_end)[k + pl.len()] == packed_payloads(
                    pool,
                    f,
                    vs,
                    i,
                )[k + pl.len()]);
                assert(packed_payloads(pool, f, vs, i)[k + pl.len()] == (pl + rest)[k + pl.len()]);
            }
        }
        lemma_packed_run_reads_from(pool, f, vs, i + 1, data, p, sub_end);
        assert(seq![v0] + vs.skip(i + 1) =~= vs.skip(i));
    }
}

/// The record the encoder writes for field `fi` of `m` holding `v`.
pub open spec fn spec_enc_value_at(
    pool: DescriptorPool,
    m: MessageView,
    fi: int,
    v: ValueView,
) -> Seq<u8> {
    crate::encode::spec_enc_value(
        pool,
        desc_of(pool, m).fields@[fi].proto_type,
        desc_of(pool, m).fields@[fi].number,
        v,
    )
}

/// The payload part of one record: the record minus its tag.
pub open spec fn payload_of(pool: DescriptorPool, f: FieldDescriptor, v: ValueView) -> Seq<u8> {
    crate::encode::spec_enc_value(pool, f.proto_type, f.number, v).skip(
        crate::wire::tag_encode(f.number, crate::encode::wire_type_for(f.proto_type)).len() as int,
    )
}

fn exec_is_packable(pt: ProtoType) -> (r: bool)
    ensures
        r == spec_is_packable(pt),
{
    match pt {
        ProtoType::Float => true,
        ProtoType::Double => true,
        ProtoType::Int32 => true,
        ProtoType::Int64 => true,
        ProtoType::Uint32 => true,
        ProtoType::Uint64 => true,
        ProtoType::Fixed32 => true,
        ProtoType::Fixed64 => true,
        ProtoType::Sfixed32 => true,
        ProtoType::Sfixed64 => true,
        ProtoType::Sint32 => true,
        ProtoType::Sint64 => true,
        ProtoType::Bool => true,
        _ => false,
    }
}

fn exec_unpacked_wt(pt: ProtoType) -> (r: u64)
    ensures
        r == spec_unpacked_wt(pt),
{
    match pt {
        ProtoType::Float => 5,
        ProtoType::Double => 1,
        ProtoType::Fixed32 => 5,
        ProtoType::Sfixed32 => 5,
        ProtoType::Fixed64 => 1,
        ProtoType::Sfixed64 => 1,
        _ => 0,
    }
}

impl DynamicMessage {
    /// One singular field record, stored through `set_field`.
    #[verifier::rlimit(100)]
    fn merge_step_singular(
        &mut self,
        is: &mut CodedInputStream,
        pool: &DescriptorPool,
        fi: usize,
    ) -> (r: Result<(), Error>)
        requires
            old(is).wf(),
            crate::descriptor::pool_wf(*pool),
            old(self).descriptor < pool.messages@.len(),
            old(self).wf(*pool),
            fi < pool.messages@[old(self).descriptor as int].fields@.len(),
            pool.messages@[old(self).descriptor as int].fields@[fi as int].kind is Singular,
        ensures
            final(is).data == old(is).data,
            final(is).limit == old(is).limit,
            final(is).recursion_depth == old(is).recursion_depth,
            final(is).recursion_limit == old(is).recursion_limit,
            final(is).wf(),
            final(self).descriptor == old(self).descriptor,
            final(self).wf(*pool),
            match spec_step_singular(
                *pool,
                old(self).model(),
                fi as int,
                old(is).data@,
                old(is).pos as int,
                old(is).limit as int,
                old(is).recursion_depth as int,
                old(is).recursion_limit as int,
            ) {
                Ok((m2, p2)) => r is Ok && final(self).model() == m2 && final(is).pos == p2,
                Err(e) => r == Err::<(), Error>(e),
            },
            r is Ok ==> old(is).pos < final(is).pos <= old(is).limit,
        decreases
                is.recursion_limit - is.recursion_depth,
                is.limit - is.pos,
                0int,
    {
        let ghost m0 = self.model();
        let f = pool.messages[self.descriptor].fields[fi];
        proof {
            assert(crate::descriptor::field_wf(
                *pool,
                pool.messages@[self.descriptor as int].fields@[fi as int],
            ));
        }
        match f.proto_type {
            ProtoType::Group => Err(Error::Unsupported),
            ProtoType::Message => {
                match crate::wire::read_raw_varint64(&is.data, is.pos, is.limit) {
                    Err(e) => Err(e),
                    Ok((len64, p)) => {
                        proof {
                            crate::wire::lemma_varint_parse_advances(
                                is.data@,
                                is.pos as int,
                                is.limit as int,
                            );
                        }
                        if len64 > (is.limit - p) as u64 {
                            Err(Error::Truncated)
                        } else if is.recursion_depth >= is.recursion_limit {
                            Err(Error::RecursionLimitExceeded)
                        } else {
                            let sub_end = p + (len64 as usize);
                            let mut child = DynamicMessage::new(f.type_ref);
                            proof {
                                DynamicMessage::lemma_new_wf(*pool, child);
                                assert(child.model() == spec_fresh_msg(f.type_ref as int));
                            }
                            let saved_limit = is.limit;
                            is.pos = p;
                            is.limit = sub_end;
                            is.recursion_depth = is.recursion_depth + 1;
                            let res = child.merge_from(is, pool);
                            is.recursion_depth = is.recursion_depth - 1;
                            is.limit = saved_limit;
                            match res {
                                Err(e) => Err(e),
                                Ok(()) => {
                                    proof {
                                        lemma_merge_run_end(
                                            *pool,
                                            spec_set_fields_default(
                                                *pool,
                                                spec_fresh_msg(f.type_ref as int),
                                            ),
                                            old(is).data@,
                                            p as int,
                                            sub_end as int,
                                            old(is).recursion_depth + 1,
                                            old(is).recursion_limit as int,
                                        );
                                    }
                                    let ghost childm = child.model();
                                    self.set_field(
                                        pool,
                                        fi,
                                        ReflectValueBox::Message(Box::new(child)),
                                    );
                                    Ok(())
                                },
                            }
                        }
                    },
                }
            },
            _ => {
                match read_scalar_value(f.proto_type, f.type_ref, &is.data, is.pos, is.limit) {
                    Err(e) => Err(e),
                    Ok((v, p)) => {
                        let ghost vm = value_model(v);
                        self.set_field(pool, fi, v);
                        is.pos = p;
                        Ok(())
                    },
                }
            },
        }
    }

    /// One repeated field record: an unpacked element, a packed run, or a
    /// nested message appended to the sequence.
    #[verifier::rlimit(100)]
    fn merge_step_repeated(
        &mut self,
        is: &mut CodedInputStream,
        pool: &DescriptorPool,
        fi: usize,
        wt: u64,
    ) -> (r: Result<(), Error>)
        requires
            old(is).wf(),
            crate::descriptor::pool_wf(*pool),
            old(self).descriptor < pool.messages@.len(),
            old(self).wf(*pool),
            fi < pool.messages@[old(self).descriptor as int].fields@.len(),
            pool.messages@[old(self).descriptor as int].fields@[fi as int].kind is Repeated,
        ensures
            final(is).data == old(is).data,
            final(is).limit == old(is).limit,
            final(is).recursion_depth == old(is).recursion_depth,
            final(is).recursion_limit == old(is).recursion_limit,
            final(is).wf(),
            final(self).descriptor == old(self).descriptor,
            final(self).wf(*pool),
            match spec_step_repeated(
                *pool,
                old(self).model(),
                fi as int,
                wt,
                old(is).data@,
                old(is).pos as int,
                old(is).limit as int,
                old(is).recursion_depth as int,
                old(is).recursion_limit as int,
            ) {
                Ok((m2, p2)) => r is Ok && final(self).model() == m2 && final(is).pos == p2,
                Err(e) => r == Err::<(), Error>(e),
            },
            r is Ok ==> old(is).pos < final(is).pos <= old(is).limit,
        decreases
                is.recursion_limit - is.recursion_depth,
                is.limit - is.pos,
                0int,
    {
        let ghost m0 = self.model();
        let ghost fds = pool.messages@[old(self).descriptor as int].fields@;
        let f = pool.messages[self.descriptor].fields[fi];
        proof {
            assert(crate::descriptor::field_wf(*pool, fds[fi as int]));
        }
        match f.proto_type {
            ProtoType::Group => Err(Error::Unsupported),
            ProtoType::Message => {
                match crate::wire::read_raw_varint64(&is.data, is.pos, is.limit) {
                    Err(e) => Err(e),
                    Ok((len64, p)) => {
                        proof {
                            crate::wire::lemma_varint_parse_advances(
                                is.data@,
                                is.pos as int,
                                is.limit as int,
                            );
                        }
                        if len64 > (is.limit - p) as u64 {
                            Err(Error::Truncated)
                        } else if is.recursion_depth >= is.recursion_limit {
                            Err(Error::RecursionLimitExceeded)
                        } else {
                            let sub_end = p + (len64 as usize);
                            let mut child = DynamicMessage::new(f.type_ref);
                            proof {
                                DynamicMessage::lemma_new_wf(*pool, child);
                                assert(child.model() == spec_fresh_msg(f.type_ref as int));
                            }
                            let saved_limit = is.limit;
                            is.pos = p;
                            is.limit = sub_end;
                            is.recursion_depth = is.recursion_depth + 1;
                            let res = child.merge_from(is, pool);
                            is.recursion_depth = is.recursion_depth - 1;
                            is.limit = saved_limit;
                            match res {
                                Err(e) => Err(e),
                                Ok(()) => {
                                    proof {
                                        lemma_merge_run_end(
                                            *pool,
                                            spec_set_fields_default(
                                                *pool,
                                                spec_fresh_msg(f.type_ref as int),
                                            ),
                                            old(is).data@,
                                            p as int,
                                            sub_end as int,
                                            old(is).recursion_depth + 1,
                                            old(is).recursion_limit as int,
                                        );
                                    }
                                    self.repeated_push(
                                        pool,
                                        fi,
                                        ReflectValueBox::Message(Box::new(child)),
                                    );
                                    Ok(())
                                },
                            }
                        }
                    },
                }
            },
            _ => {
                let packable = exec_is_packable(f.proto_type);
                let expected = exec_unpacked_wt(f.proto_type);
                if !packable || wt == expected {
                    match read_scalar_value(f.proto_type, f.type_ref, &is.data, is.pos, is.limit) {
                        Err(e) => Err(e),
                        Ok((v, p)) => {
                            self.repeated_push(pool, fi, v);
                            is.pos = p;
                            Ok(())
                        },
                    }
                } else if wt == 2 {
                    match crate::wire::read_raw_varint64(&is.data, is.pos, is.limit) {
                        Err(e) => Err(e),
                        Ok((len64, p)) => {
                            proof {
                                crate::wire::lemma_varint_parse_advances(
                                    is.data@,
                                    is.pos as int,
                                    is.limit as int,
                                );
                            }
                            if len64 > (is.limit - p) as u64 {
                                Err(Error::Truncated)
                            } else {
                                let sub_end = p + (len64 as usize);
                                match read_packed(f.proto_type, f.type_ref, &is.data, p, sub_end) {
                                    Err(e) => Err(e),
                                    Ok((mut vals, _)) => {
                                        let ghost vs_full = values_model(vals@);
                                        self.mut_repeated(pool, fi);
                                        let ghost m_mat = self.model();
                                        proof {
                                            assert(spec_repeated_push_seq(*pool, m0, fi as int, vs_full)
                                                == spec_repeated_push_seq(
                                                *pool,
                                                self.model(),
                                                fi as int,
                                                values_model(vals@),
                                            ));
                                        }
                                        while vals.len() > 0
                                            invariant
                                                self.descriptor == old(self).descriptor,
                                                self.descriptor < pool.messages@.len(),
                                                self.wf(*pool),
                                                crate::descriptor::pool_wf(*pool),
                                                fi < fds.len(),
                                                fds == pool.messages@[self.descriptor as int].fields@,
                                                fds[fi as int].kind is Repeated,
                                                spec_repeated_push_seq(
                                                    *pool,
                                                    m0,
                                                    fi as int,
                                                    vs_full,
                                                ) == spec_repeated_push_seq(
                                                    *pool,
                                                    self.model(),
                                                    fi as int,
                                                    values_model(vals@),
                                                ),
                                                forall|poolx: DescriptorPool|
                                                    crate::value::values_view_wf(
                                                        poolx,
                                                        spec_runtime_type(
                                                            f.proto_type,
                                                            f.type_ref,
                                                        ),
                                                        values_model(vals@),
                                                    ),
                                                f == fds[fi as int],
                                                self.model().fields.len() > 0,
                                            decreases vals.len(),
                                        {
                                            proof {
                                                crate::value::lemma_values_model_len(vals@);
                                                crate::value::lemma_values_view_wf_index(
                                                    *pool,
                                                    spec_runtime_type(f.proto_type, f.type_ref),
                                                    values_model(vals@),
                                                    0,
                                                );
                                            }
                                            let ghost pre_vals = vals@;
                                            let ghost pre_model = self.model();
                                            let v = vals.remove(0);
                                            proof {
                                                crate::value::lemma_values_model_len(pre_vals);
                                                crate::value::lemma_values_model_len(vals@);
                                                assert(vals@ =~= pre_vals.drop_first());
                                                assert forall|j: int|
                                                    0 <= j < vals@.len() implies values_model(
                                                    vals@,
                                                )[j] == values_model(pre_vals).drop_first()[j] by {
                                                    assert(vals@[j] == pre_vals[j + 1]);
                                                }
                                                assert(values_model(vals@) =~= values_model(
                                                    pre_vals,
                                                ).drop_first());
                                                assert forall|poolx: DescriptorPool|
                                                    crate::value::values_view_wf(
                                                        poolx,
                                                        spec_runtime_type(
                                                            f.proto_type,
                                                            f.type_ref,
                                                        ),
                                                        values_model(vals@),
                                                    ) by {
                                                    let t = spec_runtime_type(
                                                        f.proto_type,
                                                        f.type_ref,
                                                    );
                                                    assert forall|j: int|
                                                        0 <= j < values_model(vals@).len() implies
                                                        crate::value::value_view_wf(
                                                            poolx,
                                                            t,
                                                            #[trigger] values_model(vals@)[j],
                                                        ) by {
                                                        crate::value::lemma_values_view_wf_index(
                                                            poolx,
                                                            t,
                                                            values_model(pre_vals),
                                                            j + 1,
                                                        );
                                                    }
                                                    lemma_values_view_wf_pointwise(
                                                        poolx,
                                                        t,
                                                        values_model(vals@),
                                                    );
                                                }
                                                lemma_push_seq_step(
                                                    *pool,
                                                    pre_model,
                                                    fi as int,
                                                    values_model(pre_vals),
                                                );
                                            }
                                            self.repeated_push(pool, fi, v);
                                        }
                                        proof {
                                            crate::value::lemma_values_model_len(vals@);
                                            let mfin = self.model();
                                            crate::value::lemma_cells_view_wf_index(
                                                *pool,
                                                fds,
                                                mfin.fields,
                                                fi as int,
                                            );
                                            let old_vs = mfin.fields[fi as int]->Repeated_0;
                                            assert(old_vs + values_model(vals@) =~= old_vs);
                                            assert(spec_repeated_push_seq(
                                                *pool,
                                                mfin,
                                                fi as int,
                                                values_model(vals@),
                                            ).fields =~= mfin.fields);
                                        }
                                        is.pos = sub_end;
                                        Ok(())
                                    },
                                }
                            }
                        },
                    }
                } else {
                    Err(Error::UnexpectedWireType)
                }
            },
        }
    }
}

impl DynamicMessage {
    /// One iteration of the tag loop.
    #[verifier::rlimit(100)]
    fn merge_step(&mut self, is: &mut CodedInputStream, pool: &DescriptorPool) -> (r: Result<
        (),
        Error,
    >)
        requires
            old(is).wf(),
            old(is).pos < old(is).limit,
            crate::descriptor::pool_wf(*pool),
            old(self).descriptor < pool.messages@.len(),
            old(self).wf(*pool),
        ensures
            final(is).data == old(is).data,
            final(is).limit == old(is).limit,
            final(is).recursion_depth == old(is).recursion_depth,
            final(is).recursion_limit == old(is).recursion_limit,
            final(is).wf(),
            final(self).descriptor == old(self).descriptor,
            final(self).wf(*pool),
            match spec_step(
                *pool,
                old(self).model(),
                old(is).data@,
                old(is).pos as int,
                old(is).limit as int,
                old(is).recursion_depth as int,
                old(is).recursion_limit as int,
            ) {
                Ok((m2, p2)) => r is Ok && final(self).model() == m2 && final(is).pos == p2,
                Err(e) => r == Err::<(), Error>(e),
            },
            r is Ok ==> old(is).pos < final(is).pos <= old(is).limit,
        decreases
                is.recursion_limit - is.recursion_depth,
                is.limit - is.pos,
                1int,
    {
        let ghost m0 = self.model();
        let ghost sres = spec_step(
            *pool,
            old(self).model(),
            old(is).data@,
            old(is).pos as int,
            old(is).limit as int,
            old(is).recursion_depth as int,
            old(is).recursion_limit as int,
        );
        match crate::wire::read_raw_varint64(&is.data, is.pos, is.limit) {
            Err(e) => {
                proof {
                    assert(sres == Err::<(MessageView, int), Error>(e));
                }
                Err(e)
            },
            Ok((tagv, p1)) => {
                proof {
                    crate::wire::lemma_varint_parse_advances(
                        is.data@,
                        is.pos as int,
                        is.limit as int,
                    );
                }
                if tagv > 0xFFFF_FFFFu64 {
                    proof {
                        assert(sres == Err::<(MessageView, int), Error>(Error::Malformed));
                    }
                    Err(Error::Malformed)
                } else {
                    let num64 = tagv / 8;
                    let wt = tagv % 8;
                    if num64 == 0 {
                        proof {
                            assert(tagv / 8 == 0);
                            assert(sres == Err::<(MessageView, int), Error>(Error::Malformed));
                        }
                        Err(Error::Malformed)
                    } else {
                        let num = num64 as u32;
                        proof {
                            assert(num == (tagv / 8) as u32);
                        }
                        match pool.messages[self.descriptor].get_field_by_number(num) {
                            Option::None => {
                                proof {
                                    assert(spec_find_field(desc_of(*pool, m0), num) is None);
                                }
                                match skip_value(&is.data, p1, is.limit, wt) {
                                    Err(e) => {
                                        proof {
                                            assert(sres == Err::<(MessageView, int), Error>(e));
                                        }
                                        Err(e)
                                    },
                                    Ok(p2) => {
                                        is.pos = p2;
                                        proof {
                                            assert(sres == Ok::<(MessageView, int), Error>(
                                                (m0, p2 as int),
                                            ));
                                        }
                                        Ok(())
                                    },
                                }
                            },
                            Option::Some(fi) => {
                                proof {
                                    crate::descriptor::lemma_find_field_valid(
                                        pool.messages@[self.descriptor as int],
                                        num,
                                    );
                                    assert(m0.descriptor == self.descriptor as int);
                                    assert(desc_of(*pool, m0) == pool.messages@[self.descriptor as int]);
                                    let sf = spec_find_field(
                                        pool.messages@[self.descriptor as int],
                                        num,
                                    );
                                    assert(sf is Some);
                                    assert(0 <= sf->Some_0);
                                    assert(sf->Some_0 as usize == fi);
                                    assert(sf == Option::Some(fi as int));
                                }
                                match pool.messages[self.descriptor].fields[fi].kind {
                                    FieldKind::Singular => {
                                        is.pos = p1;
                                        proof {
                                            assert(varint_parse(
                                                old(is).data@,
                                                old(is).pos as int,
                                                old(is).limit as int,
                                            ) == Ok::<(u64, int), Error>((tagv, p1 as int)));
                                            assert(old(is).pos < p1 <= old(is).limit);
                                            assert(spec_find_field(
                                                desc_of(*pool, m0),
                                                num,
                                            ) == Option::Some(fi as int));
                                            assert(desc_of(*pool, m0).fields@[fi as int].kind
                                                is Singular);
                                            assert(sres == spec_step_singular(
                                                *pool,
                                                m0,
                                                fi as int,
                                                is.data@,
                                                p1 as int,
                                                is.limit as int,
                                                is.recursion_depth as int,
                                                is.recursion_limit as int,
                                            ));
                                        }
                                        self.merge_step_singular(is, pool, fi)
                                    },
                                    FieldKind::Repeated => {
                                        is.pos = p1;
                                        proof {
                                            assert(varint_parse(
                                                old(is).data@,
                                                old(is).pos as int,
                                                old(is).limit as int,
                                            ) == Ok::<(u64, int), Error>((tagv, p1 as int)));
                                            assert(old(is).pos < p1 <= old(is).limit);
                                            assert(spec_find_field(
                                                desc_of(*pool, m0),
                                                num,
                                            ) == Option::Some(fi as int));
                                            assert(desc_of(*pool, m0).fields@[fi as int].kind
                                                is Repeated);
                                            assert(sres == spec_step_repeated(
                                                *pool,
                                                m0,
                                                fi as int,
                                                wt,
                                                is.data@,
                                                p1 as int,
                                                is.limit as int,
                                                is.recursion_depth as int,
                                                is.recursion_limit as int,
                                            ));
                                        }
                                        self.merge_step_repeated(is, pool, fi, wt)
                                    },
                                    FieldKind::Keyed(_, _) => {
                                        is.pos = p1;
                                        proof {
                                            assert(sres == Ok::<(MessageView, int), Error>(
                                                (m0, p1 as int),
                                            ));
                                        }
                                        Ok(())
                                    },
                                }
                            },
                        }
                    }
                }
            },
        }
    }

    /// Merges wire records from the stream's current region into this
    /// message: proto3 defaults first, then the tag loop until the region
    /// ends.  On success the cursor sits at the region's end; on error the
    /// message may hold a partial merge but stays well formed, and the
    /// stream's region and recursion budget are restored either way.
    #[verifier::rlimit(100)]
    #[verifier::loop_isolation(false)]
    pub fn merge_from(&mut self, is: &mut CodedInputStream, pool: &DescriptorPool) -> (r: Result<
        (),
        Error,
    >)
        requires
            old(is).wf(),
            crate::descriptor::pool_wf(*pool),
            old(self).descriptor < pool.messages@.len(),
            old(self).wf(*pool),
        ensures
            final(is).data == old(is).data,
            final(is).limit == old(is).limit,
            final(is).recursion_depth == old(is).recursion_depth,
            final(is).recursion_limit == old(is).recursion_limit,
            final(is).wf(),
            final(self).descriptor == old(self).descriptor,
            final(self).wf(*pool),
            match spec_merge_msg(
                *pool,
                old(self).model(),
                old(is).data@,
                old(is).pos as int,
                old(is).limit as int,
                old(is).recursion_depth as int,
                old(is).recursion_limit as int,
            ) {
                Ok((m2, p2)) => r is Ok && final(self).model() == m2 && final(is).pos == p2,
                Err(e) => r == Err::<(), Error>(e),
            },
        decreases
                is.recursion_limit - is.recursion_depth,
                is.limit - is.pos,
                3int,
    {
        self.set_fields_default(pool);
        let ghost m_start = self.model();
        let ghost data0 = is.data@;
        let ghost pos0 = is.pos;
        let ghost end0 = is.limit;
        let ghost depth0 = is.recursion_depth;
        let ghost rlimit0 = is.recursion_limit;
        while !(is.pos >= is.limit)
            invariant
                is.wf(),
                is.data@ == data0,
                is.limit == end0,
                is.recursion_depth == depth0,
                is.recursion_limit == rlimit0,
                is.data == old(is).data,
                end0 == old(is).limit,
                depth0 == old(is).recursion_depth,
                rlimit0 == old(is).recursion_limit,
                pos0 == old(is).pos,
                pos0 <= is.pos,
                m_start == spec_set_fields_default(*pool, old(self).model()),
                self.descriptor == old(self).descriptor,
                self.descriptor < pool.messages@.len(),
                self.wf(*pool),
                crate::descriptor::pool_wf(*pool),
                spec_merge_run(
                    *pool,
                    m_start,
                    data0,
                    pos0 as int,
                    end0 as int,
                    depth0 as int,
                    rlimit0 as int,
                ) == spec_merge_run(
                    *pool,
                    self.model(),
                    data0,
                    is.pos as int,
                    end0 as int,
                    depth0 as int,
                    rlimit0 as int,
                ),
            decreases
                    is.recursion_limit - is.recursion_depth,
                    is.limit - is.pos,
                    2int,
        {
            let ghost pre_m = self.model();
            let ghost pre_pos = is.pos;
            match self.merge_step(is, pool) {
                Err(e) => {
                    proof {
                        assert(spec_merge_run(
                            *pool,
                            pre_m,
                            data0,
                            pre_pos as int,
                            end0 as int,
                            depth0 as int,
                            rlimit0 as int,
                        ) == Err::<(MessageView, int), Error>(e));
                    }
                    return Err(e);
                },
                Ok(()) => {
                    proof {
                        assert(spec_merge_run(
                            *pool,
                            pre_m,
                            data0,
                            pre_pos as int,
                            end0 as int,
                            depth0 as int,
                            rlimit0 as int,
                        ) == spec_merge_run(
                            *pool,
                            self.model(),
                            data0,
                            is.pos as int,
                            end0 as int,
                            depth0 as int,
                            rlimit0 as int,
                        ));
                    }
                },
            }
        }
        proof {
            assert(spec_merge_run(
                *pool,
                self.model(),
                data0,
                is.pos as int,
                end0 as int,
                depth0 as int,
                rlimit0 as int,
            ) == Ok::<(MessageView, int), Error>((self.model(), is.pos as int)));
        }
        Ok(())
    }
}

/// Default reading, decode half: merging an empty region changes nothing
/// beyond the defaults pass itself, so a field absent from the wire reads
/// back as its (proto3) default.
pub proof fn lemma_absent_fields_read_default(
    pool: DescriptorPool,
    m: MessageView,
    data: Seq<u8>,
    pos: int,
    depth: int,
    rlimit: int,
)
    ensures
        spec_merge_msg(pool, m, data, pos, pos, depth, rlimit) == Ok::<(MessageView, int), Error>(
            (spec_set_fields_default(pool, m), pos),
        ),
{
}

} // verus!
