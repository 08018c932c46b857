//! The typed value containers a dynamic message is built from, and the
//! mathematical model the contracts speak of.
//!
//! Executable side: [`ReflectValueBox`] (one tagged value), the three field
//! cells (optional slot, repeated sequence, keyed collection), and
//! [`DynamicMessage`].  Ghost side: [`ValueView`], [`CellView`] and
//! [`MessageView`], reached through the `*_model` functions.  Float values
//! are carried as their IEEE bit patterns, so the whole engine stays in
//! integer arithmetic.

use vstd::prelude::*;
use crate::descriptor::{DescriptorPool, FieldDescriptor, RuntimeTypeBox};
use crate::utf8::is_utf8;

verus! {

// ----------------------------------------------------------------------------
// Ghost model
// ----------------------------------------------------------------------------

/// The mathematical value of one message: its descriptor index and one cell
/// per field (or none at all while the message is still lazy).
pub struct MessageView {
    pub descriptor: int,
    pub fields: Seq<CellView>,
}

/// The mathematical value of one field cell.
pub enum CellView {
    Singular(Option<ValueView>),
    Repeated(Seq<ValueView>),
    Keyed(Seq<(ValueView, ValueView)>),
}

/// The mathematical value of one boxed value.  `F32`/`F64` carry IEEE bit
/// patterns; `Enum` carries the enum id and the (possibly unlisted) number.
pub enum ValueView {
    I32(i32),
    I64(i64),
    U32(u32),
    U64(u64),
    F32(u32),
    F64(u64),
    Bool(bool),
    String(Seq<u8>),
    Bytes(Seq<u8>),
    Enum(usize, i32),
    Message(MessageView),
}

// ----------------------------------------------------------------------------
// Executable containers
// ----------------------------------------------------------------------------

/// One tagged value crossing the reflection boundary.
#[derive(Debug)]
pub enum ReflectValueBox {
    I32(i32),
    I64(i64),
    U32(u32),
    U64(u64),
    F32(u32),
    F64(u64),
    Bool(bool),
    String(Vec<u8>),
    Bytes(Vec<u8>),
    Enum(usize, i32),
    Message(Box<DynamicMessage>),
}

/// A singular field's slot: empty or one value.
#[derive(Debug)]
pub struct DynamicOptional {
    pub value: Option<ReflectValueBox>,
}

/// A repeated field's ordered sequence of values.
#[derive(Debug)]
pub struct DynamicRepeated {
    pub values: Vec<ReflectValueBox>,
}

/// A map field's collection of key/value pairs, keys unique.
#[derive(Debug)]
pub struct DynamicMap {
    pub entries: Vec<(ReflectValueBox, ReflectValueBox)>,
}

/// The per-field slot of a message: its variant is fixed by the field's
/// shape in the descriptor.
#[derive(Debug)]
pub enum DynamicFieldValue {
    Singular(DynamicOptional),
    Repeated(DynamicRepeated),
    Keyed(DynamicMap),
}

/// Raw records the decoder did not recognise, keyed by field number.
#[derive(Debug, Clone)]
pub struct UnknownFields {
    pub entries: Vec<(u32, Vec<u8>)>,
}

/// A message whose schema is a [`DescriptorPool`] entry: one cell per field
/// once materialized, an empty cell vector while lazy.
#[derive(Debug)]
pub struct DynamicMessage {
    /// Index of this message's descriptor in the pool.
    pub descriptor: usize,
    /// Empty while lazy; one cell per descriptor field once materialized.
    pub fields: Vec<DynamicFieldValue>,
    /// Unrecognised records; this revision's decoder drops them instead.
    pub unknown_fields: UnknownFields,
    /// Advisory serialized size, authoritative only right after a caller
    /// stores a `compute_size` result here.
    pub cached_size: u32,
}

// ----------------------------------------------------------------------------
// Model functions
// ----------------------------------------------------------------------------

pub open spec fn value_model(v: ReflectValueBox) -> ValueView
    decreases v,
{
    match v {
        ReflectValueBox::I32(x) => ValueView::I32(x),
        ReflectValueBox::I64(x) => ValueView::I64(x),
        ReflectValueBox::U32(x) => ValueView::U32(x),
        ReflectValueBox::U64(x) => ValueView::U64(x),
        ReflectValueBox::F32(x) => ValueView::F32(x),
        ReflectValueBox::F64(x) => ValueView::F64(x),
        ReflectValueBox::Bool(x) => ValueView::Bool(x),
        ReflectValueBox::String(s) => ValueView::String(s@),
        ReflectValueBox::Bytes(b) => ValueView::Bytes(b@),
        ReflectValueBox::Enum(d, n) => ValueView::Enum(d, n),
        ReflectValueBox::Message(m) => ValueView::Message(msg_model(*m)),
    }
}

pub open spec fn values_model(vs: Seq<ReflectValueBox>) -> Seq<ValueView>
    decreases vs,
{
    if vs.len() == 0 {
        Seq::empty()
    } else {
        values_model(vs.drop_last()).push(value_model(vs.last()))
    }
}

pub open spec fn entries_model(es: Seq<(ReflectValueBox, ReflectValueBox)>) -> Seq<
    (ValueView, ValueView),
>
    decreases es,
{
    if es.len() == 0 {
        Seq::empty()
    } else {
        entries_model(es.drop_last()).push(
            (value_model(es.last().0), value_model(es.last().1)),
        )
    }
}

pub open spec fn cell_model(c: DynamicFieldValue) -> CellView
    decreases c,
{
    match c {
        DynamicFieldValue::Singular(o) => CellView::Singular(
            match o.value {
                Option::None => Option::None,
                Option::Some(v) => Option::Some(value_model(v)),
            },
        ),
        DynamicFieldValue::Repeated(r) => CellView::Repeated(values_model(r.values@)),
        DynamicFieldValue::Keyed(m) => CellView::Keyed(entries_model(m.entries@)),
    }
}

pub open spec fn cells_model(cs: Seq<DynamicFieldValue>) -> Seq<CellView>
    decreases cs,
{
    if cs.len() == 0 {
        Seq::empty()
    } else {
        cells_model(cs.drop_last()).push(cell_model(cs.last()))
    }
}

pub open spec fn msg_model(m: DynamicMessage) -> MessageView
    decreases m,
{
    MessageView { descriptor: m.descriptor as int, fields: cells_model(m.fields@) }
}

/// The model of the unknown-fields store.
pub open spec fn unknown_model(u: UnknownFields) -> Seq<(u32, Seq<u8>)> {
    Seq::new(u.entries@.len(), |i: int| (u.entries@[i].0, u.entries@[i].1@))
}

pub proof fn lemma_values_model_len(vs: Seq<ReflectValueBox>)
    ensures
        values_model(vs).len() == vs.len(),
        forall|i: int| 0 <= i < vs.len() ==> values_model(vs)[i] == value_model(#[trigger] vs[i]),
    decreases vs,
{
    if vs.len() > 0 {
        lemma_values_model_len(vs.drop_last());
        assert forall|i: int| 0 <= i < vs.len() implies values_model(vs)[i] == value_model(
            vs[i],
        ) by {
            if i < vs.len() - 1 {
                assert(vs.drop_last()[i] == vs[i]);
            } else {
                assert(vs.last() == vs[i]);
            }
        }
    }
}

pub proof fn lemma_entries_model_len(es: Seq<(ReflectValueBox, ReflectValueBox)>)
    ensures
        entries_model(es).len() == es.len(),
        forall|i: int| 0 <= i < es.len() ==> entries_model(es)[i] == (
            value_model((#[trigger] es[i]).0),
            value_model(es[i].1),
        ),
    decreases es,
{
    if es.len() > 0 {
        lemma_entries_model_len(es.drop_last());
        assert forall|i: int| 0 <= i < es.len() implies entries_model(es)[i] == (
            value_model(es[i].0),
            value_model(es[i].1),
        ) by {
            if i < es.len() - 1 {
                assert(es.drop_last()[i] == es[i]);
            } else {
                assert(es.last() == es[i]);
            }
        }
    }
}

pub proof fn lemma_cells_model_len(cs: Seq<DynamicFieldValue>)
    ensures
        cells_model(cs).len() == cs.len(),
        forall|i: int| 0 <= i < cs.len() ==> cells_model(cs)[i] == cell_model(#[trigger] cs[i]),
    decreases cs,
{
    if cs.len() > 0 {
        lemma_cells_model_len(cs.drop_last());
        assert forall|i: int| 0 <= i < cs.len() implies cells_model(cs)[i] == cell_model(
            cs[i],
        ) by {
            if i < cs.len() - 1 {
                assert(cs.drop_last()[i] == cs[i]);
            } else {
                assert(cs.last() == cs[i]);
            }
        }
    }
}

// ----------------------------------------------------------------------------
// Well-formedness
// ----------------------------------------------------------------------------

/// `v` is a legal inhabitant of runtime type `t`: the tag agrees, strings
/// are UTF-8, enum values carry the declared enum id, and message values
/// carry the declared descriptor and are themselves well formed.
pub open spec fn value_view_wf(pool: DescriptorPool, t: RuntimeTypeBox, v: ValueView) -> bool
    decreases v,
{
    match v {
        ValueView::I32(_) => t is I32,
        ValueView::I64(_) => t is I64,
        ValueView::U32(_) => t is U32,
        ValueView::U64(_) => t is U64,
        ValueView::F32(_) => t is F32,
        ValueView::F64(_) => t is F64,
        ValueView::Bool(_) => t is Bool,
        ValueView::String(s) => t is String && is_utf8(s),
        ValueView::Bytes(_) => t is VecU8,
        ValueView::Enum(d, _) => t == RuntimeTypeBox::Enum(d),
        ValueView::Message(mv) => t == RuntimeTypeBox::Message(mv.descriptor as usize)
            && 0 <= mv.descriptor && msg_view_wf(pool, mv),
    }
}

pub open spec fn values_view_wf(pool: DescriptorPool, t: RuntimeTypeBox, vs: Seq<ValueView>) -> bool
    decreases vs,
{
    if vs.len() == 0 {
        true
    } else {
        values_view_wf(pool, t, vs.drop_last()) && value_view_wf(pool, t, vs.last())
    }
}

pub open spec fn entries_view_wf(
    pool: DescriptorPool,
    kt: RuntimeTypeBox,
    vt: RuntimeTypeBox,
    es: Seq<(ValueView, ValueView)>,
) -> bool
    decreases es,
{
    if es.len() == 0 {
        true
    } else {
        entries_view_wf(pool, kt, vt, es.drop_last()) && value_view_wf(pool, kt, es.last().0)
            && value_view_wf(pool, vt, es.last().1)
    }
}

/// Keys of a keyed collection are pairwise distinct.
pub open spec fn entries_keys_unique(es: Seq<(ValueView, ValueView)>) -> bool {
    forall|i: int, j: int| 0 <= i < j < es.len() ==> (#[trigger] es[i]).0 != (#[trigger] es[j]).0
}

/// The cell has the variant the field's shape demands, and its contents
/// inhabit the declared types.
pub open spec fn cell_view_wf(pool: DescriptorPool, f: FieldDescriptor, c: CellView) -> bool
    decreases c,
{
    match c {
        CellView::Singular(o) => f.spec_runtime_field_type() is Singular && (o is Some
            ==> value_view_wf(pool, f.spec_runtime_field_type()->Singular_0, o->Some_0)),
        CellView::Repeated(vs) => f.spec_runtime_field_type() is Repeated && values_view_wf(
            pool,
            f.spec_runtime_field_type()->Repeated_0,
            vs,
        ),
        CellView::Keyed(es) => f.spec_runtime_field_type() is Keyed && entries_view_wf(
            pool,
            f.spec_runtime_field_type()->Keyed_0,
            f.spec_runtime_field_type()->Keyed_1,
            es,
        ) && entries_keys_unique(es),
    }
}

pub open spec fn cells_view_wf(
    pool: DescriptorPool,
    fds: Seq<FieldDescriptor>,
    cs: Seq<CellView>,
) -> bool
    decreases cs,
{
    if cs.len() == 0 {
        true
    } else {
        cells_view_wf(pool, fds, cs.drop_last()) && cell_view_wf(
            pool,
            fds[cs.len() - 1],
            cs.last(),
        )
    }
}

/// The structural invariant of a message value: a live descriptor index,
/// a field vector that is empty or full-length, and every cell well formed
/// against its field descriptor.
pub open spec fn msg_view_wf(pool: DescriptorPool, m: MessageView) -> bool
    decreases m,
{
    &&& 0 <= m.descriptor < pool.messages@.len()
    &&& (m.fields.len() == 0 || m.fields.len() == pool.messages@[m.descriptor].fields@.len())
    &&& cells_view_wf(pool, pool.messages@[m.descriptor].fields@, m.fields)
}

impl DynamicMessage {
    /// Shorthand for this message's model.
    pub open spec fn model(self) -> MessageView {
        msg_model(self)
    }

    /// The executable message is well formed exactly when its model is.
    pub open spec fn wf(self, pool: DescriptorPool) -> bool {
        msg_view_wf(pool, self.model())
    }
}

pub proof fn lemma_cells_view_wf_index(
    pool: DescriptorPool,
    fds: Seq<FieldDescriptor>,
    cs: Seq<CellView>,
    i: int,
)
    requires
        cells_view_wf(pool, fds, cs),
        0 <= i < cs.len(),
    ensures
        cell_view_wf(pool, fds[i], cs[i]),
    decreases cs,
{
    if i == cs.len() - 1 {
    } else {
        lemma_cells_view_wf_index(pool, fds, cs.drop_last(), i);
    }
}

pub proof fn lemma_values_view_wf_index(
    pool: DescriptorPool,
    t: RuntimeTypeBox,
    vs: Seq<ValueView>,
    i: int,
)
    requires
        values_view_wf(pool, t, vs),
        0 <= i < vs.len(),
    ensures
        value_view_wf(pool, t, vs[i]),
    decreases vs,
{
    if i == vs.len() - 1 {
    } else {
        lemma_values_view_wf_index(pool, t, vs.drop_last(), i);
    }
}

/// Updating one cell to a well-formed cell keeps the cell sequence well
/// formed.
pub proof fn lemma_cells_view_wf_update(
    pool: DescriptorPool,
    fds: Seq<FieldDescriptor>,
    cs: Seq<CellView>,
    i: int,
    c: CellView,
)
    requires
        cells_view_wf(pool, fds, cs),
        0 <= i < cs.len(),
        cell_view_wf(pool, fds[i], c),
    ensures
        cells_view_wf(pool, fds, cs.update(i, c)),
    decreases cs,
{
    let cs2 = cs.update(i, c);
    if i == cs.len() - 1 {
        assert(cs2.drop_last() =~= cs.drop_last());
        assert(cs2.last() == c);
    } else {
        lemma_cells_view_wf_update(pool, fds, cs.drop_last(), i, c);
        assert(cs2.drop_last() =~= cs.drop_last().update(i, c));
        assert(cs2.last() == cs.last());
    }
}

/// Appending a well-formed value keeps a value sequence well formed.
pub proof fn lemma_values_view_wf_push(
    pool: DescriptorPool,
    t: RuntimeTypeBox,
    vs: Seq<ValueView>,
    v: ValueView,
)
    requires
        values_view_wf(pool, t, vs),
        value_view_wf(pool, t, v),
    ensures
        values_view_wf(pool, t, vs.push(v)),
{
    assert(vs.push(v).drop_last() =~= vs);
    assert(vs.push(v).last() == v);
}

// ----------------------------------------------------------------------------
// Zero tests and defaults
// ----------------------------------------------------------------------------

/// Whether a value is distinguishable from its type's proto3 default: the
/// test the encoder uses to suppress singular fields.  Both float zeros
/// (positive and negative) count as zero, as comparing against `0.0` would.
pub open spec fn spec_is_non_zero(v: ValueView) -> bool {
    match v {
        ValueView::I32(x) => x != 0,
        ValueView::I64(x) => x != 0,
        ValueView::U32(x) => x != 0,
        ValueView::U64(x) => x != 0,
        ValueView::F32(b) => b != 0 && b != 0x8000_0000u32,
        ValueView::F64(b) => b != 0 && b != 0x8000_0000_0000_0000u64,
        ValueView::Bool(b) => b,
        ValueView::String(s) => s.len() > 0,
        ValueView::Bytes(b) => b.len() > 0,
        ValueView::Enum(_, n) => n != 0,
        ValueView::Message(_) => true,
    }
}

impl ReflectValueBox {
    /// Whether this value would survive proto3 default-suppression.
    pub fn is_non_zero(&self) -> (r: bool)
        ensures
            r == spec_is_non_zero(value_model(*self)),
    {
        match self {
            ReflectValueBox::I32(x) => *x != 0,
            ReflectValueBox::I64(x) => *x != 0,
            ReflectValueBox::U32(x) => *x != 0,
            ReflectValueBox::U64(x) => *x != 0,
            ReflectValueBox::F32(b) => *b != 0 && *b != 0x8000_0000u32,
            ReflectValueBox::F64(b) => *b != 0 && *b != 0x8000_0000_0000_0000u64,
            ReflectValueBox::Bool(b) => *b,
            ReflectValueBox::String(s) => s.len() > 0,
            ReflectValueBox::Bytes(b) => b.len() > 0,
            ReflectValueBox::Enum(_, n) => *n != 0,
            ReflectValueBox::Message(_) => true,
        }
    }
}

/// The proto3 default value of a runtime type: zero, false, empty, the
/// zero-numbered enum value, or an empty (lazy) message.
pub open spec fn default_value_view(t: RuntimeTypeBox) -> ValueView {
    match t {
        RuntimeTypeBox::I32 => ValueView::I32(0),
        RuntimeTypeBox::I64 => ValueView::I64(0),
        RuntimeTypeBox::U32 => ValueView::U32(0),
        RuntimeTypeBox::U64 => ValueView::U64(0),
        RuntimeTypeBox::F32 => ValueView::F32(0),
        RuntimeTypeBox::F64 => ValueView::F64(0),
        RuntimeTypeBox::Bool => ValueView::Bool(false),
        RuntimeTypeBox::String => ValueView::String(Seq::empty()),
        RuntimeTypeBox::VecU8 => ValueView::Bytes(Seq::empty()),
        RuntimeTypeBox::Enum(d) => ValueView::Enum(d, 0),
        RuntimeTypeBox::Message(i) => ValueView::Message(
            MessageView { descriptor: i as int, fields: Seq::empty() },
        ),
    }
}

/// Builds the executable default value of a runtime type.
pub fn default_value(t: RuntimeTypeBox) -> (r: ReflectValueBox)
    ensures
        value_model(r) == default_value_view(t),
{
    match t {
        RuntimeTypeBox::I32 => ReflectValueBox::I32(0),
        RuntimeTypeBox::I64 => ReflectValueBox::I64(0),
        RuntimeTypeBox::U32 => ReflectValueBox::U32(0),
        RuntimeTypeBox::U64 => ReflectValueBox::U64(0),
        RuntimeTypeBox::F32 => ReflectValueBox::F32(0),
        RuntimeTypeBox::F64 => ReflectValueBox::F64(0),
        RuntimeTypeBox::Bool => ReflectValueBox::Bool(false),
        RuntimeTypeBox::String => ReflectValueBox::String(Vec::new()),
        RuntimeTypeBox::VecU8 => ReflectValueBox::Bytes(Vec::new()),
        RuntimeTypeBox::Enum(d) => ReflectValueBox::Enum(d, 0),
        RuntimeTypeBox::Message(i) => ReflectValueBox::Message(
            Box::new(
                DynamicMessage {
                    descriptor: i,
                    fields: Vec::new(),
                    unknown_fields: UnknownFields { entries: Vec::new() },
                    cached_size: 0,
                },
            ),
        ),
    }
}

/// A default value inhabits its type whenever the type's references are in
/// range (always true for scalar types).
pub proof fn lemma_default_value_wf(pool: DescriptorPool, t: RuntimeTypeBox)
    requires
        t is Message ==> t->Message_0 < pool.messages@.len(),
    ensures
        value_view_wf(pool, t, default_value_view(t)),
{
}

// ----------------------------------------------------------------------------
// Clones and equality
// ----------------------------------------------------------------------------

/// Deep copy of one value; the copy has the same model.
pub fn value_clone(v: &ReflectValueBox) -> (r: ReflectValueBox)
    ensures
        value_model(r) == value_model(*v),
    decreases v,
{
    match v {
        ReflectValueBox::I32(x) => ReflectValueBox::I32(*x),
        ReflectValueBox::I64(x) => ReflectValueBox::I64(*x),
        ReflectValueBox::U32(x) => ReflectValueBox::U32(*x),
        ReflectValueBox::U64(x) => ReflectValueBox::U64(*x),
        ReflectValueBox::F32(x) => ReflectValueBox::F32(*x),
        ReflectValueBox::F64(x) => ReflectValueBox::F64(*x),
        ReflectValueBox::Bool(x) => ReflectValueBox::Bool(*x),
        ReflectValueBox::String(s) => ReflectValueBox::String(bytes_clone(s)),
        ReflectValueBox::Bytes(b) => ReflectValueBox::Bytes(bytes_clone(b)),
        ReflectValueBox::Enum(d, n) => ReflectValueBox::Enum(*d, *n),
        ReflectValueBox::Message(m) => ReflectValueBox::Message(Box::new(msg_clone(&**m))),
    }
}

/// Deep copy of a value vector; the copy has the same model.
pub fn values_clone(vs: &Vec<ReflectValueBox>) -> (r: Vec<ReflectValueBox>)
    ensures
        values_model(r@) == values_model(vs@),
    decreases vs,
{
    let mut out: Vec<ReflectValueBox> = Vec::new();
    let n = vs.len();
    let mut i: usize = 0;
    while i < n
        invariant
            i <= n,
            n == vs@.len(),
            out@.len() == i,
            forall|j: int| 0 <= j < i ==> value_model(#[trigger] out@[j]) == value_model(vs@[j]),
        decreases n - i,
    {
        let c = value_clone(&vs[i]);
        out.push(c);
        i = i + 1;
    }
    proof {
        lemma_values_model_len(out@);
        lemma_values_model_len(vs@);
        assert forall|j: int| 0 <= j < out@.len() implies values_model(out@)[j] == values_model(
            vs@,
        )[j] by {
            assert(value_model(out@[j]) == value_model(vs@[j]));
        }
        assert(values_model(out@) =~= values_model(vs@));
    }
    out
}

/// Deep copy of a map entry vector; the copy has the same model.
pub fn entries_clone(es: &Vec<(ReflectValueBox, ReflectValueBox)>) -> (r: Vec<
    (ReflectValueBox, ReflectValueBox),
>)
    ensures
        entries_model(r@) == entries_model(es@),
    decreases es,
{
    let mut out: Vec<(ReflectValueBox, ReflectValueBox)> = Vec::new();
    let n = es.len();
    let mut i: usize = 0;
    while i < n
        invariant
            i <= n,
            n == es@.len(),
            out@.len() == i,
            forall|j: int| 0 <= j < i ==> value_model((#[trigger] out@[j]).0) == value_model(
                es@[j].0,
            ) && value_model(out@[j].1) == value_model(es@[j].1),
        decreases n - i,
    {
        let k = value_clone(&es[i].0);
        let v = value_clone(&es[i].1);
        out.push((k, v));
        i = i + 1;
    }
    proof {
        lemma_entries_model_len(out@);
        lemma_entries_model_len(es@);
        assert forall|j: int| 0 <= j < out@.len() implies entries_model(out@)[j] == entries_model(
            es@,
        )[j] by {
            assert(value_model(out@[j].0) == value_model(es@[j].0));
            assert(value_model(out@[j].1) == value_model(es@[j].1));
        }
        assert(entries_model(out@) =~= entries_model(es@));
    }
    out
}

/// Deep copy of one cell; the copy has the same model.
pub fn cell_clone(c: &DynamicFieldValue) -> (r: DynamicFieldValue)
    ensures
        cell_model(r) == cell_model(*c),
    decreases c,
{
    match c {
        DynamicFieldValue::Singular(o) => DynamicFieldValue::Singular(
            DynamicOptional {
                value: match &o.value {
                    Option::None => Option::None,
                    Option::Some(v) => Option::Some(value_clone(v)),
                },
            },
        ),
        DynamicFieldValue::Repeated(r0) => DynamicFieldValue::Repeated(
            DynamicRepeated { values: values_clone(&r0.values) },
        ),
        DynamicFieldValue::Keyed(m) => DynamicFieldValue::Keyed(
            DynamicMap { entries: entries_clone(&m.entries) },
        ),
    }
}

/// Deep copy of a message; the copy has the same model and the same
/// unknown fields.
pub fn msg_clone(m: &DynamicMessage) -> (r: DynamicMessage)
    ensures
        msg_model(r) == msg_model(*m),
        unknown_model(r.unknown_fields) == unknown_model(m.unknown_fields),
        r.cached_size == m.cached_size,
    decreases m,
{
    let mut cells: Vec<DynamicFieldValue> = Vec::new();
    let n = m.fields.len();
    let mut i: usize = 0;
    while i < n
        invariant
            i <= n,
            n == m.fields@.len(),
            cells@.len() == i,
            forall|j: int| 0 <= j < i ==> cell_model(#[trigger] cells@[j]) == cell_model(
                m.fields@[j],
            ),
        decreases n - i,
    {
        let c = cell_clone(&m.fields[i]);
        cells.push(c);
        i = i + 1;
    }
    proof {
        lemma_cells_model_len(cells@);
        lemma_cells_model_len(m.fields@);
        assert forall|j: int| 0 <= j < cells@.len() implies cells_model(cells@)[j] == cells_model(
            m.fields@,
        )[j] by {
            assert(cell_model(cells@[j]) == cell_model(m.fields@[j]));
        }
        assert(cells_model(cells@) =~= cells_model(m.fields@));
    }
    DynamicMessage {
        descriptor: m.descriptor,
        fields: cells,
        unknown_fields: unknown_clone(&m.unknown_fields),
        cached_size: m.cached_size,
    }
}

fn unknown_clone(u: &UnknownFields) -> (r: UnknownFields)
    ensures
        unknown_model(r) == unknown_model(*u),
{
    let mut out: Vec<(u32, Vec<u8>)> = Vec::new();
    let n = u.entries.len();
    let mut i: usize = 0;
    while i < n
        invariant
            i <= n,
            n == u.entries@.len(),
            out@.len() == i,
            forall|j: int| 0 <= j < i ==> (#[trigger] out@[j]).0 == u.entries@[j].0 && out@[j].1@
                == u.entries@[j].1@,
        decreases n - i,
    {
        let num = u.entries[i].0;
        let bytes = bytes_clone(&u.entries[i].1);
        out.push((num, bytes));
        i = i + 1;
    }
    let r = UnknownFields { entries: out };
    proof {
        assert(unknown_model(r) =~= unknown_model(*u));
    }
    r
}

/// Copies a byte vector.
pub fn bytes_clone(b: &Vec<u8>) -> (r: Vec<u8>)
    ensures
        r@ == b@,
{
    let mut out: Vec<u8> = Vec::new();
    let n = b.len();
    let mut i: usize = 0;
    while i < n
        invariant
            i <= n,
            n == b@.len(),
            out@ == b@.subrange(0, i as int),
        decreases n - i,
    {
        out.push(b[i]);
        proof {
            assert(out@ =~= b@.subrange(0, i + 1 as int));
        }
        i = i + 1;
    }
    proof {
        assert(b@.subrange(0, n as int) =~= b@);
    }
    out
}

/// Byte-vector equality decided by scanning.
pub fn bytes_eq(a: &Vec<u8>, b: &Vec<u8>) -> (r: bool)
    ensures
        r == (a@ == b@),
{
    if a.len() != b.len() {
        proof {
            assert(a@.len() != b@.len());
        }
        return false;
    }
    let n = a.len();
    let mut i: usize = 0;
    while i < n
        invariant
            i <= n,
            n == a@.len() == b@.len(),
            forall|j: int| 0 <= j < i ==> a@[j] == b@[j],
        decreases n - i,
    {
        if a[i] != b[i] {
            return false;
        }
        i = i + 1;
    }
    proof {
        assert(a@ =~= b@);
    }
    true
}

/// Equality of two scalar values, as map-key comparison uses it.  Message
/// values are excluded: their equality is not decided here.
pub fn value_eq_scalar(a: &ReflectValueBox, b: &ReflectValueBox) -> (r: bool)
    requires
        !(a is Message),
        !(b is Message),
    ensures
        r == (value_model(*a) == value_model(*b)),
{
    match (a, b) {
        (ReflectValueBox::I32(x), ReflectValueBox::I32(y)) => x == y,
        (ReflectValueBox::I64(x), ReflectValueBox::I64(y)) => x == y,
        (ReflectValueBox::U32(x), ReflectValueBox::U32(y)) => x == y,
        (ReflectValueBox::U64(x), ReflectValueBox::U64(y)) => x == y,
        (ReflectValueBox::F32(x), ReflectValueBox::F32(y)) => x == y,
        (ReflectValueBox::F64(x), ReflectValueBox::F64(y)) => x == y,
        (ReflectValueBox::Bool(x), ReflectValueBox::Bool(y)) => x == y,
        (ReflectValueBox::String(x), ReflectValueBox::String(y)) => bytes_eq(x, y),
        (ReflectValueBox::Bytes(x), ReflectValueBox::Bytes(y)) => bytes_eq(x, y),
        (ReflectValueBox::Enum(d1, n1), ReflectValueBox::Enum(d2, n2)) => d1 == d2 && n1 == n2,
        _ => false,
    }
}

} // verus!
