//! The reflection surface of [`DynamicMessage`]: materialization, reads,
//! writes with oneof bookkeeping, and the oneof-exclusivity and lazy-read
//! laws.

use vstd::prelude::*;
use vstd::pervasive::unreached;
use crate::descriptor::{
    DescriptorPool, FieldDescriptor, FieldKind, MessageDescriptor, RuntimeFieldType,
    RuntimeTypeBox, Syntax,
};
use crate::value::{
    cell_model, cells_model, cells_view_wf, cell_view_wf, default_value, default_value_view,
    entries_clone, entries_model, lemma_cells_model_len, lemma_cells_view_wf_index,
    lemma_cells_view_wf_update, lemma_default_value_wf, lemma_entries_model_len,
    lemma_values_model_len, lemma_values_view_wf_index, lemma_values_view_wf_push, msg_view_wf,
    unknown_model, value_clone, value_eq_scalar, value_model, values_clone, values_model,
    values_view_wf, value_view_wf, CellView, DynamicFieldValue, DynamicMap, DynamicMessage,
    DynamicOptional, DynamicRepeated, MessageView, ReflectValueBox, UnknownFields, ValueView,
};

verus! {

// ----------------------------------------------------------------------------
// Spec-level transformers
// ----------------------------------------------------------------------------

/// The descriptor of message `m` inside `pool`.
pub open spec fn desc_of(pool: DescriptorPool, m: MessageView) -> MessageDescriptor {
    pool.messages@[m.descriptor]
}

/// The empty cell a field of the given shape starts from.
pub open spec fn default_cell_view(ft: RuntimeFieldType) -> CellView {
    match ft {
        RuntimeFieldType::Singular(_) => CellView::Singular(Option::None),
        RuntimeFieldType::Repeated(_) => CellView::Repeated(Seq::empty()),
        RuntimeFieldType::Keyed(_, _) => CellView::Keyed(Seq::empty()),
    }
}

/// A cell reset to empty, keeping its variant.
pub open spec fn spec_clear_cell(c: CellView) -> CellView {
    match c {
        CellView::Singular(_) => CellView::Singular(Option::None),
        CellView::Repeated(_) => CellView::Repeated(Seq::empty()),
        CellView::Keyed(_) => CellView::Keyed(Seq::empty()),
    }
}

/// A lazy message grown to full length with per-field default cells; a
/// materialized message is unchanged.
pub open spec fn spec_materialize(pool: DescriptorPool, m: MessageView) -> MessageView {
    if m.fields.len() > 0 {
        m
    } else {
        MessageView {
            descriptor: m.descriptor,
            fields: Seq::new(
                desc_of(pool, m).fields@.len(),
                |i: int| default_cell_view(desc_of(pool, m).fields@[i].spec_runtime_field_type()),
            ),
        }
    }
}

/// The proto3 default installed into a singular non-message cell; all other
/// cells are left untouched.
pub open spec fn spec_set_default_for_merge(f: FieldDescriptor, c: CellView) -> CellView {
    match f.spec_runtime_field_type() {
        RuntimeFieldType::Singular(t) => if t is Message {
            c
        } else {
            CellView::Singular(Option::Some(default_value_view(t)))
        },
        _ => c,
    }
}

/// Materialization followed, under proto3 only, by installing every
/// singular field's default value.
pub open spec fn spec_set_fields_default(pool: DescriptorPool, m: MessageView) -> MessageView {
    let m1 = spec_materialize(pool, m);
    if desc_of(pool, m).syntax is Proto3 {
        MessageView {
            descriptor: m1.descriptor,
            fields: Seq::new(
                m1.fields.len(),
                |i: int| spec_set_default_for_merge(desc_of(pool, m).fields@[i], m1.fields[i]),
            ),
        }
    } else {
        m1
    }
}

/// Whether field `j` shares a oneof group with field `idx` (and is not
/// `idx` itself).
pub open spec fn same_oneof_group(fds: Seq<FieldDescriptor>, idx: int, j: int) -> bool {
    j != idx && fds[idx].oneof_index is Some && fds[j].oneof_index == fds[idx].oneof_index
}

/// Every member of `idx`'s oneof group other than `idx` cleared; a message
/// without a group on `idx` is unchanged.
pub open spec fn spec_clear_oneof_siblings(pool: DescriptorPool, m: MessageView, idx: int) -> MessageView {
    MessageView {
        descriptor: m.descriptor,
        fields: Seq::new(
            m.fields.len(),
            |j: int| if same_oneof_group(desc_of(pool, m).fields@, idx, j) {
                spec_clear_cell(m.fields[j])
            } else {
                m.fields[j]
            },
        ),
    }
}

/// The message after `set_field`: materialized, with `idx`'s oneof
/// siblings cleared and `idx` holding exactly `v`.
pub open spec fn spec_set_field(pool: DescriptorPool, m: MessageView, idx: int, v: ValueView) -> MessageView {
    let m2 = spec_clear_oneof_siblings(pool, spec_materialize(pool, m), idx);
    MessageView {
        descriptor: m2.descriptor,
        fields: m2.fields.update(idx, CellView::Singular(Option::Some(v))),
    }
}

/// The message after `mut_singular_field_or_default`: as `set_field`, but
/// the slot keeps its value if already filled and receives the type default
/// otherwise.
pub open spec fn spec_mut_singular_or_default(pool: DescriptorPool, m: MessageView, idx: int) -> MessageView {
    let m2 = spec_clear_oneof_siblings(pool, spec_materialize(pool, m), idx);
    match m2.fields[idx] {
        CellView::Singular(o) => match o {
            Option::Some(_) => m2,
            Option::None => MessageView {
                descriptor: m2.descriptor,
                fields: m2.fields.update(
                    idx,
                    CellView::Singular(
                        Option::Some(
                            default_value_view(
                                desc_of(pool, m).fields@[idx].spec_runtime_field_type()->Singular_0,
                            ),
                        ),
                    ),
                ),
            },
        },
        _ => m2,
    }
}

/// The value `mut_singular_field_or_default` leaves in (and hands out of)
/// the slot.
pub open spec fn spec_singular_or_default_value(pool: DescriptorPool, m: MessageView, idx: int) -> ValueView {
    let m2 = spec_clear_oneof_siblings(pool, spec_materialize(pool, m), idx);
    match m2.fields[idx] {
        CellView::Singular(o) => match o {
            Option::Some(v) => v,
            Option::None => default_value_view(
                desc_of(pool, m).fields@[idx].spec_runtime_field_type()->Singular_0,
            ),
        },
        _ => default_value_view(
            desc_of(pool, m).fields@[idx].spec_runtime_field_type()->Singular_0,
        ),
    }
}

/// The view `get_reflect` returns: the cell itself, or the field's default
/// cell while the message is lazy.
pub open spec fn spec_get_reflect(pool: DescriptorPool, m: MessageView, idx: int) -> CellView {
    if m.fields.len() == 0 {
        default_cell_view(desc_of(pool, m).fields@[idx].spec_runtime_field_type())
    } else {
        m.fields[idx]
    }
}

/// The index of the first entry with key `k`, if any.
pub open spec fn spec_find_key(es: Seq<(ValueView, ValueView)>, k: ValueView, i: int) -> Option<int>
    decreases es.len() - i,
{
    if i < 0 || i >= es.len() {
        Option::None
    } else if es[i].0 == k {
        Option::Some(i)
    } else {
        spec_find_key(es, k, i + 1)
    }
}

/// Upsert into a keyed collection: replace the value behind an existing
/// key, or append a fresh pair.
pub open spec fn spec_entries_insert(es: Seq<(ValueView, ValueView)>, k: ValueView, v: ValueView) -> Seq<(ValueView, ValueView)> {
    match spec_find_key(es, k, 0) {
        Option::Some(i) => es.update(i, (k, v)),
        Option::None => es.push((k, v)),
    }
}

/// The message after appending `v` to the repeated field `idx`:
/// materialized, with the element sequence one longer.
pub open spec fn spec_repeated_push(pool: DescriptorPool, m: MessageView, idx: int, v: ValueView) -> MessageView {
    let m1 = spec_materialize(pool, m);
    match m1.fields[idx] {
        CellView::Repeated(vs) => MessageView {
            descriptor: m1.descriptor,
            fields: m1.fields.update(idx, CellView::Repeated(vs.push(v))),
        },
        _ => m1,
    }
}

/// The message after upserting `(k, v)` into the map field `idx`.
pub open spec fn spec_map_insert(pool: DescriptorPool, m: MessageView, idx: int, k: ValueView, v: ValueView) -> MessageView {
    let m1 = spec_materialize(pool, m);
    match m1.fields[idx] {
        CellView::Keyed(es) => MessageView {
            descriptor: m1.descriptor,
            fields: m1.fields.update(idx, CellView::Keyed(spec_entries_insert(es, k, v))),
        },
        _ => m1,
    }
}

/// Every cell reset to empty; a lazy message has nothing to reset.
pub open spec fn spec_clear_msg(m: MessageView) -> MessageView {
    MessageView {
        descriptor: m.descriptor,
        fields: Seq::new(m.fields.len(), |i: int| spec_clear_cell(m.fields[i])),
    }
}

/// No message in the pool declares a map-valued field.
pub open spec fn spec_no_map_fields(pool: DescriptorPool) -> bool {
    forall|mi: int, fi: int|
        0 <= mi < pool.messages@.len() && 0 <= fi < pool.messages@[mi].fields@.len() ==> !((
        #[trigger] pool.messages@[mi].fields@[fi]).kind is Keyed)
}

/// A cell that holds a value a oneof slot would count as occupied.
pub open spec fn cell_is_set(c: CellView) -> bool {
    c matches CellView::Singular(Option::Some(_))
}

/// At most one member of each oneof group holds a value.
pub open spec fn spec_oneof_consistent(pool: DescriptorPool, m: MessageView) -> bool {
    forall|i: int, j: int|
        0 <= i < m.fields.len() && 0 <= j < m.fields.len() && same_oneof_group(
            desc_of(pool, m).fields@,
            i,
            j,
        ) ==> !(cell_is_set(#[trigger] m.fields[i]) && cell_is_set(#[trigger] m.fields[j]))
}

// ----------------------------------------------------------------------------
// Owned read-only views
// ----------------------------------------------------------------------------

/// The owned snapshot `get_reflect` hands out: one variant per field shape.
#[derive(Debug)]
pub enum ReflectFieldRef {
    Optional(Option<ReflectValueBox>),
    Repeated(Vec<ReflectValueBox>),
    Keyed(Vec<(ReflectValueBox, ReflectValueBox)>),
}

/// The model of a read-only field view, shaped exactly like a cell model.
pub open spec fn ref_model(r: ReflectFieldRef) -> CellView {
    match r {
        ReflectFieldRef::Optional(o) => CellView::Singular(
            match o {
                Option::None => Option::None,
                Option::Some(v) => Option::Some(value_model(v)),
            },
        ),
        ReflectFieldRef::Repeated(vs) => CellView::Repeated(values_model(vs@)),
        ReflectFieldRef::Keyed(es) => CellView::Keyed(entries_model(es@)),
    }
}

// ----------------------------------------------------------------------------
// Helper lemmas
// ----------------------------------------------------------------------------

pub proof fn lemma_cells_model_update(cs: Seq<DynamicFieldValue>, i: int, c: DynamicFieldValue)
    requires
        0 <= i < cs.len(),
    ensures
        cells_model(cs.update(i, c)) == cells_model(cs).update(i, cell_model(c)),
{
    lemma_cells_model_len(cs);
    lemma_cells_model_len(cs.update(i, c));
    assert forall|j: int| 0 <= j < cs.len() implies cells_model(cs.update(i, c))[j] == cells_model(
        cs,
    ).update(i, cell_model(c))[j] by {
        if j == i {
            assert(cs.update(i, c)[j] == c);
        } else {
            assert(cs.update(i, c)[j] == cs[j]);
        }
    }
    assert(cells_model(cs.update(i, c)) =~= cells_model(cs).update(i, cell_model(c)));
}

pub proof fn lemma_values_model_push(vs: Seq<ReflectValueBox>, v: ReflectValueBox)
    ensures
        values_model(vs.push(v)) == values_model(vs).push(value_model(v)),
{
    assert(vs.push(v).drop_last() =~= vs);
    assert(vs.push(v).last() == v);
}

pub proof fn lemma_entries_model_update(
    es: Seq<(ReflectValueBox, ReflectValueBox)>,
    i: int,
    p: (ReflectValueBox, ReflectValueBox),
)
    requires
        0 <= i < es.len(),
    ensures
        entries_model(es.update(i, p)) == entries_model(es).update(
            i,
            (value_model(p.0), value_model(p.1)),
        ),
{
    lemma_entries_model_len(es);
    lemma_entries_model_len(es.update(i, p));
    assert forall|j: int| 0 <= j < es.len() implies entries_model(es.update(i, p))[j]
        == entries_model(es).update(i, (value_model(p.0), value_model(p.1)))[j] by {
        if j == i {
            assert(es.update(i, p)[j] == p);
        } else {
            assert(es.update(i, p)[j] == es[j]);
        }
    }
    assert(entries_model(es.update(i, p)) =~= entries_model(es).update(
        i,
        (value_model(p.0), value_model(p.1)),
    ));
}

pub proof fn lemma_entries_model_push(
    es: Seq<(ReflectValueBox, ReflectValueBox)>,
    p: (ReflectValueBox, ReflectValueBox),
)
    ensures
        entries_model(es.push(p)) == entries_model(es).push((value_model(p.0), value_model(p.1))),
{
    assert(es.push(p).drop_last() =~= es);
    assert(es.push(p).last() == p);
}

/// A missing key differs from every key at or after `i`.
pub proof fn lemma_find_key_none(es: Seq<(ValueView, ValueView)>, k: ValueView, i: int)
    requires
        0 <= i,
        spec_find_key(es, k, i) is None,
    ensures
        forall|j: int| i <= j < es.len() ==> (#[trigger] es[j]).0 != k,
    decreases es.len() - i,
{
    if 0 <= i < es.len() {
        lemma_find_key_none(es, k, i + 1);
    }
}

/// A found key sits in range, matches, and nothing before it matches.
pub proof fn lemma_find_key_some(es: Seq<(ValueView, ValueView)>, k: ValueView, i: int)
    requires
        spec_find_key(es, k, i) is Some,
    ensures
        i <= spec_find_key(es, k, i)->Some_0 < es.len(),
        es[spec_find_key(es, k, i)->Some_0].0 == k,
    decreases es.len() - i,
{
    if 0 <= i < es.len() && es[i].0 != k {
        lemma_find_key_some(es, k, i + 1);
    }
}

pub proof fn lemma_entries_view_wf_index(
    pool: DescriptorPool,
    kt: RuntimeTypeBox,
    vt: RuntimeTypeBox,
    es: Seq<(ValueView, ValueView)>,
    i: int,
)
    requires
        crate::value::entries_view_wf(pool, kt, vt, es),
        0 <= i < es.len(),
    ensures
        value_view_wf(pool, kt, es[i].0),
        value_view_wf(pool, vt, es[i].1),
    decreases es,
{
    if i == es.len() - 1 {
    } else {
        lemma_entries_view_wf_index(pool, kt, vt, es.drop_last(), i);
    }
}

pub proof fn lemma_entries_view_wf_update(
    pool: DescriptorPool,
    kt: RuntimeTypeBox,
    vt: RuntimeTypeBox,
    es: Seq<(ValueView, ValueView)>,
    i: int,
    p: (ValueView, ValueView),
)
    requires
        crate::value::entries_view_wf(pool, kt, vt, es),
        0 <= i < es.len(),
        value_view_wf(pool, kt, p.0),
        value_view_wf(pool, vt, p.1),
    ensures
        crate::value::entries_view_wf(pool, kt, vt, es.update(i, p)),
    decreases es,
{
    let es2 = es.update(i, p);
    if i == es.len() - 1 {
        assert(es2.drop_last() =~= es.drop_last());
        assert(es2.last() == p);
    } else {
        lemma_entries_view_wf_update(pool, kt, vt, es.drop_last(), i, p);
        assert(es2.drop_last() =~= es.drop_last().update(i, p));
        assert(es2.last() == es.last());
    }
}

pub proof fn lemma_entries_view_wf_push(
    pool: DescriptorPool,
    kt: RuntimeTypeBox,
    vt: RuntimeTypeBox,
    es: Seq<(ValueView, ValueView)>,
    p: (ValueView, ValueView),
)
    requires
        crate::value::entries_view_wf(pool, kt, vt, es),
        value_view_wf(pool, kt, p.0),
        value_view_wf(pool, vt, p.1),
    ensures
        crate::value::entries_view_wf(pool, kt, vt, es.push(p)),
{
    assert(es.push(p).drop_last() =~= es);
    assert(es.push(p).last() == p);
}

impl DynamicFieldValue {
    /// Builds the cleared twin of this cell: same variant, empty contents.
    pub fn cleared(&self) -> (r: DynamicFieldValue)
        ensures
            cell_model(r) == spec_clear_cell(cell_model(*self)),
    {
        match self {
            DynamicFieldValue::Singular(_) => DynamicFieldValue::Singular(
                DynamicOptional { value: Option::None },
            ),
            DynamicFieldValue::Repeated(_) => DynamicFieldValue::Repeated(
                DynamicRepeated { values: Vec::new() },
            ),
            DynamicFieldValue::Keyed(_) => DynamicFieldValue::Keyed(
                DynamicMap { entries: Vec::new() },
            ),
        }
    }

    /// Resets the cell to empty, keeping its declared variant.
    pub fn clear(&mut self)
        ensures
            cell_model(*final(self)) == spec_clear_cell(cell_model(*old(self))),
    {
        let c = self.cleared();
        *self = c;
    }

    /// An owned read-only view over this cell.
    pub fn as_ref(&self) -> (r: ReflectFieldRef)
        ensures
            ref_model(r) == cell_model(*self),
    {
        match self {
            DynamicFieldValue::Singular(o) => ReflectFieldRef::Optional(
                match &o.value {
                    Option::None => Option::None,
                    Option::Some(v) => Option::Some(value_clone(v)),
                },
            ),
            DynamicFieldValue::Repeated(r0) => ReflectFieldRef::Repeated(values_clone(&r0.values)),
            DynamicFieldValue::Keyed(m) => ReflectFieldRef::Keyed(entries_clone(&m.entries)),
        }
    }

    /// The empty cell a field starts from, shaped by its descriptor.
    pub fn default_for_field(field: &FieldDescriptor) -> (r: DynamicFieldValue)
        ensures
            cell_model(r) == default_cell_view(field.spec_runtime_field_type()),
    {
        match field.runtime_field_type() {
            RuntimeFieldType::Singular(_) => DynamicFieldValue::Singular(
                DynamicOptional { value: Option::None },
            ),
            RuntimeFieldType::Repeated(_) => DynamicFieldValue::Repeated(
                DynamicRepeated { values: Vec::new() },
            ),
            RuntimeFieldType::Keyed(_, _) => DynamicFieldValue::Keyed(
                DynamicMap { entries: Vec::new() },
            ),
        }
    }

    /// Installs the proto3 default into a singular non-message slot; any
    /// other cell is left as it is.
    pub fn set_default_for_merge(&mut self, field: &FieldDescriptor)
        requires
            field.spec_runtime_field_type() is Singular ==> (*old(self)) is Singular,
        ensures
            cell_model(*final(self)) == spec_set_default_for_merge(*field, cell_model(*old(self))),
    {
        match field.runtime_field_type() {
            RuntimeFieldType::Singular(t) => {
                match t {
                    RuntimeTypeBox::Message(_) => {},
                    _ => {
                        let v = default_value(t);
                        match self {
                            DynamicFieldValue::Singular(o) => {
                                o.value = Option::Some(v);
                            },
                            _ => {
                                proof {
                                    assert(false);
                                }
                            },
                        }
                    },
                }
            },
            _ => {},
        }
    }
}

// ----------------------------------------------------------------------------
// DynamicMessage operations
// ----------------------------------------------------------------------------

impl DynamicMessage {
    /// A fresh, lazy message over the pool entry `descriptor`.
    pub fn new(descriptor: usize) -> (r: DynamicMessage)
        ensures
            r.model() == (MessageView { descriptor: descriptor as int, fields: Seq::empty() }),
            unknown_model(r.unknown_fields) == Seq::<(u32, Seq<u8>)>::empty(),
            r.cached_size == 0,
    {
        let r = DynamicMessage {
            descriptor,
            fields: Vec::new(),
            unknown_fields: UnknownFields { entries: Vec::new() },
            cached_size: 0,
        };
        proof {
            assert(unknown_model(r.unknown_fields) =~= Seq::<(u32, Seq<u8>)>::empty());
        }
        r
    }

    /// A fresh message is well formed under any pool its descriptor indexes.
    pub proof fn lemma_new_wf(pool: DescriptorPool, m: DynamicMessage)
        requires
            m.model() == (MessageView { descriptor: m.descriptor as int, fields: Seq::empty() }),
            m.descriptor < pool.messages@.len(),
        ensures
            m.wf(pool),
    {
    }

    /// Grows a lazy message to one default cell per field; no-op once
    /// materialized.
    pub fn init_fields(&mut self, pool: &DescriptorPool)
        requires
            old(self).descriptor < pool.messages@.len(),
            old(self).wf(*pool),
        ensures
            final(self).model() == spec_materialize(*pool, old(self).model()),
            final(self).wf(*pool),
            final(self).descriptor == old(self).descriptor,
            final(self).unknown_fields == old(self).unknown_fields,
            final(self).cached_size == old(self).cached_size,
    {
        proof {
            lemma_cells_model_len(self.fields@);
        }
        if self.fields.len() == 0 {
            let desc = &pool.messages[self.descriptor];
            let n = desc.fields.len();
            let mut cells: Vec<DynamicFieldValue> = Vec::new();
            let mut i: usize = 0;
            while i < n
                invariant
                    i <= n,
                    n == desc.fields@.len(),
                    cells@.len() == i,
                    desc == pool.messages@[old(self).descriptor as int],
                    forall|j: int| 0 <= j < i ==> cell_model(#[trigger] cells@[j])
                        == default_cell_view(desc.fields@[j].spec_runtime_field_type()),
                decreases n - i,
            {
                let c = DynamicFieldValue::default_for_field(&desc.fields[i]);
                cells.push(c);
                i = i + 1;
            }
            self.fields = cells;
            proof {
                lemma_cells_model_len(self.fields@);
                let target = spec_materialize(*pool, old(self).model());
                assert(target.fields.len() == n);
                assert forall|j: int| 0 <= j < n as int implies cells_model(self.fields@)[j]
                    == target.fields[j] by {
                    assert(cell_model(self.fields@[j]) == default_cell_view(
                        pool.messages@[old(self).descriptor as int].fields@[j].spec_runtime_field_type(),
                    ));
                }
                assert(self.model().fields =~= target.fields);
                lemma_materialize_wf(*pool, old(self).model());
            }
        }
    }

    /// Reads one field: the cell's owned view, or the field's default view
    /// while the message is lazy.
    pub fn get_reflect(&self, pool: &DescriptorPool, idx: usize) -> (r: ReflectFieldRef)
        requires
            self.descriptor < pool.messages@.len(),
            idx < pool.messages@[self.descriptor as int].fields@.len(),
            self.wf(*pool),
        ensures
            ref_model(r) == spec_get_reflect(*pool, self.model(), idx as int),
    {
        proof {
            lemma_cells_model_len(self.fields@);
        }
        if self.fields.len() == 0 {
            let f = &pool.messages[self.descriptor].fields[idx];
            match f.runtime_field_type() {
                RuntimeFieldType::Singular(_) => ReflectFieldRef::Optional(Option::None),
                RuntimeFieldType::Repeated(_) => ReflectFieldRef::Repeated(Vec::new()),
                RuntimeFieldType::Keyed(_, _) => ReflectFieldRef::Keyed(Vec::new()),
            }
        } else {
            self.fields[idx].as_ref()
        }
    }

    /// Empties one field's cell; a lazy message is left untouched.
    pub fn clear_field(&mut self, pool: &DescriptorPool, idx: usize)
        requires
            old(self).descriptor < pool.messages@.len(),
            idx < pool.messages@[old(self).descriptor as int].fields@.len(),
            old(self).wf(*pool),
        ensures
            final(self).model() == (if old(self).model().fields.len() == 0 {
                old(self).model()
            } else {
                MessageView {
                    descriptor: old(self).model().descriptor,
                    fields: old(self).model().fields.update(
                        idx as int,
                        spec_clear_cell(old(self).model().fields[idx as int]),
                    ),
                }
            }),
            final(self).wf(*pool),
            final(self).descriptor == old(self).descriptor,
            final(self).unknown_fields == old(self).unknown_fields,
            final(self).cached_size == old(self).cached_size,
    {
        proof {
            lemma_cells_model_len(self.fields@);
        }
        if self.fields.len() == 0 {
            return ;
        }
        let cleared = self.fields[idx].cleared();
        self.fields.set(idx, cleared);
        proof {
            lemma_cells_model_update(old(self).fields@, idx as int, self.fields@[idx as int]);
            lemma_clear_field_wf(*pool, old(self).model(), idx as int);
        }
    }
}

impl DynamicMessage {
    /// Materializes, then installs every singular field's proto3 default;
    /// under proto2 the defaults stay unset.
    pub fn set_fields_default(&mut self, pool: &DescriptorPool)
        requires
            old(self).descriptor < pool.messages@.len(),
            old(self).wf(*pool),
        ensures
            final(self).model() == spec_set_fields_default(*pool, old(self).model()),
            final(self).wf(*pool),
            final(self).descriptor == old(self).descriptor,
            final(self).unknown_fields == old(self).unknown_fields,
            final(self).cached_size == old(self).cached_size,
    {
        self.init_fields(pool);
        let ghost m1 = spec_materialize(*pool, old(self).model());
        let desc = &pool.messages[self.descriptor];
        match desc.syntax {
            Syntax::Proto2 => {
                return ;
            },
            Syntax::Proto3 => {},
        }
        let n = desc.fields.len();
        proof {
            lemma_cells_model_len(self.fields@);
            assert forall|j: int| 0 <= j < n as int implies cell_view_wf(
                *pool,
                desc.fields@[j],
                cell_model(#[trigger] self.fields@[j]),
            ) by {
                lemma_cells_view_wf_index(*pool, desc.fields@, self.model().fields, j);
            }
        }
        let mut i: usize = 0;
        while i < n
            invariant
                i <= n,
                n == desc.fields@.len(),
                desc == pool.messages@[old(self).descriptor as int],
                self.descriptor == old(self).descriptor,
                self.unknown_fields == old(self).unknown_fields,
                self.cached_size == old(self).cached_size,
                self.fields@.len() == n,
                m1.fields.len() == n,
                m1 == spec_materialize(*pool, old(self).model()),
                desc_of(*pool, old(self).model()).syntax is Proto3,
                forall|j: int| 0 <= j < i ==> cell_model(#[trigger] self.fields@[j])
                    == spec_set_default_for_merge(desc.fields@[j], m1.fields[j]),
                forall|j: int| i <= j < n ==> cell_model(#[trigger] self.fields@[j])
                    == m1.fields[j],
                forall|j: int| 0 <= j < n ==> cell_view_wf(
                    *pool,
                    desc.fields@[j],
                    cell_model(#[trigger] self.fields@[j]),
                ),
            decreases n - i,
        {
            proof {
                lemma_cells_model_len(self.fields@);
                assert(cell_view_wf(*pool, desc.fields@[i as int], cell_model(self.fields@[i as int])));
            }
            let f = desc.fields[i].clone();
            let ghost prev = self.fields@;
            let cell = &mut self.fields[i];
            proof {
                if f.spec_runtime_field_type() is Singular {
                    assert(cell_model(*cell) is Singular);
                }
            }
            cell.set_default_for_merge(&f);
            proof {
                assert(self.fields@ =~= prev.update(i as int, self.fields@[i as int]));
                lemma_cells_model_len(self.fields@);
                match f.spec_runtime_field_type() {
                    RuntimeFieldType::Singular(t) => {
                        if !(t is Message) {
                            lemma_default_value_wf(*pool, t);
                        }
                    },
                    _ => {},
                }
                assert forall|j: int| 0 <= j < n as int implies cell_view_wf(
                    *pool,
                    desc.fields@[j],
                    cell_model(#[trigger] self.fields@[j]),
                ) by {
                    if j != i as int {
                        assert(self.fields@[j] == prev[j]);
                    }
                }
            }
            i = i + 1;
        }
        proof {
            lemma_cells_model_len(self.fields@);
            let target = spec_set_fields_default(*pool, old(self).model());
            assert(target.fields.len() == n);
            assert forall|j: int| 0 <= j < n as int implies cells_model(self.fields@)[j]
                == target.fields[j] by {
                assert(cell_model(self.fields@[j]) == spec_set_default_for_merge(
                    desc_of(*pool, old(self).model()).fields@[j],
                    m1.fields[j],
                ));
            }
            assert(self.model().fields =~= target.fields);
            assert forall|k: int| 0 <= k < n as int implies cell_view_wf(
                *pool,
                desc_of(*pool, old(self).model()).fields@[k],
                #[trigger] self.model().fields[k],
            ) by {
                assert(self.model().fields[k] == cell_model(self.fields@[k]));
            }
            lemma_cells_view_wf_pointwise(
                *pool,
                desc_of(*pool, old(self).model()).fields@,
                self.model().fields,
            );
        }
    }

    /// Clears every member of `idx`'s oneof group except `idx` itself; a
    /// field outside any group leaves the message unchanged.
    pub fn clear_oneof_group_fields_except(&mut self, pool: &DescriptorPool, idx: usize)
        requires
            old(self).descriptor < pool.messages@.len(),
            idx < pool.messages@[old(self).descriptor as int].fields@.len(),
            old(self).wf(*pool),
        ensures
            final(self).model() == spec_clear_oneof_siblings(*pool, old(self).model(), idx as int),
            final(self).wf(*pool),
            final(self).descriptor == old(self).descriptor,
            final(self).unknown_fields == old(self).unknown_fields,
            final(self).cached_size == old(self).cached_size,
    {
        proof {
            lemma_cells_model_len(self.fields@);
        }
        let ghost m0 = self.model();
        let ghost fds = desc_of(*pool, m0).fields@;
        let len = self.fields.len();
        proof {
            assert forall|k: int| 0 <= k < len as int implies cell_view_wf(
                *pool,
                fds[k],
                cell_model(#[trigger] self.fields@[k]),
            ) by {
                lemma_cells_view_wf_index(*pool, fds, m0.fields, k);
            }
        }
        let desc = &pool.messages[self.descriptor];
        let own = desc.fields[idx].oneof_index;
        match own {
            Option::None => {
                proof {
                    let target = spec_clear_oneof_siblings(*pool, m0, idx as int);
                    assert(target.fields =~= m0.fields);
                }
                return ;
            },
            Option::Some(g) => {
                let mut j: usize = 0;
                while j < len
                    invariant
                        j <= len,
                        len == self.fields@.len(),
                        m0.fields.len() == len,
                        self.descriptor == old(self).descriptor,
                        self.unknown_fields == old(self).unknown_fields,
                        self.cached_size == old(self).cached_size,
                        m0 == old(self).model(),
                        fds == desc_of(*pool, m0).fields@,
                        len <= fds.len(),
                        idx < fds.len(),
                        fds[idx as int].oneof_index == Option::Some(g),
                        desc == pool.messages@[old(self).descriptor as int],
                        old(self).wf(*pool),
                        forall|k: int| 0 <= k < j ==> cell_model(#[trigger] self.fields@[k]) == (
                        if same_oneof_group(fds, idx as int, k) {
                            spec_clear_cell(m0.fields[k])
                        } else {
                            m0.fields[k]
                        }),
                        forall|k: int| j <= k < len ==> cell_model(#[trigger] self.fields@[k])
                            == m0.fields[k],
                        forall|k: int| 0 <= k < len ==> cell_view_wf(
                            *pool,
                            fds[k],
                            cell_model(#[trigger] self.fields@[k]),
                        ),
                    decreases len - j,
                {
                    proof {
                        lemma_cells_model_len(self.fields@);
                    }
                    let is_sibling: bool = if j == idx {
                        false
                    } else {
                        match desc.fields[j].oneof_index {
                            Option::Some(g2) => g2 == g,
                            Option::None => false,
                        }
                    };
                    proof {
                        assert(is_sibling == same_oneof_group(fds, idx as int, j as int));
                    }
                    if is_sibling {
                        let ghost prev = self.fields@;
                        let cleared = self.fields[j].cleared();
                        self.fields.set(j, cleared);
                        proof {
                            assert(self.fields@ =~= prev.update(j as int, self.fields@[j as int]));
                            lemma_clear_cell_wf(
                                *pool,
                                fds[j as int],
                                cell_model(prev[j as int]),
                            );
                            assert forall|k: int| 0 <= k < len as int implies cell_view_wf(
                                *pool,
                                fds[k],
                                cell_model(#[trigger] self.fields@[k]),
                            ) by {
                                if k != j as int {
                                    assert(self.fields@[k] == prev[k]);
                                }
                            }
                        }
                    }
                    j = j + 1;
                }
                proof {
                    lemma_cells_model_len(self.fields@);
                    let target = spec_clear_oneof_siblings(*pool, m0, idx as int);
                    assert(target.fields.len() == len);
                    assert forall|k: int| 0 <= k < len as int implies cells_model(self.fields@)[k]
                        == target.fields[k] by {
                        assert(cell_model(self.fields@[k]) == (if same_oneof_group(
                            fds,
                            idx as int,
                            k,
                        ) {
                            spec_clear_cell(m0.fields[k])
                        } else {
                            m0.fields[k]
                        }));
                    }
                    assert(self.model().fields =~= target.fields);
                    assert forall|k: int| 0 <= k < len as int implies cell_view_wf(
                        *pool,
                        fds[k],
                        #[trigger] self.model().fields[k],
                    ) by {
                        assert(self.model().fields[k] == cell_model(self.fields@[k]));
                    }
                    lemma_cells_view_wf_pointwise(*pool, fds, self.model().fields);
                }
            },
        }
    }

    /// Installs `value` into the singular field `idx`: materializes, clears
    /// the other members of `idx`'s oneof group, and assigns.
    pub fn set_field(&mut self, pool: &DescriptorPool, idx: usize, value: ReflectValueBox)
        requires
            old(self).descriptor < pool.messages@.len(),
            idx < pool.messages@[old(self).descriptor as int].fields@.len(),
            old(self).wf(*pool),
            pool.messages@[old(self).descriptor as int].fields@[idx as int].spec_runtime_field_type() is Singular,
            value_view_wf(
                *pool,
                pool.messages@[old(self).descriptor as int].fields@[idx as int].spec_runtime_field_type()->Singular_0,
                value_model(value),
            ),
        ensures
            final(self).model() == spec_set_field(
                *pool,
                old(self).model(),
                idx as int,
                value_model(value),
            ),
            final(self).wf(*pool),
            final(self).descriptor == old(self).descriptor,
            final(self).unknown_fields == old(self).unknown_fields,
            final(self).cached_size == old(self).cached_size,
    {
        self.init_fields(pool);
        self.clear_oneof_group_fields_except(pool, idx);
        let ghost fds = desc_of(*pool, old(self).model()).fields@;
        let ghost prev = self.fields@;
        proof {
            lemma_cells_model_len(self.fields@);
        }
        let cell = DynamicFieldValue::Singular(DynamicOptional { value: Option::Some(value) });
        self.fields.set(idx, cell);
        proof {
            lemma_cells_model_update(prev, idx as int, self.fields@[idx as int]);
            lemma_cells_view_wf_update(
                *pool,
                fds,
                cells_model(prev),
                idx as int,
                cell_model(self.fields@[idx as int]),
            );
        }
    }
}

/// Replaces the value behind an existing key, or appends a fresh pair.
fn entries_upsert(
    es: &mut Vec<(ReflectValueBox, ReflectValueBox)>,
    key: ReflectValueBox,
    value: ReflectValueBox,
)
    requires
        !(key is Message),
        forall|i: int| 0 <= i < old(es)@.len() ==> !((#[trigger] old(es)@[i]).0 is Message),
    ensures
        entries_model(final(es)@) == spec_entries_insert(
            entries_model(old(es)@),
            value_model(key),
            value_model(value),
        ),
{
    let ghost em = entries_model(es@);
    let ghost km = value_model(key);
    proof {
        lemma_entries_model_len(es@);
    }
    let n = es.len();
    let mut i: usize = 0;
    while i < n
        invariant
            i <= n,
            n == es@.len(),
            es@ == old(es)@,
            em == entries_model(es@),
            km == value_model(key),
            !(key is Message),
            forall|j: int| 0 <= j < es@.len() ==> !((#[trigger] es@[j]).0 is Message),
            spec_find_key(em, km, 0) == spec_find_key(em, km, i as int),
        decreases n - i,
    {
        proof {
            lemma_entries_model_len(es@);
        }
        if value_eq_scalar(&es[i].0, &key) {
            proof {
                assert(em[i as int].0 == km);
                assert(spec_find_key(em, km, i as int) == Option::Some(i as int));
            }
            es.set(i, (key, value));
            proof {
                lemma_entries_model_update(old(es)@, i as int, es@[i as int]);
            }
            return ;
        }
        proof {
            assert(em[i as int].0 != km);
        }
        i = i + 1;
    }
    proof {
        assert(spec_find_key(em, km, 0) is None);
    }
    es.push((key, value));
    proof {
        lemma_entries_model_push(old(es)@, es@[es@.len() - 1]);
    }
}

impl DynamicMessage {
    /// Materializes, clears `idx`'s oneof siblings, installs the type
    /// default if the slot is empty, and hands back a copy of the value the
    /// slot then holds.
    pub fn mut_singular_field_or_default(&mut self, pool: &DescriptorPool, idx: usize) -> (r: ReflectValueBox)
        requires
            old(self).descriptor < pool.messages@.len(),
            idx < pool.messages@[old(self).descriptor as int].fields@.len(),
            old(self).wf(*pool),
            crate::descriptor::pool_wf(*pool),
            pool.messages@[old(self).descriptor as int].fields@[idx as int].spec_runtime_field_type() is Singular,
        ensures
            final(self).model() == spec_mut_singular_or_default(
                *pool,
                old(self).model(),
                idx as int,
            ),
            value_model(r) == spec_singular_or_default_value(*pool, old(self).model(), idx as int),
            final(self).wf(*pool),
            final(self).descriptor == old(self).descriptor,
            final(self).unknown_fields == old(self).unknown_fields,
            final(self).cached_size == old(self).cached_size,
    {
        self.init_fields(pool);
        self.clear_oneof_group_fields_except(pool, idx);
        let ghost m2 = self.model();
        let ghost fds = desc_of(*pool, old(self).model()).fields@;
        proof {
            lemma_cells_model_len(self.fields@);
            lemma_cells_view_wf_index(*pool, fds, m2.fields, idx as int);
        }
        let f = pool.messages[self.descriptor].fields[idx];
        let t = crate::descriptor::runtime_type(f.proto_type, f.type_ref);
        let ghost prev = self.fields@;
        let cell = &mut self.fields[idx];
        let r = match cell {
            DynamicFieldValue::Singular(o) => {
                match &o.value {
                    Option::None => {
                        proof {
                            assert(crate::descriptor::field_wf(*pool, fds[idx as int]));
                            lemma_default_value_wf(*pool, t);
                        }
                        o.value = Option::Some(default_value(t));
                    },
                    Option::Some(_) => {},
                }
                match &o.value {
                    Option::Some(v) => value_clone(v),
                    Option::None => unreached(),
                }
            },
            _ => unreached(),
        };
        proof {
            assert(self.fields@ =~= prev.update(idx as int, self.fields@[idx as int]));
            lemma_cells_model_update(prev, idx as int, self.fields@[idx as int]);
            lemma_cells_view_wf_update(
                *pool,
                fds,
                m2.fields,
                idx as int,
                cell_model(self.fields@[idx as int]),
            );
            let target = spec_mut_singular_or_default(*pool, old(self).model(), idx as int);
            match m2.fields[idx as int] {
                CellView::Singular(o) => {
                    match o {
                        Option::Some(_) => {
                            assert(cell_model(self.fields@[idx as int]) == m2.fields[idx as int]);
                            assert(self.model().fields =~= m2.fields);
                        },
                        Option::None => {
                            assert(self.model().fields =~= target.fields);
                        },
                    }
                },
                _ => {
                    assert(false);
                },
            }
            assert(self.model() == target);
        }
        r
    }

    /// Materializes so the repeated field `idx` can be edited in place.
    pub fn mut_repeated(&mut self, pool: &DescriptorPool, idx: usize)
        requires
            old(self).descriptor < pool.messages@.len(),
            idx < pool.messages@[old(self).descriptor as int].fields@.len(),
            old(self).wf(*pool),
            pool.messages@[old(self).descriptor as int].fields@[idx as int].spec_runtime_field_type() is Repeated,
        ensures
            final(self).model() == spec_materialize(*pool, old(self).model()),
            final(self).wf(*pool),
            final(self).descriptor == old(self).descriptor,
            final(self).unknown_fields == old(self).unknown_fields,
            final(self).cached_size == old(self).cached_size,
    {
        self.init_fields(pool);
    }

    /// Materializes so the map field `idx` can be edited in place.
    pub fn mut_map(&mut self, pool: &DescriptorPool, idx: usize)
        requires
            old(self).descriptor < pool.messages@.len(),
            idx < pool.messages@[old(self).descriptor as int].fields@.len(),
            old(self).wf(*pool),
            pool.messages@[old(self).descriptor as int].fields@[idx as int].spec_runtime_field_type() is Keyed,
        ensures
            final(self).model() == spec_materialize(*pool, old(self).model()),
            final(self).wf(*pool),
            final(self).descriptor == old(self).descriptor,
            final(self).unknown_fields == old(self).unknown_fields,
            final(self).cached_size == old(self).cached_size,
    {
        self.init_fields(pool);
    }

    /// Appends one value to the repeated field `idx`.
    pub fn repeated_push(&mut self, pool: &DescriptorPool, idx: usize, value: ReflectValueBox)
        requires
            old(self).descriptor < pool.messages@.len(),
            idx < pool.messages@[old(self).descriptor as int].fields@.len(),
            old(self).wf(*pool),
            pool.messages@[old(self).descriptor as int].fields@[idx as int].spec_runtime_field_type() is Repeated,
            value_view_wf(
                *pool,
                pool.messages@[old(self).descriptor as int].fields@[idx as int].spec_runtime_field_type()->Repeated_0,
                value_model(value),
            ),
        ensures
            final(self).model() == spec_repeated_push(
                *pool,
                old(self).model(),
                idx as int,
                value_model(value),
            ),
            final(self).wf(*pool),
            final(self).descriptor == old(self).descriptor,
            final(self).unknown_fields == old(self).unknown_fields,
            final(self).cached_size == old(self).cached_size,
    {
        self.init_fields(pool);
        let ghost m1 = self.model();
        let ghost fds = desc_of(*pool, old(self).model()).fields@;
        proof {
            lemma_cells_model_len(self.fields@);
            lemma_cells_view_wf_index(*pool, fds, m1.fields, idx as int);
        }
        let ghost prev = self.fields@;
        let cell = &mut self.fields[idx];
        match cell {
            DynamicFieldValue::Repeated(rp) => {
                let ghost vs_prev = rp.values@;
                rp.values.push(value);
                proof {
                    lemma_values_model_push(vs_prev, value);
                }
            },
            _ => {
                proof {
                    assert(false);
                }
            },
        }
        proof {
            assert(self.fields@ =~= prev.update(idx as int, self.fields@[idx as int]));
            lemma_cells_model_update(prev, idx as int, self.fields@[idx as int]);
            lemma_values_view_wf_push(
                *pool,
                fds[idx as int].spec_runtime_field_type()->Repeated_0,
                m1.fields[idx as int]->Repeated_0,
                value_model(value),
            );
            lemma_cells_view_wf_update(
                *pool,
                fds,
                m1.fields,
                idx as int,
                cell_model(self.fields@[idx as int]),
            );
        }
    }

    /// Upserts one key/value pair into the map field `idx`.
    pub fn map_insert(
        &mut self,
        pool: &DescriptorPool,
        idx: usize,
        key: ReflectValueBox,
        value: ReflectValueBox,
    )
        requires
            old(self).descriptor < pool.messages@.len(),
            idx < pool.messages@[old(self).descriptor as int].fields@.len(),
            old(self).wf(*pool),
            crate::descriptor::pool_wf(*pool),
            pool.messages@[old(self).descriptor as int].fields@[idx as int].spec_runtime_field_type() is Keyed,
            value_view_wf(
                *pool,
                pool.messages@[old(self).descriptor as int].fields@[idx as int].spec_runtime_field_type()->Keyed_0,
                value_model(key),
            ),
            value_view_wf(
                *pool,
                pool.messages@[old(self).descriptor as int].fields@[idx as int].spec_runtime_field_type()->Keyed_1,
                value_model(value),
            ),
        ensures
            final(self).model() == spec_map_insert(
                *pool,
                old(self).model(),
                idx as int,
                value_model(key),
                value_model(value),
            ),
            final(self).wf(*pool),
            final(self).descriptor == old(self).descriptor,
            final(self).unknown_fields == old(self).unknown_fields,
            final(self).cached_size == old(self).cached_size,
    {
        self.init_fields(pool);
        let ghost m1 = self.model();
        let ghost fds = desc_of(*pool, old(self).model()).fields@;
        let ghost kt = fds[idx as int].spec_runtime_field_type()->Keyed_0;
        let ghost vt = fds[idx as int].spec_runtime_field_type()->Keyed_1;
        proof {
            lemma_cells_model_len(self.fields@);
            lemma_cells_view_wf_index(*pool, fds, m1.fields, idx as int);
            assert(crate::descriptor::field_wf(*pool, fds[idx as int]));
        }
        let ghost prev = self.fields@;
        let cell = &mut self.fields[idx];
        match cell {
            DynamicFieldValue::Keyed(dm) => {
                let ghost es_prev = dm.entries@;
                let ghost em = entries_model(es_prev);
                proof {
                    lemma_entries_model_len(es_prev);
                    assert forall|j: int| 0 <= j < es_prev.len() implies !((
                    #[trigger] es_prev[j]).0 is Message) by {
                        lemma_entries_view_wf_index(*pool, kt, vt, em, j);
                        assert(em[j].0 == value_model(es_prev[j].0));
                    }
                }
                entries_upsert(&mut dm.entries, key, value);
                proof {
                    let km = value_model(key);
                    let vm = value_model(value);
                    match spec_find_key(em, km, 0) {
                        Option::Some(fi) => {
                            lemma_find_key_some(em, km, 0);
                            lemma_entries_view_wf_update(*pool, kt, vt, em, fi, (km, vm));
                            assert forall|a: int, b: int|
                                0 <= a < b < em.update(fi, (km, vm)).len() implies (
                            #[trigger] em.update(fi, (km, vm))[a]).0 != (#[trigger] em.update(
                                fi,
                                (km, vm),
                            )[b]).0 by {
                                assert(em.update(fi, (km, vm))[a].0 == em[a].0);
                                assert(em.update(fi, (km, vm))[b].0 == em[b].0);
                            }
                        },
                        Option::None => {
                            lemma_find_key_none(em, km, 0);
                            lemma_entries_view_wf_push(*pool, kt, vt, em, (km, vm));
                            assert forall|a: int, b: int|
                                0 <= a < b < em.push((km, vm)).len() implies (
                            #[trigger] em.push((km, vm))[a]).0 != (#[trigger] em.push(
                                (km, vm),
                            )[b]).0 by {
                                if b < em.len() {
                                    assert(em.push((km, vm))[a].0 == em[a].0);
                                    assert(em.push((km, vm))[b].0 == em[b].0);
                                } else {
                                    assert(em.push((km, vm))[a].0 == em[a].0);
                                    assert(em.push((km, vm))[b].0 == km);
                                }
                            }
                        },
                    }
                }
            },
            _ => {
                proof {
                    assert(false);
                }
            },
        }
        proof {
            assert(self.fields@ =~= prev.update(idx as int, self.fields@[idx as int]));
            lemma_cells_model_update(prev, idx as int, self.fields@[idx as int]);
            lemma_cells_view_wf_update(
                *pool,
                fds,
                m1.fields,
                idx as int,
                cell_model(self.fields@[idx as int]),
            );
        }
    }

    /// Resets every field cell to empty and drops all unknown fields.
    pub fn clear(&mut self, pool: &DescriptorPool)
        requires
            old(self).descriptor < pool.messages@.len(),
            old(self).wf(*pool),
        ensures
            final(self).model() == spec_clear_msg(old(self).model()),
            unknown_model(final(self).unknown_fields) == Seq::<(u32, Seq<u8>)>::empty(),
            final(self).wf(*pool),
            final(self).descriptor == old(self).descriptor,
            final(self).cached_size == old(self).cached_size,
    {
        let ghost m0 = self.model();
        let ghost fds = desc_of(*pool, m0).fields@;
        proof {
            lemma_cells_model_len(self.fields@);
            assert forall|k: int| 0 <= k < self.fields@.len() implies cell_view_wf(
                *pool,
                fds[k],
                cell_model(#[trigger] self.fields@[k]),
            ) by {
                lemma_cells_view_wf_index(*pool, fds, m0.fields, k);
            }
        }
        let len = self.fields.len();
        let mut i: usize = 0;
        while i < len
            invariant
                i <= len,
                len == self.fields@.len(),
                m0.fields.len() == len,
                self.descriptor == old(self).descriptor,
                self.unknown_fields == old(self).unknown_fields,
                self.cached_size == old(self).cached_size,
                m0 == old(self).model(),
                fds == desc_of(*pool, m0).fields@,
                old(self).wf(*pool),
                forall|k: int| 0 <= k < i ==> cell_model(#[trigger] self.fields@[k])
                    == spec_clear_cell(m0.fields[k]),
                forall|k: int| i <= k < len ==> cell_model(#[trigger] self.fields@[k])
                    == m0.fields[k],
                forall|k: int| 0 <= k < len ==> cell_view_wf(
                    *pool,
                    fds[k],
                    cell_model(#[trigger] self.fields@[k]),
                ),
            decreases len - i,
        {
            proof {
                lemma_cells_model_len(self.fields@);
            }
            let ghost prev = self.fields@;
            let cleared = self.fields[i].cleared();
            self.fields.set(i, cleared);
            proof {
                assert(self.fields@ =~= prev.update(i as int, self.fields@[i as int]));
                lemma_clear_cell_wf(*pool, fds[i as int], cell_model(prev[i as int]));
                assert forall|k: int| 0 <= k < len as int implies cell_view_wf(
                    *pool,
                    fds[k],
                    cell_model(#[trigger] self.fields@[k]),
                ) by {
                    if k != i as int {
                        assert(self.fields@[k] == prev[k]);
                    }
                }
            }
            i = i + 1;
        }
        self.unknown_fields.entries.clear();
        proof {
            lemma_cells_model_len(self.fields@);
            let target = spec_clear_msg(m0);
            assert forall|k: int| 0 <= k < len as int implies cells_model(self.fields@)[k]
                == target.fields[k] by {
                assert(cell_model(self.fields@[k]) == spec_clear_cell(m0.fields[k]));
            }
            assert(self.model().fields =~= target.fields);
            assert forall|k: int| 0 <= k < len as int implies cell_view_wf(
                *pool,
                fds[k],
                #[trigger] self.model().fields[k],
            ) by {
                assert(self.model().fields[k] == cell_model(self.fields@[k]));
            }
            lemma_cells_view_wf_pointwise(*pool, fds, self.model().fields);
            assert(unknown_model(self.unknown_fields) =~= Seq::<(u32, Seq<u8>)>::empty());
        }
    }

    /// The pool index of this message's descriptor.
    pub fn descriptor_by_instance(&self) -> (r: usize)
        ensures
            r == self.descriptor,
    {
        self.descriptor
    }

    /// The advisory cached size; authoritative only right after a caller
    /// stored a `compute_size` result.
    pub fn get_cached_size(&self) -> (r: u32)
        ensures
            r == self.cached_size,
    {
        self.cached_size
    }

    /// Read access to the unknown-fields store.
    pub fn get_unknown_fields(&self) -> (r: &UnknownFields)
        ensures
            *r == self.unknown_fields,
    {
        &self.unknown_fields
    }

    /// Write access to the unknown-fields store; everything else is left
    /// untouched.
    pub fn mut_unknown_fields(&mut self) -> (r: &mut UnknownFields)
        ensures
            *r == old(self).unknown_fields,
            final(self).unknown_fields == *final(r),
            final(self).descriptor == old(self).descriptor,
            final(self).fields == old(self).fields,
            final(self).cached_size == old(self).cached_size,
    {
        &mut self.unknown_fields
    }

    /// Borrows the message inside a message-valued box.
    pub fn downcast_ref(value: &ReflectValueBox) -> (r: &DynamicMessage)
        requires
            (*value) is Message,
        ensures
            ValueView::Message(r.model()) == value_model(*value),
    {
        match value {
            ReflectValueBox::Message(m) => &**m,
            _ => unreached(),
        }
    }

    /// Mutably borrows the message inside a message-valued box.
    pub fn downcast_mut(value: &mut ReflectValueBox) -> (r: &mut DynamicMessage)
        requires
            (*old(value)) is Message,
        ensures
            ValueView::Message(r.model()) == value_model(*old(value)),
            value_model(*final(value)) == ValueView::Message(final(r).model()),
    {
        match value {
            ReflectValueBox::Message(m) => &mut **m,
            _ => unreached(),
        }
    }
}

impl DynamicMessage {
    /// In this engine every well-formed message is initialized: required
    /// fields are a proto2 feature the descriptor model does not carry, so
    /// the recursive walk the wire format asks for always succeeds.  Map
    /// fields are excluded by precondition: the walk does not handle them.
    pub fn is_initialized(&self, pool: &DescriptorPool) -> (r: bool)
        requires
            self.descriptor < pool.messages@.len(),
            self.wf(*pool),
            spec_no_map_fields(*pool),
        ensures
            r,
        decreases *self, 1int, 0int,
    {
        let desc = &pool.messages[self.descriptor];
        let n = desc.fields.len();
        let ghost fds = desc.fields@;
        let mut i: usize = 0;
        while i < n
            invariant
                i <= n,
                n == fds.len(),
                fds == pool.messages@[self.descriptor as int].fields@,
                desc.fields@ == fds,
                self.descriptor < pool.messages@.len(),
                self.wf(*pool),
                spec_no_map_fields(*pool),
            decreases *self, 0int, n - i,
        {
            let f = &desc.fields[i];
            match f.runtime_field_type() {
                RuntimeFieldType::Singular(rtb) => {
                    if !self.check_singular_initialized(pool, &rtb, i) {
                        return false;
                    }
                },
                RuntimeFieldType::Repeated(rtb) => {
                    if !self.check_repeated_initialized(pool, &rtb, i) {
                        return false;
                    }
                },
                RuntimeFieldType::Keyed(_, _) => {
                    proof {
                        assert(pool.messages@[self.descriptor as int].fields@[i as int]
                            == fds[i as int]);
                        assert(false);
                    }
                },
            }
            i = i + 1;
        }
        true
    }

    /// A singular field is initialized unless it holds a message that is
    /// not; in this engine that never happens, so the check returns true.
    pub fn check_singular_initialized(
        &self,
        pool: &DescriptorPool,
        rtb: &RuntimeTypeBox,
        idx: usize,
    ) -> (r: bool)
        requires
            self.descriptor < pool.messages@.len(),
            idx < pool.messages@[self.descriptor as int].fields@.len(),
            self.wf(*pool),
            spec_no_map_fields(*pool),
            pool.messages@[self.descriptor as int].fields@[idx as int].spec_runtime_field_type()
                == RuntimeFieldType::Singular(*rtb),
        ensures
            r,
        decreases *self, 0int, 0int,
    {
        let ghost fds = pool.messages@[self.descriptor as int].fields@;
        proof {
            lemma_cells_model_len(self.fields@);
            if self.fields@.len() > 0 {
                lemma_cells_view_wf_index(*pool, fds, self.model().fields, idx as int);
            }
        }
        match rtb {
            RuntimeTypeBox::Message(_) => {
                if self.fields.len() > 0 {
                    match &self.fields[idx] {
                        DynamicFieldValue::Singular(o) => match &o.value {
                            Option::Some(v) => match v {
                                ReflectValueBox::Message(m) => m.is_initialized(pool),
                                _ => unreached(),
                            },
                            Option::None => true,
                        },
                        _ => unreached(),
                    }
                } else {
                    true
                }
            },
            _ => true,
        }
    }

    /// Every message inside a repeated field answers the recursive walk;
    /// in this engine that is always the case.
    pub fn check_repeated_initialized(
        &self,
        pool: &DescriptorPool,
        rtb: &RuntimeTypeBox,
        idx: usize,
    ) -> (r: bool)
        requires
            self.descriptor < pool.messages@.len(),
            idx < pool.messages@[self.descriptor as int].fields@.len(),
            self.wf(*pool),
            spec_no_map_fields(*pool),
            pool.messages@[self.descriptor as int].fields@[idx as int].spec_runtime_field_type()
                == RuntimeFieldType::Repeated(*rtb),
        ensures
            r,
        decreases *self, 0int, 0int,
    {
        let ghost fds = pool.messages@[self.descriptor as int].fields@;
        proof {
            lemma_cells_model_len(self.fields@);
            if self.fields@.len() > 0 {
                lemma_cells_view_wf_index(*pool, fds, self.model().fields, idx as int);
            }
        }
        match rtb {
            RuntimeTypeBox::Message(_) => {
                if self.fields.len() > 0 {
                    match &self.fields[idx] {
                        DynamicFieldValue::Repeated(rp) => {
                            let k = rp.values.len();
                            let ghost vs = rp.values@;
                            proof {
                                lemma_values_model_len(vs);
                            }
                            let mut j: usize = 0;
                            while j < k
                                invariant
                                    j <= k,
                                    k == vs.len(),
                                    rp.values@ == vs,
                                    idx < self.fields@.len(),
                                    self.fields@[idx as int] == DynamicFieldValue::Repeated(*rp),
                                    values_view_wf(
                                        *pool,
                                        RuntimeTypeBox::Message(rtb->Message_0),
                                        values_model(vs),
                                    ),
                                    self.descriptor < pool.messages@.len(),
                                    spec_no_map_fields(*pool),
                                decreases *self, 0int, k - j,
                            {
                                proof {
                                    lemma_values_model_len(vs);
                                    lemma_values_view_wf_index(
                                        *pool,
                                        RuntimeTypeBox::Message(rtb->Message_0),
                                        values_model(vs),
                                        j as int,
                                    );
                                }
                                proof {
                                    let cellv = self.fields@[idx as int];
                                    let elemv = vs[j as int];
                                    vstd::std_specs::vec::axiom_vec_index_decreases(
                                        self.fields,
                                        idx as int,
                                    );
                                    vstd::std_specs::vec::axiom_vec_index_decreases(
                                        cellv->Repeated_0.values,
                                        j as int,
                                    );
                                    assert(decreases_to!(*self => self.fields));
                                    assert(decreases_to!(self.fields => cellv));
                                    assert(decreases_to!(cellv => cellv->Repeated_0.values));
                                    assert(decreases_to!(cellv->Repeated_0.values => elemv));
                                }
                                match &rp.values[j] {
                                    ReflectValueBox::Message(m) => {
                                        if !m.is_initialized(pool) {
                                            return false;
                                        }
                                    },
                                    _ => unreached(),
                                }
                                j = j + 1;
                            }
                            true
                        },
                        _ => unreached(),
                    }
                } else {
                    true
                }
            },
            _ => true,
        }
    }
}

// ----------------------------------------------------------------------------
// Laws
// ----------------------------------------------------------------------------

/// Oneof exclusivity: if at most one member of each oneof group was set,
/// then after `set_field` on `idx` that still holds; moreover `idx` itself
/// is the one set member of its group, every other member being unset.
pub proof fn lemma_set_field_oneof_exclusive(
    pool: DescriptorPool,
    m: MessageView,
    idx: int,
    v: ValueView,
)
    requires
        msg_view_wf(pool, m),
        0 <= idx < desc_of(pool, m).fields@.len(),
        spec_oneof_consistent(pool, m),
    ensures
        spec_oneof_consistent(pool, spec_set_field(pool, m, idx, v)),
        cell_is_set(spec_set_field(pool, m, idx, v).fields[idx]),
        forall|j: int|
            0 <= j < spec_set_field(pool, m, idx, v).fields.len() && same_oneof_group(
                desc_of(pool, m).fields@,
                idx,
                j,
            ) ==> !cell_is_set(#[trigger] spec_set_field(pool, m, idx, v).fields[j]),
{
    let fds = desc_of(pool, m).fields@;
    let m1 = spec_materialize(pool, m);
    let m2 = spec_clear_oneof_siblings(pool, m1, idx);
    let r = spec_set_field(pool, m, idx, v);
    lemma_materialize_consistent(pool, m);
    assert forall|j: int|
        0 <= j < r.fields.len() && same_oneof_group(fds, idx, j) implies !cell_is_set(
        #[trigger] r.fields[j],
    ) by {
        assert(m2.fields[j] == spec_clear_cell(m1.fields[j]));
    }
    assert forall|i: int, j: int|
        0 <= i < r.fields.len() && 0 <= j < r.fields.len() && same_oneof_group(fds, i, j)
            && cell_is_set(#[trigger] r.fields[i]) implies !cell_is_set(#[trigger] r.fields[j]) by {
        if i == idx {
            assert(same_oneof_group(fds, idx, j));
        } else if j == idx {
            assert(same_oneof_group(fds, idx, i));
            assert(!cell_is_set(r.fields[i]));
        } else {
            if same_oneof_group(fds, idx, i) {
                assert(!cell_is_set(r.fields[i]));
            } else if same_oneof_group(fds, idx, j) {
                assert(!cell_is_set(r.fields[j]));
            } else {
                assert(r.fields[i] == m1.fields[i]);
                assert(r.fields[j] == m1.fields[j]);
            }
        }
    }
}

/// A fresh materialization leaves every oneof group empty, and an already
/// materialized message keeps its consistency.
pub proof fn lemma_materialize_consistent(pool: DescriptorPool, m: MessageView)
    requires
        msg_view_wf(pool, m),
        spec_oneof_consistent(pool, m),
    ensures
        spec_oneof_consistent(pool, spec_materialize(pool, m)),
{
    let m1 = spec_materialize(pool, m);
    if m.fields.len() == 0 {
        assert forall|i: int| 0 <= i < m1.fields.len() implies !cell_is_set(
            #[trigger] m1.fields[i],
        ) by {
            assert(m1.fields[i] == default_cell_view(
                desc_of(pool, m).fields@[i].spec_runtime_field_type(),
            ));
        }
    }
}

/// Lazy-read equivalence: reading a field from a lazy message yields the
/// same view as reading it after explicit default materialization.
pub proof fn lemma_lazy_read_equivalence(pool: DescriptorPool, m: MessageView, idx: int)
    requires
        msg_view_wf(pool, m),
        0 <= idx < desc_of(pool, m).fields@.len(),
    ensures
        spec_get_reflect(pool, m, idx) == spec_get_reflect(pool, spec_materialize(pool, m), idx),
{
    let m1 = spec_materialize(pool, m);
    if m.fields.len() == 0 {
        if m1.fields.len() > 0 {
            assert(m1.fields[idx] == default_cell_view(
                desc_of(pool, m).fields@[idx].spec_runtime_field_type(),
            ));
        }
    }
}

/// A pointwise-well-formed cell sequence is well formed.
pub proof fn lemma_cells_view_wf_pointwise(
    pool: DescriptorPool,
    fds: Seq<FieldDescriptor>,
    cs: Seq<CellView>,
)
    requires
        cs.len() <= fds.len(),
        forall|i: int| 0 <= i < cs.len() ==> cell_view_wf(pool, fds[i], #[trigger] cs[i]),
    ensures
        cells_view_wf(pool, fds, cs),
    decreases cs,
{
    if cs.len() > 0 {
        assert forall|i: int| 0 <= i < cs.drop_last().len() implies cell_view_wf(
            pool,
            fds[i],
            #[trigger] cs.drop_last()[i],
        ) by {
            assert(cs.drop_last()[i] == cs[i]);
        }
        lemma_cells_view_wf_pointwise(pool, fds, cs.drop_last());
        assert(cs.last() == cs[cs.len() - 1]);
    }
}

/// Materialization yields a well-formed message.
pub proof fn lemma_materialize_wf(pool: DescriptorPool, m: MessageView)
    requires
        msg_view_wf(pool, m),
    ensures
        msg_view_wf(pool, spec_materialize(pool, m)),
{
    if m.fields.len() == 0 {
        let m1 = spec_materialize(pool, m);
        lemma_default_cells_wf(pool, desc_of(pool, m).fields@, m1.fields);
    }
}

proof fn lemma_default_cells_wf(pool: DescriptorPool, fds: Seq<FieldDescriptor>, cs: Seq<CellView>)
    requires
        cs.len() <= fds.len(),
        forall|i: int| 0 <= i < cs.len() ==> #[trigger] cs[i] == default_cell_view(
            fds[i].spec_runtime_field_type(),
        ),
    ensures
        cells_view_wf(pool, fds, cs),
    decreases cs,
{
    if cs.len() > 0 {
        assert forall|i: int| 0 <= i < cs.drop_last().len() implies #[trigger] cs.drop_last()[i]
            == default_cell_view(fds[i].spec_runtime_field_type()) by {
            assert(cs.drop_last()[i] == cs[i]);
        }
        lemma_default_cells_wf(pool, fds, cs.drop_last());
        let f = fds[cs.len() - 1];
        assert(cs.last() == default_cell_view(f.spec_runtime_field_type()));
        assert(cell_view_wf(pool, f, cs.last())) by {
            match f.spec_runtime_field_type() {
                RuntimeFieldType::Singular(_) => {},
                RuntimeFieldType::Repeated(_) => {},
                RuntimeFieldType::Keyed(_, _) => {},
            }
        }
    }
}

/// Clearing one cell keeps a message well formed.
pub proof fn lemma_clear_field_wf(pool: DescriptorPool, m: MessageView, idx: int)
    requires
        msg_view_wf(pool, m),
        0 <= idx < m.fields.len(),
    ensures
        msg_view_wf(
            pool,
            MessageView {
                descriptor: m.descriptor,
                fields: m.fields.update(idx, spec_clear_cell(m.fields[idx])),
            },
        ),
{
    let fds = desc_of(pool, m).fields@;
    lemma_cells_view_wf_index(pool, fds, m.fields, idx);
    lemma_clear_cell_wf(pool, fds[idx], m.fields[idx]);
    lemma_cells_view_wf_update(pool, fds, m.fields, idx, spec_clear_cell(m.fields[idx]));
}

/// A cleared cell is well formed whenever the original was.
pub proof fn lemma_clear_cell_wf(pool: DescriptorPool, f: FieldDescriptor, c: CellView)
    requires
        cell_view_wf(pool, f, c),
    ensures
        cell_view_wf(pool, f, spec_clear_cell(c)),
{
}

} // verus!
