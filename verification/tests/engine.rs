use protodyn::decode::CodedInputStream;
use protodyn::descriptor::{
    DescriptorPool, FieldDescriptor, FieldKind, MessageDescriptor, ProtoType, Syntax,
};
use protodyn::encode::CodedOutputStream;
use protodyn::message::ReflectFieldRef;
use protodyn::value::{DynamicMessage, ReflectValueBox};

fn field(number: u32, proto_type: ProtoType, kind: FieldKind, type_ref: usize) -> FieldDescriptor {
    FieldDescriptor { number, proto_type, kind, type_ref, oneof_index: None }
}

/// `Widget { int32 id = 1; string name = 2; repeated int32 tags = 3;
/// Color color = 4; Sub inner = 5; }` with `Sub { int64 x = 1; }`.
fn widget_pool() -> DescriptorPool {
    let widget = MessageDescriptor {
        syntax: Syntax::Proto3,
        fields: vec![
            field(1, ProtoType::Int32, FieldKind::Singular, 0),
            field(2, ProtoType::String, FieldKind::Singular, 0),
            field(3, ProtoType::Int32, FieldKind::Repeated, 0),
            field(4, ProtoType::Enum, FieldKind::Singular, 7),
            field(5, ProtoType::Message, FieldKind::Singular, 1),
        ],
    };
    let sub = MessageDescriptor {
        syntax: Syntax::Proto3,
        fields: vec![field(1, ProtoType::Int64, FieldKind::Singular, 0)],
    };
    DescriptorPool { messages: vec![widget, sub] }
}

fn encode(pool: &DescriptorPool, m: &DynamicMessage) -> Vec<u8> {
    let mut os = CodedOutputStream::new();
    m.write_to_with_cached_sizes(pool, &mut os).unwrap();
    os.bytes
}

fn decode(pool: &DescriptorPool, desc: usize, bytes: &[u8]) -> Result<DynamicMessage, protodyn::Error> {
    let mut m = DynamicMessage::new(desc);
    let mut is = CodedInputStream::new(bytes.to_vec());
    m.merge_from(&mut is, pool)?;
    Ok(m)
}

fn singular_i32(pool: &DescriptorPool, m: &DynamicMessage, idx: usize) -> Option<i32> {
    match m.get_reflect(pool, idx) {
        ReflectFieldRef::Optional(Some(ReflectValueBox::I32(x))) => Some(x),
        ReflectFieldRef::Optional(None) => None,
        _ => panic!("not a singular i32 field"),
    }
}

fn repeated_i32(pool: &DescriptorPool, m: &DynamicMessage, idx: usize) -> Vec<i32> {
    match m.get_reflect(pool, idx) {
        ReflectFieldRef::Repeated(vs) => vs
            .into_iter()
            .map(|v| match v {
                ReflectValueBox::I32(x) => x,
                _ => panic!("not an i32 element"),
            })
            .collect(),
        _ => panic!("not a repeated field"),
    }
}

#[test]
fn empty_widget_encodes_to_nothing() {
    let pool = widget_pool();
    let m = DynamicMessage::new(0);
    assert_eq!(encode(&pool, &m), Vec::<u8>::new());
    assert_eq!(m.compute_size(&pool), 0);
}

#[test]
fn simple_scalars_expected_bytes() {
    let pool = widget_pool();
    let mut m = DynamicMessage::new(0);
    m.set_field(&pool, 0, ReflectValueBox::I32(150));
    m.set_field(&pool, 1, ReflectValueBox::String(b"abc".to_vec()));
    let bytes = encode(&pool, &m);
    assert_eq!(bytes, vec![0x08, 0x96, 0x01, 0x12, 0x03, 0x61, 0x62, 0x63]);
    assert_eq!(m.compute_size(&pool), 8);
}

#[test]
fn packed_in_unpacked_out() {
    let pool = widget_pool();
    // field 3, length-delimited, three varints 1 2 3
    let m = decode(&pool, 0, &[0x1A, 0x03, 0x01, 0x02, 0x03]).unwrap();
    assert_eq!(repeated_i32(&pool, &m, 2), vec![1, 2, 3]);
    assert_eq!(encode(&pool, &m), vec![0x18, 0x01, 0x18, 0x02, 0x18, 0x03]);
}

#[test]
fn unpacked_in_same_state() {
    let pool = widget_pool();
    let m = decode(&pool, 0, &[0x18, 0x01, 0x18, 0x02, 0x18, 0x03]).unwrap();
    assert_eq!(repeated_i32(&pool, &m, 2), vec![1, 2, 3]);
    assert_eq!(encode(&pool, &m), vec![0x18, 0x01, 0x18, 0x02, 0x18, 0x03]);
}

#[test]
fn enum_round_trip() {
    let pool = widget_pool();
    let mut m = DynamicMessage::new(0);
    m.set_field(&pool, 3, ReflectValueBox::Enum(7, 2));
    let bytes = encode(&pool, &m);
    assert_eq!(bytes, vec![0x20, 0x02]);
    let d = decode(&pool, 0, &bytes).unwrap();
    match d.get_reflect(&pool, 3) {
        ReflectFieldRef::Optional(Some(ReflectValueBox::Enum(desc, num))) => {
            assert_eq!(desc, 7);
            assert_eq!(num, 2);
        }
        other => panic!("unexpected view: {:?}", other),
    }
}

/// `Node { Node child = 1; }`, nested `depth` levels.
fn node_pool() -> DescriptorPool {
    let node = MessageDescriptor {
        syntax: Syntax::Proto3,
        fields: vec![field(1, ProtoType::Message, FieldKind::Singular, 0)],
    };
    DescriptorPool { messages: vec![node] }
}

fn nested_node_bytes(depth: usize) -> Vec<u8> {
    let mut bytes: Vec<u8> = Vec::new();
    for _ in 0..depth {
        let mut outer: Vec<u8> = vec![0x0A];
        protodyn::wire::write_raw_varint64(&mut outer, bytes.len() as u64);
        outer.extend_from_slice(&bytes);
        bytes = outer;
    }
    bytes
}

#[test]
fn deep_nesting_hits_recursion_limit() {
    let pool = node_pool();
    let bytes = nested_node_bytes(200);
    let err = decode(&pool, 0, &bytes).unwrap_err();
    assert_eq!(err, protodyn::Error::RecursionLimitExceeded);
}

#[test]
fn shallow_nesting_round_trips() {
    let pool = node_pool();
    let bytes = nested_node_bytes(10);
    let m = decode(&pool, 0, &bytes).unwrap();
    assert_eq!(encode(&pool, &m), bytes);
}

#[test]
fn default_values_are_suppressed() {
    let pool = widget_pool();
    let mut m = DynamicMessage::new(0);
    m.set_field(&pool, 0, ReflectValueBox::I32(0));
    m.set_field(&pool, 1, ReflectValueBox::String(Vec::new()));
    m.set_field(&pool, 3, ReflectValueBox::Enum(7, 0));
    assert_eq!(encode(&pool, &m), Vec::<u8>::new());
    assert_eq!(m.compute_size(&pool), 0);
}

#[test]
fn absent_fields_read_back_as_defaults() {
    let pool = widget_pool();
    let m = decode(&pool, 0, &[]).unwrap();
    assert_eq!(singular_i32(&pool, &m, 0), Some(0));
    match m.get_reflect(&pool, 1) {
        ReflectFieldRef::Optional(Some(ReflectValueBox::String(s))) => assert_eq!(s, Vec::<u8>::new()),
        other => panic!("unexpected view: {:?}", other),
    }
}

#[test]
fn lazy_read_equals_materialized_read() {
    let pool = widget_pool();
    let mut m = DynamicMessage::new(0);
    let before = format!("{:?}", m.get_reflect(&pool, 0));
    m.init_fields(&pool);
    let after = format!("{:?}", m.get_reflect(&pool, 0));
    assert_eq!(before, after);
    assert_eq!(before, "Optional(None)");
}

fn oneof_pool() -> DescriptorPool {
    let mut a = field(1, ProtoType::Int32, FieldKind::Singular, 0);
    a.oneof_index = Some(0);
    let mut b = field(2, ProtoType::String, FieldKind::Singular, 0);
    b.oneof_index = Some(0);
    let msg = MessageDescriptor { syntax: Syntax::Proto3, fields: vec![a, b] };
    DescriptorPool { messages: vec![msg] }
}

#[test]
fn setting_a_oneof_member_clears_its_sibling() {
    let pool = oneof_pool();
    let mut m = DynamicMessage::new(0);
    m.set_field(&pool, 0, ReflectValueBox::I32(7));
    m.set_field(&pool, 1, ReflectValueBox::String(b"x".to_vec()));
    assert_eq!(singular_i32(&pool, &m, 0), None);
    match m.get_reflect(&pool, 1) {
        ReflectFieldRef::Optional(Some(ReflectValueBox::String(s))) => assert_eq!(s, b"x".to_vec()),
        other => panic!("unexpected view: {:?}", other),
    }
    // setting the first member again clears the second
    m.set_field(&pool, 0, ReflectValueBox::I32(9));
    assert_eq!(singular_i32(&pool, &m, 0), Some(9));
    match m.get_reflect(&pool, 1) {
        ReflectFieldRef::Optional(None) => {}
        other => panic!("unexpected view: {:?}", other),
    }
}

#[test]
fn truncated_input_is_rejected() {
    let pool = widget_pool();
    assert_eq!(decode(&pool, 0, &[0x08]).unwrap_err(), protodyn::Error::Truncated);
}

#[test]
fn overlong_varint_is_rejected() {
    let pool = widget_pool();
    let bytes = [0x08, 0xFF, 0xFF, 0xFF, 0xFF, 0xFF, 0xFF, 0xFF, 0xFF, 0xFF, 0xFF, 0x01];
    assert_eq!(decode(&pool, 0, &bytes).unwrap_err(), protodyn::Error::Malformed);
}

#[test]
fn invalid_utf8_in_string_field_is_rejected() {
    let pool = widget_pool();
    let bytes = [0x12, 0x01, 0xFF];
    assert_eq!(decode(&pool, 0, &bytes).unwrap_err(), protodyn::Error::InvalidUtf8);
}

#[test]
fn wrong_wire_type_on_repeated_scalar_is_rejected() {
    let pool = widget_pool();
    // field 3 under fixed32 framing: neither varint nor length-delimited
    let bytes = [0x1D, 0x01, 0x00, 0x00, 0x00];
    assert_eq!(decode(&pool, 0, &bytes).unwrap_err(), protodyn::Error::UnexpectedWireType);
}

#[test]
fn unknown_fields_are_skipped() {
    let pool = widget_pool();
    // field 9 (unknown) as a varint, then id = 150
    let m = decode(&pool, 0, &[0x48, 0x2A, 0x08, 0x96, 0x01]).unwrap();
    assert_eq!(singular_i32(&pool, &m, 0), Some(150));
    // field 9 as a length-delimited blob, then id = 1
    let m2 = decode(&pool, 0, &[0x4A, 0x02, 0xAB, 0xCD, 0x08, 0x01]).unwrap();
    assert_eq!(singular_i32(&pool, &m2, 0), Some(1));
}

#[test]
fn nested_message_round_trips() {
    let pool = widget_pool();
    let mut sub = DynamicMessage::new(1);
    sub.set_field(&pool, 0, ReflectValueBox::I64(-3));
    let mut m = DynamicMessage::new(0);
    m.set_field(&pool, 0, ReflectValueBox::I32(1));
    m.set_field(&pool, 4, ReflectValueBox::Message(Box::new(sub)));
    let bytes = encode(&pool, &m);
    assert_eq!(m.compute_size(&pool) as usize, bytes.len());
    let d = decode(&pool, 0, &bytes).unwrap();
    assert_eq!(encode(&pool, &d), bytes);
    match d.get_reflect(&pool, 4) {
        ReflectFieldRef::Optional(Some(v @ ReflectValueBox::Message(_))) => {
            let inner = DynamicMessage::downcast_ref(&v);
            match inner.get_reflect(&pool, 0) {
                ReflectFieldRef::Optional(Some(ReflectValueBox::I64(x))) => assert_eq!(x, -3),
                other => panic!("unexpected view: {:?}", other),
            }
        }
        other => panic!("unexpected view: {:?}", other),
    }
}

#[test]
fn negative_enum_numbers_survive_the_wire() {
    let pool = widget_pool();
    let mut m = DynamicMessage::new(0);
    m.set_field(&pool, 3, ReflectValueBox::Enum(7, -2));
    let bytes = encode(&pool, &m);
    assert_eq!(
        bytes,
        vec![0x20, 0xFE, 0xFF, 0xFF, 0xFF, 0xFF, 0xFF, 0xFF, 0xFF, 0xFF, 0x01]
    );
    let d = decode(&pool, 0, &bytes).unwrap();
    match d.get_reflect(&pool, 3) {
        ReflectFieldRef::Optional(Some(ReflectValueBox::Enum(_, n))) => assert_eq!(n, -2),
        other => panic!("unexpected view: {:?}", other),
    }
}
