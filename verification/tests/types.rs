use protodyn::decode::CodedInputStream;
use protodyn::descriptor::{
    DescriptorPool, FieldDescriptor, FieldKind, MessageDescriptor, ProtoType, RuntimeTypeBox,
    Syntax,
};
use protodyn::encode::CodedOutputStream;
use protodyn::message::ReflectFieldRef;
use protodyn::value::{DynamicMessage, ReflectValueBox};

fn field(number: u32, proto_type: ProtoType, kind: FieldKind, type_ref: usize) -> FieldDescriptor {
    FieldDescriptor { number, proto_type, kind, type_ref, oneof_index: None }
}

fn scalars_pool() -> DescriptorPool {
    let msg = MessageDescriptor {
        syntax: Syntax::Proto3,
        fields: vec![
            field(1, ProtoType::Sint32, FieldKind::Singular, 0),
            field(2, ProtoType::Sint64, FieldKind::Singular, 0),
            field(3, ProtoType::Fixed32, FieldKind::Singular, 0),
            field(4, ProtoType::Fixed64, FieldKind::Singular, 0),
            field(5, ProtoType::Sfixed32, FieldKind::Singular, 0),
            field(6, ProtoType::Sfixed64, FieldKind::Singular, 0),
            field(7, ProtoType::Double, FieldKind::Singular, 0),
            field(8, ProtoType::Float, FieldKind::Singular, 0),
            field(9, ProtoType::Bool, FieldKind::Singular, 0),
            field(10, ProtoType::Uint64, FieldKind::Singular, 0),
            field(11, ProtoType::Bytes, FieldKind::Singular, 0),
            field(12, ProtoType::Uint32, FieldKind::Singular, 0),
            field(13, ProtoType::Int64, FieldKind::Singular, 0),
            field(14, ProtoType::Double, FieldKind::Repeated, 0),
        ],
    };
    DescriptorPool { messages: vec![msg] }
}

fn encode(pool: &DescriptorPool, m: &DynamicMessage) -> Vec<u8> {
    let mut os = CodedOutputStream::new();
    m.write_to_with_cached_sizes(pool, &mut os).unwrap();
    os.bytes
}

fn decode(pool: &DescriptorPool, desc: usize, bytes: &[u8]) -> Result<DynamicMessage, protodyn::Error> {
    let mut m = DynamicMessage::new(desc);
    let mut is = CodedInputStream::new(bytes.to_vec());
    m.merge_from(&mut is, pool)?;
    Ok(m)
}

#[test]
fn zigzag_fields_use_zigzag_encoding() {
    let pool = scalars_pool();
    let mut m = DynamicMessage::new(0);
    m.set_field(&pool, 0, ReflectValueBox::I32(-1));
    assert_eq!(encode(&pool, &m), vec![0x08, 0x01]);
    let mut m2 = DynamicMessage::new(0);
    m2.set_field(&pool, 1, ReflectValueBox::I64(2));
    assert_eq!(encode(&pool, &m2), vec![0x10, 0x04]);
}

#[test]
fn fixed_width_fields_are_little_endian() {
    let pool = scalars_pool();
    let mut m = DynamicMessage::new(0);
    m.set_field(&pool, 2, ReflectValueBox::U32(1));
    assert_eq!(encode(&pool, &m), vec![0x1D, 0x01, 0x00, 0x00, 0x00]);
    let mut m2 = DynamicMessage::new(0);
    m2.set_field(&pool, 4, ReflectValueBox::I32(-1));
    assert_eq!(encode(&pool, &m2), vec![0x2D, 0xFF, 0xFF, 0xFF, 0xFF]);
}

#[test]
fn bool_and_uint64_varints() {
    let pool = scalars_pool();
    let mut m = DynamicMessage::new(0);
    m.set_field(&pool, 8, ReflectValueBox::Bool(true));
    assert_eq!(encode(&pool, &m), vec![0x48, 0x01]);
    let mut m2 = DynamicMessage::new(0);
    m2.set_field(&pool, 9, ReflectValueBox::U64(u64::MAX));
    assert_eq!(
        encode(&pool, &m2),
        vec![0x50, 0xFF, 0xFF, 0xFF, 0xFF, 0xFF, 0xFF, 0xFF, 0xFF, 0xFF, 0x01]
    );
}

#[test]
fn float_fields_carry_ieee_bits() {
    let pool = scalars_pool();
    let mut m = DynamicMessage::new(0);
    m.set_field(&pool, 7, ReflectValueBox::F32(1.0f32.to_bits()));
    assert_eq!(encode(&pool, &m), vec![0x45, 0x00, 0x00, 0x80, 0x3F]);
    let d = decode(&pool, 0, &[0x45, 0x00, 0x00, 0x80, 0x3F]).unwrap();
    match d.get_reflect(&pool, 7) {
        ReflectFieldRef::Optional(Some(ReflectValueBox::F32(bits))) => {
            assert_eq!(f32::from_bits(bits), 1.0f32);
        }
        other => panic!("unexpected view: {:?}", other),
    }
}

#[test]
fn packed_doubles_decode_and_reencode_unpacked() {
    let pool = scalars_pool();
    let mut bytes: Vec<u8> = vec![0x72, 16];
    bytes.extend_from_slice(&1.0f64.to_bits().to_le_bytes());
    bytes.extend_from_slice(&(-2.5f64).to_bits().to_le_bytes());
    let m = decode(&pool, 0, &bytes).unwrap();
    let mut expected: Vec<u8> = vec![0x71];
    expected.extend_from_slice(&1.0f64.to_bits().to_le_bytes());
    expected.push(0x71);
    expected.extend_from_slice(&(-2.5f64).to_bits().to_le_bytes());
    assert_eq!(encode(&pool, &m), expected);
}

#[test]
fn every_scalar_round_trips_bytewise() {
    let pool = scalars_pool();
    let mut m = DynamicMessage::new(0);
    m.set_field(&pool, 0, ReflectValueBox::I32(-123456));
    m.set_field(&pool, 1, ReflectValueBox::I64(-9_000_000_000));
    m.set_field(&pool, 2, ReflectValueBox::U32(0xDEADBEEF));
    m.set_field(&pool, 3, ReflectValueBox::U64(0x0102_0304_0506_0708));
    m.set_field(&pool, 4, ReflectValueBox::I32(-7));
    m.set_field(&pool, 5, ReflectValueBox::I64(-8));
    m.set_field(&pool, 6, ReflectValueBox::F64(3.25f64.to_bits()));
    m.set_field(&pool, 7, ReflectValueBox::F32(0.5f32.to_bits()));
    m.set_field(&pool, 8, ReflectValueBox::Bool(true));
    m.set_field(&pool, 9, ReflectValueBox::U64(17));
    m.set_field(&pool, 10, ReflectValueBox::Bytes(vec![0, 255, 7]));
    m.set_field(&pool, 11, ReflectValueBox::U32(299));
    m.set_field(&pool, 12, ReflectValueBox::I64(-1));
    let bytes = encode(&pool, &m);
    assert_eq!(m.compute_size(&pool) as usize, bytes.len());
    let d = decode(&pool, 0, &bytes).unwrap();
    assert_eq!(encode(&pool, &d), bytes);
}

#[test]
fn repeated_push_appends_in_order() {
    let pool = scalars_pool();
    let mut m = DynamicMessage::new(0);
    m.mut_repeated(&pool, 13);
    m.repeated_push(&pool, 13, ReflectValueBox::F64(1.0f64.to_bits()));
    m.repeated_push(&pool, 13, ReflectValueBox::F64(2.0f64.to_bits()));
    match m.get_reflect(&pool, 13) {
        ReflectFieldRef::Repeated(vs) => {
            assert_eq!(vs.len(), 2);
            match (&vs[0], &vs[1]) {
                (ReflectValueBox::F64(a), ReflectValueBox::F64(b)) => {
                    assert_eq!(f64::from_bits(*a), 1.0);
                    assert_eq!(f64::from_bits(*b), 2.0);
                }
                other => panic!("unexpected elements: {:?}", other),
            }
        }
        other => panic!("unexpected view: {:?}", other),
    }
}

fn map_pool() -> DescriptorPool {
    let msg = MessageDescriptor {
        syntax: Syntax::Proto3,
        fields: vec![field(
            1,
            ProtoType::Message,
            FieldKind::Keyed(RuntimeTypeBox::I32, RuntimeTypeBox::String),
            0,
        )],
    };
    DescriptorPool { messages: vec![msg] }
}

#[test]
fn map_insert_replaces_existing_keys() {
    let pool = map_pool();
    let mut m = DynamicMessage::new(0);
    m.mut_map(&pool, 0);
    m.map_insert(&pool, 0, ReflectValueBox::I32(1), ReflectValueBox::String(b"a".to_vec()));
    m.map_insert(&pool, 0, ReflectValueBox::I32(2), ReflectValueBox::String(b"b".to_vec()));
    m.map_insert(&pool, 0, ReflectValueBox::I32(1), ReflectValueBox::String(b"c".to_vec()));
    match m.get_reflect(&pool, 0) {
        ReflectFieldRef::Keyed(entries) => {
            assert_eq!(entries.len(), 2);
            match (&entries[0].0, &entries[0].1) {
                (ReflectValueBox::I32(1), ReflectValueBox::String(s)) => {
                    assert_eq!(s, &b"c".to_vec());
                }
                other => panic!("unexpected first entry: {:?}", other),
            }
        }
        other => panic!("unexpected view: {:?}", other),
    }
}

#[test]
fn clear_resets_fields_and_unknowns() {
    let pool = scalars_pool();
    let mut m = DynamicMessage::new(0);
    m.set_field(&pool, 0, ReflectValueBox::I32(5));
    m.mut_unknown_fields().entries.push((99, vec![1, 2, 3]));
    assert_eq!(m.get_unknown_fields().entries.len(), 1);
    m.clear(&pool);
    assert_eq!(encode(&pool, &m), Vec::<u8>::new());
    assert_eq!(m.get_unknown_fields().entries.len(), 0);
}

#[test]
fn mut_singular_or_default_installs_the_default() {
    let pool = scalars_pool();
    let mut m = DynamicMessage::new(0);
    let v = m.mut_singular_field_or_default(&pool, 0);
    match v {
        ReflectValueBox::I32(x) => assert_eq!(x, 0),
        other => panic!("unexpected default: {:?}", other),
    }
    match m.get_reflect(&pool, 0) {
        ReflectFieldRef::Optional(Some(ReflectValueBox::I32(0))) => {}
        other => panic!("unexpected view: {:?}", other),
    }
}

#[test]
fn clear_field_empties_one_slot() {
    let pool = scalars_pool();
    let mut m = DynamicMessage::new(0);
    m.set_field(&pool, 8, ReflectValueBox::Bool(true));
    m.clear_field(&pool, 8);
    match m.get_reflect(&pool, 8) {
        ReflectFieldRef::Optional(None) => {}
        other => panic!("unexpected view: {:?}", other),
    }
}

#[test]
fn messages_without_maps_are_initialized() {
    let pool = scalars_pool();
    let mut m = DynamicMessage::new(0);
    m.set_field(&pool, 0, ReflectValueBox::I32(1));
    assert!(m.is_initialized(&pool));
    assert_eq!(m.descriptor_by_instance(), 0);
    assert_eq!(m.get_cached_size(), 0);
}

#[test]
fn multibyte_utf8_strings_round_trip() {
    let widget = MessageDescriptor {
        syntax: Syntax::Proto3,
        fields: vec![field(2, ProtoType::String, FieldKind::Singular, 0)],
    };
    let pool = DescriptorPool { messages: vec![widget] };
    let text = "h\u{00E9}\u{03BB}\u{03BB}o\u{1F600}";
    let mut m = DynamicMessage::new(0);
    m.set_field(&pool, 0, ReflectValueBox::String(text.as_bytes().to_vec()));
    let bytes = encode(&pool, &m);
    let d = decode(&pool, 0, &bytes).unwrap();
    match d.get_reflect(&pool, 0) {
        ReflectFieldRef::Optional(Some(ReflectValueBox::String(s))) => {
            assert_eq!(String::from_utf8(s).unwrap(), text);
        }
        other => panic!("unexpected view: {:?}", other),
    }
}

#[test]
fn downcast_mut_reaches_the_inner_message() {
    let pool = DescriptorPool {
        messages: vec![
            MessageDescriptor {
                syntax: Syntax::Proto3,
                fields: vec![field(1, ProtoType::Message, FieldKind::Singular, 1)],
            },
            MessageDescriptor {
                syntax: Syntax::Proto3,
                fields: vec![field(1, ProtoType::Int32, FieldKind::Singular, 0)],
            },
        ],
    };
    let sub = DynamicMessage::new(1);
    let mut v = ReflectValueBox::Message(Box::new(sub));
    {
        let inner = DynamicMessage::downcast_mut(&mut v);
        inner.set_field(&pool, 0, ReflectValueBox::I32(42));
    }
    let inner = DynamicMessage::downcast_ref(&v);
    match inner.get_reflect(&pool, 0) {
        ReflectFieldRef::Optional(Some(ReflectValueBox::I32(42))) => {}
        other => panic!("unexpected view: {:?}", other),
    }
}

#[test]
fn group_fields_are_rejected_as_unsupported() {
    let pool = DescriptorPool {
        messages: vec![MessageDescriptor {
            syntax: Syntax::Proto3,
            fields: vec![field(1, ProtoType::Group, FieldKind::Singular, 0)],
        }],
    };
    // tag for field 1 with the start-group wire type
    let err = decode(&pool, 0, &[0x0B]).unwrap_err();
    assert_eq!(err, protodyn::Error::Unsupported);
}

#[test]
fn map_fields_make_encoding_unsupported() {
    let pool = map_pool();
    let m = DynamicMessage::new(0);
    let mut m2 = m;
    m2.init_fields(&pool);
    let mut os = CodedOutputStream::new();
    assert_eq!(
        m2.write_to_with_cached_sizes(&pool, &mut os),
        Err(protodyn::Error::Unsupported)
    );
}

#[test]
fn proto2_leaves_defaults_unset() {
    let msg = MessageDescriptor {
        syntax: Syntax::Proto2,
        fields: vec![field(1, ProtoType::Int32, FieldKind::Singular, 0)],
    };
    let pool = DescriptorPool { messages: vec![msg] };
    let m = decode(&pool, 0, &[]).unwrap();
    match m.get_reflect(&pool, 0) {
        ReflectFieldRef::Optional(None) => {}
        other => panic!("unexpected view: {:?}", other),
    }
}
