use mcproto::codec::{
    encode_varint, read_bytes_short, read_i16_be, read_i64_be, read_varstring, read_uuid, read_varint, write_bytes_short,
    write_i16_be, write_i64_be, write_varstring, write_uuid, write_varint,
};
use mcproto::error::ProtocolError;
use mcproto::fields::{
    read_field, write_field, EntityAttributeModifier, EntityProperty, FieldKind, FieldValue, ItemStack, Properties,
};

#[test]
fn varint_round_trip_and_shape() {
    let values = [0, 1, 2, 127, 128, 255, 300, 25565, 2097151, 2147483647, -1, -2147483648, i32::MIN + 1];
    for v in values {
        let bytes = encode_varint(v);
        assert!(bytes.len() >= 1 && bytes.len() <= 5);
        for (i, b) in bytes.iter().enumerate() {
            if i + 1 < bytes.len() {
                assert!(b & 0x80 != 0);
            } else {
                assert!(b & 0x80 == 0);
            }
        }
        assert_eq!(read_varint(&bytes, 0), Ok((v, bytes.len())));
    }
}

#[test]
fn varint_known_encodings() {
    assert_eq!(encode_varint(0), vec![0x00]);
    assert_eq!(encode_varint(127), vec![0x7f]);
    assert_eq!(encode_varint(128), vec![0x80, 0x01]);
    assert_eq!(encode_varint(300), vec![0xac, 0x02]);
    assert_eq!(encode_varint(-1), vec![0xff, 0xff, 0xff, 0xff, 0x0f]);
    assert_eq!(encode_varint(i32::MIN), vec![0x80, 0x80, 0x80, 0x80, 0x08]);
}

#[test]
fn varint_after_prefix() {
    let mut buf = vec![9u8, 9, 9];
    write_varint(&mut buf, 25565);
    buf.push(7);
    assert_eq!(read_varint(&buf, 3), Ok((25565, 6)));
}

#[test]
fn varint_too_long_is_malformed() {
    assert_eq!(read_varint(&[0x80, 0x80, 0x80, 0x80, 0x80, 0x01], 0), Err(ProtocolError::MalformedVarInt));
    assert_eq!(read_varint(&[0xff, 0xff, 0xff, 0xff, 0xff], 0), Err(ProtocolError::MalformedVarInt));
}

#[test]
fn varint_truncated_is_unexpected_end() {
    assert_eq!(read_varint(&[0x80, 0x80], 0), Err(ProtocolError::UnexpectedEnd));
    assert_eq!(read_varint(&[], 0), Err(ProtocolError::UnexpectedEnd));
}

#[test]
fn string_round_trip() {
    for s in ["", "hello", "héllo wörld ✓", "日本語", "emoji 🎮"] {
        let mut buf = Vec::new();
        write_varstring(&mut buf, s);
        assert_eq!(buf[0] as usize, s.len());
        let (back, end) = read_varstring(&buf, 0).unwrap();
        assert_eq!(back, s);
        assert_eq!(end, buf.len());
    }
}

#[test]
fn string_invalid_utf8_is_rejected() {
    assert_eq!(read_varstring(&[2, 0xff, 0xfe], 0), Err(ProtocolError::InvalidEncoding));
}

#[test]
fn string_negative_length_is_rejected() {
    let mut buf = encode_varint(-1);
    buf.extend_from_slice(b"abc");
    assert_eq!(read_varstring(&buf, 0), Err(ProtocolError::InvalidEncoding));
}

#[test]
fn string_short_input_is_unexpected_end() {
    assert_eq!(read_varstring(&[5, b'a', b'b'], 0), Err(ProtocolError::UnexpectedEnd));
}

#[test]
fn fixed_width_big_endian() {
    let mut buf = Vec::new();
    write_i16_be(&mut buf, -2);
    write_i64_be(&mut buf, 0x0102030405060708);
    assert_eq!(buf, vec![0xff, 0xfe, 1, 2, 3, 4, 5, 6, 7, 8]);
    assert_eq!(read_i16_be(&buf, 0), Ok((-2, 2)));
    assert_eq!(read_i64_be(&buf, 2), Ok((0x0102030405060708, 10)));
    assert_eq!(read_i64_be(&buf, 3), Err(ProtocolError::UnexpectedEnd));
}

#[test]
fn uuid_wire_form_flips_sign_bits() {
    let mut buf = Vec::new();
    write_uuid(&mut buf, 0);
    assert_eq!(buf, vec![0x80, 0, 0, 0, 0, 0, 0, 0, 0x80, 0, 0, 0, 0, 0, 0, 0]);
}

#[test]
fn uuid_round_trip_with_sign_bits() {
    let values: [u128; 5] = [
        0,
        0x8000_0000_0000_0000_8000_0000_0000_0000,
        0xffff_ffff_ffff_ffff_ffff_ffff_ffff_ffff,
        0x0123_4567_89ab_cdef_fedc_ba98_7654_3210,
        0x8000_0000_0000_0001_0000_0000_0000_0001,
    ];
    for v in values {
        let mut buf = Vec::new();
        write_uuid(&mut buf, v);
        assert_eq!(read_uuid(&buf, 0), Ok((v, 16)));
    }
}

#[test]
fn short_prefixed_bytes() {
    let mut buf = Vec::new();
    write_bytes_short(&mut buf, &[1, 2, 3]);
    assert_eq!(buf, vec![0, 3, 1, 2, 3]);
    assert_eq!(read_bytes_short(&buf, 0), Ok((vec![1, 2, 3], 5)));
}

#[test]
fn empty_item_stack_is_one_short() {
    let mut buf = Vec::new();
    write_field(&mut buf, &FieldValue::Item(ItemStack { item_id: -1, count: 5, damage: 9 }));
    assert_eq!(buf, vec![0xff, 0xff]);
    match read_field(FieldKind::Item, &buf, 0) {
        Ok((FieldValue::Item(it), 2)) => assert_eq!(it, ItemStack { item_id: -1, count: 0, damage: 0 }),
        other => panic!("unexpected {:?}", other),
    }
}

#[test]
fn item_stack_list_round_trip() {
    let items = vec![
        ItemStack { item_id: 1, count: 64, damage: 0 },
        ItemStack { item_id: -1, count: 0, damage: 0 },
        ItemStack { item_id: 276, count: 1, damage: 17 },
    ];
    let mut buf = Vec::new();
    write_field(&mut buf, &FieldValue::Items(items.clone()));
    match read_field(FieldKind::Items, &buf, 0) {
        Ok((FieldValue::Items(back), end)) => {
            assert_eq!(back, items);
            assert_eq!(end, buf.len());
        },
        other => panic!("unexpected {:?}", other),
    }
}

#[test]
fn entity_properties_round_trip() {
    let props = vec![EntityProperty {
        key: "generic.movementSpeed".to_string(),
        value: 0.1f64.to_bits(),
        modifiers: vec![EntityAttributeModifier { uuid: 0x8000_0000_0000_0000_0000_0000_0000_0001, amount: 0.5f64.to_bits(), operation: 2 }],
    }];
    let mut buf = Vec::new();
    write_field(&mut buf, &FieldValue::EntityProperties(props));
    match read_field(FieldKind::EntityProperties, &buf, 0) {
        Ok((FieldValue::EntityProperties(back), end)) => {
            assert_eq!(end, buf.len());
            assert_eq!(back.len(), 1);
            assert_eq!(back[0].key, "generic.movementSpeed");
            assert_eq!(f64::from_bits(back[0].value), 0.1);
            assert_eq!(back[0].modifiers[0].operation, 2);
            assert_eq!(back[0].modifiers[0].uuid, 0x8000_0000_0000_0000_0000_0000_0000_0001);
        },
        other => panic!("unexpected {:?}", other),
    }
}

#[test]
fn statistics_round_trip() {
    let mut stats = Properties::new();
    assert!(stats.0.is_empty());
    stats.0.push(("stat.leaveGame".to_string(), 3));
    stats.0.push(("stat.jump".to_string(), 300));
    let mut buf = Vec::new();
    write_field(&mut buf, &FieldValue::Statistics(stats));
    match read_field(FieldKind::Statistics, &buf, 0) {
        Ok((FieldValue::Statistics(back), end)) => {
            assert_eq!(end, buf.len());
            assert_eq!(back.0, vec![("stat.leaveGame".to_string(), 3), ("stat.jump".to_string(), 300)]);
        },
        other => panic!("unexpected {:?}", other),
    }
}

#[test]
fn negative_statistics_count_is_rejected() {
    let buf = encode_varint(-3);
    assert!(matches!(read_field(FieldKind::Statistics, &buf, 0), Err(ProtocolError::InvalidEncoding)));
}
