use effect_sync::codec::is_encodable;
use effect_sync::codec::EntityPropertyRead;
use effect_sync::codec::EntityPropertyWrite;
use effect_sync::entityproperty::EntityProperties;
use effect_sync::entityproperty::EntityProperty;
use effect_sync::entityproperty::ModifierOperation;
use effect_sync::entityproperty::PropertyModifier;
use effect_sync::packet::EntityEffect;
use effect_sync::packet::EntityPropertiesPacket;
use effect_sync::packet::RemoveEntityEffect;
use effect_sync::wire::push_i32;
use effect_sync::wire::push_i8;
use effect_sync::wire::push_string;
use effect_sync::wire::push_u64;
use effect_sync::wire::push_uuid;
use effect_sync::wire::push_var_int;
use effect_sync::wire::ByteReader;
use effect_sync::wire::MalformedPacket;

fn var_int(value: i32) -> Vec<u8> {
    let mut buf = Vec::new();
    push_var_int(&mut buf, value);
    buf
}

fn sample_modifier_a() -> PropertyModifier {
    PropertyModifier::new(
        0x0102_0304_0506_0708_090a_0b0c_0d0e_0f10,
        1.5f64.to_bits(),
        ModifierOperation::Add,
    )
}

fn sample_modifier_b() -> PropertyModifier {
    PropertyModifier::new(
        0x91AE_AA56_376B_4498_935B_2F7F_6807_0635,
        0.2f64.to_bits(),
        ModifierOperation::Multiply,
    )
}

fn two_properties() -> EntityProperties {
    let mut speed = EntityProperty::new(0.699999988079071f64.to_bits());
    speed.add_modifier(sample_modifier_a());
    speed.add_modifier(sample_modifier_b());
    let mut properties = EntityProperties::default();
    properties.add_property("generic.movementSpeed".to_string(), speed);
    properties.add_property("generic.attackDamage".to_string(), EntityProperty::new(2.0f64.to_bits()));
    properties
}

fn two_properties_bytes() -> Vec<u8> {
    let mut expected: Vec<u8> = vec![0, 0, 0, 2];
    expected.push(20);
    expected.extend_from_slice(b"generic.attackDamage");
    expected.extend_from_slice(&[0x40, 0, 0, 0, 0, 0, 0, 0]);
    expected.push(0);
    expected.push(21);
    expected.extend_from_slice(b"generic.movementSpeed");
    expected.extend_from_slice(&[0x3f, 0xe6, 0x66, 0x66, 0x60, 0, 0, 0]);
    expected.push(2);
    expected.extend_from_slice(&[1, 2, 3, 4, 5, 6, 7, 8, 9, 10, 11, 12, 13, 14, 15, 16]);
    expected.extend_from_slice(&[0x3f, 0xf8, 0, 0, 0, 0, 0, 0]);
    expected.push(0);
    expected.extend_from_slice(&[
        0x91, 0xae, 0xaa, 0x56, 0x37, 0x6b, 0x44, 0x98, 0x93, 0x5b, 0x2f, 0x7f, 0x68, 0x07, 0x06,
        0x35,
    ]);
    expected.extend_from_slice(&[0x3f, 0xc9, 0x99, 0x99, 0x99, 0x99, 0x99, 0x9a]);
    expected.push(2);
    expected
}

#[test]
fn fixed_width_integers_are_big_endian_twos_complement() {
    let mut buf = Vec::new();
    push_i8(&mut buf, -2);
    push_i8(&mut buf, 127);
    push_i32(&mut buf, 0x0102_0304);
    push_i32(&mut buf, -1);
    push_i32(&mut buf, i32::MIN);
    push_u64(&mut buf, 0x0102_0304_0506_0708);
    push_uuid(&mut buf, 0x1112_1314_1516_1718_191a_1b1c_1d1e_1f20);
    assert_eq!(
        buf,
        vec![
            0xfe, 0x7f, 1, 2, 3, 4, 0xff, 0xff, 0xff, 0xff, 0x80, 0, 0, 0, 1, 2, 3, 4, 5, 6, 7, 8,
            0x11, 0x12, 0x13, 0x14, 0x15, 0x16, 0x17, 0x18, 0x19, 0x1a, 0x1b, 0x1c, 0x1d, 0x1e,
            0x1f, 0x20,
        ]
    );
    let mut reader = ByteReader::new(&buf);
    assert_eq!(reader.try_get_i8(), Ok(-2));
    assert_eq!(reader.try_get_i8(), Ok(127));
    assert_eq!(reader.try_get_i32(), Ok(0x0102_0304));
    assert_eq!(reader.try_get_i32(), Ok(-1));
    assert_eq!(reader.try_get_i32(), Ok(i32::MIN));
    assert_eq!(reader.try_get_u64(), Ok(0x0102_0304_0506_0708));
    assert_eq!(reader.try_get_uuid(), Ok(0x1112_1314_1516_1718_191a_1b1c_1d1e_1f20));
    assert_eq!(reader.remaining(), 0);
}

#[test]
fn var_int_has_seven_bits_to_a_byte() {
    assert_eq!(var_int(0), vec![0x00]);
    assert_eq!(var_int(1), vec![0x01]);
    assert_eq!(var_int(127), vec![0x7f]);
    assert_eq!(var_int(128), vec![0x80, 0x01]);
    assert_eq!(var_int(255), vec![0xff, 0x01]);
    assert_eq!(var_int(300), vec![0xac, 0x02]);
    assert_eq!(var_int(2097151), vec![0xff, 0xff, 0x7f]);
    assert_eq!(var_int(i32::MAX), vec![0xff, 0xff, 0xff, 0xff, 0x07]);
    assert_eq!(var_int(-1), vec![0xff, 0xff, 0xff, 0xff, 0x0f]);
    assert_eq!(var_int(i32::MIN), vec![0x80, 0x80, 0x80, 0x80, 0x08]);
}

#[test]
fn var_int_round_trips() {
    for value in [0, 1, 127, 128, 300, 25565, 2097151, i32::MAX, -1, -300, i32::MIN] {
        let bytes = var_int(value);
        let mut reader = ByteReader::new(&bytes);
        assert_eq!(reader.try_get_var_int(), Ok(value));
        assert_eq!(reader.remaining(), 0);
    }
}

#[test]
fn var_int_of_more_than_five_bytes_is_malformed() {
    let bytes = [0x80, 0x80, 0x80, 0x80, 0x80, 0x01];
    let mut reader = ByteReader::new(&bytes);
    assert_eq!(reader.try_get_var_int(), Err(MalformedPacket::InvalidVarInt));
    assert_eq!(reader.remaining(), 6);
}

#[test]
fn var_int_of_more_than_32_bits_is_malformed() {
    let bytes = [0xff, 0xff, 0xff, 0xff, 0x10];
    let mut reader = ByteReader::new(&bytes);
    assert_eq!(reader.try_get_var_int(), Err(MalformedPacket::InvalidVarInt));
    assert_eq!(reader.remaining(), 5);
}

#[test]
fn var_int_that_ends_early_is_truncated() {
    let bytes = [0x80, 0x80];
    let mut reader = ByteReader::new(&bytes);
    assert_eq!(reader.try_get_var_int(), Err(MalformedPacket::Truncated));
    assert_eq!(reader.remaining(), 2);
    let mut empty = ByteReader::new(&[]);
    assert_eq!(empty.try_get_var_int(), Err(MalformedPacket::Truncated));
}

#[test]
fn fixed_width_reads_of_short_input_are_truncated() {
    let bytes = [1, 2, 3];
    let mut reader = ByteReader::new(&bytes);
    assert_eq!(reader.try_get_i32(), Err(MalformedPacket::Truncated));
    assert_eq!(reader.try_get_u64(), Err(MalformedPacket::Truncated));
    assert_eq!(reader.try_get_uuid(), Err(MalformedPacket::Truncated));
    assert_eq!(reader.remaining(), 3);
    assert_eq!(reader.try_get_i8(), Ok(1));
    assert_eq!(reader.remaining(), 2);
    let mut empty = ByteReader::new(&[]);
    assert_eq!(empty.try_get_i8(), Err(MalformedPacket::Truncated));
}

#[test]
fn string_is_length_then_utf8() {
    let mut buf = Vec::new();
    push_string(&mut buf, "abc");
    push_string(&mut buf, "");
    push_string(&mut buf, "h\u{e9}\u{20ac}");
    assert_eq!(buf, vec![3, b'a', b'b', b'c', 0, 6, b'h', 0xc3, 0xa9, 0xe2, 0x82, 0xac]);
    let mut reader = ByteReader::new(&buf);
    assert_eq!(reader.try_get_string(), Ok("abc".to_string()));
    assert_eq!(reader.try_get_string(), Ok(String::new()));
    assert_eq!(reader.try_get_string(), Ok("h\u{e9}\u{20ac}".to_string()));
    assert_eq!(reader.remaining(), 0);
}

#[test]
fn long_string_has_a_two_byte_length() {
    let text = "x".repeat(200);
    let mut buf = Vec::new();
    push_string(&mut buf, &text);
    assert_eq!(buf.len(), 202);
    assert_eq!(&buf[..2], &[0xc8, 0x01]);
    let mut reader = ByteReader::new(&buf);
    assert_eq!(reader.try_get_string(), Ok(text));
}

#[test]
fn string_with_a_negative_length_is_malformed() {
    let bytes = var_int(-5);
    let mut reader = ByteReader::new(&bytes);
    assert_eq!(reader.try_get_string(), Err(MalformedPacket::InvalidStringLength(-5)));
    assert_eq!(reader.remaining(), 5);
}

#[test]
fn string_longer_than_the_input_is_truncated() {
    let bytes = [4, b'a', b'b', b'c'];
    let mut reader = ByteReader::new(&bytes);
    assert_eq!(reader.try_get_string(), Err(MalformedPacket::Truncated));
    assert_eq!(reader.remaining(), 4);
}

#[test]
fn string_that_is_not_utf8_is_malformed() {
    let bytes = [2, 0xc3, 0x28];
    let mut reader = ByteReader::new(&bytes);
    assert_eq!(reader.try_get_string(), Err(MalformedPacket::InvalidString));
    assert_eq!(reader.remaining(), 3);
    let lone = [1, 0x80];
    assert_eq!(ByteReader::new(&lone).try_get_string(), Err(MalformedPacket::InvalidString));
}

#[test]
fn modifier_is_identifier_amount_operation() {
    let mut buf: Vec<u8> = Vec::new();
    buf.push_modifier(&sample_modifier_b());
    assert_eq!(
        buf,
        vec![
            0x91, 0xae, 0xaa, 0x56, 0x37, 0x6b, 0x44, 0x98, 0x93, 0x5b, 0x2f, 0x7f, 0x68, 0x07,
            0x06, 0x35, 0x3f, 0xc9, 0x99, 0x99, 0x99, 0x99, 0x99, 0x9a, 0x02,
        ]
    );
    let mut reader = ByteReader::new(&buf);
    assert_eq!(reader.try_get_modifier(), Ok(sample_modifier_b()));
    assert_eq!(reader.remaining(), 0);
}

#[test]
fn unknown_operation_byte_is_rejected() {
    let mut buf: Vec<u8> = Vec::new();
    buf.push_modifier(&sample_modifier_a());
    let last = buf.len() - 1;
    buf[last] = 3;
    let mut reader = ByteReader::new(&buf);
    assert_eq!(reader.try_get_modifier(), Err(MalformedPacket::UnknownOperation(3)));
    assert_eq!(reader.remaining(), 25);
    buf[last] = 0xff;
    assert_eq!(
        ByteReader::new(&buf).try_get_modifier(),
        Err(MalformedPacket::UnknownOperation(-1))
    );
}

#[test]
fn truncated_modifier_is_rejected() {
    let mut buf: Vec<u8> = Vec::new();
    buf.push_modifier(&sample_modifier_a());
    for cut in 0..buf.len() {
        let mut reader = ByteReader::new(&buf[..cut]);
        assert_eq!(reader.try_get_modifier(), Err(MalformedPacket::Truncated));
        assert_eq!(reader.remaining(), cut);
    }
}

#[test]
fn property_is_base_count_modifiers() {
    let mut property = EntityProperty::new(2.0f64.to_bits());
    property.add_modifier(sample_modifier_a());
    let mut buf: Vec<u8> = Vec::new();
    buf.push_property(&property);
    let mut expected = vec![0x40, 0, 0, 0, 0, 0, 0, 0, 1];
    expected.extend_from_slice(&[1, 2, 3, 4, 5, 6, 7, 8, 9, 10, 11, 12, 13, 14, 15, 16]);
    expected.extend_from_slice(&[0x3f, 0xf8, 0, 0, 0, 0, 0, 0, 0]);
    assert_eq!(buf, expected);
    let mut reader = ByteReader::new(&buf);
    let read = reader.try_get_property().unwrap();
    assert_eq!(read.base_value(), 2.0f64.to_bits());
    assert_eq!(read.modifiers().clone(), vec![sample_modifier_a()]);
    assert_eq!(reader.remaining(), 0);
}

#[test]
fn properties_encode_to_the_known_bytes() {
    let mut buf: Vec<u8> = Vec::new();
    buf.push_properties(&two_properties());
    assert_eq!(buf, two_properties_bytes());
}

#[test]
fn reencoding_decoded_properties_is_byte_identical() {
    let bytes = two_properties_bytes();
    let mut reader = ByteReader::new(&bytes);
    let decoded = reader.try_get_properties().unwrap();
    assert_eq!(reader.remaining(), 0);
    assert_eq!(decoded.len(), 2);
    assert!(decoded.get_property("generic.attackDamage").unwrap().modifiers().is_empty());
    assert_eq!(
        decoded.get_property("generic.movementSpeed").unwrap().modifiers().clone(),
        vec![sample_modifier_a(), sample_modifier_b()]
    );
    assert!(is_encodable(&decoded));
    let mut again: Vec<u8> = Vec::new();
    again.push_properties(&decoded);
    assert_eq!(again, bytes);
}

#[test]
fn default_set_round_trips() {
    let properties = EntityProperties::new();
    let mut buf: Vec<u8> = Vec::new();
    buf.push_properties(&properties);
    buf.push(0xaa);
    let mut reader = ByteReader::new(&buf);
    let decoded = reader.try_get_properties().unwrap();
    assert_eq!(reader.remaining(), 1);
    assert_eq!(decoded.len(), 7);
    for place in 0..7 {
        assert_eq!(decoded.name_at(place), properties.name_at(place));
        assert_eq!(
            decoded.property_at(place).base_value(),
            properties.property_at(place).base_value()
        );
        assert!(decoded.property_at(place).modifiers().is_empty());
    }
}

#[test]
fn floating_point_bits_survive_the_wire() {
    for bits in [f64::NAN.to_bits(), 0x7ff8_0000_0000_0001, (-0.0f64).to_bits(), f64::MIN_POSITIVE.to_bits(), u64::MAX] {
        let mut property = EntityProperty::new(bits);
        property.add_modifier(PropertyModifier::new(1, bits, ModifierOperation::AddPercent));
        let mut buf: Vec<u8> = Vec::new();
        buf.push_property(&property);
        let read = ByteReader::new(&buf).try_get_property().unwrap();
        assert_eq!(read.base_value(), bits);
        assert_eq!(read.modifiers()[0].amount(), bits);
    }
}

#[test]
fn empty_set_is_four_zero_bytes() {
    let mut buf: Vec<u8> = Vec::new();
    buf.push_properties(&EntityProperties::default());
    assert_eq!(buf, vec![0, 0, 0, 0]);
    let decoded = ByteReader::new(&buf).try_get_properties().unwrap();
    assert!(decoded.is_empty());
}

#[test]
fn negative_counts_announce_nothing() {
    let bytes = [0xff, 0xff, 0xff, 0xff, 7];
    let mut reader = ByteReader::new(&bytes);
    let decoded = reader.try_get_properties().unwrap();
    assert!(decoded.is_empty());
    assert_eq!(reader.remaining(), 1);
    let mut property_bytes = vec![0x40, 0, 0, 0, 0, 0, 0, 0];
    property_bytes.extend_from_slice(&var_int(-1));
    let property = ByteReader::new(&property_bytes).try_get_property().unwrap();
    assert!(property.modifiers().is_empty());
}

#[test]
fn of_two_attributes_with_one_name_the_later_stays() {
    let mut bytes = vec![0, 0, 0, 2];
    for base in [1u8, 2u8] {
        bytes.push(1);
        bytes.push(b'a');
        bytes.extend_from_slice(&[0, 0, 0, 0, 0, 0, 0, base]);
        bytes.push(0);
    }
    let decoded = ByteReader::new(&bytes).try_get_properties().unwrap();
    assert_eq!(decoded.len(), 1);
    assert_eq!(decoded.get_property("a").unwrap().base_value(), 2);
}

#[test]
fn malformed_properties_take_no_byte() {
    let good = two_properties_bytes();
    for cut in 0..good.len() {
        let mut reader = ByteReader::new(&good[..cut]);
        assert_eq!(reader.try_get_properties().err(), Some(MalformedPacket::Truncated));
        assert_eq!(reader.remaining(), cut);
    }
    let mut bad = good.clone();
    let last = bad.len() - 1;
    bad[last] = 9;
    let mut reader = ByteReader::new(&bad);
    assert_eq!(reader.try_get_properties().err(), Some(MalformedPacket::UnknownOperation(9)));
    assert_eq!(reader.remaining(), bad.len());
}

#[test]
fn entity_effect_packet_layout_and_round_trip() {
    let packet =
        EntityEffect { entity_id: 0x0a0b_0c0d, effect_id: 19, amplifier: -1, duration: 600, flags: 3 };
    let mut buf = Vec::new();
    packet.encode(&mut buf);
    assert_eq!(buf, vec![0x0a, 0x0b, 0x0c, 0x0d, 19, 0xff, 0, 0, 0x02, 0x58, 3]);
    let mut reader = ByteReader::new(&buf);
    assert_eq!(EntityEffect::decode(&mut reader), Ok(packet));
    assert_eq!(reader.remaining(), 0);
    let mut short = ByteReader::new(&buf[..10]);
    assert_eq!(EntityEffect::decode(&mut short), Err(MalformedPacket::Truncated));
    assert_eq!(short.remaining(), 10);
}

#[test]
fn remove_entity_effect_packet_layout_and_round_trip() {
    let packet = RemoveEntityEffect { entity_id: -2, effect_id: 1 };
    let mut buf = Vec::new();
    packet.encode(&mut buf);
    assert_eq!(buf, vec![0xff, 0xff, 0xff, 0xfe, 1]);
    let mut reader = ByteReader::new(&buf);
    assert_eq!(RemoveEntityEffect::decode(&mut reader), Ok(packet));
    let mut short = ByteReader::new(&buf[..4]);
    assert_eq!(RemoveEntityEffect::decode(&mut short), Err(MalformedPacket::Truncated));
    assert_eq!(short.remaining(), 4);
}

#[test]
fn entity_properties_packet_layout_and_round_trip() {
    let packet = EntityPropertiesPacket { entity_id: 7, properties: two_properties() };
    let mut buf = Vec::new();
    packet.encode(&mut buf);
    let mut expected = vec![0, 0, 0, 7];
    expected.extend_from_slice(&two_properties_bytes());
    assert_eq!(buf, expected);
    let mut reader = ByteReader::new(&buf);
    let decoded = EntityPropertiesPacket::decode(&mut reader).unwrap();
    assert_eq!(reader.remaining(), 0);
    assert_eq!(decoded.entity_id, 7);
    let mut again = Vec::new();
    decoded.encode(&mut again);
    assert_eq!(again, buf);
    let copy = decoded.clone();
    assert_eq!(copy.entity_id, 7);
    assert_eq!(copy.properties.len(), 2);
}
