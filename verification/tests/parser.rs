//! Tests of the message codec.

use indexmap::IndexMap;
use kalico_host_rt::host_io::codec::{
    encode_field_str, encode_field_value, parse_hex_buffer, FieldValue,
};
use kalico_host_rt::host_io::decode::DecodedFrame;
use kalico_host_rt::host_io::enums::{
    apply_enumeration_wrapping, check_values, EnumTable, EnumValue, EnumValueError, WrappedField,
};
use kalico_host_rt::host_io::format::{
    extract_free_form_field_types, format_output_message, parse_format_string, FieldType,
};
use kalico_host_rt::host_io::parse_error::ParseError;
use kalico_host_rt::host_io::parser::{DataDictionary, DispatchSpec, MsgProtoParser};
use kalico_host_rt::host_io::vlq::{decode_vlq, encode_vlq};
use kalico_host_rt::host_io::wire::MESSAGE_MIN;
use kalico_host_rt::ordered_map::OrderedMap;
use kalico_host_rt::text::split_words;
use kalico_host_rt::transport::MessageValue;

fn empty_dict() -> DataDictionary {
    DataDictionary {
        commands: OrderedMap::new(),
        responses: OrderedMap::new(),
        output: OrderedMap::new(),
        enumerations: OrderedMap::new(),
        config: "{}".into(),
        version: "v".into(),
        app: "kalico".into(),
        build_versions: None,
        license: None,
    }
}

fn parser_of(d: DataDictionary) -> Result<MsgProtoParser, ParseError> {
    assert!(d.check());
    MsgProtoParser::from_dictionary(d)
}

/// The enumerator that a JSON value gives.
fn enum_value(v: &serde_json::Value) -> Result<EnumValue, EnumValueError> {
    EnumValue::from_json_parts(
        v.as_i64(),
        v.as_array().map(|a| a.iter().map(|x| x.as_i64()).collect()),
    )
}

/// The enumeration that a JSON object gives.
fn enum_values(v: &IndexMap<String, serde_json::Value>) -> OrderedMap<EnumValue> {
    let mut m = OrderedMap::new();
    for (k, x) in v {
        m.insert(k.clone(), enum_value(x).unwrap());
    }
    m
}

fn build_packet(msgid: i32, payload: &[u8]) -> Vec<u8> {
    let mut frame = Vec::new();
    let mut body = Vec::new();
    encode_vlq(&mut body, i64::from(msgid)).unwrap();
    body.extend_from_slice(payload);
    let msglen = MESSAGE_MIN + body.len();
    frame.push(msglen as u8);
    frame.push(0x10);    // dest|seq=0
    frame.extend_from_slice(&body);
    frame.extend_from_slice(&[0, 0]);    // dummy CRC
    frame.push(0x7E);
    frame
}

#[test]
fn rejects_duplicate_msgid_across_sections() {
    let mut d = empty_dict();
    d.commands.insert("cmd_a arg=%u".into(), 5);
    d.responses.insert("rsp_b arg=%u".into(), 5);
    match parser_of(d) {
        Err(ParseError::DuplicateMsgid(5)) => {}
        other => panic!("expected DuplicateMsgid(5), got {:?}", other),
    }
}

#[test]
fn rejects_duplicate_format_string() {
    let mut d = empty_dict();
    d.commands.insert("cmd arg=%u".into(), 5);
    d.responses.insert("cmd arg=%u".into(), 6);
    match parser_of(d) {
        Err(ParseError::DuplicateFormatString(_)) => {}
        other => panic!("expected DuplicateFormatString, got {:?}", other),
    }
}

#[test]
fn accepts_disjoint_categories() {
    let mut d = empty_dict();
    d.commands.insert("cmd_a arg=%u".into(), 1);
    d.responses.insert("rsp_a arg=%u".into(), 2);
    d.output.insert("evt_a arg=%u".into(), 3);
    let p = parser_of(d).unwrap();
    assert!(matches!(p.by_msgid.get(&1), Some(DispatchSpec::Response(_))));
    assert!(matches!(p.by_msgid.get(&2), Some(DispatchSpec::Response(_))));
    assert!(matches!(p.by_msgid.get(&3), Some(DispatchSpec::Output(_))));
}

/// Free-form `output(...)` formats whose fields aren't
/// `name=%type`-tagged must accept-and-fall-back, not reject the dict.
#[test]
fn accepts_free_form_output_format() {
    let mut d = empty_dict();
    d.output.insert("debug_blob count=%u %s".into(), 7);
    let p = parser_of(d).expect("free-form output must parse");
    match p.by_msgid.get(&7) {
        Some(DispatchSpec::Output(spec)) => {
            assert!(spec.is_free_form, "must mark as free-form");
            assert_eq!(spec.fields.len(), 2, "two %-codes recovered positionally");
            assert!(spec.field_names.is_empty());
        }
        other => panic!("expected free-form Output, got {other:?}"),
    }
}

#[test]
fn free_form_output_decodes_to_canonical_msg() {
    let mut d = empty_dict();
    d.output.insert("debug_blob %u %s".into(), 8);
    let parser = parser_of(d).unwrap();
    // Body: msgid VLQ + u32 VLQ value 5 + length-prefixed string "hi"
    let mut body = Vec::new();
    encode_vlq(&mut body, 8).unwrap();        // msgid
    encode_vlq(&mut body, 5).unwrap();        // %u value
    body.push(2);                              // %s length prefix
    body.extend_from_slice(b"hi");

    let mut packet = vec![0u8, 0u8];           // 2-byte header (len + dest|seq)
    packet.extend_from_slice(&body);
    packet.extend_from_slice(&[0, 0, 0]);      // 3-byte trailer (CRC + sync)

    let frame = parser.decode(&packet).expect("decode succeeds");
    match frame {
        DecodedFrame::Output { name, params } => {
            assert_eq!(name, "#output", "free-form must surface as #output");
            let msg = params.try_get_str("#msg").unwrap_or("");
            assert!(msg.contains("5"),  "formatted message contains %u value: {msg:?}");
            assert!(msg.contains("hi"), "formatted message contains %s value: {msg:?}");
        }
        other => panic!("expected Output, got {other:?}"),
    }
}

#[test]
fn parses_kalico_push_segment_format() {
    let s = "kalico_push_segment id=%u x_handle=%u y_handle=%u z_handle=%u e_handle=%u kinematics=%c";
    let (name, fields) = parse_format_string(s).unwrap();
    assert_eq!(name, "kalico_push_segment");
    assert_eq!(fields.len(), 6);
    assert_eq!(fields[0], ("id".to_string(), FieldType::U32));
    assert_eq!(fields[5], ("kinematics".to_string(), FieldType::Byte));
}

#[test]
fn parses_progmem_buffer_in_identify_response() {
    let s = "identify_response offset=%u data=%.*s";
    let (name, fields) = parse_format_string(s).unwrap();
    assert_eq!(name, "identify_response");
    assert_eq!(fields[1].1, FieldType::ProgmemBuffer);
}

#[test]
fn rejects_unknown_format_code_hc() {
    let s = "bad_cmd val=%hc";
    match parse_format_string(s) {
        Err(ParseError::UnknownFormatCode(c)) if c == "%hc" => {}
        other => panic!("expected UnknownFormatCode(%hc), got {:?}", other),
    }
}

#[test]
fn from_dict_expands_range() {
    let mut d = OrderedMap::new();
    d.insert("PA0".to_string(), EnumValue::Range { start: 0, count: 16 });
    assert!(check_values(&d));
    let table = EnumTable::from_dict(&d);
    assert_eq!(table.by_name.get("PA0"), Some(&0));
    assert_eq!(table.by_name.get("PA15"), Some(&15));
    assert_eq!(table.by_int.get(&15), Some(&"PA15".to_string()));
    assert_eq!(table.by_name.len(), 16);
}

#[test]
fn matches_exact_name() {
    let mut enums = OrderedMap::new();
    let mut pin_table = OrderedMap::new();
    pin_table.insert("PA0".to_string(), EnumValue::Single(0));
    enums.insert("pin".to_string(), pin_table);

    let fields = vec![("pin".to_string(), FieldType::U32)];
    let wrapped = apply_enumeration_wrapping(fields, &enums);
    match &wrapped[0].1 {
        WrappedField::Enumerated { enum_name, .. } => assert_eq!(enum_name, "pin"),
        other => panic!("expected Enumerated, got {:?}", other),
    }
}

#[test]
fn matches_underscore_suffix() {
    let mut enums = OrderedMap::new();
    let mut pin_table = OrderedMap::new();
    pin_table.insert("PA0".to_string(), EnumValue::Single(0));
    enums.insert("pin".to_string(), pin_table);

    let fields = vec![("step_pin".to_string(), FieldType::U32)];
    let wrapped = apply_enumeration_wrapping(fields, &enums);
    match &wrapped[0].1 {
        WrappedField::Enumerated { enum_name, .. } => assert_eq!(enum_name, "pin"),
        other => panic!("expected Enumerated (matched via _pin suffix), got {:?}", other),
    }
}

#[test]
fn first_match_in_insertion_order_wins() {
    let mut enums = OrderedMap::new();

    let mut pin_table = OrderedMap::new();
    pin_table.insert("PA0".to_string(), EnumValue::Single(0));
    enums.insert("pin".to_string(), pin_table);    // declared FIRST

    let mut step_pin_table = OrderedMap::new();
    step_pin_table.insert("X_step".to_string(), EnumValue::Single(99));
    enums.insert("step_pin".to_string(), step_pin_table);    // declared SECOND

    let fields = vec![("step_pin".to_string(), FieldType::U32)];
    let wrapped = apply_enumeration_wrapping(fields, &enums);
    match &wrapped[0].1 {
        WrappedField::Enumerated { enum_name, .. } => {
            assert_eq!(enum_name, "pin",
                "first-match (pin via _pin suffix) wins, NOT longest-suffix (step_pin)");
        }
        other => panic!("expected Enumerated, got {:?}", other),
    }
}

#[test]
fn round_trips_representative_values() {
    // The signed VLQ preserves the i64 value exactly — including u32::MAX
    // (4294967295), which is distinct from -1 on the wire: 5 bytes against 1.
    for v in [0i64, 1, -1, 100, 100_000, i64::from(i32::MIN), i64::from(u32::MAX)] {
        let mut buf = Vec::new();
        encode_vlq(&mut buf, v).unwrap();
        let (decoded, consumed) = decode_vlq(&buf).unwrap();
        assert_eq!(consumed, buf.len(), "consumed != encoded length for {}", v);
        assert_eq!(decoded, v, "round-trip for {} produced {}", v, decoded);
    }
}

#[test]
fn encode_vlq_rejects_out_of_range() {
    let mut buf = Vec::new();
    match encode_vlq(&mut buf, i64::from(u32::MAX) + 1) {
        Err(ParseError::OutOfRange { .. }) => {}
        other => panic!("expected OutOfRange, got {:?}", other),
    }
    match encode_vlq(&mut buf, i64::from(i32::MIN) - 1) {
        Err(ParseError::OutOfRange { .. }) => {}
        other => panic!("expected OutOfRange, got {:?}", other),
    }
}

#[test]
fn encodes_string_length_prefixed() {
    let mut buf = Vec::new();
    encode_field_value(&mut buf, FieldType::String, &FieldValue::String("hi")).unwrap();
    assert_eq!(buf, vec![2, b'h', b'i']);
}

#[test]
fn encodes_byte_via_vlq() {
    let mut buf = Vec::new();
    encode_field_value(&mut buf, FieldType::Byte, &FieldValue::Byte(0xFF)).unwrap();
    assert_eq!(buf, vec![0x81, 0x7F]);
}

#[test]
fn byte_field_accepts_signed_negative() {
    // Klipper's reference msgproto (PT_byte → PT_uint32 VLQ) accepts
    // signed values for %c. The bridge path's config_stepper emits
    // invert_step=-1 (commit 8649861c9); rejecting it here breaks every
    // config_stepper on every bridge-mode MCU. Regression guard.
        let enums: OrderedMap<EnumTable> = OrderedMap::new();
    for v in &["-1", "-128", "0", "127", "255"] {
        let mut buf = Vec::new();
        encode_field_str(
            &mut buf,
            &WrappedField::Plain(FieldType::Byte),
            v,
            &enums,
        ).unwrap_or_else(|e| panic!("Byte should accept {v:?}: {e:?}"));
        assert!(!buf.is_empty(), "encoded payload non-empty for {v:?}");
    }
}

#[test]
fn byte_field_still_rejects_truly_out_of_range() {
        let enums: OrderedMap<EnumTable> = OrderedMap::new();
    // -129 and 256 are outside the signed+unsigned byte envelope.
    for v in &["-129", "256", "1000", "-1000"] {
        let mut buf = Vec::new();
        let r = encode_field_str(
            &mut buf,
            &WrappedField::Plain(FieldType::Byte),
            v,
            &enums,
        );
        assert!(matches!(r, Err(ParseError::OutOfRange { .. })),
            "Byte should reject {v:?}, got {r:?}");
    }
}

#[test]
fn rejects_string_too_long() {
    let s = "x".repeat(300);
    let mut buf = Vec::new();
    match encode_field_value(&mut buf, FieldType::String, &FieldValue::String(&s)) {
        Err(ParseError::OutOfRange { .. }) => {}
        other => panic!("expected OutOfRange, got {:?}", other),
    }
}

#[test]
fn parse_hex_buffer_round_trips() {
    assert_eq!(parse_hex_buffer("0123abcd").unwrap(), vec![0x01, 0x23, 0xAB, 0xCD]);
    assert_eq!(parse_hex_buffer("").unwrap(), Vec::<u8>::new());
    assert!(matches!(parse_hex_buffer("0z"), Err(ParseError::BadHex(_))));
    assert!(matches!(parse_hex_buffer("1"), Err(ParseError::BadHex(_))));
}

fn parser_with_one_command() -> MsgProtoParser {
    let mut d = empty_dict();
    d.commands.insert("ping val=%u".into(), 42);
    parser_of(d).unwrap()
}

#[test]
fn string_and_typed_encode_to_same_bytes() {
    let p = parser_with_one_command();
    let bytes_str = p.encode("ping val=100").unwrap();
    let bytes_typed = p.encode_typed("ping", &[("val", FieldValue::U32(100))]).unwrap();
    assert_eq!(bytes_str, bytes_typed);
}

#[test]
fn encode_rejects_unknown_command() {
    let p = parser_with_one_command();
    match p.encode("unknown_cmd") {
        Err(ParseError::UnknownCommand(_)) => {}
        other => panic!("expected UnknownCommand, got {:?}", other),
    }
}

#[test]
fn encode_rejects_missing_field() {
    let p = parser_with_one_command();
    match p.encode("ping") {
        Err(ParseError::MissingField(_)) => {}
        other => panic!("expected MissingField, got {:?}", other),
    }
}

#[test]
fn enum_encode_rejects_unknown_name() {
    let mut d = empty_dict();
    d.commands.insert("config_pin pin=%c".into(), 1);
    let mut pin_table = OrderedMap::new();
    pin_table.insert("PA0".to_string(), EnumValue::Single(0));
    d.enumerations.insert("pin".to_string(), pin_table);

    let p = parser_of(d).unwrap();
    match p.encode("config_pin pin=PZZZ") {
        Err(ParseError::UnknownEnumValue { value, .. }) => assert_eq!(value, "PZZZ"),
        other => panic!("expected UnknownEnumValue, got {:?}", other),
    }
}

#[test]
fn decode_response_round_trips() {
    let mut d = empty_dict();
    d.responses.insert("rsp val=%u".into(), 7);
    let parser = parser_of(d).unwrap();

    let mut payload = Vec::new();
    encode_vlq(&mut payload, 12345).unwrap();
    let packet = build_packet(7, &payload);

    match parser.decode(&packet).unwrap() {
        DecodedFrame::Response { name, params } => {
            assert_eq!(name, "rsp");
            assert_eq!(params.get_u32("val"), 12345);
        }
        other => panic!("expected Response, got {:?}", other),
    }
}

#[test]
fn decode_unknown_msgid_returns_error() {
    let d = empty_dict();
    let parser = parser_of(d).unwrap();
    let packet = build_packet(99, &[]);
    match parser.decode(&packet) {
        Err(ParseError::UnknownMsgid(99)) => {}
        other => panic!("expected UnknownMsgid(99), got {:?}", other),
    }
}

#[test]
fn decode_output_recovers_field_names() {
    let mut d = empty_dict();
    d.output.insert("kalico_credit_freed retired_through_segment_id=%u free_slots=%c".into(), 50);
    let p = parser_of(d).unwrap();

    let mut payload = Vec::new();
    encode_vlq(&mut payload, 42).unwrap();
    encode_vlq(&mut payload, 11).unwrap();
    let packet = build_packet(50, &payload);

    match p.decode(&packet).unwrap() {
        DecodedFrame::Output { name, params } => {
            assert_eq!(name, "kalico_credit_freed");
            assert_eq!(params.get_u32("retired_through_segment_id"), 42);
            assert_eq!(params.get_u32("free_slots"), 11);
        }
        other => panic!("expected Output, got {:?}", other),
    }
}

#[test]
fn decode_output_canonical_produces_msg_form() {
    let mut d = empty_dict();
    d.output.insert("kalico_credit_freed retired_through_segment_id=%u free_slots=%c".into(), 50);
    let p = parser_of(d).unwrap();

    let mut payload = Vec::new();
    encode_vlq(&mut payload, 42).unwrap();
    encode_vlq(&mut payload, 11).unwrap();
    let packet = build_packet(50, &payload);

    let (name, params) = p.decode_output_canonical(&packet).unwrap();
    assert_eq!(name, "#output");
    let msg = params.try_get_str("#msg").unwrap();
    assert!(msg.contains("kalico_credit_freed"));
    assert!(msg.contains("42"));
    assert!(msg.contains("11"));
}

#[test]
fn parses_single_int_enum() {
    let json = r#"{"ADC_TEMPERATURE": 254}"#;
    let table = enum_values(&serde_json::from_str(json).unwrap());
    match table.get("ADC_TEMPERATURE") {
        Some(EnumValue::Single(254)) => {}
        other => panic!("expected Single(254), got {:?}", other),
    }
}

#[test]
fn parses_range_enum() {
    let json = r#"{"PA0": [0, 16]}"#;
    let table = enum_values(&serde_json::from_str(json).unwrap());
    match table.get("PA0") {
        Some(EnumValue::Range { start: 0, count: 16 }) => {}
        other => panic!("expected Range {{0, 16}}, got {:?}", other),
    }
}

#[test]
fn parses_negative_msgids() {
    let json = r#"{
        "commands": {"kalico_load_curve x": -7},
        "responses": {},
        "output": {},
        "enumerations": {},
        "config": {},
        "version": "test",
        "app": "kalico"
    }"#;
    let v: serde_json::Value = serde_json::from_str(json).unwrap();
    let mut dict = empty_dict();
    for (k, id) in v["commands"].as_object().unwrap() {
        dict.commands.insert(k.clone(), id.as_i64().unwrap() as i32);
    }
    assert_eq!(*dict.commands.get("kalico_load_curve x").unwrap(), -7);
    let p = parser_of(dict);
    assert!(matches!(p, Err(ParseError::MalformedField)));
}

#[test]
fn enumerations_preserve_insertion_order() {
    let json = r#"{
            "pin": {"PA0": 0},
            "step_pin": {"X_step": 5}
        }"#;
    let parts: IndexMap<String, IndexMap<String, serde_json::Value>> =
        serde_json::from_str(json).unwrap();
    let mut dict = empty_dict();
    for (name, table) in &parts {
        dict.enumerations.insert(name.clone(), enum_values(table));
    }
    let order: Vec<&String> =
        (0..dict.enumerations.len()).map(|i| dict.enumerations.entry(i).0).collect();
    assert_eq!(
        order,
        vec![&"pin".to_string(), &"step_pin".to_string()],
        "insertion order must be kept"
    );
}

#[test]
fn other_json_values_are_no_enumerators() {
    let bad = |t: &str| enum_value(&serde_json::from_str(t).unwrap());
    assert_eq!(bad("[\"x\", 1]"), Err(EnumValueError::StartNotInt));
    assert_eq!(bad("[1, \"x\"]"), Err(EnumValueError::CountNotInt));
    assert_eq!(bad("[1, 2, 3]"), Err(EnumValueError::NeitherIntNorPair));
    assert_eq!(bad("\"x\""), Err(EnumValueError::NeitherIntNorPair));
    assert_eq!(bad("4294967295"), Ok(EnumValue::Single(-1)));
}

#[test]
fn a_later_range_name_takes_the_number_over() {
    let mut d = OrderedMap::new();
    d.insert("PB3".to_string(), EnumValue::Range { start: 7, count: 2 });
    d.insert("LED".to_string(), EnumValue::Single(8));
    assert!(check_values(&d));
    let table = EnumTable::from_dict(&d);
    assert_eq!(table.by_name.get("PB4"), Some(&8));
    assert_eq!(table.by_name.get("LED"), Some(&8));
    assert_eq!(table.by_int.get(&8), Some(&"LED".to_string()));
}

#[test]
fn keys_keep_their_place() {
    let mut m = OrderedMap::new();
    m.insert("b".to_string(), 1);
    m.insert("a".to_string(), 2);
    m.insert("b".to_string(), 3);
    assert_eq!(m.len(), 2);
    assert_eq!(m.entry(0), (&"b".to_string(), &3));
    assert_eq!(m.entry(1), (&"a".to_string(), &2));
    assert_eq!(m.get("c"), None);
}

#[test]
fn free_form_types_are_found_in_order() {
    let t = extract_free_form_field_types("a %u b=%hi, %*s").unwrap();
    assert_eq!(t, vec![FieldType::U32, FieldType::I16, FieldType::Buffer]);
}

#[test]
fn output_is_rendered_into_its_format() {
    let values = vec![
        MessageValue::U32(7),
        MessageValue::I32(-3),
        MessageValue::Bytes(vec![b'a', 0, b'\'']),
        MessageValue::String("q\"t".to_string()),
    ];
    assert_eq!(
        format_output_message("v %u %i [%*s] (%s) %c", &values),
        "v 7 -3 [b'a\\x00\\''] (\"q\\\"t\") %c"
    );
}

#[test]
fn a_string_that_is_no_word_is_split_at_white_space() {
    let p = parser_with_one_command();
    assert_eq!(p.encode("  ping \t val=100\n").unwrap(), p.encode("ping val=100").unwrap());
    assert!(matches!(p.encode("   "), Err(ParseError::EmptyCommand)));
    assert!(matches!(p.encode("ping val"), Err(ParseError::MalformedArg)));
}

#[test]
fn errors_in_words() {
    assert_eq!(ParseError::BadVlq.to_text(), "BadVlq");
    assert_eq!(
        ParseError::UnknownCommand("a\"b".to_string()).to_text(),
        "UnknownCommand(\"a\\\"b\")"
    );
    assert_eq!(ParseError::UnknownMsgid(-5).to_text(), "UnknownMsgid(-5)");
    let e = ParseError::OutOfRange { value: -129, range: "u8" };
    assert_eq!(e.to_text(), format!("{e:?}"));
    let e = ParseError::UnknownEnumValue { enum_name: "pin".into(), value: "\u{7f}x".into() };
    assert_eq!(e.to_text(), format!("{e:?}"));
}

#[test]
fn truncated_and_short_frames_are_refused() {
    let mut d = empty_dict();
    d.responses.insert("rsp val=%u data=%*s".into(), 7);
    let parser = parser_of(d).unwrap();
    assert!(matches!(parser.decode(&[1, 2, 3]), Err(ParseError::ShortFrame)));
    assert!(matches!(parser.decode(&build_packet(7, &[])), Err(ParseError::BadVlq)));
    assert!(matches!(parser.decode(&build_packet(7, &[1, 5, 1])), Err(ParseError::Truncated)));
}

#[test]
fn duplicate_names_are_refused() {
    let mut d = empty_dict();
    d.commands.insert("cmd a=%u".into(), 5);
    d.commands.insert("cmd b=%u".into(), 6);
    match parser_of(d) {
        Err(ParseError::DuplicateMessageName(n)) => assert_eq!(n, "cmd"),
        other => panic!("expected DuplicateMessageName, got {:?}", other),
    }
}

#[test]
fn an_enumerated_field_reads_back_as_its_name() {
    let mut d = empty_dict();
    d.responses.insert("r pin=%c".into(), 1);
    let mut pins = OrderedMap::new();
    pins.insert("PA0".to_string(), EnumValue::Single(3));
    d.enumerations.insert("pin".to_string(), pins);
    let parser = parser_of(d).unwrap();
    match parser.decode(&build_packet(1, &[3])).unwrap() {
        DecodedFrame::Response { params, .. } => {
            assert_eq!(params.try_get_str("pin"), Some("PA0"));
        }
        other => panic!("expected Response, got {:?}", other),
    }
    match parser.decode(&build_packet(1, &[4])).unwrap() {
        DecodedFrame::Response { params, .. } => {
            assert_eq!(params.try_get_str("pin"), Some("?4"));
        }
        other => panic!("expected Response, got {:?}", other),
    }
}

#[test]
fn a_body_is_read_without_its_frame() {
    let mut d = empty_dict();
    d.responses.insert("rsp val=%u".into(), 7);
    d.output.insert("out val=%u".into(), 8);
    let parser = parser_of(d).unwrap();
    let mut body = Vec::new();
    encode_vlq(&mut body, 7).unwrap();
    encode_vlq(&mut body, 12345).unwrap();
    let (name, params) = parser.decode_body(&body).unwrap();
    assert_eq!(name, "rsp");
    assert_eq!(params.get_u32("val"), 12345);
    let mut unknown = Vec::new();
    encode_vlq(&mut unknown, 9).unwrap();
    assert!(matches!(parser.decode_body(&unknown), Err(ParseError::UnknownMsgid(9))));
}

#[test]
fn words_are_parted_at_unicode_white_space() {
    assert_eq!(split_words("a\u{3000}b \u{2009}c\u{85}"), vec!["a", "b", "c"]);
    // The zero width space is none.
    assert_eq!(split_words("a\u{200B}b"), vec!["a\u{200B}b"]);
    for n in 0..0x1_0000u32 {
        if let Some(c) = char::from_u32(n) {
            let white = matches!(
                n,
                9..=13 | 0x20 | 0x85 | 0xA0 | 0x1680 | 0x2000..=0x200A | 0x2028 | 0x2029 | 0x202F
                    | 0x205F | 0x3000
            );
            let mut s = String::from("x");
            s.push(c);
            s.push('y');
            assert_eq!(split_words(&s).len(), if white { 2 } else { 1 }, "U+{n:04X}");
        }
    }
}
