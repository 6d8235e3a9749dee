//! Texts, JSON and bounded transfer.
use code_mode_reduction::assoc::Assoc;
use code_mode_reduction::context::{CodeModeOutputReductionGuidance, ContextualUserFragment, truncate_utf8_bytes};
use code_mode_reduction::items::{FunctionCallOutputContentItem, estimate_payload_bytes};
use code_mode_reduction::json::{Json, Member};
use code_mode_reduction::text;
use code_mode_reduction::transfer::{BoundedWriter, accept_chunk, admit_response, serialize_json_bounded};

#[test]
fn white_space_is_what_the_standard_library_says() {
    for c in '\0'..=char::MAX {
        assert_eq!(text::is_white_space(c), c.is_whitespace(), "{c:?}");
    }
}

#[test]
fn strings_are_quoted_as_serde_json_quotes_them() {
    for sample in [
        "",
        "plain",
        "\"\\/",
        "\u{0}\u{1}\u{7}\u{8}\u{9}\u{a}\u{b}\u{c}\u{d}\u{e}\u{1f}\u{7f}",
        "é界🦀\u{2028}\u{10ffff}",
    ] {
        assert_eq!(
            Json::Text(sample.to_string()).to_text(),
            serde_json::to_string(sample).expect("a string"),
            "{sample:?}"
        );
    }
}

#[test]
fn values_are_written_compactly_and_in_order() {
    let value = Json::Object(vec![
        Member { key: "b\n".to_string(), value: Json::Array(vec![Json::Null, Json::Bool(true), Json::Int(-12)]) },
        Member { key: "a".to_string(), value: Json::Object(Vec::new()) },
        Member { key: "c".to_string(), value: Json::Float("1.5".to_string()) },
        Member { key: "d".to_string(), value: Json::Array(Vec::new()) },
        Member { key: "e".to_string(), value: Json::Bool(false) },
    ]);
    let written = value.to_text();
    assert_eq!(written, r#"{"b\n":[null,true,-12],"a":{},"c":1.5,"d":[],"e":false}"#);
    let read: serde_json::Value = serde_json::from_str(&written).expect("valid JSON");
    assert_eq!(read["b\n"][2], -12);
    assert!(value.same(&value.duplicate()));
    assert!(!value.same(&Json::Null));
    assert_eq!(value.get("c").and_then(Json::as_i64), None);
    assert_eq!(Json::Int(i64::MAX as i128 + 1).as_i64(), None);
}

#[test]
fn the_order_of_members_does_not_matter_for_equality() {
    let pair = |first: &str, second: &str| {
        Json::Object(vec![
            Member { key: first.to_string(), value: Json::Text(first.to_string()) },
            Member { key: second.to_string(), value: Json::Text(second.to_string()) },
        ])
    };
    assert!(pair("a", "b").same(&pair("b", "a")));
    assert!(!pair("a", "b").same(&pair("a", "c")));
}

#[test]
fn numerals_are_decimal() {
    let mut written = String::new();
    text::append_decimal(&mut written, u128::MAX);
    assert_eq!(written, u128::MAX.to_string());
    let mut written = String::new();
    text::append_signed_decimal(&mut written, i128::MIN);
    assert_eq!(written, i128::MIN.to_string());
}

#[test]
fn truncation_keeps_whole_characters() {
    assert_eq!(text::truncate_utf8_bytes("a界b", 3), "a");
    assert_eq!(text::truncate_utf8_bytes("a界b", 4), "a界");
    assert_eq!(truncate_utf8_bytes("🦀🦀".to_string(), 7), "🦀");
    assert_eq!(text::ceil_boundary("a界b", 2), 4);
    assert_eq!(text::floor_boundary("a界b", 3), 1);
    assert_eq!(text::trim_text("\u{3000} x\ty \n"), "x\ty");
    assert_eq!(text::last_chars("a界b", 2), "界b");
    assert_eq!(text::take_chars("a界b", 2), "a界");
}

#[test]
fn guidance_is_cut_to_its_bound() {
    assert!(CodeModeOutputReductionGuidance::new("", 4).is_none());
    let guidance = CodeModeOutputReductionGuidance::new("界界界", 2).expect("some guidance");
    assert_eq!(guidance.render(), "界界");
}

#[test]
fn writers_never_exceed_their_bound() {
    let mut writer = BoundedWriter::new(4);
    assert_eq!(writer.write(b"abc"), Some(3));
    assert_eq!(writer.write(b"de"), None);
    assert_eq!(writer.write(b"d"), Some(1));
    assert_eq!(writer.bytes, b"abcd");
    let value = Json::Text("abc".to_string());
    assert_eq!(serialize_json_bounded(&value, 5), Some(b"\"abc\"".to_vec()));
    assert_eq!(serialize_json_bounded(&value, 4), None);
    assert!(admit_response(true, Some(5), 5) && !admit_response(true, Some(6), 5));
    assert!(!admit_response(false, None, 5) && admit_response(true, None, 0));
    let mut body = Vec::new();
    assert!(accept_chunk(&mut body, b"ab", 3) && !accept_chunk(&mut body, b"cd", 3));
    assert_eq!(body, b"ab");
}

#[test]
fn payloads_are_measured_by_their_sources() {
    let items = vec![
        FunctionCallOutputContentItem::InputText { text: "界".to_string() },
        FunctionCallOutputContentItem::InputImage { image_url: "abcd".to_string(), detail: Some("x".to_string()) },
        FunctionCallOutputContentItem::InputAudio { audio_url: "ab".to_string() },
        FunctionCallOutputContentItem::EncryptedContent { encrypted_content: "a".to_string() },
    ];
    assert_eq!(estimate_payload_bytes(&items), 10);
}

#[test]
fn maps_hold_one_value_per_key() {
    let mut map: Assoc<String, u64> = Assoc::new();
    map.insert("a".to_string(), 1);
    map.insert("b".to_string(), 2);
    map.insert("a".to_string(), 3);
    assert_eq!(map.get(&"a".to_string()), Some(&3));
    assert!(map.contains(&"b".to_string()));
    assert_eq!(map.remove(&"a".to_string()), Some(3));
    assert_eq!(map.remove(&"a".to_string()), None);
    map.clear();
    assert!(!map.contains(&"b".to_string()));
}
