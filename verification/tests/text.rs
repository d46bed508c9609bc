//! What the small helpers do, held against the standard library and against the
//! crates that they stand on.

use gr3sync::cli::render::{kib, render};
use gr3sync::cli::{hex, parse_hex, resolve_characteristic};
use gr3sync::error::Error;
use gr3sync::hexadecimal::{has_even_bytes, hex_text, pair_bytes, readable_in_pairs};
use gr3sync::json::Json;
use gr3sync::paths;
use gr3sync::protocol::{decode_utf8, known_characteristics};
use gr3sync::text;
use gr3sync::textmap::TextMap;
use gr3sync::Camera;

#[test]
fn white_space_is_what_the_standard_library_says() {
    for code in 0..=0x10_FFFFu32 {
        if let Some(c) = char::from_u32(code) {
            assert_eq!(text::white(c), c.is_whitespace(), "{code:x}");
        }
    }
}

#[test]
fn texts_are_trimmed_split_and_joined_as_usual() {
    for sample in ["", " ", "  a b ", "a", "\u{a0}x\u{3000}", "\r\nline\r\n"] {
        assert_eq!(text::trim(sample), sample.trim());
    }
    for sample in ["", "a", "a\n", "a\r\nb\rc\n\nd", "\n"] {
        let expected: Vec<&str> = sample.lines().collect();
        assert_eq!(text::split_lines(sample), expected, "{sample:?}");
    }
    for sample in ["", "a", "a:b", ":", "a::b:"] {
        let expected: Vec<&str> = sample.split(':').collect();
        assert_eq!(text::split(sample, ':'), expected, "{sample:?}");
    }
    let parts = vec!["a".to_string(), "b".to_string()];
    assert_eq!(text::join(&parts, ", "), parts.join(", "));
    assert_eq!(text::trim_leading_slashes("//a/"), "a/");
    assert_eq!(text::trim_trailing_slashes("/a//"), "/a");
}

#[test]
fn numbers_are_written_and_read_as_usual() {
    for n in [0u64, 1, 9, 10, 99, 100, 12345, u64::MAX] {
        assert_eq!(text::decimal_text(n), n.to_string());
        assert_eq!(text::parse_unsigned(&n.to_string(), u64::MAX), Some(n));
    }
    for n in [0i64, -1, 7, i64::MIN, i64::MAX] {
        assert_eq!(text::signed_text(n), n.to_string());
    }
    assert_eq!(text::wide_decimal_text(u128::MAX), u128::MAX.to_string());
    for sample in ["", "+", "+5", "-5", "5x", " 5", "007", "18446744073709551616"] {
        assert_eq!(
            text::parse_unsigned(sample, u64::MAX),
            sample.parse::<u64>().ok(),
            "{sample:?}"
        );
    }
    assert_eq!(text::parse_unsigned("300", 255), None);
    assert_eq!(text::pad_left("7", '0', 3), "007");
    assert_eq!(text::pad_right("ab", 4), format!("{:<4}", "ab"));
}

#[test]
fn cases_change_in_ascii_only() {
    for sample in ["GR_4cf5", "Straße", "ÄÖ"] {
        assert_eq!(text::to_ascii_lower(sample), sample.to_ascii_lowercase());
        assert_eq!(text::to_ascii_upper(sample), sample.to_ascii_uppercase());
    }
}

#[test]
fn paths_are_put_together_as_usual() {
    for (base, part) in [
        ("/a", "b"),
        ("/a/", "b"),
        ("", "b"),
        ("/a", "/b"),
        ("a", ""),
        ("/", "b/c"),
    ] {
        let expected = std::path::Path::new(base).join(part);
        assert_eq!(
            paths::join(base, part),
            expected.to_str().unwrap(),
            "{base:?} {part:?}"
        );
    }
    for sample in ["/a/b", "a", "/a", "/", "", "a/b/", "/a//b", "a/./b"] {
        let expected = std::path::Path::new(sample).parent();
        assert_eq!(
            paths::parent_of(sample).as_deref(),
            expected.map(|path| path.to_str().unwrap()),
            "{sample:?}"
        );
    }
}

#[test]
fn bytes_are_shown_as_a_reader_of_lossy_text_would() {
    for sample in [&b"GR_\xff\xfe"[..], b"ok", b"", b"\xe2\x82", b"a\xc3\xa9"] {
        assert_eq!(decode_utf8(sample), String::from_utf8_lossy(sample));
    }
}

#[test]
fn texts_are_quoted_in_messages() {
    for sample in ["plain", "with \"quotes\"", "line\nbreak", "tab\t", "\u{7f}", "é"] {
        let error = Error::CameraApi {
            code: 404,
            message: sample.into(),
            endpoint: "/v1/x".into(),
        };
        assert_eq!(
            error.message(),
            format!("/v1/x: errCode=404 errMsg={sample:?}")
        );
    }
}

#[test]
fn names_are_shown_in_lower_case() {
    for sample in ["Off", "AcAdapter", "ÄÖÜ", "İ"] {
        let event = Json::Object(vec![
            ("event".into(), Json::Text("ble.awake".into())),
            ("was".into(), Json::Text(sample.into())),
        ]);
        assert_eq!(
            render(&event).unwrap(),
            format!("  camera was {}", sample.to_lowercase())
        );
    }
}

#[test]
fn json_is_read_as_serde_json_reads_it() {
    let body = r#"{"errCode":200,"text":"aé\n","list":[1,-2,3.5,true,null],"big":18446744073709551615}"#;
    let value = Camera::parse_envelope("/v1/x", 200, body.as_bytes()).unwrap();
    assert_eq!(value.get("text").unwrap().as_str(), Some("aé\n"));
    let list = value.get("list").unwrap().as_array().unwrap();
    assert_eq!(list.len(), 5);
    assert_eq!(list[0].as_i64(), Some(1));
    assert_eq!(list[1].as_i64(), Some(-2));
    assert_eq!(list[2].as_i64(), None);
    assert_eq!(list[3].as_bool(), Some(true));
    assert!(matches!(list[4], Json::Null));
    // Too large for a signed number.
    assert_eq!(value.get("big").unwrap().as_i64(), None);
    assert_eq!(value.keys(), vec!["big", "errCode", "list", "text"]);
    for broken in [&b"{"[..], b"{} x", b"", b"[1,]"] {
        assert!(Camera::parse_envelope("/v1/x", 200, broken).is_err());
    }
}

#[test]
fn uuids_are_written_and_read_as_the_uuid_crate_does() {
    for entry in known_characteristics() {
        let written = uuid::Uuid::from_u128(entry.uuid).to_string();
        assert_eq!(resolve_characteristic(&written).unwrap(), entry.uuid);
        assert_eq!(resolve_characteristic(entry.name).unwrap(), entry.uuid);
        let missing = Error::MissingCharacteristic(entry.uuid);
        assert!(missing.message().contains(&written));
        for form in [
            written.to_uppercase(),
            format!("{{{written}}}"),
            format!("urn:uuid:{written}"),
            written.replace('-', ""),
        ] {
            assert_eq!(resolve_characteristic(&form).unwrap(), entry.uuid, "{form}");
        }
    }
    for sample in ["", "9111cdd0", "9111cdd0-9f01-45c4-a2d4-e09e8fb0424", "g"] {
        assert!(uuid::Uuid::parse_str(sample).is_err());
        assert!(resolve_characteristic(sample).is_err(), "{sample}");
    }
}

#[test]
fn hexadecimal_goes_both_ways() {
    let all: Vec<u8> = (0..=255).collect();
    let written = hex_text(&all);
    let expected: String = all.iter().map(|b| format!("{b:02x}")).collect();
    assert_eq!(written, expected);
    assert_eq!(pair_bytes(&written), Some(all.clone()));
    assert_eq!(parse_hex(&hex(&all)).unwrap(), all);
    assert!(has_even_bytes("ab") && !has_even_bytes("abc"));
    assert!(readable_in_pairs("ab") && !readable_in_pairs("aéb"));
    // `u8::from_str_radix` takes a sign.
    assert_eq!(pair_bytes("+1"), Some(vec![1]));
    assert_eq!(pair_bytes("-1"), None);
}

#[test]
fn sizes_round_as_floating_point_does() {
    let mut samples: Vec<u64> = (0..70).map(|i| i * 512).collect();
    for shift in 0..64 {
        let n = 1u64 << shift;
        samples.extend([n, n.wrapping_sub(1), n | 1, n + n / 2]);
    }
    samples.extend([u64::MAX, 52429, 52428, 104857, 157286, 1572864, 1623195]);
    for bytes in samples {
        assert_eq!(
            kib(bytes),
            format!("{:.0}", bytes as f64 / 1024.0),
            "{bytes} bytes"
        );
        let event = Json::Object(vec![
            ("event".into(), Json::Text("done".into())),
            ("bytes_written".into(), Json::Number(Some(bytes as i128))),
        ]);
        let mib = bytes as f64 / (1024.0 * 1024.0);
        assert_eq!(
            render(&event).unwrap(),
            format!("  downloaded 0 files ({mib:.1} MiB), skipped 0"),
            "{bytes} bytes"
        );
    }
}

#[test]
fn a_map_of_texts_keeps_its_keys_in_order() {
    let mut map: TextMap<u8> = TextMap::new();
    for (key, value) in [("b", 2), ("a", 1), ("é", 4), ("aa", 3), ("b", 5)] {
        map.insert(key.to_string(), value);
    }
    let keys: Vec<&str> = (0..map.len()).map(|i| map.at(i).0).collect();
    assert_eq!(keys, vec!["a", "aa", "b", "é"]);
    assert_eq!(map.get("b"), Some(&5));
    assert_eq!(map.remove("a"), Some(1));
    assert_eq!(map.remove("a"), None);
    assert_eq!(map.len(), 3);
}
