use checkpoint::codec::{decode, encode, CodecError, SnapshotMetadata};
use checkpoint::timestamp::Timestamp;

fn stamp(nanosecond: u32) -> Timestamp {
    Timestamp::from_parts(2024, 1, 2, 3, 4, 5, nanosecond).unwrap()
}

fn record(name: &str, nanosecond: u32) -> SnapshotMetadata {
    SnapshotMetadata {
        id: "abc".to_string(),
        game_id: "g1".to_string(),
        timestamp: stamp(nanosecond),
        name: name.to_string(),
        size: 10,
        file_count: 2,
    }
}

#[test]
fn encoding_is_pretty_json() {
    let text = encode(&record("n", 0));
    assert_eq!(
        text,
        "{\n  \"id\": \"abc\",\n  \"game_id\": \"g1\",\n  \"timestamp\": \"2024-01-02T03:04:05Z\",\n  \"name\": \"n\",\n  \"size\": 10,\n  \"file_count\": 2\n}"
    );
}

#[test]
fn fraction_uses_fewest_digit_groups() {
    assert!(encode(&record("n", 123_000_000)).contains("\"2024-01-02T03:04:05.123Z\""));
    assert!(encode(&record("n", 123_456_000)).contains("\"2024-01-02T03:04:05.123456Z\""));
    assert!(encode(&record("n", 1)).contains("\"2024-01-02T03:04:05.000000001Z\""));
}

#[test]
fn strings_are_escaped() {
    let text = encode(&record("a\"b\\c\nd\u{1}é", 0));
    assert!(text.contains("\"name\": \"a\\\"b\\\\c\\nd\\u0001é\""));
}

#[test]
fn round_trip_gives_the_record_back() {
    for (name, ns) in [("n", 0u32), ("weird \" \\ \t \u{8} \u{c} \u{1f}", 999_999_999), ("", 5_000)] {
        let m = record(name, ns);
        let back = decode(&encode(&m)).unwrap();
        assert_eq!(back, m);
    }
    let big = SnapshotMetadata { size: u64::MAX, file_count: 0, ..record("x", 7) };
    assert_eq!(decode(&encode(&big)).unwrap(), big);
}

#[test]
fn malformed_text_is_corrupt() {
    assert_eq!(decode(""), Err(CodecError::CorruptMetadata));
    assert_eq!(decode("{}"), Err(CodecError::CorruptMetadata));
    assert_eq!(decode("not json"), Err(CodecError::CorruptMetadata));
    let good = encode(&record("n", 0));
    assert_eq!(decode(&format!("{} x", good)), Err(CodecError::CorruptMetadata));
    assert_eq!(decode(&good.replace("\"size\": 10", "\"size\": 010")), Err(CodecError::CorruptMetadata));
    assert_eq!(decode(&good.replace("\"file_count\": 2\n", "")), Err(CodecError::CorruptMetadata));
    assert_eq!(decode(&good.replace("01-02T", "02-30T")), Err(CodecError::CorruptMetadata));
    assert_eq!(
        decode(&good.replace("\"size\": 10", "\"size\": 18446744073709551616")),
        Err(CodecError::CorruptMetadata)
    );
}

const COMPACT: &str = "{\"id\":\"abc\",\"game_id\":\"g1\",\"timestamp\":\"2024-01-02T03:04:05Z\",\"name\":\"n\",\"size\":10,\"file_count\":2}";

#[test]
fn compact_json_is_read() {
    assert_eq!(decode(COMPACT), Ok(record("n", 0)));
    assert_eq!(decode(&format!("  {}\n", COMPACT)), Ok(record("n", 0)));
}

#[test]
fn members_in_any_order_are_read() {
    let text = "{ \"file_count\" : 2 , \"size\": 10, \"name\": \"n\", \"timestamp\": \"2024-01-02T03:04:05.123Z\", \"game_id\": \"g1\", \"id\": \"abc\" }";
    assert_eq!(decode(text), Ok(record("n", 123_000_000)));
}

#[test]
fn unknown_members_are_skipped() {
    let text = "{\"extra\":\"x\",\"id\":\"abc\",\"n\":-1.5e3,\"game_id\":\"g1\",\"flag\":true,\"none\":null,\"timestamp\":\"2024-01-02T03:04:05Z\",\"obj\":{\"a\":[1,{\"b\":\"}]\"}]},\"name\":\"n\",\"list\":[],\"size\":10,\"file_count\":2}";
    assert_eq!(decode(text), Ok(record("n", 0)));
}

#[test]
fn duplicate_or_missing_members_are_corrupt() {
    let dup = COMPACT.replace("\"size\":10", "\"size\":10,\"size\":11");
    assert_eq!(decode(&dup), Err(CodecError::CorruptMetadata));
    let missing = COMPACT.replace(",\"size\":10", "");
    assert_eq!(decode(&missing), Err(CodecError::CorruptMetadata));
    let wrong_type = COMPACT.replace("\"size\":10", "\"size\":\"10\"");
    assert_eq!(decode(&wrong_type), Err(CodecError::CorruptMetadata));
    let bad_stamp = COMPACT.replace("03:04:05Z", "03-04-05Z");
    assert_eq!(decode(&bad_stamp), Err(CodecError::CorruptMetadata));
}

#[test]
fn escapes_are_read() {
    let text = COMPACT.replace("\"name\":\"n\"", "\"name\":\"a\\/b\\u00e9\\\"\"");
    assert_eq!(decode(&text).unwrap().name, "a/b\u{e9}\"");
}
