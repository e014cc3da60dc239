use i3owm::i3status::is_header;
use i3owm::i3status::update;
use i3owm::records::decode_records;
use i3owm::records::encode_records;
use i3owm::records::StatusRecord;

fn rec(name: &str, full_text: &str) -> StatusRecord {
    StatusRecord {
        name: name.to_string(),
        instance: None,
        markup: "none".to_string(),
        color: None,
        full_text: full_text.to_string(),
    }
}

fn wire(items: &Vec<StatusRecord>) -> String {
    encode_records(items).into_iter().collect()
}

#[test]
fn passthrough_version_header() {
    let line = "{\"version\":1}";
    assert_eq!(update(line, "i3owm", 0, false, "w"), line);
}

#[test]
fn passthrough_array_open_and_garbage() {
    assert_eq!(update("[", "i3owm", 0, false, "w"), "[");
    assert_eq!(update("", "i3owm", 0, false, "w"), "");
    assert_eq!(update("[1,2,3]", "i3owm", 0, false, "w"), "[1,2,3]");
    assert_eq!(update("[{\"name\":\"a\"}]", "i3owm", 0, false, "w"), "[{\"name\":\"a\"}]");
}

#[test]
fn header_lines_are_recognized() {
    assert!(is_header("{\"version\":1}"));
    assert!(is_header("["));
    assert!(!is_header("[{\"name\":\"a\"}]"));
}

#[test]
fn splice_round_trip() {
    let items = vec![rec("a", "one"), rec("b", "two"), rec("c", "three")];
    let line = wire(&items);
    let out = update(&line, "i3owm", 1, false, "hello");
    let decoded = decode_records(&out).expect("spliced line decodes");
    assert_eq!(decoded.len(), 4);
    assert_eq!(decoded[0], items[0]);
    assert_eq!(decoded[1], rec("i3owm", "hello"));
    assert_eq!(decoded[2], items[1]);
    assert_eq!(decoded[3], items[2]);
}

#[test]
fn splice_position_edges() {
    let items = vec![rec("a", "one"), rec("b", "two")];
    let line = wire(&items);
    // position 0 from the left: head
    let head = decode_records(&update(&line, "w", 0, false, "x")).unwrap();
    assert_eq!(head[0], rec("w", "x"));
    assert_eq!(head.len(), 3);
    // position 0 from the end: tail
    let tail = decode_records(&update(&line, "w", 0, true, "x")).unwrap();
    assert_eq!(tail[2], rec("w", "x"));
    // a position beyond the list clamps instead of crashing
    let clamped_left = decode_records(&update(&line, "w", 99, false, "x")).unwrap();
    assert_eq!(clamped_left[2], rec("w", "x"));
    let clamped_right = decode_records(&update(&line, "w", 99, true, "x")).unwrap();
    assert_eq!(clamped_right[0], rec("w", "x"));
}

#[test]
fn splice_keeps_leading_separator() {
    let items = vec![rec("a", "one")];
    let line = format!(",{}", wire(&items));
    let out = update(&line, "w", 0, false, "x");
    assert!(out.starts_with(','));
    let decoded = decode_records(&out[1..]).unwrap();
    assert_eq!(decoded.len(), 2);
}

#[test]
fn optional_fields_stay_off_the_wire() {
    let items = vec![rec("a", "one")];
    assert_eq!(wire(&items), "[{\"name\":\"a\",\"markup\":\"none\",\"full_text\":\"one\"}]");
    let full = vec![StatusRecord {
        name: "a".to_string(),
        instance: Some("eth0".to_string()),
        markup: "none".to_string(),
        color: Some("#00ff00".to_string()),
        full_text: "up".to_string(),
    }];
    assert_eq!(
        wire(&full),
        "[{\"name\":\"a\",\"instance\":\"eth0\",\"markup\":\"none\",\"color\":\"#00ff00\",\"full_text\":\"up\"}]"
    );
}

#[test]
fn escapes_round_trip() {
    let tricky = vec![StatusRecord {
        name: "q\"uote".to_string(),
        instance: None,
        markup: "none".to_string(),
        color: None,
        full_text: "back\\slash\nnew\tline \u{1} emoji 🛰".to_string(),
    }];
    let line = wire(&tricky);
    let decoded = decode_records(&line).expect("escaped line decodes");
    assert_eq!(decoded, tricky);
}

#[test]
fn decode_accepts_any_member_order() {
    let line = "[{\"full_text\":\"x\",\"name\":\"a\",\"markup\":\"none\"}]";
    let decoded = decode_records(line).unwrap();
    assert_eq!(decoded[0], rec("a", "x"));
}

#[test]
fn decode_rejects_duplicates_and_missing_fields() {
    assert!(decode_records("[{\"name\":\"a\",\"name\":\"b\",\"markup\":\"none\",\"full_text\":\"x\"}]").is_none());
    assert!(decode_records("[{\"name\":\"a\",\"markup\":\"none\"}]").is_none());
    assert!(decode_records("[]").map(|v| v.len()) == Some(0));
}

#[test]
fn empty_array_splices() {
    let out = update("[]", "w", 0, false, "x");
    let decoded = decode_records(&out).unwrap();
    assert_eq!(decoded, vec![rec("w", "x")]);
}

#[test]
fn decode_accepts_standard_escapes() {
    let line = "[{\"name\":\"a\\/b\",\"markup\":\"none\",\"full_text\":\"x\\ny\\u0041\"}]";
    let decoded = decode_records(line).unwrap();
    assert_eq!(decoded[0].name, "a/b");
    assert_eq!(decoded[0].full_text, "x\nyA");
}

#[test]
fn decode_tolerates_whitespace() {
    let spaced = "[ { \"name\" : \"a\", \"markup\": \"none\", \"full_text\": \"x\" } ] ";
    let decoded = decode_records(spaced).unwrap();
    assert_eq!(decoded[0], rec("a", "x"));
    assert_eq!(decode_records("[ ]").map(|v| v.len()), Some(0));
}

#[test]
fn decode_skips_unknown_scalar_members() {
    // fields other consumers of the protocol emit are tolerated and dropped
    let line = "[{\"name\":\"a\",\"urgent\":false,\"separator\":true,\"separator_block_width\":9,\"markup\":\"none\",\"full_text\":\"x\",\"short_text\":\"s\",\"extra\":null,\"level\":-1.5e3}]";
    let decoded = decode_records(line).unwrap();
    assert_eq!(decoded[0], rec("a", "x"));
    // a known member must still be a string, as the record defines it
    assert!(decode_records("[{\"name\":1,\"markup\":\"none\",\"full_text\":\"x\"}]").is_none());
    // an unknown member with a nested value is not part of the protocol
    assert!(decode_records("[{\"name\":\"a\",\"markup\":\"none\",\"full_text\":\"x\",\"odd\":[1]}]").is_none());
}
