use netflow_agg::netflow::{decode_row, parse_data, Decoded, Member};
use netflow_agg::pattern::{get_all_netflow_file, Pattern, CAPTURE_FILE_PATTERN};

const V4: &str = r#"{"type":"FLOW","first":"2024-05-01T10:15:00.123","last":"2024-05-01T10:15:09.000","in_packets":12,"in_bytes":3400,"src4_addr":"8.8.8.8","dst4_addr":"140.125.1.2","proto":6}"#;
const V6: &str = r#"{"first":"2024-05-01T10:15:00","last":"2024-05-01T10:15:09","in_packets":1,"in_bytes":60,"src6_addr":"2001:db8::1","dst6_addr":"2001:db8::2"}"#;

fn text(s: &str) -> Member {
    Member::Text(s.to_string())
}

fn row(
    packets: Member,
    bytes: Member,
    src6: Member,
    dst6: Member,
    first: Member,
    last: Member,
    src4: Member,
    dst4: Member,
) -> Vec<Member> {
    vec![packets, bytes, src6, dst6, first, last, src4, dst4]
}

#[test]
fn decoder_output_is_parsed() {
    let output = format!("[{},{},{}]", V4, V6, V4);
    let flows = parse_data(vec![output]);
    assert_eq!(flows.len(), 2);
    for flow in &flows {
        assert_eq!(flow.first, "2024-05-01T10:15:00.123");
        assert_eq!(flow.last, "2024-05-01T10:15:09.000");
        assert_eq!(flow.in_packets, 12);
        assert_eq!(flow.in_bytes, 3400);
        assert_eq!(flow.src4_addr, "8.8.8.8");
        assert_eq!(flow.dst4_addr, "140.125.1.2");
    }
}

#[test]
fn outputs_follow_one_another_and_bad_ones_are_passed_over() {
    let second = V4.replace("3400", "1");
    let outputs = vec![
        format!("[{}]", V4),
        "not json".to_string(),
        "{}".to_string(),
        "".to_string(),
        "[]".to_string(),
        format!("[{}]", second),
        format!("[{}", V4),
    ];
    let flows = parse_data(outputs);
    assert_eq!(flows.len(), 2);
    assert_eq!(flows[0].in_bytes, 3400);
    assert_eq!(flows[1].in_bytes, 1);
    assert!(parse_data(Vec::new()).is_empty());
}

#[test]
fn malformed_elements_are_passed_over() {
    let elements = [
        r#"{"first":"a","last":"b","in_bytes":1,"src4_addr":"1.1.1.1","dst4_addr":"2.2.2.2"}"#,
        r#"{"first":"a","last":"b","in_packets":-1,"in_bytes":1,"src4_addr":"1.1.1.1","dst4_addr":"2.2.2.2"}"#,
        r#"{"first":"a","last":"b","in_packets":4294967296,"in_bytes":1,"src4_addr":"1.1.1.1","dst4_addr":"2.2.2.2"}"#,
        r#"{"first":"a","last":"b","in_packets":1,"in_bytes":1.5,"src4_addr":"1.1.1.1","dst4_addr":"2.2.2.2"}"#,
        r#"{"first":"a","last":"b","in_packets":1,"in_bytes":"1","src4_addr":"1.1.1.1","dst4_addr":"2.2.2.2"}"#,
        r#"{"first":1,"last":"b","in_packets":1,"in_bytes":1,"src4_addr":"1.1.1.1","dst4_addr":"2.2.2.2"}"#,
        r#"{"first":"a","in_packets":1,"in_bytes":1,"src4_addr":"1.1.1.1","dst4_addr":"2.2.2.2"}"#,
        r#"{"first":"a","last":"b","in_packets":1,"in_bytes":1,"src4_addr":"1.1.1.1"}"#,
        r#"{"first":"a","last":"b","in_packets":1,"in_bytes":1,"src4_addr":null,"dst4_addr":"2.2.2.2"}"#,
        r#"{"first":"a","last":"b","in_packets":1,"in_bytes":1,"src4_addr":"1.1.1.1","dst4_addr":"2.2.2.2","src6_addr":"::1"}"#,
        "7",
        "null",
        r#""text""#,
        "[1,2]",
    ];
    for element in elements {
        let flows = parse_data(vec![format!("[{}]", element)]);
        assert!(flows.is_empty(), "{}", element);
    }
    let good = r#"{"first":"a","last":"b","in_packets":4294967295,"in_bytes":18446744073709551615,"src4_addr":"x","dst4_addr":"y","src6_addr":null}"#;
    let flows = parse_data(vec![format!("[{}]", good)]);
    assert_eq!(flows.len(), 1);
    assert_eq!(flows[0].in_packets, u32::MAX);
    assert_eq!(flows[0].in_bytes, u64::MAX);
    assert_eq!(flows[0].first, "a");
    assert_eq!(flows[0].last, "b");
    assert_eq!(flows[0].src4_addr, "x");
    assert_eq!(flows[0].dst4_addr, "y");
}

#[test]
fn rows_of_members_are_decoded() {
    let v4 = row(
        Member::Number(Some(3)),
        Member::Number(Some(400)),
        Member::Null,
        Member::Null,
        text("f"),
        text("l"),
        text("1.1.1.1"),
        text("2.2.2.2"),
    );
    match decode_row(&v4) {
        Decoded::V4(flow) => {
            assert_eq!(flow.in_packets, 3);
            assert_eq!(flow.in_bytes, 400);
            assert_eq!(flow.first, "f");
            assert_eq!(flow.last, "l");
            assert_eq!(flow.src4_addr, "1.1.1.1");
            assert_eq!(flow.dst4_addr, "2.2.2.2");
        }
        other => panic!("{:?}", other),
    }
    let v6 = row(
        Member::Number(Some(3)),
        Member::Number(Some(400)),
        text("::1"),
        text("::2"),
        text("f"),
        text("l"),
        Member::Null,
        Member::Null,
    );
    match decode_row(&v6) {
        Decoded::V6(flow) => {
            assert_eq!(flow.in_packets, 3);
            assert_eq!(flow.in_bytes, 400);
            assert_eq!(flow.src6_addr, "::1");
            assert_eq!(flow.dst6_addr, "::2");
        }
        other => panic!("{:?}", other),
    }
    let half = row(
        Member::Number(Some(3)),
        Member::Number(Some(400)),
        text("::1"),
        Member::Null,
        text("f"),
        text("l"),
        text("1.1.1.1"),
        text("2.2.2.2"),
    );
    assert!(matches!(decode_row(&half), Decoded::Malformed));
    let large = row(
        Member::Number(Some(1 << 32)),
        Member::Number(Some(400)),
        Member::Null,
        Member::Null,
        text("f"),
        text("l"),
        text("1.1.1.1"),
        text("2.2.2.2"),
    );
    assert!(matches!(decode_row(&large), Decoded::Malformed));
    let other = row(
        Member::Number(None),
        Member::Number(Some(400)),
        Member::Null,
        Member::Null,
        text("f"),
        text("l"),
        text("1.1.1.1"),
        Member::Other,
    );
    assert!(matches!(decode_row(&other), Decoded::Malformed));
    assert!(matches!(decode_row(&Vec::new()), Decoded::Malformed));
    assert!(matches!(decode_row(&vec![Member::Null]), Decoded::Malformed));
}

#[test]
fn patterns_compile_or_not() {
    assert!(Pattern::new(CAPTURE_FILE_PATTERN).is_some());
    assert!(Pattern::new("").is_some());
    assert!(Pattern::new("(unclosed").is_none());
    assert!(Pattern::new(r"\").is_none());
    let pattern = Pattern::new(r"^a+b$").unwrap();
    assert_eq!(pattern.source(), r"^a+b$");
    assert!(pattern.is_match("aaab"));
    assert!(!pattern.is_match("^a+b$"));
    assert!(!pattern.is_match("ba"));
    assert!(!pattern.is_match(""));
    let copy = pattern.clone();
    assert_eq!(copy.source(), pattern.source());
    assert!(copy.is_match("ab"));
}

#[test]
fn capture_files_are_picked() {
    let capture = Pattern::new(CAPTURE_FILE_PATTERN).unwrap();
    let names: Vec<String> = [
        "nfcapd.202405011015",
        "nfcapd.current.1234",
        "readme.txt",
        "nfcapd.20240501101",
        "old-nfcapd.202405011020.gz",
        "nfcapd.202405011025",
        "",
    ]
    .iter()
    .map(|name| name.to_string())
    .collect();
    let files = get_all_netflow_file(names, &capture);
    assert_eq!(
        files,
        vec!["nfcapd.202405011015", "old-nfcapd.202405011020.gz", "nfcapd.202405011025"]
    );
    assert!(get_all_netflow_file(Vec::new(), &capture).is_empty());
}
