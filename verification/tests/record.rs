use hello_old::meta::{
    build_meta, frame_payload, meta_lines, parse_meta, read_meta, split_payload,
};

#[test]
fn a_payload_is_split_where_it_was_joined() {
    let p = frame_payload(b"{}", b"text");
    assert_eq!(p, b"\x02\0\0\0{}text");
    assert_eq!(split_payload(&p), (Some(b"{}".to_vec()), b"text".to_vec()));
    let empty = frame_payload(b"", b"");
    assert_eq!(split_payload(&empty), (Some(vec![]), vec![]));
}

#[test]
fn broken_payloads_are_all_text() {
    assert_eq!(split_payload(b"abc"), (None, b"abc".to_vec()));
    assert_eq!(split_payload(b""), (None, vec![]));
    assert_eq!(split_payload(b"\x09\0\0\0short"), (None, b"short".to_vec()));
    assert_eq!(split_payload(b"\xff\xff\xff\xffx"), (None, b"x".to_vec()));
}

#[test]
fn a_record_is_written() {
    assert_eq!(
        build_meta(5, 10, "me"),
        "{\"created\":5,\"modified\":10,\"author\":\"me\"}"
    );
}

#[test]
fn a_record_is_read_back() {
    let m = read_meta(&build_meta(u64::MAX, 0, "some one"));
    assert_eq!(m.created, Some(u64::MAX));
    assert_eq!(m.modified, Some(0));
    assert_eq!(m.author.iter().collect::<String>(), "some one");
    let m = read_meta(&build_meta(1, 2, " spaced \"\""));
    assert_eq!(m.author.iter().collect::<String>(), "spaced");
}

#[test]
fn a_comma_ends_the_author() {
    let m = read_meta(&build_meta(1, 2, "one, two"));
    assert_eq!(m.author.iter().collect::<String>(), "one");
}

#[test]
fn odd_records_say_what_they_can() {
    let m = read_meta(" { \"modified\": 7 , \"created\":x,\"other\":1} ");
    assert_eq!(m.created, None);
    assert_eq!(m.modified, Some(7));
    assert!(m.author.is_empty());
    assert_eq!(read_meta("").created, None);
    assert_eq!(read_meta("\"created\":+5").created, Some(5));
    assert_eq!(read_meta("\"created\":18446744073709551616").created, None);
}

#[test]
fn a_record_is_shown() {
    assert_eq!(
        parse_meta(build_meta(0, 1_755_000_000, "me").as_bytes()),
        vec![
            "── 档案信息 · SEALED RECORD ──",
            "创建 / Created   1970-01-01 00:00:00 UTC",
            "修改 / Modified  2025-08-12 12:00:00 UTC",
            "作者 / Author    me",
        ]
    );
    assert_eq!(parse_meta(b"\xff{"), vec!["── 档案信息 · SEALED RECORD ──"]);
    assert_eq!(meta_lines(&read_meta("\"author\":\"x\"")).len(), 2);
}

#[test]
fn bytes_that_are_no_text_are_replaced() {
    let lines = parse_meta(b"\"author\":\"a\xffb\"");
    assert_eq!(lines[1], "作者 / Author    a\u{fffd}b");
}

#[test]
fn the_order_of_the_fields_does_not_matter() {
    let all = ["\"created\":7", "\"modified\":8", "\"author\":\"me\""];
    for order in [[0, 1, 2], [0, 2, 1], [1, 0, 2], [1, 2, 0], [2, 0, 1], [2, 1, 0]] {
        for n in 0..4 {
            let chosen = &order[..n];
            let fields: Vec<&str> = chosen.iter().map(|i| all[*i]).collect();
            let m = read_meta(&format!("{{{}}}", fields.join(",")));
            assert_eq!(m.created, chosen.contains(&0).then_some(7));
            assert_eq!(m.modified, chosen.contains(&1).then_some(8));
            let author: String = m.author.iter().collect();
            assert_eq!(author, if chosen.contains(&2) { "me" } else { "" });
        }
    }
}
