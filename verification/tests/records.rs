use basalt_plugin_parser_typescript::call_sites::write_call_sites;
use basalt_plugin_parser_typescript::capture::{Capture, MatchData};
use basalt_plugin_parser_typescript::chunks::write_chunks;
use basalt_plugin_parser_typescript::layout::le32_bytes;
use basalt_plugin_parser_typescript::spans::write_spans;
use basalt_plugin_parser_typescript::text::{chars_eq, node_text, starts_with, strip_prefix};

fn cap(index: u32, start: usize, end: usize) -> Capture {
    Capture { index, start, end }
}

fn names(ns: &[&str]) -> Vec<String> {
    ns.iter().map(|s| s.to_string()).collect()
}

#[test]
fn le32_is_little_endian() {
    assert_eq!(le32_bytes(0x12345678), vec![0x78, 0x56, 0x34, 0x12]);
    assert_eq!(le32_bytes(0), vec![0, 0, 0, 0]);
    assert_eq!(le32_bytes(u32::MAX), vec![0xff, 0xff, 0xff, 0xff]);
}

#[test]
fn spans_are_written_in_capture_order() {
    let ns = names(&["keyword", "variable", "bogus"]);
    let ms = vec![
        MatchData { captures: vec![cap(0, 0, 5)] },
        MatchData { captures: vec![cap(1, 6, 7), cap(2, 300, 301)] },
    ];
    let mut out = vec![0xaau8; 12 * 4];
    let n = write_spans(&ms, &ns, 4, &mut out);
    assert_eq!(n, 3);
    assert_eq!(&out[0..12], &[0, 0, 0, 0, 5, 0, 0, 0, 1, 0, 0, 0]);
    assert_eq!(&out[12..24], &[6, 0, 0, 0, 1, 0, 0, 0, 10, 0, 0, 0]);
    assert_eq!(&out[24..36], &[44, 1, 0, 0, 1, 0, 0, 0, 0, 0, 0, 0]);
    assert!(out[36..].iter().all(|&b| b == 0xaa));
}

#[test]
fn spans_stop_at_the_limit() {
    let ns = names(&["string"]);
    let ms = vec![
        MatchData { captures: vec![cap(0, 1, 3), cap(0, 4, 9)] },
        MatchData { captures: vec![cap(0, 10, 12)] },
    ];
    let mut out = vec![7u8; 12 * 2 + 5];
    let n = write_spans(&ms, &ns, 2, &mut out);
    assert_eq!(n, 2);
    assert_eq!(&out[0..12], &[1, 0, 0, 0, 2, 0, 0, 0, 2, 0, 0, 0]);
    assert_eq!(&out[12..24], &[4, 0, 0, 0, 5, 0, 0, 0, 2, 0, 0, 0]);
    assert_eq!(&out[24..], &[7, 7, 7, 7, 7]);
}

#[test]
fn spans_with_zero_limit_write_nothing() {
    let ns = names(&["string"]);
    let ms = vec![MatchData { captures: vec![cap(0, 1, 3)] }];
    let mut out = vec![9u8; 3];
    assert_eq!(write_spans(&ms, &ns, 0, &mut out), 0);
    assert_eq!(out, vec![9u8; 3]);
}

#[test]
fn span_offsets_are_truncated_to_32_bits() {
    let ns = names(&["number"]);
    let ms = vec![MatchData { captures: vec![cap(0, 0x1_0000_0002, 0x1_0000_0005)] }];
    let mut out = vec![0u8; 12];
    assert_eq!(write_spans(&ms, &ns, 1, &mut out), 1);
    assert_eq!(&out[0..12], &[2, 0, 0, 0, 3, 0, 0, 0, 3, 0, 0, 0]);
}

#[test]
fn chunk_with_name() {
    let src = b"function  foo () {}";
    let ns = names(&["chunk.function", "name.function"]);
    let ms = vec![MatchData { captures: vec![cap(0, 0, 19), cap(1, 9, 13)] }];
    let mut out = vec![0xeeu8; 104];
    let n = write_chunks(&ms, &ns, src, 1, &mut out);
    assert_eq!(n, 1);
    assert_eq!(&out[0..8], &[0, 0, 0, 0, 19, 0, 0, 0]);
    assert_eq!(&out[8..20], b"function foo");
    assert_eq!(out[20], 0);
    assert!(out[21..103].iter().all(|&b| b == 0xee));
    assert_eq!(out[103], 3);
}

#[test]
fn chunk_without_name_and_unnamed_matches() {
    let src = b"module M {}";
    let ns = names(&["chunk.module", "name.module", "other"]);
    let ms = vec![
        MatchData { captures: vec![cap(2, 0, 6)] },
        MatchData { captures: vec![cap(0, 0, 11)] },
    ];
    let mut out = vec![1u8; 104 * 2];
    let n = write_chunks(&ms, &ns, src, 2, &mut out);
    assert_eq!(n, 1);
    assert_eq!(&out[0..8], &[0, 0, 0, 0, 11, 0, 0, 0]);
    assert_eq!(&out[8..14], b"module");
    assert_eq!(out[14], 0);
    assert_eq!(out[103], 1);
    assert!(out[104..].iter().all(|&b| b == 1));
}

#[test]
fn chunk_label_is_cut_to_95_bytes() {
    let long = "x".repeat(120);
    let src = long.as_bytes();
    let ns = names(&["name.type", "chunk.type"]);
    let ms = vec![MatchData { captures: vec![cap(0, 0, 120), cap(1, 0, 120)] }];
    let mut out = vec![0u8; 104];
    assert_eq!(write_chunks(&ms, &ns, src, 1, &mut out), 1);
    assert_eq!(&out[0..8], &[0, 0, 0, 0, 120, 0, 0, 0]);
    let mut label = b"type ".to_vec();
    label.extend(std::iter::repeat(b'x').take(90));
    assert_eq!(&out[8..103], &label[..]);
    assert_eq!(out[103], 2);
}

#[test]
fn chunk_name_that_is_not_utf8_is_ignored() {
    let src = b"\xff\xfe class";
    let ns = names(&["chunk.type", "name.type"]);
    let ms = vec![MatchData { captures: vec![cap(0, 0, 8), cap(1, 0, 2)] }];
    let mut out = vec![0u8; 104];
    assert_eq!(write_chunks(&ms, &ns, src, 1, &mut out), 1);
    assert_eq!(&out[8..12], b"type");
    assert_eq!(out[12], 0);
}

#[test]
fn last_capture_of_a_kind_wins() {
    let src = b"abcdefgh";
    let ns = names(&["chunk.function", "chunk.module", "name.x"]);
    let ms = vec![MatchData {
        captures: vec![cap(2, 0, 1), cap(0, 0, 8), cap(1, 2, 4), cap(2, 5, 7)],
    }];
    let mut out = vec![0u8; 104];
    assert_eq!(write_chunks(&ms, &ns, src, 5, &mut out), 1);
    assert_eq!(&out[0..8], &[2, 0, 0, 0, 2, 0, 0, 0]);
    assert_eq!(&out[8..17], b"module fg");
    assert_eq!(out[17], 0);
    assert_eq!(out[103], 1);
}

#[test]
fn chunks_stop_at_the_limit() {
    let src = b"abc";
    let ns = names(&["chunk.type"]);
    let ms = vec![
        MatchData { captures: vec![cap(0, 0, 1)] },
        MatchData { captures: vec![cap(0, 1, 2)] },
    ];
    let mut out = vec![0u8; 104];
    assert_eq!(write_chunks(&ms, &ns, src, 1, &mut out), 1);
    assert_eq!(&out[0..8], &[0, 0, 0, 0, 1, 0, 0, 0]);
}

#[test]
fn call_sites_are_trimmed_and_skip_empty_and_invalid_names() {
    let src = b"  foo \t\xff  bar()";
    let ms = vec![
        MatchData { captures: vec![cap(0, 0, 7)] },
        MatchData { captures: vec![cap(0, 7, 8)] },
        MatchData { captures: vec![cap(0, 8, 10)] },
        MatchData { captures: vec![cap(0, 10, 13)] },
    ];
    let mut out = vec![0x55u8; 68 * 3];
    let n = write_call_sites(&ms, src, 3, &mut out);
    assert_eq!(n, 2);
    assert_eq!(&out[0..4], &[0, 0, 0, 0]);
    assert_eq!(&out[4..7], b"foo");
    assert_eq!(out[7], 0);
    assert!(out[8..68].iter().all(|&b| b == 0x55));
    assert_eq!(&out[68..72], &[10, 0, 0, 0]);
    assert_eq!(&out[72..75], b"bar");
    assert_eq!(out[75], 0);
    assert!(out[136..].iter().all(|&b| b == 0x55));
}

#[test]
fn call_site_names_are_cut_to_63_bytes() {
    let long = "y".repeat(70);
    let ms = vec![MatchData { captures: vec![cap(0, 0, 70)] }];
    let mut out = vec![1u8; 68];
    assert_eq!(write_call_sites(&ms, long.as_bytes(), 1, &mut out), 1);
    assert!(out[4..67].iter().all(|&b| b == b'y'));
    assert_eq!(out[67], 0);
}

#[test]
fn call_sites_limit_is_checked_per_match() {
    let src = b"a b c";
    let ms = vec![
        MatchData { captures: vec![cap(0, 0, 1), cap(0, 2, 3)] },
        MatchData { captures: vec![cap(0, 4, 5)] },
    ];
    let mut out = vec![0u8; 68 * 2];
    assert_eq!(write_call_sites(&ms, src, 1, &mut out), 2);
    assert_eq!(&out[4..6], &[b'a', 0]);
    assert_eq!(&out[68..72], &[2, 0, 0, 0]);
    assert_eq!(&out[72..74], &[b'b', 0]);
}

#[test]
fn string_helpers() {
    assert!(chars_eq("héllo", "héllo"));
    assert!(!chars_eq("héllo", "hello"));
    assert!(starts_with("chunk.type", "chunk."));
    assert!(!starts_with("chunk", "chunk."));
    assert_eq!(strip_prefix("name.function", "name."), Some("function"));
    assert_eq!(strip_prefix("nam", "name."), None);
    assert_eq!(node_text(b"ab\xc3\xa9cd", 2, 4), Some("é"));
    assert_eq!(node_text(b"ab\xc3\xa9cd", 2, 3), None);
}
