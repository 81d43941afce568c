use stream_mirror::hls::{
    find_reference, find_uri_attr, is_hls_manifest, render_playlist, rewrite_line, split_lines,
};
use stream_mirror::mirror::Mirror;

#[test]
fn a_playlist_starts_with_its_signature() {
    assert!(is_hls_manifest("#EXTM3U\n#EXT-X-VERSION:3\n"));
    assert!(is_hls_manifest("#EXTM3U"));
    assert!(is_hls_manifest("\u{feff}\n  #EXTM3U8\n") == false);
    assert!(is_hls_manifest(" \r\n\t#EXTM3U\n"));
    assert!(!is_hls_manifest("<html>#EXTM3U</html>"));
    assert!(!is_hls_manifest("#EXTM3"));
    assert!(!is_hls_manifest("#extm3u"));
    assert!(!is_hls_manifest(""));
}

#[test]
fn lines_end_at_line_feeds() {
    assert_eq!(split_lines("a\nb\n"), ["a", "b"]);
    assert_eq!(split_lines("a\nb"), ["a", "b"]);
    assert_eq!(split_lines("a\r\nb\r\n"), ["a", "b"]);
    assert_eq!(split_lines("a\n\nb"), ["a", "", "b"]);
    assert_eq!(split_lines("\n"), [""]);
    assert_eq!(split_lines("a\r"), ["a\r"]);
    assert_eq!(split_lines("a\r\r\n"), ["a\r"]);
    assert!(split_lines("").is_empty());
}

#[test]
fn lines_are_those_of_the_standard_library() {
    for text in ["", "\n", "a", "a\n", "a\r\n\r\nb\r", "\r\n", "x\n\n", "\ra\n\rb"] {
        let expected: Vec<String> = text.lines().map(|l| l.to_string()).collect();
        assert_eq!(split_lines(text), expected);
    }
}

#[test]
fn the_uri_attribute_is_found() {
    let line = "#EXT-X-KEY:METHOD=AES-128,URI=\"keys/key.bin\",IV=0x01";
    let start = line.find("URI=\"").unwrap() + 5;
    let end = start + "keys/key.bin".len();
    assert_eq!(find_uri_attr(line), Some((start, end)));
    assert_eq!(Mirror::find_uri_attr(line), Some((start, end)));
    assert_eq!(find_uri_attr("URI=\"\""), Some((5, 5)));
    assert_eq!(find_uri_attr("URI=\"a\",URI=\"b\""), Some((5, 6)));
}

#[test]
fn a_line_without_a_closed_uri_attribute_has_none() {
    assert_eq!(find_uri_attr("#EXT-X-KEY:METHOD=NONE"), None);
    assert_eq!(find_uri_attr("#EXT-X-KEY:URI=\"open"), None);
    assert_eq!(find_uri_attr("#EXT-X-KEY:uri=\"a\""), None);
    assert_eq!(find_uri_attr("URI="), None);
    assert_eq!(find_uri_attr(""), None);
}

#[test]
fn positions_count_characters() {
    assert_eq!(find_uri_attr("#\u{e9}\u{e9},URI=\"a\""), Some((9, 10)));
}

#[test]
fn a_tag_refers_by_its_uri_attribute() {
    let r = find_reference("  #EXT-X-MEDIA:TYPE=AUDIO,URI=\"audio/a.m3u8\",NAME=\"en\"").unwrap();
    assert_eq!(r.uri, "audio/a.m3u8");
    assert_eq!(r.before, "  #EXT-X-MEDIA:TYPE=AUDIO,URI=\"");
    assert_eq!(r.after, "\",NAME=\"en\"");
    assert_eq!(
        rewrite_line(&r, "../x/a.m3u8"),
        "  #EXT-X-MEDIA:TYPE=AUDIO,URI=\"../x/a.m3u8\",NAME=\"en\""
    );
}

#[test]
fn other_tags_and_blank_lines_refer_to_nothing() {
    assert!(find_reference("#EXTM3U").is_none());
    assert!(find_reference("#EXTINF:9.009,").is_none());
    assert!(find_reference("# URI=\"unterminated").is_none());
    assert!(find_reference("").is_none());
    assert!(find_reference("   \t").is_none());
}

#[test]
fn any_other_line_is_a_reference() {
    let r = find_reference("  seg1.ts \r").unwrap();
    assert_eq!(r.uri, "seg1.ts");
    assert_eq!(r.before, "");
    assert_eq!(r.after, "");
    assert_eq!(rewrite_line(&r, "media/seg1.ts"), "media/seg1.ts");
    let r = find_reference("URI=\"x\"").unwrap();
    assert_eq!(r.uri, "URI=\"x\"");
}

#[test]
fn a_playlist_ends_with_a_line_feed() {
    let lines = vec!["#EXTM3U".to_string(), "".to_string(), "seg1.ts".to_string()];
    assert_eq!(render_playlist(&lines), "#EXTM3U\n\nseg1.ts\n");
    assert_eq!(render_playlist(&Vec::new()), "\n");
}
