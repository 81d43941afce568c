use stream_mirror::error::MirrorError;
use stream_mirror::resource::{
    names_playlist, path_components, path_extension, select_dialect, Dialect, ResourceUrl,
};

#[test]
fn a_url_is_parsed_into_its_parts() {
    let u = ResourceUrl::parse("https://h/a/b/master.m3u8?x=1&y=2#frag").unwrap();
    assert_eq!(u.text, "https://h/a/b/master.m3u8?x=1&y=2#frag");
    assert_eq!(u.path, "/a/b/master.m3u8");
    assert_eq!(u.query.as_deref(), Some("x=1&y=2"));
}

#[test]
fn a_url_is_brought_to_its_normal_form() {
    let u = ResourceUrl::parse("HTTPS://Host/a/../b/./c").unwrap();
    assert_eq!(u.text, "https://host/b/c");
    assert_eq!(u.path, "/b/c");
    assert_eq!(u.query, None);
}

#[test]
fn what_is_no_absolute_url_is_not_parsed() {
    assert!(ResourceUrl::parse("not a url").is_none());
    assert!(ResourceUrl::parse("/a/b").is_none());
    assert!(ResourceUrl::parse("").is_none());
}

#[test]
fn a_reference_is_resolved_against_its_base() {
    let base = ResourceUrl::parse("https://h/a/b/master.m3u8").unwrap();
    assert_eq!(base.resolve("sub/child.m3u8").ok().unwrap().text, "https://h/a/b/sub/child.m3u8");
    assert_eq!(base.resolve("../x.ts").ok().unwrap().text, "https://h/a/x.ts");
    assert_eq!(base.resolve("/v1/meta").ok().unwrap().path, "/v1/meta");
    assert_eq!(base.resolve("http://other/seg.ts?t=1").ok().unwrap().text, "http://other/seg.ts?t=1");
    assert_eq!(base.resolve("seg.ts?t=1").ok().unwrap().query.as_deref(), Some("t=1"));
}

#[test]
fn a_reference_that_does_not_resolve_is_an_error() {
    let base = ResourceUrl::parse("data:text/plain,hello").unwrap();
    assert!(base.resolve("seg.ts").is_err());
    match base.resolve("seg.ts") {
        Err(MirrorError::Unresolvable { reference, base }) => {
            assert_eq!(reference, "seg.ts");
            assert_eq!(base, "data:text/plain,hello");
        }
        _ => panic!("expected an error"),
    }
    let base = ResourceUrl::parse("https://h/a.m3u8").unwrap();
    assert!(base.resolve("https://[::1").is_err());
    assert_eq!(base.resolve("b.ts").ok().unwrap().text, "https://h/b.ts");
}

#[test]
fn a_base_that_is_no_url_resolves_nothing() {
    let base = ResourceUrl { text: "nonsense".to_string(), path: String::new(), query: None };
    assert!(base.resolve("seg.ts").is_err());
}

#[test]
fn a_playlist_is_known_by_its_suffix() {
    assert!(names_playlist("/a/b/child.m3u8"));
    assert!(names_playlist("/a/b/CHILD.M3U8"));
    assert!(names_playlist(".m3u8"));
    assert!(!names_playlist("/a/b/child.m3u8.ts"));
    assert!(!names_playlist("/a/b/child.m3u"));
    assert!(!names_playlist("m3u8"));
    assert!(!names_playlist(""));
}

#[test]
fn a_path_is_cut_into_segments() {
    assert_eq!(path_components("/a/b/master.m3u8"), ["a", "b", "master.m3u8"]);
    assert_eq!(path_components("///a"), ["a"]);
    assert_eq!(path_components("/a//b/"), ["a", "", "b", ""]);
    assert_eq!(path_components("/"), [""]);
    assert_eq!(path_components(""), [""]);
}

#[test]
fn the_extension_follows_the_last_dot() {
    assert_eq!(path_extension("/a/b/master.M3U8"), "m3u8");
    assert_eq!(path_extension("/a/b/manifest.mpd"), "mpd");
    assert_eq!(path_extension("/a.b/c"), "b/c");
    assert_eq!(path_extension("/a/B"), "/a/b");
    assert_eq!(path_extension("/a/b."), "");
}

#[test]
fn the_extension_selects_the_dialect() {
    assert_eq!(select_dialect("m3u8"), Some(Dialect::Hls));
    assert_eq!(select_dialect("mpd"), Some(Dialect::Dash));
    assert_eq!(select_dialect("mp4"), None);
    assert_eq!(select_dialect(""), None);
    assert_eq!(select_dialect("M3U8"), None);
}

#[test]
fn errors_are_told_in_words() {
    let e = MirrorError::Unresolvable { reference: "x".to_string(), base: "https://h/".to_string() };
    assert_eq!(e.message(), "resolving URI 'x' relative to https://h/");
    let e = MirrorError::UnsupportedExtension { extension: "mp4".to_string() };
    assert_eq!(e.message(), "Unsupported start URL extension: mp4");
    let e = MirrorError::InvalidUrl { input: "zz".to_string() };
    assert_eq!(e.message(), "parsing start URL zz");
    assert_eq!(MirrorError::OutOfTurn.message(), "event out of turn");
    assert_eq!(e.clone().message(), e.message());
}
