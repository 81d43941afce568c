use stream_mirror::ledger::Ledger;
use stream_mirror::local_path::{reference_from_difference, to_posix_relative, LocalPath};
use stream_mirror::resource::{path_components, ResourceUrl};

fn master_segments() -> Vec<String> {
    path_components("/a/b/master.m3u8")
}

fn plain_url(path: &str, query: Option<&str>) -> ResourceUrl {
    let text = match query {
        Some(q) => format!("https://h{path}?{q}"),
        None => format!("https://h{path}"),
    };
    ResourceUrl { text, path: path.to_string(), query: query.map(|q| q.to_string()) }
}

fn local(path: &str, query: Option<&str>, is_manifest: bool) -> String {
    LocalPath::for_url(&master_segments(), &plain_url(path, query), is_manifest).render()
}

fn path_of(segments: &[&str]) -> LocalPath {
    LocalPath { segments: segments.iter().map(|s| s.to_string()).collect() }
}

#[test]
fn the_master_lies_at_the_root() {
    assert_eq!(local("/a/b/master.m3u8", None, true), "master.m3u8");
}

#[test]
fn a_child_keeps_its_place_below_the_master() {
    assert_eq!(local("/a/b/sub/child.m3u8", None, true), "sub/child.m3u8");
    assert_eq!(local("/a/b/sub/deep/seg1.ts", None, false), "sub/deep/seg1.ts");
}

#[test]
fn only_the_shared_directories_are_left_out() {
    assert_eq!(local("/a/x/seg.ts", None, false), "x/seg.ts");
    assert_eq!(local("/z/seg.ts", None, false), "z/seg.ts");
    assert_eq!(local("/a/b", None, false), "b");
    assert_eq!(local("/a", None, false), "a");
    assert_eq!(local("/a/b/master.m3u8/x", None, false), "master.m3u8/x");
}

#[test]
fn a_manifest_without_extension_gets_one() {
    assert_eq!(local("/a/b/live", None, true), "live.m3u8");
    assert_eq!(local("/a/b/live", None, false), "live");
    assert_eq!(local("/a/b/.hidden", None, true), ".hidden.m3u8");
    assert_eq!(local("/a/b/live.", None, true), "live.");
    assert_eq!(local("/a/b/v1.2/live", None, true), "v1.2/live.m3u8");
    assert_eq!(local("/a/b/live.mpd", None, true), "live.mpd");
}

#[test]
fn a_query_is_put_into_the_file_name() {
    assert_eq!(local("/a/b/seg.ts", Some("token=a&b=1"), false), "seg__q_token_a_b_1.ts");
    assert_eq!(local("/a/b/sub/seg.tar.gz", Some("v=2"), false), "sub/seg.tar__q_v_2.gz");
    assert_eq!(local("/a/b/seg", Some("x=1"), false), "seg__q_x_1");
    assert_eq!(local("/a/b/seg.ts", Some(""), false), "seg__q_.ts");
    assert_eq!(local("/a/b/.hidden", Some("x"), false), "__q_x.hidden");
    assert_eq!(local("/a/b/live", Some("x"), true), "live__q_x.m3u8");
    assert_eq!(local("/a/b/seg.ts", Some("\u{e9}=\u{4e16}"), false), "seg__q____.ts");
}

#[test]
fn a_long_query_is_cut_to_32_characters() {
    let q = "0123456789abcdefghijklmnopqrstuvwxyz";
    assert_eq!(
        local("/a/b/seg.ts", Some(q), false),
        "seg__q_0123456789abcdefghijklmnopqrstuv.ts"
    );
}

#[test]
fn queries_keep_files_apart() {
    let plain = local("/a/b/seg.ts", None, false);
    let one = local("/a/b/seg.ts", Some("t=1"), false);
    let two = local("/a/b/seg.ts", Some("t=2"), false);
    let empty = local("/a/b/seg.ts", Some(""), false);
    assert_ne!(plain, one);
    assert_ne!(one, two);
    assert_ne!(plain, empty);
    assert_ne!(empty, one);
    assert_eq!(one, local("/a/b/seg.ts", Some("t=1"), false));
}

#[test]
fn queries_with_one_safe_form_share_a_file() {
    assert_eq!(local("/a/b/seg.ts", Some("a-b"), false), local("/a/b/seg.ts", Some("a_b"), false));
}

#[test]
fn a_path_never_leaves_the_root() {
    assert_eq!(local("/a/b//x/./../y.ts", None, false), "x/y.ts");
    assert_eq!(local("/../../etc/passwd", None, false), "etc/passwd");
    assert_eq!(local("/a/b/sub/", None, false), "sub");
    assert_eq!(local("/a/b/sub/", None, true), "sub.m3u8");
}

#[test]
fn a_path_without_segments_has_no_file_name() {
    let root = LocalPath::for_url(&master_segments(), &plain_url("/", None), true);
    assert!(root.segments.is_empty());
    assert_eq!(root.render(), "");
    assert_eq!(local("/", Some("x=1"), true), "__q_x_1");
    assert_eq!(root.parent().segments.len(), 0);
    assert_eq!(root.original_copy("manifest.m3u8.orig").render(), "manifest.m3u8.orig");
}

#[test]
fn the_original_is_kept_beside_the_manifest() {
    let p = path_of(&["sub", "child.m3u8"]);
    assert_eq!(p.original_copy("manifest.m3u8.orig").render(), "sub/child.m3u8.orig");
    assert_eq!(p.parent().render(), "sub");
    assert_eq!(p.clone().render(), "sub/child.m3u8");
}

#[test]
fn a_reference_leads_from_the_directory_to_the_target() {
    let root = path_of(&[]);
    let sub = path_of(&["sub"]);
    assert_eq!(to_posix_relative(&path_of(&["sub", "child.m3u8"]), &root), "sub/child.m3u8");
    assert_eq!(to_posix_relative(&path_of(&["sub", "seg1.ts"]), &sub), "seg1.ts");
    assert_eq!(to_posix_relative(&path_of(&["a", "x.ts"]), &path_of(&["b"])), "../a/x.ts");
    assert_eq!(to_posix_relative(&path_of(&["x.ts"]), &path_of(&["a", "b"])), "../../x.ts");
    assert_eq!(to_posix_relative(&path_of(&["a", "b", "x.ts"]), &path_of(&["a", "c"])), "../b/x.ts");
}

#[test]
fn a_reference_is_written_with_slashes() {
    let target = path_of(&["a", "x.ts"]);
    let parts = vec!["..".to_string(), "a".to_string(), "x.ts".to_string()];
    assert_eq!(reference_from_difference(Some(parts), &target), "../a/x.ts");
    assert_eq!(reference_from_difference(Some(Vec::new()), &target), "");
    assert_eq!(reference_from_difference(None, &target), "a/x.ts");
}

#[test]
fn a_re_resolved_reference_names_the_target() {
    let playlist = path_of(&["sub", "child.m3u8"]);
    let target = path_of(&["sub", "media", "seg1.ts"]);
    let reference = to_posix_relative(&target, &playlist.parent());
    let base = ResourceUrl::parse("file:///root/sub/child.m3u8").unwrap();
    assert_eq!(base.resolve(&reference).ok().unwrap().path, "/root/sub/media/seg1.ts");
    let target = path_of(&["other", "seg2.ts"]);
    let reference = to_posix_relative(&target, &playlist.parent());
    assert_eq!(base.resolve(&reference).ok().unwrap().path, "/root/other/seg2.ts");
}

#[test]
fn a_url_is_new_only_once() {
    let mut ledger = Ledger::new(master_segments());
    let a = plain_url("/a/b/seg.ts", None);
    let b = plain_url("/a/b/seg.ts", Some("t=1"));
    assert!(!ledger.is_visited(&a.text));
    assert!(ledger.mark_if_new(&a));
    assert!(ledger.is_visited(&a.text));
    assert!(!ledger.mark_if_new(&a));
    assert!(ledger.mark_if_new(&b));
    assert!(!ledger.mark_if_new(&b));
    assert!(!ledger.mark_if_new(&a));
    assert_eq!(ledger.visited, [a.text.clone(), b.text.clone()]);
}

#[test]
fn a_url_keeps_its_first_path() {
    let mut ledger = Ledger::new(master_segments());
    let live = plain_url("/a/b/live", None);
    let first = ledger.path_for_url(&live, true).render();
    assert_eq!(first, "live.m3u8");
    assert_eq!(ledger.path_for_url(&live, false).render(), "live.m3u8");
    assert_eq!(ledger.path_for_url(&live, true).render(), "live.m3u8");
    assert_eq!(ledger.paths.len(), 1);
    let other = plain_url("/a/b/other", None);
    assert_eq!(ledger.path_for_url(&other, false).render(), "other");
    assert_eq!(ledger.path_for_url(&live, false).render(), "live.m3u8");
    assert_eq!(ledger.paths.len(), 2);
}
