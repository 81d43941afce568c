use stream_mirror::error::MirrorError;
use stream_mirror::mirror::{open_run, Action, Event, Mirror};
use stream_mirror::resource::{path_components, Dialect, ResourceUrl};

/// What a driver has been asked to do in the course of a run.
struct Trace {
    manifests: Vec<String>,
    binaries: Vec<(String, String)>,
    written: Vec<(String, String)>,
    reports: Vec<String>,
    failure: Option<MirrorError>,
}

impl Trace {
    fn content_of(&self, path: &str) -> &str {
        let found: Vec<&(String, String)> = self.written.iter().filter(|w| w.0 == path).collect();
        assert_eq!(found.len(), 1, "writes to {path}");
        &found[0].1
    }

    fn written_paths(&self) -> Vec<&str> {
        self.written.iter().map(|w| w.0.as_str()).collect()
    }

    fn binary_urls(&self) -> Vec<&str> {
        self.binaries.iter().map(|b| b.0.as_str()).collect()
    }

    fn binary_paths(&self) -> Vec<&str> {
        self.binaries.iter().map(|b| b.1.as_str()).collect()
    }
}

/// Runs a mirror to its end, answering each fetch of a manifest from
/// `site`.
fn drive(start: &str, site: &[(&str, &str)]) -> Trace {
    let mut trace = Trace {
        manifests: Vec::new(),
        binaries: Vec::new(),
        written: Vec::new(),
        reports: Vec::new(),
        failure: None,
    };
    let (mut mirror, mut action) = match open_run(start) {
        Ok(run) => run,
        Err(e) => {
            trace.failure = Some(e);
            return trace;
        }
    };
    for _ in 0..10_000 {
        let event = match action {
            Action::FetchManifest { url, .. } => {
                let text = site.iter().find(|page| page.0 == url).map(|page| page.1);
                trace.manifests.push(url);
                Event::Text(text.expect("a page of the site").to_string())
            }
            Action::FetchBinary { url, path } => {
                trace.binaries.push((url, path.render()));
                Event::Done
            }
            Action::Write { path, content } => {
                trace.written.push((path.render(), content));
                Event::Done
            }
            Action::Report { representation } => {
                trace.reports.push(representation);
                Event::Done
            }
            Action::Proceed => Event::Done,
            Action::Finished => return trace,
            Action::Failed(e) => {
                trace.failure = Some(e);
                return trace;
            }
        };
        action = mirror.resume(event);
    }
    panic!("the run does not end");
}

#[test]
fn a_playlist_tree_is_mirrored() {
    let trace = drive(
        "https://h/a/b/master.m3u8",
        &[
            ("https://h/a/b/master.m3u8", "#EXTM3U\nsub/child.m3u8\n"),
            ("https://h/a/b/sub/child.m3u8", "#EXTM3U\nseg1.ts\n"),
        ],
    );
    assert!(trace.failure.is_none());
    assert_eq!(trace.manifests, ["https://h/a/b/master.m3u8", "https://h/a/b/sub/child.m3u8"]);
    assert_eq!(trace.binary_urls(), ["https://h/a/b/sub/seg1.ts"]);
    assert_eq!(trace.binary_paths(), ["sub/seg1.ts"]);
    assert_eq!(
        trace.written_paths(),
        ["master.m3u8.orig", "sub/child.m3u8.orig", "sub/child.m3u8", "master.m3u8"]
    );
    assert_eq!(trace.content_of("master.m3u8"), "#EXTM3U\nsub/child.m3u8\n");
    assert_eq!(trace.content_of("sub/child.m3u8"), "#EXTM3U\nseg1.ts\n");
    assert_eq!(trace.content_of("master.m3u8.orig"), "#EXTM3U\nsub/child.m3u8\n");
    assert_eq!(trace.content_of("sub/child.m3u8.orig"), "#EXTM3U\nseg1.ts\n");
}

#[test]
fn references_are_rewritten_and_nothing_else() {
    let master = "#EXTM3U\r\n\
        #EXT-X-MEDIA:TYPE=AUDIO,URI=\"https://cdn/audio/en.m3u8?v=1\",NAME=\"en\"\r\n\
        \r\n\
        #EXT-X-STREAM-INF:BANDWIDTH=1\r\n\
        \x20\x20/a/video/hi.m3u8\x20\r\n\
        #EXT-X-ENDLIST";
    let audio = "#EXTM3U\n#EXT-X-KEY:METHOD=AES-128,URI=\"/keys/k.bin\"\nen1.aac\n";
    let video = "#EXTM3U\n../b/shared.ts\n#EXTINF:4,\nhi1.ts\n";
    let trace = drive(
        "https://h/a/b/master.m3u8",
        &[
            ("https://h/a/b/master.m3u8", master),
            ("https://cdn/audio/en.m3u8?v=1", audio),
            ("https://h/a/video/hi.m3u8", video),
        ],
    );
    assert!(trace.failure.is_none());
    assert_eq!(
        trace.content_of("master.m3u8"),
        "#EXTM3U\n\
         #EXT-X-MEDIA:TYPE=AUDIO,URI=\"audio/en__q_v_1.m3u8\",NAME=\"en\"\n\
         \n\
         #EXT-X-STREAM-INF:BANDWIDTH=1\n\
         video/hi.m3u8\n\
         #EXT-X-ENDLIST\n"
    );
    assert_eq!(trace.content_of("master.m3u8.orig"), master);
    assert_eq!(
        trace.content_of("audio/en__q_v_1.m3u8"),
        "#EXTM3U\n#EXT-X-KEY:METHOD=AES-128,URI=\"../keys/k.bin\"\nen1.aac\n"
    );
    assert_eq!(trace.content_of("video/hi.m3u8"), "#EXTM3U\n../shared.ts\n#EXTINF:4,\nhi1.ts\n");
    assert_eq!(
        trace.binaries,
        [
            ("https://cdn/keys/k.bin".to_string(), "keys/k.bin".to_string()),
            ("https://cdn/audio/en1.aac".to_string(), "audio/en1.aac".to_string()),
            ("https://h/a/b/shared.ts".to_string(), "shared.ts".to_string()),
            ("https://h/a/video/hi1.ts".to_string(), "video/hi1.ts".to_string()),
        ]
    );
}

#[test]
fn a_resource_named_twice_is_fetched_once() {
    let trace = drive(
        "https://h/a/b/master.m3u8",
        &[
            (
                "https://h/a/b/master.m3u8",
                "#EXTM3U\nseg.ts\nlow.m3u8\nseg.ts\n#EXT-X-MAP:URI=\"seg.ts\"\nlow.m3u8\n",
            ),
            ("https://h/a/b/low.m3u8", "#EXTM3U\nseg.ts\n"),
        ],
    );
    assert!(trace.failure.is_none());
    assert_eq!(trace.binary_urls(), ["https://h/a/b/seg.ts"]);
    assert_eq!(trace.manifests, ["https://h/a/b/master.m3u8", "https://h/a/b/low.m3u8"]);
    assert_eq!(
        trace.content_of("master.m3u8"),
        "#EXTM3U\nseg.ts\nlow.m3u8\nseg.ts\n#EXT-X-MAP:URI=\"seg.ts\"\nlow.m3u8\n"
    );
    assert_eq!(trace.content_of("low.m3u8"), "#EXTM3U\nseg.ts\n");
    assert_eq!(trace.written.len(), 4);
}

#[test]
fn playlists_that_name_each_other_end() {
    let trace = drive(
        "https://h/a/b/master.m3u8",
        &[
            ("https://h/a/b/master.m3u8", "#EXTM3U\nmaster.m3u8\nother.m3u8\n"),
            ("https://h/a/b/other.m3u8", "#EXTM3U\nmaster.m3u8\nother.m3u8\n"),
        ],
    );
    assert!(trace.failure.is_none());
    assert_eq!(trace.manifests, ["https://h/a/b/master.m3u8", "https://h/a/b/other.m3u8"]);
    assert!(trace.binaries.is_empty());
    assert_eq!(trace.content_of("other.m3u8"), "#EXTM3U\nmaster.m3u8\nother.m3u8\n");
    assert_eq!(trace.content_of("master.m3u8"), "#EXTM3U\nmaster.m3u8\nother.m3u8\n");
}

#[test]
fn text_that_is_no_playlist_is_kept_as_it_came() {
    let trace = drive(
        "https://h/a/b/master.m3u8",
        &[
            ("https://h/a/b/master.m3u8", "#EXTM3U\nodd.M3U8\nseg.ts\n"),
            ("https://h/a/b/odd.M3U8", "<html>not found</html>"),
        ],
    );
    assert!(trace.failure.is_none());
    assert_eq!(trace.manifests, ["https://h/a/b/master.m3u8", "https://h/a/b/odd.M3U8"]);
    assert_eq!(trace.binary_urls(), ["https://h/a/b/seg.ts"]);
    assert_eq!(trace.written_paths(), ["master.m3u8.orig", "odd.M3U8", "master.m3u8"]);
    assert_eq!(trace.content_of("odd.M3U8"), "<html>not found</html>");
    assert_eq!(trace.content_of("master.m3u8"), "#EXTM3U\nodd.M3U8\nseg.ts\n");
    let trace = drive("https://h/a/b/master.m3u8", &[("https://h/a/b/master.m3u8", "hello")]);
    assert!(trace.failure.is_none());
    assert_eq!(trace.written, [("master.m3u8".to_string(), "hello".to_string())]);
    assert!(trace.binaries.is_empty());
}

#[test]
fn every_reference_names_a_stored_file() {
    let trace = drive(
        "https://h/a/b/master.m3u8",
        &[
            (
                "https://h/a/b/master.m3u8",
                "#EXTM3U\nlow/low.m3u8\nodd.m3u8\n#EXT-X-MAP:URI=\"../init.mp4\"\n",
            ),
            ("https://h/a/b/low/low.m3u8", "#EXTM3U\nseg.ts\n../odd.m3u8\n"),
            ("https://h/a/b/odd.m3u8", "no playlist"),
        ],
    );
    assert!(trace.failure.is_none());
    let mut stored: Vec<String> = trace.written.iter().map(|w| w.0.clone()).collect();
    stored.extend(trace.binaries.iter().map(|b| b.1.clone()));
    let root = ResourceUrl::parse("file:///root/").unwrap();
    for (path, content) in &trace.written {
        if path.ends_with(".orig") || !content.starts_with("#EXTM3U") {
            continue;
        }
        let here = root.resolve(path).ok().unwrap();
        let mut references = 0;
        for line in content.lines().skip(1) {
            let reference = match Mirror::find_uri_attr(line) {
                Some((start, end)) => &line[start..end],
                None => line,
            };
            let target = here.resolve(reference).ok().unwrap();
            let local = target.path.strip_prefix("/root/").unwrap().to_string();
            assert!(stored.contains(&local), "{local} named in {path}");
            references += 1;
        }
        assert!(references > 0);
    }
    assert_eq!(trace.content_of("low/low.m3u8"), "#EXTM3U\nseg.ts\n../odd.m3u8\n");
    assert_eq!(trace.content_of("odd.m3u8"), "no playlist");
}

#[test]
fn a_reference_that_does_not_resolve_fails_the_run() {
    let trace = drive(
        "https://h/a/b/master.m3u8",
        &[("https://h/a/b/master.m3u8", "#EXTM3U\nseg1.ts\nhttps://[::1\nseg2.ts\n")],
    );
    match &trace.failure {
        Some(MirrorError::Unresolvable { reference, base }) => {
            assert_eq!(reference, "https://[::1");
            assert_eq!(base, "https://h/a/b/master.m3u8");
        }
        _ => panic!("expected a failure"),
    }
    assert_eq!(trace.binary_urls(), ["https://h/a/b/seg1.ts"]);
    assert_eq!(trace.written_paths(), ["master.m3u8.orig"]);
}

#[test]
fn a_dash_manifest_is_stored_and_its_segments_fetched() {
    let text = "<MPD mediaPresentationDuration=\"PT3M30S\"><Period><BaseURL>dash/</BaseURL>\
        <AdaptationSet><SegmentTemplate timescale=\"1\" duration=\"10\" \
        initialization=\"$RepresentationID$/init.mp4\" \
        media=\"$RepresentationID$/$Number$.m4s?n=$Number$\"/>\
        <Representation id=\"v\"/></AdaptationSet></Period></MPD>";
    let trace = drive("https://h/x/manifest.mpd", &[("https://h/x/manifest.mpd", text)]);
    assert!(trace.failure.is_none());
    assert_eq!(trace.manifests, ["https://h/x/manifest.mpd"]);
    assert_eq!(trace.written_paths(), ["manifest.mpd.orig", "manifest.mpd"]);
    assert_eq!(trace.content_of("manifest.mpd"), text);
    assert_eq!(trace.content_of("manifest.mpd.orig"), text);
    assert_eq!(trace.binaries.len(), 22);
    assert_eq!(trace.binaries[0].0, "https://h/x/dash/v/init.mp4");
    assert_eq!(trace.binaries[0].1, "dash/v/init.mp4");
    for n in 1..=21 {
        assert_eq!(trace.binaries[n].0, format!("https://h/x/dash/v/{n}.m4s?n={n}"));
        assert_eq!(trace.binaries[n].1, format!("dash/v/{n}__q_n_{n}.m4s"));
    }
    assert!(trace.reports.is_empty());
}

#[test]
fn an_unreadable_duration_leaves_segments_out_and_goes_on() {
    let text = "<MPD mediaPresentationDuration=\"3M30S\"><Period><AdaptationSet>\
        <SegmentTemplate timescale=\"1\" duration=\"10\" initialization=\"init-$RepresentationID$.mp4\" \
        media=\"$RepresentationID$-$Number$.m4s\"/>\
        <Representation id=\"v1\"/>\
        <Representation id=\"v2\"><SegmentTemplate endNumber=\"2\" media=\"s$Number$.m4s\"/>\
        </Representation></AdaptationSet></Period></MPD>";
    let trace = drive("https://h/x/manifest.mpd", &[("https://h/x/manifest.mpd", text)]);
    assert!(trace.failure.is_none());
    assert_eq!(trace.reports, ["v1"]);
    assert_eq!(
        trace.binary_urls(),
        ["https://h/x/init-v1.mp4", "https://h/x/s1.m4s", "https://h/x/s2.m4s"]
    );
}

#[test]
fn a_file_of_a_representation_without_id_is_fetched() {
    let text = "<MPD><Period><AdaptationSet><Representation><BaseURL>subs.vtt</BaseURL>\
        </Representation></AdaptationSet></Period></MPD>";
    let trace = drive("https://h/x/m.mpd", &[("https://h/x/m.mpd", text)]);
    assert!(trace.failure.is_none());
    assert_eq!(
        trace.binaries,
        [("https://h/x/subs.vtt".to_string(), "subs.vtt".to_string())]
    );
}

#[test]
fn segments_shared_by_representations_are_fetched_once() {
    let text = "<MPD><Period><AdaptationSet>\
        <SegmentTemplate initialization=\"init.mp4\" endNumber=\"2\" media=\"s$Number$.m4s\"/>\
        <Representation id=\"a\"/><Representation id=\"b\"/></AdaptationSet></Period></MPD>";
    let trace = drive("https://h/x/manifest.mpd", &[("https://h/x/manifest.mpd", text)]);
    assert!(trace.failure.is_none());
    assert_eq!(
        trace.binary_urls(),
        ["https://h/x/init.mp4", "https://h/x/s1.m4s", "https://h/x/s2.m4s"]
    );
}

#[test]
fn a_dash_manifest_that_is_none_is_kept_as_it_came() {
    let trace = drive("https://h/x/manifest.mpd", &[("https://h/x/manifest.mpd", "no xml")]);
    assert!(trace.failure.is_none());
    assert_eq!(trace.written_paths(), ["manifest.mpd.orig", "manifest.mpd"]);
    assert_eq!(trace.content_of("manifest.mpd"), "no xml");
    assert!(trace.binaries.is_empty());
    let trace = drive("https://h/x/manifest.mpd", &[("https://h/x/manifest.mpd", "<html/>")]);
    assert!(trace.failure.is_none());
    assert_eq!(trace.written_paths(), ["manifest.mpd.orig", "manifest.mpd"]);
    assert!(trace.binaries.is_empty());
}

#[test]
fn a_segment_that_does_not_resolve_fails_the_run() {
    let text = "<MPD><Period><AdaptationSet><Representation id=\"a\">\
        <SegmentTemplate startNumber=\"5\" endNumber=\"7\" \
        media=\"https://h:$Number$9999/s.m4s\"/>\
        </Representation></AdaptationSet></Period></MPD>";
    let trace = drive("https://h/x/manifest.mpd", &[("https://h/x/manifest.mpd", text)]);
    assert_eq!(trace.binary_urls(), ["https://h:59999/s.m4s"]);
    match &trace.failure {
        Some(MirrorError::Unresolvable { reference, base }) => {
            assert_eq!(reference, "https://h:69999/s.m4s");
            assert_eq!(base, "https://h/x/manifest.mpd");
        }
        _ => panic!("expected a failure"),
    }
}

#[test]
fn the_start_url_decides_the_dialect() {
    let (mirror, action) = open_run("https://h/a/b/Master.M3U8?x=1").ok().unwrap();
    match action {
        Action::FetchManifest { url, path, dialect } => {
            assert_eq!(url, "https://h/a/b/Master.M3U8?x=1");
            assert_eq!(path.render(), "Master__q_x_1.M3U8");
            assert_eq!(dialect, Dialect::Hls);
        }
        _ => panic!("expected a fetch"),
    }
    assert_eq!(mirror.ledger.master, ["a", "b", "Master.M3U8"]);
    assert_eq!(mirror.ledger.visited, ["https://h/a/b/Master.M3U8?x=1"]);
    assert_eq!(mirror.jobs.len(), 1);
    let (_, action) = open_run("https://h/a/b/stream.mpd").ok().unwrap();
    assert!(matches!(action, Action::FetchManifest { dialect: Dialect::Dash, .. }));
}

#[test]
fn a_start_url_of_another_kind_is_refused() {
    match open_run("https://h/a/b/movie.mp4") {
        Err(MirrorError::UnsupportedExtension { extension }) => assert_eq!(extension, "mp4"),
        _ => panic!("expected an error"),
    }
    match open_run("https://h/a/b/") {
        Err(MirrorError::UnsupportedExtension { extension }) => assert_eq!(extension, "/a/b/"),
        _ => panic!("expected an error"),
    }
    match open_run("a/b/master.m3u8") {
        Err(MirrorError::InvalidUrl { input }) => assert_eq!(input, "a/b/master.m3u8"),
        _ => panic!("expected an error"),
    }
}

#[test]
fn an_event_out_of_turn_fails_the_run() {
    let (mut mirror, _) = open_run("https://h/a/b/master.m3u8").ok().unwrap();
    assert!(matches!(mirror.resume(Event::Done), Action::Failed(MirrorError::OutOfTurn)));
    assert!(matches!(
        mirror.resume(Event::Text("#EXTM3U\n".to_string())),
        Action::Write { .. }
    ));
    assert!(matches!(
        mirror.resume(Event::Text("#EXTM3U\n".to_string())),
        Action::Failed(MirrorError::OutOfTurn)
    ));
    let mut idle = Mirror::new(path_components("/a/b/master.m3u8"));
    assert!(matches!(idle.resume(Event::Done), Action::Finished));
    assert!(matches!(
        idle.resume(Event::Text(String::new())),
        Action::Failed(MirrorError::OutOfTurn)
    ));
}

#[test]
fn a_failed_action_fails_the_run() {
    let (mut mirror, _) = open_run("https://h/a/b/master.m3u8").ok().unwrap();
    match mirror.resume(Event::Failed("GET https://h/a/b/master.m3u8: 404".to_string())) {
        Action::Failed(MirrorError::ActionFailed { reason }) => {
            assert_eq!(reason, "GET https://h/a/b/master.m3u8: 404");
        }
        _ => panic!("expected a failure"),
    }
    assert_eq!(mirror.jobs.len(), 1);
    let (mut mirror, _) = open_run("https://h/a/b/master.m3u8").ok().unwrap();
    mirror.resume(Event::Text("#EXTM3U\nseg.ts\n".to_string()));
    mirror.resume(Event::Done);
    mirror.resume(Event::Done);
    let error = match mirror.resume(Event::Failed("disk full".to_string())) {
        Action::Failed(error) => error,
        _ => panic!("expected a failure"),
    };
    assert_eq!(error.message(), "disk full");
    let mut idle = Mirror::new(path_components("/a/b/master.m3u8"));
    assert!(matches!(idle.resume(Event::Failed(String::new())), Action::Failed(_)));
}

#[test]
fn a_binary_is_taken_on_once() {
    let mut mirror = Mirror::new(path_components("/a/b/master.m3u8"));
    let url = ResourceUrl::parse("https://h/a/b/sub/seg.ts?t=1").unwrap();
    match mirror.mirror_binary(url.clone()) {
        Action::FetchBinary { url, path } => {
            assert_eq!(url, "https://h/a/b/sub/seg.ts?t=1");
            assert_eq!(path.segments, ["sub", "seg__q_t_1.ts"]);
        }
        _ => panic!("expected a fetch"),
    }
    assert!(matches!(mirror.mirror_binary(url.clone()), Action::Proceed));
    assert!(matches!(mirror.mirror_manifest(url.clone()), Action::Proceed));
    assert!(matches!(mirror.mirror_mpd(url.clone()), Action::Proceed));
    assert!(mirror.jobs.is_empty());
    assert_eq!(mirror.path_for_url(&url, true).render(), "sub/seg__q_t_1.ts");
    assert_eq!(
        Mirror::to_posix_relative(&mirror.path_for_url(&url, false), &mirror.path_for_url(&url, false).parent()),
        "seg__q_t_1.ts"
    );
}
