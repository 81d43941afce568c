use stream_mirror::dash::{handle_segment_template, plan_manifest, Task};
use stream_mirror::duration::Duration;
use stream_mirror::error::MirrorError;
use stream_mirror::resource::ResourceUrl;
use stream_mirror::xml::{
    attribute, child_elements, first_child_element, first_child_text, parse_xml, root_element,
};

fn manifest_url() -> ResourceUrl {
    ResourceUrl::parse("https://h/x/manifest.mpd").unwrap()
}

fn plan(text: &str) -> Vec<Task> {
    plan_manifest(&parse_xml(text).unwrap(), &manifest_url()).unwrap()
}

fn fetch_of(task: &Task) -> &str {
    match task {
        Task::Fetch(u) => &u.text,
        _ => panic!("not a fetch"),
    }
}

fn segments_of(task: &Task) -> (&str, &str, u64, u64) {
    match task {
        Task::Segments { base, template, first, last } => (&base.text, template, *first, *last),
        _ => panic!("not a task of segments"),
    }
}

#[test]
fn a_document_becomes_a_table_of_nodes() {
    let nodes = parse_xml("<a x='1' y=\"2\"><b>t</b><!--c--><b/></a>").unwrap();
    assert_eq!(nodes.len(), 6);
    assert_eq!(nodes[0].parent, None);
    assert!(!nodes[0].element);
    assert_eq!(nodes[0].text, None);
    assert_eq!(nodes[1].parent, Some(0));
    assert!(nodes[1].element);
    assert_eq!(nodes[1].name, "a");
    assert_eq!(nodes[1].text, None);
    assert_eq!(nodes[1].attributes.len(), 2);
    assert_eq!(nodes[1].attributes[0].name, "x");
    assert_eq!(nodes[1].attributes[0].value, "1");
    assert_eq!(nodes[1].attributes[0].namespace, None);
    assert_eq!(nodes[1].attributes[1].name, "y");
    assert_eq!(nodes[2].parent, Some(1));
    assert_eq!(nodes[2].name, "b");
    assert_eq!(nodes[2].text.as_deref(), Some("t"));
    assert_eq!(nodes[3].parent, Some(2));
    assert!(!nodes[3].element);
    assert_eq!(nodes[3].name, "");
    assert_eq!(nodes[4].parent, Some(1));
    assert_eq!(nodes[4].text.as_deref(), Some("c"));
    assert_eq!(nodes[5].parent, Some(1));
    assert_eq!(nodes[5].name, "b");
}

#[test]
fn what_is_no_xml_is_not_parsed() {
    assert!(parse_xml("").is_none());
    assert!(parse_xml("<a><b></a>").is_none());
    assert!(parse_xml("#EXTM3U\n").is_none());
}

#[test]
fn children_are_found_by_name() {
    let nodes = parse_xml("<r><!--x--><a>1</a><b><a>2</a></b><a>3</a><c> <d/></c></r>").unwrap();
    let root = root_element(&nodes).unwrap();
    assert_eq!(nodes[root].name, "r");
    let found = child_elements(&nodes, root, "a");
    assert_eq!(found.len(), 2);
    assert_eq!(nodes[found[0]].text.as_deref(), Some("1"));
    assert_eq!(nodes[found[1]].text.as_deref(), Some("3"));
    assert_eq!(first_child_element(&nodes, root, "a"), Some(found[0]));
    assert_eq!(first_child_element(&nodes, root, "zz"), None);
    assert_eq!(first_child_text(&nodes, root, "a").as_deref(), Some("1"));
    assert_eq!(first_child_text(&nodes, root, "b"), None);
    assert_eq!(first_child_text(&nodes, root, "c").as_deref(), Some(" "));
    assert_eq!(first_child_text(&nodes, root, "d"), None);
    assert!(child_elements(&nodes, root, "d").is_empty());
    assert!(child_elements(&nodes, 10_000, "a").is_empty());
}

#[test]
fn attributes_are_found_by_name_without_namespace() {
    let nodes = parse_xml("<r xmlns:n='urn:n' n:id='other' id='mine' id2=''/>").unwrap();
    let root = root_element(&nodes).unwrap();
    assert_eq!(attribute(&nodes, root, "id").as_deref(), Some("mine"));
    assert_eq!(attribute(&nodes, root, "id2").as_deref(), Some(""));
    assert_eq!(attribute(&nodes, root, "n:id"), None);
    assert_eq!(attribute(&nodes, root, "missing"), None);
}

#[test]
fn a_template_is_expanded_for_its_representation() {
    let text = "<MPD mediaPresentationDuration=\"PT3M30S\"><Period><AdaptationSet>\
        <SegmentTemplate timescale=\"1\" duration=\"10\" \
        initialization=\" $RepresentationID$/init.mp4 \" \
        media=\"$RepresentationID$/seg-$Number$-$RepresentationID$.m4s\"/>\
        <Representation id=\"v1\"/></AdaptationSet></Period></MPD>";
    let tasks = plan(text);
    assert_eq!(tasks.len(), 2);
    assert_eq!(fetch_of(&tasks[0]), "https://h/x/v1/init.mp4");
    assert_eq!(segments_of(&tasks[1]), ("https://h/x/manifest.mpd", "v1/seg-$Number$-v1.m4s", 1, 21));
}

#[test]
fn base_urls_narrow_from_level_to_level() {
    let text = "<MPD><BaseURL>ignored/</BaseURL><Period><BaseURL> dash/ </BaseURL>\
        <AdaptationSet><BaseURL>video/</BaseURL>\
        <Representation id=\"a\"><BaseURL>hi/</BaseURL>\
        <SegmentTemplate initialization=\"init.mp4\"/></Representation>\
        <Representation id=\"b\"><SegmentTemplate initialization=\"init.mp4\"/></Representation>\
        </AdaptationSet>\
        <AdaptationSet><Representation id=\"c\">\
        <SegmentTemplate initialization=\"/abs/init.mp4\"/></Representation></AdaptationSet>\
        </Period><Period><AdaptationSet><Representation id=\"d\">\
        <SegmentTemplate initialization=\"init.mp4\"/></Representation></AdaptationSet></Period></MPD>";
    let tasks = plan(text);
    let urls: Vec<&str> = tasks.iter().map(fetch_of).collect();
    assert_eq!(
        urls,
        [
            "https://h/x/dash/video/hi/init.mp4",
            "https://h/x/dash/video/init.mp4",
            "https://h/abs/init.mp4",
            "https://h/x/init.mp4",
        ]
    );
}

#[test]
fn a_representation_takes_its_own_template_first() {
    let text = "<MPD><Period><AdaptationSet>\
        <SegmentTemplate initialization=\"set.mp4\"/>\
        <Representation id=\"a\"><SegmentTemplate initialization=\"own.mp4\"/></Representation>\
        <Representation id=\"b\"/>\
        <Representation><SegmentTemplate initialization=\"nameless.mp4\"/></Representation>\
        </AdaptationSet></Period></MPD>";
    let tasks = plan(text);
    let urls: Vec<&str> = tasks.iter().map(fetch_of).collect();
    assert_eq!(urls, ["https://h/x/own.mp4", "https://h/x/set.mp4"]);
}

#[test]
fn a_base_url_that_names_a_file_is_mirrored_too() {
    let text = "<MPD mediaPresentationDuration=\"PT4S\"><Period><AdaptationSet>\
        <SegmentTemplate duration=\"2\" media=\"s$Number$.m4s\"/>\
        <Representation id=\"t\"><BaseURL>subs/eng.vtt \n</BaseURL></Representation>\
        <Representation id=\"u\"><BaseURL>dir/ </BaseURL></Representation>\
        </AdaptationSet></Period></MPD>";
    let tasks = plan(text);
    assert_eq!(tasks.len(), 3);
    assert_eq!(segments_of(&tasks[0]), ("https://h/x/subs/eng.vtt", "s$Number$.m4s", 1, 2));
    assert_eq!(fetch_of(&tasks[1]), "https://h/x/subs/eng.vtt");
    assert_eq!(segments_of(&tasks[2]), ("https://h/x/dir/", "s$Number$.m4s", 1, 2));
}

#[test]
fn a_file_is_mirrored_for_a_representation_without_id() {
    let text = "<MPD><Period><AdaptationSet>\
        <SegmentTemplate initialization=\"init.mp4\" endNumber=\"2\" media=\"s$Number$.m4s\"/>\
        <Representation><BaseURL>subs.vtt</BaseURL></Representation>\
        <Representation><BaseURL>dir/</BaseURL></Representation>\
        <Representation id=\"a\"><BaseURL>a.vtt</BaseURL>\
        <SegmentTemplate initialization=\"a.mp4\"/></Representation>\
        </AdaptationSet></Period></MPD>";
    let tasks = plan(text);
    let urls: Vec<&str> = tasks.iter().map(fetch_of).collect();
    assert_eq!(urls, ["https://h/x/subs.vtt", "https://h/x/a.mp4", "https://h/x/a.vtt"]);
}

#[test]
fn numbers_come_from_the_template() {
    let text = "<MPD mediaPresentationDuration=\"PT10S\"><Period><AdaptationSet>\
        <Representation id=\"a\"><SegmentTemplate timescale=\"1000\" duration=\"2000\" \
        media=\"a$Number$\"/></Representation>\
        <Representation id=\"b\"><SegmentTemplate startNumber=\"5\" endNumber=\"7\" \
        media=\"b$Number$\"/></Representation>\
        <Representation id=\"c\"><SegmentTemplate startNumber=\"0\" duration=\"3\" \
        media=\"c$Number$\"/></Representation>\
        <Representation id=\"d\"><SegmentTemplate startNumber=\"9\" endNumber=\"8\" \
        media=\"d$Number$\"/></Representation>\
        <Representation id=\"e\"><SegmentTemplate duration=\"2\" media=\"\"/></Representation>\
        <Representation id=\"f\"><SegmentTemplate timescale=\"x\" startNumber=\"-1\" \
        duration=\"5\" media=\"f$Number$\"/></Representation>\
        </AdaptationSet></Period></MPD>";
    let tasks = plan(text);
    assert_eq!(tasks.len(), 4);
    assert_eq!(segments_of(&tasks[0]), ("https://h/x/manifest.mpd", "a$Number$", 1, 5));
    assert_eq!(segments_of(&tasks[1]), ("https://h/x/manifest.mpd", "b$Number$", 5, 7));
    assert_eq!(segments_of(&tasks[2]), ("https://h/x/manifest.mpd", "c$Number$", 0, 3));
    assert_eq!(segments_of(&tasks[3]), ("https://h/x/manifest.mpd", "f$Number$", 1, 2));
}

#[test]
fn segments_without_numbers_are_left_out() {
    let text = "<MPD mediaPresentationDuration=\"3M30S\"><Period><AdaptationSet>\
        <SegmentTemplate timescale=\"1\" duration=\"10\" initialization=\"init.mp4\" \
        media=\"seg-$Number$.m4s\"/>\
        <Representation id=\"v1\"/><Representation id=\"v2\"/></AdaptationSet></Period></MPD>";
    let tasks = plan(text);
    assert_eq!(tasks.len(), 4);
    assert_eq!(fetch_of(&tasks[0]), "https://h/x/init.mp4");
    assert!(matches!(&tasks[1], Task::Unnumbered { representation } if representation == "v1"));
    assert_eq!(fetch_of(&tasks[2]), "https://h/x/init.mp4");
    assert!(matches!(&tasks[3], Task::Unnumbered { representation } if representation == "v2"));
}

#[test]
fn a_reference_that_does_not_resolve_ends_the_plan() {
    let text = "<MPD><Period><AdaptationSet>\
        <Representation id=\"a\"><SegmentTemplate initialization=\"a.mp4\"/></Representation>\
        <Representation id=\"b\"><BaseURL>https://[::1</BaseURL>\
        <SegmentTemplate initialization=\"b.mp4\"/></Representation>\
        <Representation id=\"c\"><SegmentTemplate initialization=\"c.mp4\"/></Representation>\
        </AdaptationSet></Period><Period><AdaptationSet><Representation id=\"d\">\
        <SegmentTemplate initialization=\"d.mp4\"/></Representation></AdaptationSet></Period></MPD>";
    let tasks = plan(text);
    assert_eq!(tasks.len(), 2);
    assert_eq!(fetch_of(&tasks[0]), "https://h/x/a.mp4");
    match &tasks[1] {
        Task::Abort(MirrorError::Unresolvable { reference, base }) => {
            assert_eq!(reference, "https://[::1");
            assert_eq!(base, "https://h/x/manifest.mpd");
        }
        _ => panic!("expected an abort"),
    }
}

#[test]
fn a_document_with_another_root_is_no_manifest() {
    let nodes = parse_xml("<html><Period/></html>").unwrap();
    assert!(plan_manifest(&nodes, &manifest_url()).is_none());
    let nodes = parse_xml("<mpd/>").unwrap();
    assert!(plan_manifest(&nodes, &manifest_url()).is_none());
    assert!(plan_manifest(&Vec::new(), &manifest_url()).is_none());
    let nodes = parse_xml("<!--c--><MPD/>").unwrap();
    assert!(plan_manifest(&nodes, &manifest_url()).unwrap().is_empty());
}

#[test]
fn a_template_alone_is_expanded() {
    let nodes = parse_xml("<SegmentTemplate duration=\"4\" media=\"$RepresentationID$_$Number$\"/>")
        .unwrap();
    let st = root_element(&nodes).unwrap();
    let base = ResourceUrl::parse("https://h/v/").unwrap();
    let total = Some(Duration { ticks: 90, scale: 1 });
    let tasks = handle_segment_template(&nodes, st, &base, "r", total);
    assert_eq!(tasks.len(), 1);
    assert_eq!(segments_of(&tasks[0]), ("https://h/v/", "r_$Number$", 1, 3));
    let tasks = handle_segment_template(&nodes, st, &base, "r", None);
    assert!(matches!(&tasks[0], Task::Unnumbered { representation } if representation == "r"));
}
