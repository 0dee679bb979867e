use momotaro::ingest::title::first_h1_from_events;
use momotaro::ingest::markdown::MdEvent;
use momotaro::ingest::title::derive_title;

#[test]
fn extracts_first_h1_text() {
    let doc = "intro para\n\n# Real Title\n\nbody\n\n# Second\n";
    assert_eq!(derive_title(doc, "a/b.md"), "Real Title");
}

#[test]
fn h1_with_inline_markup() {
    let doc = "# Ta *gore* 楽\n";
    assert_eq!(derive_title(doc, "x.md"), "Ta gore 楽");
}

#[test]
fn falls_back_to_file_stem() {
    assert_eq!(derive_title("no heading here\n", "notes/ml/decay.md"), "decay");
    assert_eq!(derive_title("", "plain"), "plain");
}

#[test]
fn falls_back_to_file_stem_for_prefixed_keys() {
    assert_eq!(derive_title("no heading\n", "note:fourier.md"), "fourier");
    assert_eq!(derive_title("no heading\n", "note:ml/decay.md"), "decay");
}

#[test]
fn falls_back_to_file_stem_for_uppercase_extension() {
    assert_eq!(derive_title("no heading\n", "note:Notes/Inner.MD"), "Inner");
}

#[test]
fn file_stem_handles_short_and_multibyte_names() {
    assert_eq!(derive_title("", "note:a"), "a");
    assert_eq!(derive_title("", "note:ab"), "ab");
    assert_eq!(derive_title("", "note:\u{65e5}"), "\u{65e5}");
    assert_eq!(derive_title("", "note:\u{1f600}"), "\u{1f600}");
    assert_eq!(derive_title("", "note:\u{65e5}.md"), "\u{65e5}");
    assert_eq!(derive_title("", "note:.MD"), "");
}

#[test]
fn empty_h1_falls_back() {
    assert_eq!(derive_title("#\n\ntext\n", "doc.md"), "doc");
}

#[test]
fn a_level_two_heading_is_not_a_title() {
    assert_eq!(derive_title("## Section\n\nbody\n", "note:sec.md"), "sec");
}

#[test]
fn the_first_level_one_heading_of_an_event_stream_is_the_title() {
    let events = vec![
        MdEvent::HeadingStart(2),
        MdEvent::Text("Sub".to_owned()),
        MdEvent::HeadingEnd(2),
        MdEvent::HeadingStart(1),
        MdEvent::Text("  Title ".to_owned()),
        MdEvent::HeadingEnd(1),
    ];
    assert_eq!(first_h1_from_events(&events).as_deref(), Some("Title"));
    let blank_first = vec![
        MdEvent::HeadingStart(1),
        MdEvent::Text(" ".to_owned()),
        MdEvent::HeadingEnd(1),
        MdEvent::HeadingStart(1),
        MdEvent::Text("B".to_owned()),
        MdEvent::HeadingEnd(1),
    ];
    assert_eq!(first_h1_from_events(&blank_first), None);
}
