//! Direct exercises of the classifier, the signature analyzer, the renderer,
//! the line editor, and the splitting and joining of text.

use clippy_tracing::Attr;
use clippy_tracing::AttrKind;
use clippy_tracing::FieldBinding;
use clippy_tracing::Options;
use clippy_tracing::Param;
use clippy_tracing::SegmentedList;
use clippy_tracing::Span;
use clippy_tracing::classify::check_attributes;
use clippy_tracing::classify::find_instrumented;
use clippy_tracing::signature::exclusions;
use clippy_tracing::signature::instrument;
use clippy_tracing::text::join_lines;
use clippy_tracing::text::split_lines;

fn attr(kind: AttrKind, name: &str, line: usize) -> Attr {
    Attr {
        kind,
        name: name.to_owned(),
        span: Span { start_line: line, start_col: 0, end_line: line, end_col: 10 },
    }
}

#[test]
fn classifier_flags_are_independent() {
    let opts = Options::standard();
    let attrs = vec![
        attr(AttrKind::Call, "instrument", 1),
        attr(AttrKind::Bare, "test", 2),
        attr(AttrKind::Bare, "clippy_tracing_skip", 3),
    ];
    let st = check_attributes(&attrs, &opts);
    assert!(st.instrumented);
    assert!(st.skipped);
    assert!(st.exempt);
    assert_eq!(st.found.map(|sp| sp.start_line), Some(1));
}

#[test]
fn classifier_name_value_never_counts() {
    let opts = Options::standard();
    let attrs = vec![attr(AttrKind::NameValue, "instrument", 1)];
    let st = check_attributes(&attrs, &opts);
    assert!(!st.instrumented);
    assert!(st.found.is_none());
}

#[test]
fn classifier_exempt_requires_bare_marker() {
    let opts = Options::standard();
    let st = check_attributes(&vec![attr(AttrKind::Call, "test", 1)], &opts);
    assert!(!st.exempt);
    let st = check_attributes(&vec![attr(AttrKind::Bare, "proof", 1)], &opts);
    assert!(st.exempt);
}

#[test]
fn find_instrumented_takes_first_match() {
    let name = "instrument".to_owned();
    let attrs = vec![
        attr(AttrKind::Bare, "inline", 1),
        attr(AttrKind::Call, "instrument", 2),
        attr(AttrKind::Bare, "instrument", 3),
    ];
    assert_eq!(find_instrumented(&attrs, &name).map(|sp| sp.start_line), Some(2));
    assert_eq!(find_instrumented(&vec![attr(AttrKind::Bare, "inline", 1)], &name), None);
}

#[test]
fn exclusions_in_declared_order_without_dedup() {
    let params = vec![
        Param::Receiver,
        Param::Named("x".to_owned()),
        Param::Fields(vec![
            FieldBinding::Named("a".to_owned()),
            FieldBinding::Unnamed,
            FieldBinding::Named("x".to_owned()),
        ]),
        Param::Other,
    ];
    let names = exclusions(&params);
    assert_eq!(names, vec!["self", "x", "a", "x"]);
}

#[test]
fn instrument_renders_head_list_tail() {
    let opts = Options::standard();
    let none: Vec<Param> = Vec::new();
    assert_eq!(instrument(&none, &opts), "#[tracing::instrument(level = \"trace\", skip())]");
    let two = vec![Param::Named("lhs".to_owned()), Param::Named("rhs".to_owned())];
    assert_eq!(
        instrument(&two, &opts),
        "#[tracing::instrument(level = \"trace\", skip(lhs, rhs))]"
    );
}

#[test]
fn options_with_prefix_renders_prefix() {
    let opts = Options::with_prefix("log::");
    let one = vec![Param::Named("n".to_owned())];
    assert_eq!(instrument(&one, &opts), "#[log::instrument(level = \"trace\", skip(n))]");
    assert_eq!(opts.marker, "instrument");
}

#[test]
fn split_then_join_is_identity() {
    for text in ["", "a", "a\nb", "a\n", "\n", "one\n\nthree\n", "x\ny\nz"] {
        let lines = split_lines(text);
        assert_eq!(join_lines(&lines), text);
    }
}

#[test]
fn split_counts_segments() {
    assert_eq!(split_lines(""), vec![""]);
    assert_eq!(split_lines("a\nb"), vec!["a", "b"]);
    assert_eq!(split_lines("a\n"), vec!["a", ""]);
    assert_eq!(split_lines("\n\n"), vec!["", "", ""]);
}

fn list_of(text: &str) -> SegmentedList {
    SegmentedList::new(split_lines(text))
}

#[test]
fn set_before_writes_each_slot_once() {
    let mut list = list_of("a\nb");
    assert!(list.set_before(1, "X".to_owned()));
    assert!(!list.set_before(1, "Y".to_owned()));
    assert_eq!(list.into_text(), "a\nX\nb");
}

#[test]
fn set_before_out_of_range_is_no_op() {
    let mut list = list_of("a\nb");
    assert!(!list.set_before(3, "X".to_owned()));
    assert_eq!(list.into_text(), "a\nb");
}

#[test]
fn set_before_first_and_last_slots() {
    let mut list = list_of("a\nb");
    assert!(list.set_before(0, "top".to_owned()));
    assert!(list.set_before(2, "bottom".to_owned()));
    assert_eq!(list.into_text(), "top\na\nb\nbottom");
}

#[test]
fn insert_before_appends_to_slot() {
    let mut list = list_of("a\nb");
    list.insert_before(1, "X");
    list.insert_before(1, "Y");
    assert_eq!(list.into_text(), "a\nXY\nb");
}

#[test]
fn remove_lines_by_original_numbering() {
    let mut list = list_of("a\nb\nc\nd");
    list.remove_lines(1, 2);
    assert_eq!(list.into_text(), "a\nd");
    let mut list = list_of("a\nb");
    list.remove_lines(1, 9);
    assert_eq!(list.into_text(), "a");
}

#[test]
fn removals_do_not_shift_slots() {
    let mut list = list_of("a\nb\nc");
    list.remove_lines(0, 0);
    assert!(list.set_before(2, "X".to_owned()));
    assert_eq!(list.into_text(), "b\nX\nc");
}
