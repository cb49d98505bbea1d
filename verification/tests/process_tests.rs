//! End-to-end runs of the three actions over real parses.

use clippy_tracing::Action;
use clippy_tracing::CheckOutcome;
use clippy_tracing::CoreError;
use clippy_tracing::Options;
use clippy_tracing::ProcessOutput;
use clippy_tracing::process;

fn check_at(text: &str) -> CheckOutcome {
    match process(Action::Check, text, &Options::standard()) {
        Ok(ProcessOutput::Checked(outcome)) => outcome,
        other => panic!("check did not report: {:?}", other),
    }
}

fn fix_text(text: &str, opts: &Options) -> String {
    match process(Action::Fix, text, opts) {
        Ok(ProcessOutput::Edited(out)) => out,
        other => panic!("fix did not edit: {:?}", other),
    }
}

fn strip_text(text: &str) -> String {
    match process(Action::Strip, text, &Options::standard()) {
        Ok(ProcessOutput::Edited(out)) => out,
        other => panic!("strip did not edit: {:?}", other),
    }
}

#[test]
fn check_one() {
    assert_eq!(check_at("fn main() { }"), CheckOutcome::MissingAt { line: 1, column: 0 });
}

#[test]
fn check_two() {
    let given = "#[tracing::instrument(level = \"trace\", skip())]\nfn main() { }\n#[test]\nfn my_test() { }";
    assert_eq!(check_at(given), CheckOutcome::NoIssue);
}

#[test]
fn check_three() {
    let given = "impl One {\n    fn one() { }\n}";
    assert_eq!(check_at(given), CheckOutcome::MissingAt { line: 2, column: 4 });
}

#[test]
fn fix_one() {
    let given = "fn main() { }\nfn add(lhs: i32, rhs: i32) {\n    lhs + rhs\n}";
    let expected = "#[tracing::instrument(level = \"trace\", skip())]\nfn main() { }\n#[tracing::instrument(level = \"trace\", skip(lhs, rhs))]\nfn add(lhs: i32, rhs: i32) {\n    lhs + rhs\n}";
    assert_eq!(fix_text(given, &Options::standard()), expected);
}

#[test]
fn fix_two() {
    let given = "impl Unit {\n    fn one() {}\n}";
    let expected =
        "impl Unit {\n    #[tracing::instrument(level = \"trace\", skip())]\n    fn one() {}\n}";
    assert_eq!(fix_text(given, &Options::standard()), expected);
}

#[test]
fn strip_one() {
    let given = "#[tracing::instrument(level = \"trace\", skip())]\nfn main() { }";
    assert_eq!(strip_text(given), "fn main() { }");
}

#[test]
fn strip_two() {
    let given = "#[tracing::instrument(    \nlevel = \"trace\",\n    skip()\n)]\nfn main() { }";
    assert_eq!(strip_text(given), "fn main() { }");
}

#[test]
fn strip_three() {
    let given =
        "impl Unit {\n    #[tracing::instrument(level = \"trace\", skip())]\n    fn one() {}\n}";
    assert_eq!(strip_text(given), "impl Unit {\n    fn one() {}\n}");
}

const README_GIVEN: &str = r#"fn main() {
    println!("Hello World!");
}
fn add(lhs: i32, rhs: i32) -> i32 {
    lhs + rhs
}
#[cfg(tests)]
mod tests {
    fn sub(lhs: i32, rhs: i32) -> i32 {
        lhs - rhs
    }
    #[test]
    fn test_one() {
        assert_eq!(add(1,1), sub(2, 1));
    }
}"#;

#[test]
fn readme() {
    let expected = r#"#[tracing::instrument(level = "trace", skip())]
fn main() {
    println!("Hello World!");
}
#[tracing::instrument(level = "trace", skip(lhs, rhs))]
fn add(lhs: i32, rhs: i32) -> i32 {
    lhs + rhs
}
#[cfg(tests)]
mod tests {
    #[tracing::instrument(level = "trace", skip(lhs, rhs))]
    fn sub(lhs: i32, rhs: i32) -> i32 {
        lhs - rhs
    }
    #[test]
    fn test_one() {
        assert_eq!(add(1,1), sub(2, 1));
    }
}"#;
    // The first missing function in depth-first declaration order is `main`.
    assert_eq!(check_at(README_GIVEN), CheckOutcome::MissingAt { line: 1, column: 0 });
    let fixed = fix_text(README_GIVEN, &Options::standard());
    assert_eq!(fixed, expected);
    assert_eq!(check_at(&fixed), CheckOutcome::NoIssue);
    assert_eq!(strip_text(&fixed), README_GIVEN);
}

#[test]
fn readme_empty_suffix() {
    let expected = r#"#[instrument(level = "trace", skip())]
fn main() {
    println!("Hello World!");
}
#[instrument(level = "trace", skip(lhs, rhs))]
fn add(lhs: i32, rhs: i32) -> i32 {
    lhs + rhs
}
#[cfg(tests)]
mod tests {
    #[instrument(level = "trace", skip(lhs, rhs))]
    fn sub(lhs: i32, rhs: i32) -> i32 {
        lhs - rhs
    }
    #[test]
    fn test_one() {
        assert_eq!(add(1,1), sub(2, 1));
    }
}"#;
    let fixed = fix_text(README_GIVEN, &Options::with_prefix(""));
    assert_eq!(fixed, expected);
    assert_eq!(check_at(&fixed), CheckOutcome::NoIssue);
    assert_eq!(strip_text(&fixed), README_GIVEN);
}

#[test]
fn readme_custom_suffix() {
    let expected = r#"#[my::custom::suffix::instrument(level = "trace", skip())]
fn main() {
    println!("Hello World!");
}
#[my::custom::suffix::instrument(level = "trace", skip(lhs, rhs))]
fn add(lhs: i32, rhs: i32) -> i32 {
    lhs + rhs
}
#[cfg(tests)]
mod tests {
    #[my::custom::suffix::instrument(level = "trace", skip(lhs, rhs))]
    fn sub(lhs: i32, rhs: i32) -> i32 {
        lhs - rhs
    }
    #[test]
    fn test_one() {
        assert_eq!(add(1,1), sub(2, 1));
    }
}"#;
    let fixed = fix_text(README_GIVEN, &Options::with_prefix("my::custom::suffix::"));
    assert_eq!(fixed, expected);
    assert_eq!(check_at(&fixed), CheckOutcome::NoIssue);
    assert_eq!(strip_text(&fixed), README_GIVEN);
}

#[test]
fn skipped_and_exempt_functions_untouched() {
    let given = "#[clippy_tracing_skip]\nfn a() {}\n#[test]\nfn b() {}\n#[kani::proof]\nfn c() {}";
    assert_eq!(check_at(given), CheckOutcome::NoIssue);
    assert_eq!(fix_text(given, &Options::standard()), given);
}

#[test]
fn skip_marker_call_style_untouched() {
    let given = "#[clippy_tracing_skip(reason)]\nfn a() {}";
    assert_eq!(check_at(given), CheckOutcome::NoIssue);
    assert_eq!(fix_text(given, &Options::standard()), given);
}

#[test]
fn const_function_exempt() {
    let given = "const fn seven() -> u32 { 7 }";
    assert_eq!(check_at(given), CheckOutcome::NoIssue);
    assert_eq!(fix_text(given, &Options::standard()), given);
}

#[test]
fn destructured_parameter_names() {
    let given = "fn go(Point { x, y }: Point, _unused: i32, (a, b): (i32, i32)) {}";
    let expected = "#[tracing::instrument(level = \"trace\", skip(x, y, _unused))]\nfn go(Point { x, y }: Point, _unused: i32, (a, b): (i32, i32)) {}";
    assert_eq!(fix_text(given, &Options::standard()), expected);
}

#[test]
fn receiver_parameter_named_self() {
    let given = "impl T {\n    fn m(&mut self, n: u8) {}\n}";
    let expected = "impl T {\n    #[tracing::instrument(level = \"trace\", skip(self, n))]\n    fn m(&mut self, n: u8) {}\n}";
    assert_eq!(fix_text(given, &Options::standard()), expected);
}

#[test]
fn nested_function_found() {
    let given = "#[tracing::instrument(level = \"trace\", skip())]\nfn outer() {\n    fn inner() {}\n}";
    assert_eq!(check_at(given), CheckOutcome::MissingAt { line: 3, column: 4 });
}

#[test]
fn eligible_function_body_not_searched() {
    // `outer` itself is eligible, so the check reports it rather than `inner`.
    let given = "fn outer() {\n    fn inner() {}\n}";
    assert_eq!(check_at(given), CheckOutcome::MissingAt { line: 1, column: 0 });
}

#[test]
fn parse_failure_reported() {
    match process(Action::Check, "fn (", &Options::standard()) {
        Err(CoreError::Parse(msg)) => assert!(!msg.is_empty()),
        other => panic!("malformed input did not fail the parse: {:?}", other),
    }
}

#[test]
fn two_functions_on_one_line_conflict() {
    let given = "fn a() {} fn b() {}";
    match process(Action::Fix, given, &Options::standard()) {
        Err(CoreError::EditConflict) => {},
        other => panic!("expected an insertion conflict: {:?}", other),
    }
}

#[test]
fn fix_idempotent() {
    for given in [
        README_GIVEN,
        "fn main() { }",
        "impl Unit {\n    fn one() {}\n}",
        "fn outer() {\n    fn inner() {}\n}\n",
    ] {
        let once = fix_text(given, &Options::standard());
        let twice = fix_text(&once, &Options::standard());
        assert_eq!(once, twice);
    }
}

#[test]
fn strip_inverts_fix() {
    for given in [
        README_GIVEN,
        "fn main() { }",
        "impl Unit {\n    fn one() {}\n}",
        "fn outer() {\n    fn inner() {}\n}\n",
        "",
        "// only a comment\n",
    ] {
        let fixed = fix_text(given, &Options::standard());
        assert_eq!(strip_text(&fixed), given);
    }
}

#[test]
fn check_clean_iff_fix_unchanged() {
    for given in [
        README_GIVEN,
        "fn main() { }",
        "#[tracing::instrument(level = \"trace\", skip())]\nfn main() { }",
        "#[test]\nfn t() {}",
        "",
    ] {
        let clean = check_at(given) == CheckOutcome::NoIssue;
        let unchanged = fix_text(given, &Options::standard()) == given;
        assert_eq!(clean, unchanged);
    }
}

#[test]
fn same_input_same_output() {
    for _round in 0..2 {
        assert_eq!(fix_text(README_GIVEN, &Options::standard()),
                   fix_text(README_GIVEN, &Options::standard()));
        assert_eq!(strip_text(README_GIVEN), strip_text(README_GIVEN));
        assert_eq!(check_at(README_GIVEN), check_at(README_GIVEN));
    }
}

#[test]
fn strip_without_annotations_unchanged() {
    for given in ["fn main() { }", README_GIVEN, "", "struct S;\n"] {
        assert_eq!(strip_text(given), given);
    }
}

#[test]
fn strip_removes_shared_line_whole() {
    // The annotation's span covers whole physical lines, so a line it shares
    // with other text disappears with it.
    let given = "#[tracing::instrument] fn main() { }";
    assert_eq!(strip_text(given), "");
}

#[test]
fn empty_text_no_issue() {
    assert_eq!(check_at(""), CheckOutcome::NoIssue);
    assert_eq!(fix_text("", &Options::standard()), "");
    assert_eq!(strip_text(""), "");
}

#[test]
fn trailing_newline_kept() {
    let given = "fn main() { }\n";
    let expected = "#[tracing::instrument(level = \"trace\", skip())]\nfn main() { }\n";
    assert_eq!(fix_text(given, &Options::standard()), expected);
    assert_eq!(strip_text(&expected), given);
}

#[test]
fn strip_leaves_other_attributes() {
    let given = "#[inline]\n#[tracing::instrument(level = \"trace\", skip())]\nfn f() {}";
    assert_eq!(strip_text(given), "#[inline]\nfn f() {}");
}

#[test]
fn fix_inserts_before_existing_attribute() {
    let given = "#[inline]\nfn f() {}";
    let expected = "#[tracing::instrument(level = \"trace\", skip())]\n#[inline]\nfn f() {}";
    assert_eq!(fix_text(given, &Options::standard()), expected);
}

#[test]
fn strip_only_first_marker_of_one_function() {
    let given = "#[tracing::instrument]\n#[other::instrument]\nfn f() {}";
    assert_eq!(strip_text(given), "#[other::instrument]\nfn f() {}");
}
