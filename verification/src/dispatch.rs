//! The action dispatcher: runs one of the three actions against a parsed
//! file and its text, and pins each result to the model — the span a check
//! reports, or the exact replacement text a fix or a strip produces.

use vstd::prelude::*;

use crate::parse::parse_forest;
use crate::parse::parse_of;
use crate::editor::SegmentedList;
use crate::editor::opt_views_of;
use crate::editor::spec_segments;
use crate::text::spec_join;
use crate::text::spec_split;
use crate::text::split_lines;
use crate::text::views_of;
use crate::tree::Action;
use crate::tree::FnNode;
use crate::tree::Options;
use crate::walk::apply_fix_edits;
use crate::walk::apply_strip_ranges;
use crate::walk::check;
use crate::walk::fix_edits;
use crate::walk::spec_apply_edits;
use crate::walk::spec_apply_ranges;
use crate::walk::spec_check;
use crate::walk::spec_fix_edits;
use crate::walk::spec_strip_ranges;
use crate::walk::strip_ranges;

verus! {

/// What a check reports.
#[derive(Clone, Copy, PartialEq, Eq, Structural, Debug)]
pub enum CheckOutcome {
    /// Every function is instrumented, skipped, or exempt.
    NoIssue,
    /// The first function missing its annotation starts here: 1-based line,
    /// 0-based column.
    MissingAt { line: usize, column: usize },
}

/// What running one action yields.
#[derive(Debug)]
pub enum ProcessOutput {
    /// A check's report; a check never edits.
    Checked(CheckOutcome),
    /// The complete replacement text a fix or a strip produced.
    Edited(String),
}

/// The failures of the core.
#[derive(Debug)]
pub enum CoreError {
    /// The source is not syntactically valid; carries the parser's own
    /// diagnostic text.
    Parse(String),
    /// Two fix insertions landed on the same slot — an internal
    /// inconsistency, reported loudly rather than resolved silently.
    EditConflict,
}

/// One action's result at the level of the model.
pub enum SpecOutcome {
    /// A check found nothing missing.
    NoIssue,
    /// A check found the first missing annotation here.
    Missing { line: usize, column: usize },
    /// A fix or a strip produced this replacement text.
    Edited(Seq<char>),
    /// The source could not be parsed.
    ParseFailure,
    /// A fix wrote one slot twice.
    Conflict,
}

/// The empty insertion slots for `n` lines: one before each line and one
/// after the last.
pub open spec fn spec_empty_slots(n: nat) -> Seq<Option<Seq<char>>> {
    Seq::new(n + 1, |i: int| None)
}

/// The removal flags for `n` untouched lines.
pub open spec fn spec_no_removals(n: nat) -> Seq<bool> {
    Seq::new(n, |i: int| false)
}

/// The filled slots a fix produces over the text's lines, or `None` on an
/// insertion conflict.
pub open spec fn spec_fix_slots(roots: Seq<FnNode>, text: Seq<char>, opts: Options) -> Option<
    Seq<Option<Seq<char>>>,
> {
    spec_apply_edits(
        spec_empty_slots(spec_split(text).len()),
        spec_fix_edits(roots, opts),
        0,
    )
}

/// The replacement text a fix produces, or `None` on an insertion conflict:
/// every collected insertion written into the empty plan over the text's
/// lines, then serialized.
pub open spec fn spec_fix_result(roots: Seq<FnNode>, text: Seq<char>, opts: Options) -> Option<
    Seq<char>,
> {
    let lines = spec_split(text);
    match spec_fix_slots(roots, text, opts) {
        Option::Some(slots) => Some(
            spec_join(spec_segments(lines, slots, spec_no_removals(lines.len()))),
        ),
        Option::None => None,
    }
}

/// The removal flags a strip computes over the text's lines: one flag per
/// line, set where some found annotation's span covers the line.
pub open spec fn spec_strip_flags(roots: Seq<FnNode>, text: Seq<char>, opts: Options) -> Seq<
    bool,
> {
    spec_apply_ranges(
        spec_no_removals(spec_split(text).len()),
        spec_strip_ranges(roots, opts),
        0,
    )
}

/// The replacement text a strip produces: every collected removal marked in
/// the plan over the text's lines, then serialized.
pub open spec fn spec_strip_result(roots: Seq<FnNode>, text: Seq<char>, opts: Options) -> Seq<
    char,
> {
    let lines = spec_split(text);
    spec_join(
        spec_segments(
            lines,
            spec_empty_slots(lines.len()),
            spec_strip_flags(roots, text, opts),
        ),
    )
}

/// What one action yields on a parsed file.
pub open spec fn spec_process(
    action: Action,
    roots: Seq<FnNode>,
    text: Seq<char>,
    opts: Options,
) -> SpecOutcome {
    match action {
        Action::Check => match spec_check(roots, opts) {
            Option::Some(sp) => SpecOutcome::Missing {
                line: sp.start_line,
                column: sp.start_col,
            },
            Option::None => SpecOutcome::NoIssue,
        },
        Action::Fix => match spec_fix_result(roots, text, opts) {
            Option::Some(t) => SpecOutcome::Edited(t),
            Option::None => SpecOutcome::Conflict,
        },
        Action::Strip => SpecOutcome::Edited(spec_strip_result(roots, text, opts)),
    }
}

/// Holds when the executable result is the one the model names.
pub open spec fn result_matches(r: Result<ProcessOutput, CoreError>, m: SpecOutcome) -> bool {
    match m {
        SpecOutcome::NoIssue => r matches Ok(ProcessOutput::Checked(CheckOutcome::NoIssue)),
        SpecOutcome::Missing { line, column } => r matches Ok(
            ProcessOutput::Checked(CheckOutcome::MissingAt { line: l, column: c }),
        ) && l == line && c == column,
        SpecOutcome::Edited(t) => r matches Ok(ProcessOutput::Edited(s)) && s@ == t,
        SpecOutcome::ParseFailure => r matches Err(CoreError::Parse(_)),
        SpecOutcome::Conflict => r matches Err(CoreError::EditConflict),
    }
}

/// Runs one action against an already parsed file and the text it was parsed
/// from; a pure function of its arguments, no filesystem in sight.
pub fn process_parsed(action: Action, roots: &Vec<FnNode>, text: &str, opts: &Options) -> (r:
    Result<ProcessOutput, CoreError>)
    ensures
        result_matches(r, spec_process(action, roots@, text@, *opts)),
{
    match action {
        Action::Check => {
            match check(roots, opts) {
                Option::Some(sp) => Ok(
                    ProcessOutput::Checked(
                        CheckOutcome::MissingAt { line: sp.start_line, column: sp.start_col },
                    ),
                ),
                Option::None => Ok(ProcessOutput::Checked(CheckOutcome::NoIssue)),
            }
        },
        Action::Fix => {
            let lines = split_lines(text);
            let ghost lv = views_of(lines@);
            let mut list = SegmentedList::new(lines);
            proof {
                assert(opt_views_of(list.slots@) =~= spec_empty_slots(lv.len()));
                assert(list.removed@ =~= spec_no_removals(lv.len()));
            }
            let edits = fix_edits(roots, opts);
            let conflict_free = apply_fix_edits(&mut list, &edits);
            if conflict_free {
                let out = list.into_text();
                Ok(ProcessOutput::Edited(out))
            } else {
                Err(CoreError::EditConflict)
            }
        },
        Action::Strip => {
            let lines = split_lines(text);
            let ghost lv = views_of(lines@);
            let mut list = SegmentedList::new(lines);
            proof {
                assert(opt_views_of(list.slots@) =~= spec_empty_slots(lv.len()));
                assert(list.removed@ =~= spec_no_removals(lv.len()));
            }
            let ranges = strip_ranges(roots, opts);
            apply_strip_ranges(&mut list, &ranges);
            let out = list.into_text();
            Ok(ProcessOutput::Edited(out))
        },
    }
}

/// What one action yields on raw text: the parse's forest put through the
/// model, or a parse failure. A function of the action, the text, and the
/// configured names alone — two runs over the same arguments agree.
pub open spec fn spec_process_text(action: Action, text: Seq<char>, opts: Options) -> SpecOutcome {
    match parse_of(text) {
        Option::Some(roots) => spec_process(action, roots, text, opts),
        Option::None => SpecOutcome::ParseFailure,
    }
}

/// Runs one action against raw source text: parses it, then checks, fixes,
/// or strips; parse failures carry the parser's diagnostic and apply no
/// partial edit.
pub fn process(action: Action, text: &str, opts: &Options) -> (r: Result<
    ProcessOutput,
    CoreError,
>)
    ensures
        result_matches(r, spec_process_text(action, text@, *opts)),
{
    match parse_forest(text) {
        Ok(roots) => process_parsed(action, &roots, text, opts),
        Err(msg) => Err(CoreError::Parse(msg)),
    }
}

} // verus!
