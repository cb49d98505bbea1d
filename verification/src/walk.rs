//! The tree walker: visits every function-like item depth first in
//! declaration order, and per action finds the first missing annotation,
//! collects the insertions a fix makes, or collects the line ranges a strip
//! removes, applying them to the editor afterwards.

use vstd::prelude::*;

use crate::classify::eligible;
use crate::classify::find_instrumented;
use crate::classify::spec_eligible;
use crate::classify::spec_find_instrumented;
use crate::editor::SegmentedList;
use crate::editor::opt_views_of;
use crate::editor::lemma_opt_views_of_update;
use crate::signature::instrument;
use crate::signature::spec_annotation;
use crate::text::spaces;
use crate::text::spec_spaces;
use crate::tree::FnNode;
use crate::tree::Options;
use crate::tree::Span;

verus! {

/// The 0-based line of a 1-based line number; a degenerate 0 stays 0.
pub open spec fn spec_zero_based(l: usize) -> int {
    if l == 0 {
        0
    } else {
        l - 1
    }
}

// ------------------------------------------------------------------ check

/// The span of the first eligible function in the subtree rooted at `n`:
/// the node itself, or else the first within its children; an eligible node's
/// body is not searched further.
pub open spec fn spec_check_node(n: FnNode, opts: Options) -> Option<Span>
    decreases n, 0int,
{
    if spec_eligible(n, opts) {
        Some(n.span)
    } else {
        spec_check_from(n.children@, opts, 0)
    }
}

/// The span of the first eligible function under the nodes from position `i`
/// on, in depth-first declaration order.
pub open spec fn spec_check_from(nodes: Seq<FnNode>, opts: Options, i: int) -> Option<Span>
    decreases nodes, nodes.len() - i,
{
    if i < 0 || i >= nodes.len() {
        None
    } else {
        match spec_check_node(nodes[i], opts) {
            Option::Some(sp) => Some(sp),
            Option::None => spec_check_from(nodes, opts, i + 1),
        }
    }
}

/// The span of the first eligible function of the whole file, if any.
pub open spec fn spec_check(roots: Seq<FnNode>, opts: Options) -> Option<Span> {
    spec_check_from(roots, opts, 0)
}

fn check_node(n: &FnNode, opts: &Options) -> (r: Option<Span>)
    ensures
        r == spec_check_node(*n, *opts),
    decreases *n, 0int,
{
    if eligible(n, opts) {
        Some(n.span)
    } else {
        check_from(&n.children, opts, 0)
    }
}

fn check_from(nodes: &Vec<FnNode>, opts: &Options, i: usize) -> (r: Option<Span>)
    ensures
        r == spec_check_from(nodes@, *opts, i as int),
    decreases nodes@, nodes@.len() - i,
{
    if i >= nodes.len() {
        None
    } else {
        match check_node(&nodes[i], opts) {
            Option::Some(sp) => Some(sp),
            Option::None => check_from(nodes, opts, i + 1),
        }
    }
}

/// The first missing annotation of the file, as a span, in depth-first
/// declaration order; an eligible function's own body is not searched.
pub fn check(roots: &Vec<FnNode>, opts: &Options) -> (r: Option<Span>)
    ensures
        r == spec_check(roots@, *opts),
{
    check_from(roots, opts, 0)
}

// ------------------------------------------------------------------ fix

/// One pending insertion: the text to write into the slot before the given
/// 0-based line.
pub struct FixEdit {
    pub slot: usize,
    pub text: String,
}

/// The slot-and-view pairs of collected edits.
pub open spec fn edits_view(edits: Seq<FixEdit>) -> Seq<(int, Seq<char>)> {
    edits.map_values(|e: FixEdit| (e.slot as int, e.text@))
}

/// The text a fix writes before an eligible node: the node's own column of
/// indentation, then the rendered annotation for its signature.
pub open spec fn spec_inserted_text(n: FnNode, opts: Options) -> Seq<char> {
    spec_spaces(n.span.start_col as int) + spec_annotation(n.params@, opts)
}

/// The insertions a fix makes in the subtree rooted at `n`, in depth-first
/// declaration order; unlike a check, a fix descends into every body.
pub open spec fn spec_fix_edits_node(n: FnNode, opts: Options) -> Seq<(int, Seq<char>)>
    decreases n, 0int,
{
    (if spec_eligible(n, opts) {
        seq![(spec_zero_based(n.span.start_line), spec_inserted_text(n, opts))]
    } else {
        Seq::<(int, Seq<char>)>::empty()
    }) + spec_fix_edits_from(n.children@, opts, 0)
}

/// The insertions a fix makes under the nodes from position `i` on.
pub open spec fn spec_fix_edits_from(nodes: Seq<FnNode>, opts: Options, i: int) -> Seq<
    (int, Seq<char>),
>
    decreases nodes, nodes.len() - i,
{
    if i < 0 || i >= nodes.len() {
        Seq::empty()
    } else {
        spec_fix_edits_node(nodes[i], opts) + spec_fix_edits_from(nodes, opts, i + 1)
    }
}

/// All insertions a fix makes on the file, in depth-first declaration order.
pub open spec fn spec_fix_edits(roots: Seq<FnNode>, opts: Options) -> Seq<(int, Seq<char>)> {
    spec_fix_edits_from(roots, opts, 0)
}

proof fn lemma_edits_view_push(edits: Seq<FixEdit>, e: FixEdit)
    ensures
        edits_view(edits.push(e)) == edits_view(edits).push((e.slot as int, e.text@)),
{
    assert(edits_view(edits.push(e)) =~= edits_view(edits).push((e.slot as int, e.text@)));
}

fn fix_edits_node(n: &FnNode, opts: &Options, out: &mut Vec<FixEdit>)
    ensures
        edits_view(final(out)@) == edits_view(old(out)@) + spec_fix_edits_node(*n, *opts),
    decreases *n, 0int,
{
    let ghost entry = edits_view(out@);
    if eligible(n, opts) {
        let mut text = spaces(n.span.start_col);
        let ann = instrument(&n.params, opts);
        text.append(ann.as_str());
        let slot: usize = if n.span.start_line == 0 {
            0
        } else {
            n.span.start_line - 1
        };
        let e = FixEdit { slot, text };
        proof {
            lemma_edits_view_push(out@, e);
            assert(entry.push((e.slot as int, e.text@)) =~= entry + seq![
                (spec_zero_based(n.span.start_line), spec_inserted_text(*n, *opts)),
            ]);
        }
        out.push(e);
    } else {
        proof {
            assert(entry + Seq::<(int, Seq<char>)>::empty() =~= entry);
        }
    }
    fix_edits_from(&n.children, opts, 0, out);
    proof {
        assert(edits_view(out@) =~= entry + spec_fix_edits_node(*n, *opts));
    }
}

fn fix_edits_from(nodes: &Vec<FnNode>, opts: &Options, i: usize, out: &mut Vec<FixEdit>)
    ensures
        edits_view(final(out)@) == edits_view(old(out)@) + spec_fix_edits_from(
            nodes@,
            *opts,
            i as int,
        ),
    decreases nodes@, nodes@.len() - i,
{
    let ghost entry = edits_view(out@);
    if i >= nodes.len() {
        proof {
            assert(entry + Seq::<(int, Seq<char>)>::empty() =~= entry);
        }
    } else {
        fix_edits_node(&nodes[i], opts, out);
        fix_edits_from(nodes, opts, i + 1, out);
        proof {
            assert(edits_view(out@) =~= entry + spec_fix_edits_from(nodes@, *opts, i as int));
        }
    }
}

/// All insertions a fix makes on the file, collected without touching it.
pub fn fix_edits(roots: &Vec<FnNode>, opts: &Options) -> (r: Vec<FixEdit>)
    ensures
        edits_view(r@) == spec_fix_edits(roots@, *opts),
{
    let mut out: Vec<FixEdit> = Vec::new();
    proof {
        assert(edits_view(out@) =~= Seq::<(int, Seq<char>)>::empty());
    }
    fix_edits_from(roots, opts, 0, &mut out);
    proof {
        assert(Seq::<(int, Seq<char>)>::empty() + spec_fix_edits(roots@, *opts)
            =~= spec_fix_edits(roots@, *opts));
    }
    out
}

// ------------------------------------------------------------------ strip

/// One pending removal: an inclusive range of 0-based lines.
pub struct StripRange {
    pub start: usize,
    pub end: usize,
}

/// The range pairs of collected removals.
pub open spec fn ranges_view(ranges: Seq<StripRange>) -> Seq<(int, int)> {
    ranges.map_values(|r: StripRange| (r.start as int, r.end as int))
}

/// The line ranges a strip removes in the subtree rooted at `n`: the whole
/// span of the first instrumentation attribute of each node that has one; a
/// strip descends into every body.
pub open spec fn spec_strip_ranges_node(n: FnNode, opts: Options) -> Seq<(int, int)>
    decreases n, 0int,
{
    (match spec_find_instrumented(n.attrs@, opts.marker@) {
        Option::Some(sp) => seq![(spec_zero_based(sp.start_line), spec_zero_based(sp.end_line))],
        Option::None => Seq::<(int, int)>::empty(),
    }) + spec_strip_ranges_from(n.children@, opts, 0)
}

/// The line ranges a strip removes under the nodes from position `i` on.
pub open spec fn spec_strip_ranges_from(nodes: Seq<FnNode>, opts: Options, i: int) -> Seq<
    (int, int),
>
    decreases nodes, nodes.len() - i,
{
    if i < 0 || i >= nodes.len() {
        Seq::empty()
    } else {
        spec_strip_ranges_node(nodes[i], opts) + spec_strip_ranges_from(nodes, opts, i + 1)
    }
}

/// All line ranges a strip removes on the file.
pub open spec fn spec_strip_ranges(roots: Seq<FnNode>, opts: Options) -> Seq<(int, int)> {
    spec_strip_ranges_from(roots, opts, 0)
}

proof fn lemma_ranges_view_push(ranges: Seq<StripRange>, r: StripRange)
    ensures
        ranges_view(ranges.push(r)) == ranges_view(ranges).push((r.start as int, r.end as int)),
{
    assert(ranges_view(ranges.push(r)) =~= ranges_view(ranges).push(
        (r.start as int, r.end as int),
    ));
}

fn strip_ranges_node(n: &FnNode, opts: &Options, out: &mut Vec<StripRange>)
    ensures
        ranges_view(final(out)@) == ranges_view(old(out)@) + spec_strip_ranges_node(*n, *opts),
    decreases *n, 0int,
{
    let ghost entry = ranges_view(out@);
    match find_instrumented(&n.attrs, &opts.marker) {
        Option::Some(sp) => {
            let start: usize = if sp.start_line == 0 {
                0
            } else {
                sp.start_line - 1
            };
            let end: usize = if sp.end_line == 0 {
                0
            } else {
                sp.end_line - 1
            };
            let r = StripRange { start, end };
            proof {
                lemma_ranges_view_push(out@, r);
                assert(entry.push((r.start as int, r.end as int)) =~= entry + seq![
                    (spec_zero_based(sp.start_line), spec_zero_based(sp.end_line)),
                ]);
            }
            out.push(r);
        },
        Option::None => {
            proof {
                assert(entry + Seq::<(int, int)>::empty() =~= entry);
            }
        },
    }
    strip_ranges_from(&n.children, opts, 0, out);
    proof {
        assert(ranges_view(out@) =~= entry + spec_strip_ranges_node(*n, *opts));
    }
}

fn strip_ranges_from(nodes: &Vec<FnNode>, opts: &Options, i: usize, out: &mut Vec<StripRange>)
    ensures
        ranges_view(final(out)@) == ranges_view(old(out)@) + spec_strip_ranges_from(
            nodes@,
            *opts,
            i as int,
        ),
    decreases nodes@, nodes@.len() - i,
{
    let ghost entry = ranges_view(out@);
    if i >= nodes.len() {
        proof {
            assert(entry + Seq::<(int, int)>::empty() =~= entry);
        }
    } else {
        strip_ranges_node(&nodes[i], opts, out);
        strip_ranges_from(nodes, opts, i + 1, out);
        proof {
            assert(ranges_view(out@) =~= entry + spec_strip_ranges_from(nodes@, *opts, i as int));
        }
    }
}

/// All removals a strip makes on the file, collected without touching it.
pub fn strip_ranges(roots: &Vec<FnNode>, opts: &Options) -> (r: Vec<StripRange>)
    ensures
        ranges_view(r@) == spec_strip_ranges(roots@, *opts),
{
    let mut out: Vec<StripRange> = Vec::new();
    proof {
        assert(ranges_view(out@) =~= Seq::<(int, int)>::empty());
    }
    strip_ranges_from(roots, opts, 0, &mut out);
    proof {
        assert(Seq::<(int, int)>::empty() + spec_strip_ranges(roots@, *opts)
            =~= spec_strip_ranges(roots@, *opts));
    }
    out
}

// ------------------------------------------------------------------ apply

/// The slots after the edits from position `i` on are written in order, each
/// into an empty slot; writing an occupied slot is a conflict (`None`), and an
/// edit past the slots is ignored.
pub open spec fn spec_apply_edits(
    slots: Seq<Option<Seq<char>>>,
    edits: Seq<(int, Seq<char>)>,
    i: int,
) -> Option<Seq<Option<Seq<char>>>>
    decreases edits.len() - i,
{
    if i < 0 || i >= edits.len() {
        Some(slots)
    } else if !(0 <= edits[i].0 < slots.len()) {
        spec_apply_edits(slots, edits, i + 1)
    } else if slots[edits[i].0] is Some {
        None
    } else {
        spec_apply_edits(slots.update(edits[i].0, Some(edits[i].1)), edits, i + 1)
    }
}

/// Writes the collected insertions into the plan, in order. Returns false and
/// stops at the first edit that lands on a slot already written: such a
/// conflict means two functions asked for the same insertion point.
pub fn apply_fix_edits(list: &mut SegmentedList, edits: &Vec<FixEdit>) -> (r: bool)
    requires
        old(list).wf(),
    ensures
        final(list).wf(),
        final(list).lines@ == old(list).lines@,
        final(list).removed@ == old(list).removed@,
        match spec_apply_edits(opt_views_of(old(list).slots@), edits_view(edits@), 0) {
            Option::Some(s) => r && opt_views_of(final(list).slots@) == s,
            Option::None => !r,
        },
{
    let ghost orig = opt_views_of(old(list).slots@);
    let ghost ev = edits_view(edits@);
    let mut i: usize = 0;
    while i < edits.len()
        invariant
            old(list).wf(),
            list.wf(),
            i <= edits@.len(),
            ev == edits_view(edits@),
            orig == opt_views_of(old(list).slots@),
            list.lines@ == old(list).lines@,
            list.removed@ == old(list).removed@,
            spec_apply_edits(orig, ev, 0) == spec_apply_edits(
                opt_views_of(list.slots@),
                ev,
                i as int,
            ),
        decreases edits@.len() - i,
    {
        let slot = edits[i].slot;
        let in_range = slot < list.slots.len();
        let ghost pre = list.slots@;
        let ghost cur = opt_views_of(pre);
        proof {
            assert(cur.len() == pre.len());
            assert(ev[i as int].0 == slot as int);
            assert(ev[i as int].1 == edits@[i as int].text@);
            if in_range {
                assert(cur[slot as int] is Some <==> pre[slot as int] is Some);
            }
        }
        let applied = list.set_before(slot, edits[i].text.clone());
        if applied {
            proof {
                lemma_opt_views_of_update(pre, slot as int, edits@[i as int].text);
                assert(opt_views_of(list.slots@) == cur.update(
                    slot as int,
                    Some(ev[i as int].1),
                ));
                assert(spec_apply_edits(cur, ev, i as int) == spec_apply_edits(
                    opt_views_of(list.slots@),
                    ev,
                    i + 1,
                ));
            }
        } else if in_range {
            proof {
                assert(cur[slot as int] is Some);
                assert(spec_apply_edits(cur, ev, i as int) == None::<Seq<Option<Seq<char>>>>);
            }
            return false;
        } else {
            proof {
                assert(!(0 <= ev[i as int].0 < cur.len()));
                assert(spec_apply_edits(cur, ev, i as int) == spec_apply_edits(cur, ev, i + 1));
            }
        }
        i = i + 1;
    }
    true
}

/// The removal flags after the ranges from position `i` on are marked.
pub open spec fn spec_apply_ranges(
    removed: Seq<bool>,
    ranges: Seq<(int, int)>,
    i: int,
) -> Seq<bool>
    decreases ranges.len() - i,
{
    if i < 0 || i >= ranges.len() {
        removed
    } else {
        spec_apply_ranges(
            Seq::new(
                removed.len(),
                |j: int| removed[j] || (ranges[i].0 <= j <= ranges[i].1),
            ),
            ranges,
            i + 1,
        )
    }
}

/// Marks the collected removals in the plan, in order.
pub fn apply_strip_ranges(list: &mut SegmentedList, ranges: &Vec<StripRange>)
    requires
        old(list).wf(),
    ensures
        final(list).wf(),
        final(list).lines@ == old(list).lines@,
        final(list).slots@ == old(list).slots@,
        final(list).removed@ == spec_apply_ranges(
            old(list).removed@,
            ranges_view(ranges@),
            0,
        ),
{
    let ghost orig = list.removed@;
    let ghost rv = ranges_view(ranges@);
    let mut i: usize = 0;
    while i < ranges.len()
        invariant
            old(list).wf(),
            list.wf(),
            i <= ranges@.len(),
            rv == ranges_view(ranges@),
            list.lines@ == old(list).lines@,
            list.slots@ == old(list).slots@,
            spec_apply_ranges(orig, rv, 0) == spec_apply_ranges(list.removed@, rv, i as int),
        decreases ranges@.len() - i,
    {
        let ghost cur = list.removed@;
        list.remove_lines(ranges[i].start, ranges[i].end);
        proof {
            assert(list.removed@ =~= Seq::new(
                cur.len(),
                |j: int| cur[j] || (rv[i as int].0 <= j <= rv[i as int].1),
            ));
        }
        i = i + 1;
    }
}

} // verus!
