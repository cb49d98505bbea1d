//! Relations between the three actions, proved of the model: a check is
//! clean exactly when a fix changes nothing; a fix over a clean parse returns
//! the text unchanged, so fixing twice is fixing once; a strip over a forest
//! that locates exactly the inserted lines undoes the fix byte for byte; a
//! strip that finds no annotation returns the text unchanged; and two runs
//! over the same arguments agree in every observable way.

use vstd::prelude::*;

use crate::dispatch::spec_empty_slots;
use crate::dispatch::spec_fix_result;
use crate::dispatch::spec_no_removals;
use crate::dispatch::spec_strip_result;
use crate::editor::slot_at;
use crate::editor::spec_segments;
use crate::editor::spec_segments_from;
use crate::text::spec_join;
use crate::text::spec_split;
use crate::text::lemma_join_split;
use crate::text::no_newline;
use crate::text::lemma_split_nonempty;
use crate::tree::FnNode;
use crate::tree::Options;
use crate::walk::spec_apply_edits;
use crate::walk::spec_check;
use crate::walk::spec_check_from;
use crate::walk::spec_check_node;
use crate::walk::spec_fix_edits;
use crate::walk::spec_fix_edits_from;
use crate::walk::spec_fix_edits_node;

verus! {

/// The summed length of a sequence of segments.
spec fn total_len(ls: Seq<Seq<char>>) -> nat
    decreases ls.len(),
{
    if ls.len() == 0 {
        0
    } else {
        ls[0].len() + total_len(ls.drop_first())
    }
}

/// A join's length: the segment lengths plus one newline between each two.
proof fn lemma_join_len(ls: Seq<Seq<char>>)
    requires
        ls.len() >= 1,
    ensures
        spec_join(ls).len() + 1 == total_len(ls) + ls.len(),
    decreases ls.len(),
{
    if ls.len() == 1 {
        assert(ls.drop_first().len() == 0);
        assert(total_len(ls.drop_first()) == 0);
    } else {
        lemma_join_len(ls.drop_first());
    }
}

proof fn lemma_total_len_add(a: Seq<Seq<char>>, b: Seq<Seq<char>>)
    ensures
        total_len(a + b) == total_len(a) + total_len(b),
    decreases a.len(),
{
    if a.len() == 0 {
        assert(a + b =~= b);
    } else {
        lemma_total_len_add(a.drop_first(), b);
        assert((a + b).drop_first() =~= a.drop_first() + b);
        assert((a + b)[0] == a[0]);
    }
}

/// A plan with empty slots and clear flags serializes to the lines themselves.
proof fn lemma_segments_untouched(
    lines: Seq<Seq<char>>,
    slots: Seq<Option<Seq<char>>>,
    removed: Seq<bool>,
    i: int,
)
    requires
        0 <= i <= lines.len(),
        removed.len() == lines.len(),
        forall|k: int| 0 <= k < slots.len() ==> slots[k] is None,
        forall|k: int| 0 <= k < removed.len() ==> !removed[k],
    ensures
        spec_segments_from(lines, slots, removed, i) == lines.skip(i),
    decreases lines.len() - i,
{
    if i >= lines.len() {
        assert(spec_segments_from(lines, slots, removed, i) =~= lines.skip(i));
    } else {
        lemma_segments_untouched(lines, slots, removed, i + 1);
        assert(spec_segments_from(lines, slots, removed, i) =~= lines.skip(i));
    }
}

/// A check that stops at a node finds nothing only if the node is ineligible
/// and its children are clean; then a fix writes nothing there either.
proof fn lemma_check_none_node(n: FnNode, opts: Options)
    requires
        spec_check_node(n, opts) is None,
    ensures
        spec_fix_edits_node(n, opts) == Seq::<(int, Seq<char>)>::empty(),
    decreases n, 0int,
{
    lemma_check_none_from(n.children@, opts, 0);
    assert(spec_fix_edits_node(n, opts) =~= Seq::<(int, Seq<char>)>::empty());
}

proof fn lemma_check_none_from(nodes: Seq<FnNode>, opts: Options, i: int)
    requires
        spec_check_from(nodes, opts, i) is None,
    ensures
        spec_fix_edits_from(nodes, opts, i) == Seq::<(int, Seq<char>)>::empty(),
    decreases nodes, nodes.len() - i,
{
    if 0 <= i < nodes.len() {
        lemma_check_none_node(nodes[i], opts);
        lemma_check_none_from(nodes, opts, i + 1);
        assert(spec_fix_edits_from(nodes, opts, i) =~= Seq::<(int, Seq<char>)>::empty());
    } else {
        assert(spec_fix_edits_from(nodes, opts, i) =~= Seq::<(int, Seq<char>)>::empty());
    }
}

/// A check that reports a node found an eligible one, so a fix writes there.
proof fn lemma_check_some_node(n: FnNode, opts: Options)
    requires
        spec_check_node(n, opts) is Some,
    ensures
        spec_fix_edits_node(n, opts).len() >= 1,
    decreases n, 0int,
{
    if !crate::classify::spec_eligible(n, opts) {
        lemma_check_some_from(n.children@, opts, 0);
    }
}

proof fn lemma_check_some_from(nodes: Seq<FnNode>, opts: Options, i: int)
    requires
        spec_check_from(nodes, opts, i) is Some,
    ensures
        spec_fix_edits_from(nodes, opts, i).len() >= 1,
    decreases nodes, nodes.len() - i,
{
    if spec_check_node(nodes[i], opts) is Some {
        lemma_check_some_node(nodes[i], opts);
    } else {
        lemma_check_some_from(nodes, opts, i + 1);
    }
}

/// Every insertion a fix collects names a slot at or past the first line.
proof fn lemma_fix_edits_nonnegative_node(n: FnNode, opts: Options)
    ensures
        forall|j: int|
            0 <= j < spec_fix_edits_node(n, opts).len() ==> #[trigger] spec_fix_edits_node(
                n,
                opts,
            )[j].0 >= 0,
    decreases n, 0int,
{
    lemma_fix_edits_nonnegative_from(n.children@, opts, 0);
    let own_len: int = if crate::classify::spec_eligible(n, opts) {
        1
    } else {
        0
    };
    let rest = spec_fix_edits_from(n.children@, opts, 0);
    assert forall|j: int| 0 <= j < spec_fix_edits_node(n, opts).len() implies #[trigger]
        spec_fix_edits_node(n, opts)[j].0 >= 0 by {
        if j < own_len {
            assert(spec_fix_edits_node(n, opts)[j].0 == crate::walk::spec_zero_based(
                n.span.start_line,
            ));
        } else {
            assert(spec_fix_edits_node(n, opts)[j] == rest[j - own_len]);
        }
    }
}

proof fn lemma_fix_edits_nonnegative_from(nodes: Seq<FnNode>, opts: Options, i: int)
    ensures
        forall|j: int|
            0 <= j < spec_fix_edits_from(nodes, opts, i).len() ==> #[trigger] spec_fix_edits_from(
                nodes,
                opts,
                i,
            )[j].0 >= 0,
    decreases nodes, nodes.len() - i,
{
    if 0 <= i < nodes.len() {
        lemma_fix_edits_nonnegative_node(nodes[i], opts);
        lemma_fix_edits_nonnegative_from(nodes, opts, i + 1);
        let own = spec_fix_edits_node(nodes[i], opts);
        let rest = spec_fix_edits_from(nodes, opts, i + 1);
        assert forall|j: int| 0 <= j < spec_fix_edits_from(nodes, opts, i).len() implies #[trigger]
            spec_fix_edits_from(nodes, opts, i)[j].0 >= 0 by {
            if j < own.len() {
                assert(spec_fix_edits_from(nodes, opts, i)[j] == own[j]);
            } else {
                assert(spec_fix_edits_from(nodes, opts, i)[j] == rest[j - own.len()]);
            }
        }
    }
}

/// Applying edits keeps the slot count, never clears a slot, and fills the
/// slot of every edit that lies in range.
proof fn lemma_apply_edits_some(
    slots: Seq<Option<Seq<char>>>,
    edits: Seq<(int, Seq<char>)>,
    i: int,
    out: Seq<Option<Seq<char>>>,
)
    requires
        0 <= i,
        spec_apply_edits(slots, edits, i) == Some(out),
    ensures
        out.len() == slots.len(),
        forall|k: int| 0 <= k < slots.len() && slots[k] is Some ==> out[k] is Some,
        forall|j: int|
            i <= j < edits.len() && 0 <= #[trigger] edits[j].0 < slots.len() ==> out[edits[j].0]
                is Some,
    decreases edits.len() - i,
{
    if i < 0 || i >= edits.len() {
    } else if !(0 <= edits[i].0 < slots.len()) {
        lemma_apply_edits_some(slots, edits, i + 1, out);
    } else {
        let updated = slots.update(edits[i].0, Some(edits[i].1));
        lemma_apply_edits_some(updated, edits, i + 1, out);
        assert forall|k: int| 0 <= k < slots.len() && slots[k] is Some implies out[k] is Some by {
            assert(updated[k] is Some);
        }
        assert forall|j: int|
            i <= j < edits.len() && 0 <= #[trigger] edits[j].0 < slots.len() implies out[edits[j].0]
            is Some by {
            if j == i {
                assert(updated[edits[i].0] is Some);
            }
        }
    }
}

/// The serialized plan is at least as long as its lines, and strictly longer
/// in count when some slot in the tail is written.
proof fn lemma_segments_grow(
    lines: Seq<Seq<char>>,
    slots: Seq<Option<Seq<char>>>,
    removed: Seq<bool>,
    i: int,
)
    requires
        0 <= i <= lines.len(),
        removed.len() == lines.len(),
        forall|k: int| 0 <= k < removed.len() ==> !removed[k],
    ensures
        total_len(spec_segments_from(lines, slots, removed, i)) >= total_len(lines.skip(i)),
        spec_segments_from(lines, slots, removed, i).len() >= lines.len() - i,
        (exists|k: int| i <= k <= lines.len() && 0 <= k < slots.len() && slots[k] is Some)
            ==> spec_segments_from(lines, slots, removed, i).len() >= lines.len() - i + 1,
    decreases lines.len() - i,
{
    if i >= lines.len() {
        assert(lines.skip(i) =~= Seq::<Seq<char>>::empty());
        if exists|k: int| i <= k <= lines.len() && 0 <= k < slots.len() && slots[k] is Some {
            let k = choose|k: int|
                i <= k <= lines.len() && 0 <= k < slots.len() && slots[k] is Some;
            assert(k == lines.len() as int);
            assert(slot_at(slots, lines.len() as int) is Some);
        }
    } else {
        lemma_segments_grow(lines, slots, removed, i + 1);
        let head = crate::editor::opt_seg(slot_at(slots, i)) + seq![lines[i]];
        let rest = spec_segments_from(lines, slots, removed, i + 1);
        assert(spec_segments_from(lines, slots, removed, i) =~= head + rest);
        lemma_total_len_add(head, rest);
        assert(total_len(head) >= lines[i].len()) by {
            if slot_at(slots, i) is Some {
                assert(head.drop_first() =~= seq![lines[i]]);
                assert(total_len(head.drop_first()) == lines[i].len() + total_len(
                    seq![lines[i]].drop_first(),
                ));
            } else {
                assert(head =~= seq![lines[i]]);
                assert(total_len(head) == lines[i].len() + total_len(head.drop_first()));
            }
        }
        assert(total_len(lines.skip(i)) == lines[i].len() + total_len(lines.skip(i + 1))) by {
            assert(lines.skip(i).drop_first() =~= lines.skip(i + 1));
            assert(lines.skip(i)[0] == lines[i]);
        }
        if exists|k: int| i <= k <= lines.len() && 0 <= k < slots.len() && slots[k] is Some {
            let k = choose|k: int|
                i <= k <= lines.len() && 0 <= k < slots.len() && slots[k] is Some;
            if k == i {
                assert(head.len() == 2);
            } else {
                assert(exists|k2: int|
                    i + 1 <= k2 <= lines.len() && 0 <= k2 < slots.len() && slots[k2] is Some);
            }
        }
    }
}

/// Check/fix consistency: a check reports nothing exactly when a fix returns
/// the text unchanged. The one premise is that every insertion a fix would
/// make lands within the file's slots, as every span a parse produces does;
/// without it a fix could drop an out-of-range insertion and return the text
/// unchanged even though a check reports the function.
pub proof fn lemma_check_fix_consistent(roots: Seq<FnNode>, text: Seq<char>, opts: Options)
    requires
        forall|j: int|
            0 <= j < spec_fix_edits(roots, opts).len() ==> #[trigger] spec_fix_edits(
                roots,
                opts,
            )[j].0 <= spec_split(text).len(),
    ensures
        (spec_check(roots, opts) is None) <==> (spec_fix_result(roots, text, opts) == Some(text)),
{
    let lines = spec_split(text);
    let n = lines.len();
    let slots0 = spec_empty_slots(n);
    let edits = spec_fix_edits(roots, opts);
    lemma_split_nonempty(text);
    lemma_join_split(text);
    if spec_check(roots, opts) is None {
        lemma_check_none_from(roots, opts, 0);
        assert(edits.len() == 0);
        assert(spec_apply_edits(slots0, edits, 0) == Some(slots0));
        lemma_segments_untouched(lines, slots0, spec_no_removals(n), 0);
        assert(lines.skip(0) =~= lines);
        assert(spec_fix_result(roots, text, opts) == Some(spec_join(lines)));
    } else {
        lemma_check_some_from(roots, opts, 0);
        lemma_fix_edits_nonnegative_from(roots, opts, 0);
        assert(edits.len() >= 1);
        assert(0 <= edits[0].0 <= n);
        match spec_apply_edits(slots0, edits, 0) {
            Option::Some(slots1) => {
                lemma_apply_edits_some(slots0, edits, 0, slots1);
                assert(slots1[edits[0].0] is Some);
                let segs = spec_segments(lines, slots1, spec_no_removals(n));
                assert(exists|k: int|
                    0 <= k <= lines.len() && 0 <= k < slots1.len() && slots1[k] is Some) by {
                    assert(0 <= edits[0].0 <= lines.len() && 0 <= edits[0].0 < slots1.len()
                        && slots1[edits[0].0] is Some);
                }
                lemma_segments_grow(lines, slots1, spec_no_removals(n), 0);
                assert(lines.skip(0) =~= lines);
                assert(segs.len() >= n + 1);
                assert(total_len(segs) >= total_len(lines));
                lemma_join_len(segs);
                lemma_join_len(lines);
                assert(spec_join(segs).len() > spec_join(lines).len());
                assert(spec_fix_result(roots, text, opts) != Some(text));
            },
            Option::None => {
                assert(spec_fix_result(roots, text, opts) is None);
            },
        }
    }
}

/// Which serialized segments of a fix's plan are insertions: one `true` for
/// each written slot, one `false` for each original line, in serialization
/// order.
pub open spec fn spec_inserted_flags_from(
    lines: Seq<Seq<char>>,
    slots: Seq<Option<Seq<char>>>,
    i: int,
) -> Seq<bool>
    decreases lines.len() - i,
{
    if i < 0 || i >= lines.len() {
        match slot_at(slots, lines.len() as int) {
            Option::Some(_) => seq![true],
            Option::None => Seq::empty(),
        }
    } else {
        (match slot_at(slots, i) {
            Option::Some(_) => seq![true],
            Option::None => Seq::<bool>::empty(),
        }) + seq![false] + spec_inserted_flags_from(lines, slots, i + 1)
    }
}

/// The segments whose flag is clear, in order.
spec fn kept(ls: Seq<Seq<char>>, f: Seq<bool>) -> Seq<Seq<char>>
    decreases ls.len(),
{
    if ls.len() == 0 {
        Seq::empty()
    } else {
        (if f[0] {
            Seq::<Seq<char>>::empty()
        } else {
            seq![ls[0]]
        }) + kept(ls.drop_first(), f.drop_first())
    }
}

proof fn lemma_kept_add(a: Seq<Seq<char>>, b: Seq<Seq<char>>, fa: Seq<bool>, fb: Seq<bool>)
    requires
        fa.len() == a.len(),
        fb.len() == b.len(),
    ensures
        kept(a + b, fa + fb) == kept(a, fa) + kept(b, fb),
    decreases a.len(),
{
    if a.len() == 0 {
        assert(a + b =~= b);
        assert(fa + fb =~= fb);
        assert(kept(a, fa) + kept(b, fb) =~= kept(b, fb));
    } else {
        assert((a + b).drop_first() =~= a.drop_first() + b);
        assert((fa + fb).drop_first() =~= fa.drop_first() + fb);
        lemma_kept_add(a.drop_first(), b, fa.drop_first(), fb);
        assert((a + b)[0] == a[0]);
        assert((fa + fb)[0] == fa[0]);
        assert(kept(a + b, fa + fb) =~= kept(a, fa) + kept(b, fb));
    }
}

proof fn lemma_kept_single(x: Seq<char>, f: bool)
    ensures
        kept(seq![x], seq![f]) == if f {
            Seq::<Seq<char>>::empty()
        } else {
            seq![x]
        },
{
    assert(seq![x].drop_first() =~= Seq::<Seq<char>>::empty());
    assert(seq![f].drop_first() =~= Seq::<bool>::empty());
    assert(kept(Seq::<Seq<char>>::empty(), Seq::<bool>::empty()) == Seq::<Seq<char>>::empty());
    if f {
        assert(kept(seq![x], seq![f]) =~= Seq::<Seq<char>>::empty());
    } else {
        assert(kept(seq![x], seq![f]) =~= seq![x]);
    }
}

/// The fix plan's insertion flags cover its segments one for one.
proof fn lemma_flags_segments_len(lines: Seq<Seq<char>>, slots: Seq<Option<Seq<char>>>, i: int)
    requires
        0 <= i <= lines.len(),
    ensures
        spec_inserted_flags_from(lines, slots, i).len() == spec_segments_from(
            lines,
            slots,
            spec_no_removals(lines.len()),
            i,
        ).len(),
    decreases lines.len() - i,
{
    if i < lines.len() {
        lemma_flags_segments_len(lines, slots, i + 1);
    }
}

/// Every slot an application fills holds one of the applied texts, so a plan
/// filled from newline-free insertions has newline-free slots.
proof fn lemma_apply_edits_no_newline(
    slots: Seq<Option<Seq<char>>>,
    edits: Seq<(int, Seq<char>)>,
    i: int,
    out: Seq<Option<Seq<char>>>,
)
    requires
        0 <= i,
        spec_apply_edits(slots, edits, i) == Some(out),
        forall|k: int|
            0 <= k < slots.len() ==> (#[trigger] slots[k] matches Some(t) ==> no_newline(t)),
        forall|j: int| 0 <= j < edits.len() ==> no_newline(#[trigger] edits[j].1),
    ensures
        forall|k: int|
            0 <= k < out.len() ==> (#[trigger] out[k] matches Some(t) ==> no_newline(t)),
    decreases edits.len() - i,
{
    if i < 0 || i >= edits.len() {
    } else if !(0 <= edits[i].0 < slots.len()) {
        lemma_apply_edits_no_newline(slots, edits, i + 1, out);
    } else {
        let updated = slots.update(edits[i].0, Some(edits[i].1));
        assert forall|k: int|
            0 <= k < updated.len() implies (#[trigger] updated[k] matches Some(t) ==> no_newline(
            t,
        )) by {
            if k != edits[i].0 {
                assert(updated[k] == slots[k]);
            }
        }
        lemma_apply_edits_no_newline(updated, edits, i + 1, out);
    }
}

/// Every segment of a plan over newline-free lines and slots is newline free.
proof fn lemma_segments_no_newline(
    lines: Seq<Seq<char>>,
    slots: Seq<Option<Seq<char>>>,
    removed: Seq<bool>,
    i: int,
)
    requires
        0 <= i <= lines.len(),
        removed.len() == lines.len(),
        forall|k: int| 0 <= k < lines.len() ==> no_newline(#[trigger] lines[k]),
        forall|k: int|
            0 <= k < slots.len() ==> (#[trigger] slots[k] matches Some(t) ==> no_newline(t)),
    ensures
        forall|q: int|
            0 <= q < spec_segments_from(lines, slots, removed, i).len() ==> no_newline(
                #[trigger] spec_segments_from(lines, slots, removed, i)[q],
            ),
    decreases lines.len() - i,
{
    let segs = spec_segments_from(lines, slots, removed, i);
    if i >= lines.len() {
        assert forall|q: int| 0 <= q < segs.len() implies no_newline(#[trigger] segs[q]) by {
            assert(slot_at(slots, lines.len() as int) matches Some(t) ==> no_newline(t));
        }
    } else {
        lemma_segments_no_newline(lines, slots, removed, i + 1);
        let head = crate::editor::opt_seg(slot_at(slots, i)) + (if removed[i] {
            Seq::<Seq<char>>::empty()
        } else {
            seq![lines[i]]
        });
        let rest = spec_segments_from(lines, slots, removed, i + 1);
        assert(segs =~= head + rest);
        assert forall|q: int| 0 <= q < segs.len() implies no_newline(#[trigger] segs[q]) by {
            if q < head.len() {
                assert(segs[q] == head[q]);
                assert(slot_at(slots, i) matches Some(t) ==> no_newline(t));
            } else {
                assert(segs[q] == rest[q - head.len()]);
            }
        }
    }
}

/// A plan with no insertions serializes to its lines filtered by the flags.
proof fn lemma_segments_allnone_kept(ls: Seq<Seq<char>>, f: Seq<bool>, i: int)
    requires
        0 <= i <= ls.len(),
        f.len() == ls.len(),
    ensures
        spec_segments_from(ls, spec_empty_slots(ls.len()), f, i) == kept(ls.skip(i), f.skip(i)),
    decreases ls.len() - i,
{
    if i >= ls.len() {
        assert(ls.skip(i) =~= Seq::<Seq<char>>::empty());
        assert(spec_segments_from(ls, spec_empty_slots(ls.len()), f, i) =~= kept(
            ls.skip(i),
            f.skip(i),
        ));
    } else {
        lemma_segments_allnone_kept(ls, f, i + 1);
        assert(ls.skip(i).drop_first() =~= ls.skip(i + 1));
        assert(f.skip(i).drop_first() =~= f.skip(i + 1));
        assert(ls.skip(i)[0] == ls[i]);
        assert(f.skip(i)[0] == f[i]);
        assert(spec_segments_from(ls, spec_empty_slots(ls.len()), f, i) =~= kept(
            ls.skip(i),
            f.skip(i),
        ));
    }
}

/// Filtering a fix plan's segments by its insertion flags gives back the
/// original lines.
proof fn lemma_kept_inserted(lines: Seq<Seq<char>>, slots: Seq<Option<Seq<char>>>, i: int)
    requires
        0 <= i <= lines.len(),
    ensures
        kept(
            spec_segments_from(lines, slots, spec_no_removals(lines.len()), i),
            spec_inserted_flags_from(lines, slots, i),
        ) == lines.skip(i),
    decreases lines.len() - i,
{
    let segs = spec_segments_from(lines, slots, spec_no_removals(lines.len()), i);
    let flags = spec_inserted_flags_from(lines, slots, i);
    if i >= lines.len() {
        match slot_at(slots, lines.len() as int) {
            Option::Some(t) => {
                assert(segs =~= seq![t]);
                assert(flags =~= seq![true]);
                lemma_kept_single(t, true);
                assert(kept(segs, flags) =~= lines.skip(i));
            },
            Option::None => {
                assert(segs =~= Seq::<Seq<char>>::empty());
                assert(kept(segs, flags) =~= lines.skip(i));
            },
        }
    } else {
        lemma_kept_inserted(lines, slots, i + 1);
        lemma_flags_segments_len(lines, slots, i + 1);
        let head = crate::editor::opt_seg(slot_at(slots, i)) + seq![lines[i]];
        let fhead = (match slot_at(slots, i) {
            Option::Some(_) => seq![true],
            Option::None => Seq::<bool>::empty(),
        }) + seq![false];
        let rest = spec_segments_from(lines, slots, spec_no_removals(lines.len()), i + 1);
        let frest = spec_inserted_flags_from(lines, slots, i + 1);
        assert(segs =~= head + rest);
        assert(flags =~= fhead + frest);
        lemma_kept_add(head, rest, fhead, frest);
        assert(kept(head, fhead) =~= seq![lines[i]]) by {
            lemma_kept_single(lines[i], false);
            match slot_at(slots, i) {
                Option::Some(t) => {
                    lemma_kept_single(t, true);
                    lemma_kept_add(seq![t], seq![lines[i]], seq![true], seq![false]);
                    assert(head =~= seq![t] + seq![lines[i]]);
                    assert(fhead =~= seq![true] + seq![false]);
                    assert(Seq::<Seq<char>>::empty() + seq![lines[i]] =~= seq![lines[i]]);
                },
                Option::None => {
                    assert(head =~= seq![lines[i]]);
                    assert(fhead =~= seq![false]);
                },
            }
        }
        assert(seq![lines[i]] + lines.skip(i + 1) =~= lines.skip(i));
        assert(kept(segs, flags) =~= lines.skip(i));
    }
}

proof fn lemma_no_newline_add(a: Seq<char>, b: Seq<char>)
    requires
        no_newline(a),
        no_newline(b),
    ensures
        no_newline(a + b),
{
    assert forall|j: int| 0 <= j < (a + b).len() implies (a + b)[j] != '\n' by {
        if j < a.len() {
            assert((a + b)[j] == a[j]);
        } else {
            assert((a + b)[j] == b[j - a.len()]);
        }
    }
}

/// Holds when every name this parameter can contribute is newline free.
pub open spec fn param_names_clean(p: crate::tree::Param) -> bool {
    match p {
        crate::tree::Param::Receiver => true,
        crate::tree::Param::Named(s) => no_newline(s@),
        crate::tree::Param::Fields(fs) => forall|k: int|
            0 <= k < fs@.len() ==> (#[trigger] fs@[k] matches crate::tree::FieldBinding::Named(s)
                ==> no_newline(s@)),
        crate::tree::Param::Other => true,
    }
}

/// Holds when every parameter name in the forest is newline free, as every
/// name a parse produces is: an identifier holds no newline.
pub open spec fn forest_names_clean(nodes: Seq<FnNode>) -> bool
    decreases nodes,
{
    forall|k: int| 0 <= k < nodes.len() ==> node_names_clean(#[trigger] nodes[k])
}

pub open spec fn node_names_clean(n: FnNode) -> bool
    decreases n,
{
    (forall|k: int| 0 <= k < n.params@.len() ==> param_names_clean(#[trigger] n.params@[k]))
        && forest_names_clean(n.children@)
}

proof fn lemma_field_names_clean(fs: Seq<crate::tree::FieldBinding>, i: int)
    requires
        forall|k: int|
            0 <= k < fs.len() ==> (#[trigger] fs[k] matches crate::tree::FieldBinding::Named(s)
                ==> no_newline(s@)),
    ensures
        forall|j: int|
            0 <= j < crate::signature::spec_field_names_from(fs, i).len() ==> no_newline(
                #[trigger] crate::signature::spec_field_names_from(fs, i)[j],
            ),
    decreases fs.len() - i,
{
    if 0 <= i < fs.len() {
        lemma_field_names_clean(fs, i + 1);
        let own = match fs[i] {
            crate::tree::FieldBinding::Named(s) => seq![s@],
            crate::tree::FieldBinding::Unnamed => Seq::<Seq<char>>::empty(),
        };
        let rest = crate::signature::spec_field_names_from(fs, i + 1);
        assert forall|j: int|
            0 <= j < crate::signature::spec_field_names_from(fs, i).len() implies no_newline(
            #[trigger] crate::signature::spec_field_names_from(fs, i)[j],
        ) by {
            if j < own.len() {
                assert(crate::signature::spec_field_names_from(fs, i)[j] == own[j]);
            } else {
                assert(crate::signature::spec_field_names_from(fs, i)[j] == rest[j - own.len()]);
            }
        }
    }
}

proof fn lemma_exclusions_clean(ps: Seq<crate::tree::Param>, i: int)
    requires
        forall|k: int| 0 <= k < ps.len() ==> param_names_clean(#[trigger] ps[k]),
    ensures
        forall|j: int|
            0 <= j < crate::signature::spec_exclusions_from(ps, i).len() ==> no_newline(
                #[trigger] crate::signature::spec_exclusions_from(ps, i)[j],
            ),
    decreases ps.len() - i,
{
    if 0 <= i < ps.len() {
        lemma_exclusions_clean(ps, i + 1);
        let own = crate::signature::spec_param_names(ps[i]);
        let rest = crate::signature::spec_exclusions_from(ps, i + 1);
        assert forall|j: int| 0 <= j < own.len() implies no_newline(#[trigger] own[j]) by {
            match ps[i] {
                crate::tree::Param::Receiver => {
                    reveal_strlit("self");
                    assert(own[j] == "self"@);
                    assert(no_newline("self"@));
                },
                crate::tree::Param::Named(s) => {
                    assert(own[j] == s@);
                },
                crate::tree::Param::Fields(fs) => {
                    lemma_field_names_clean(fs@, 0);
                },
                crate::tree::Param::Other => {},
            }
        }
        assert forall|j: int|
            0 <= j < crate::signature::spec_exclusions_from(ps, i).len() implies no_newline(
            #[trigger] crate::signature::spec_exclusions_from(ps, i)[j],
        ) by {
            if j < own.len() {
                assert(crate::signature::spec_exclusions_from(ps, i)[j] == own[j]);
            } else {
                assert(crate::signature::spec_exclusions_from(ps, i)[j] == rest[j - own.len()]);
            }
        }
    }
}

proof fn lemma_comma_join_clean(names: Seq<Seq<char>>)
    requires
        forall|j: int| 0 <= j < names.len() ==> no_newline(#[trigger] names[j]),
    ensures
        no_newline(crate::signature::spec_comma_join(names)),
    decreases names.len(),
{
    if names.len() == 0 {
    } else if names.len() == 1 {
        assert(no_newline(names[0]));
    } else {
        lemma_comma_join_clean(names.drop_first());
        assert(no_newline(seq![',', ' '])) by {
            assert(seq![',', ' '][0] == ',');
            assert(seq![',', ' '][1] == ' ');
        }
        lemma_no_newline_add(names[0], seq![',', ' ']);
        lemma_no_newline_add(
            names[0] + seq![',', ' '],
            crate::signature::spec_comma_join(names.drop_first()),
        );
    }
}

proof fn lemma_inserted_text_clean(n: FnNode, opts: Options)
    requires
        no_newline(opts.attr_head@),
        no_newline(opts.attr_tail@),
        forall|k: int| 0 <= k < n.params@.len() ==> param_names_clean(#[trigger] n.params@[k]),
    ensures
        no_newline(crate::walk::spec_inserted_text(n, opts)),
{
    let sp = crate::text::spec_spaces(n.span.start_col as int);
    assert(no_newline(sp));
    lemma_exclusions_clean(n.params@, 0);
    lemma_comma_join_clean(crate::signature::spec_exclusions(n.params@));
    let args = crate::signature::spec_comma_join(crate::signature::spec_exclusions(n.params@));
    lemma_no_newline_add(opts.attr_head@, args);
    lemma_no_newline_add(opts.attr_head@ + args, opts.attr_tail@);
    lemma_no_newline_add(sp, opts.attr_head@ + args + opts.attr_tail@);
}

proof fn lemma_fix_edits_clean_node(n: FnNode, opts: Options)
    requires
        no_newline(opts.attr_head@),
        no_newline(opts.attr_tail@),
        node_names_clean(n),
    ensures
        forall|j: int|
            0 <= j < spec_fix_edits_node(n, opts).len() ==> no_newline(
                #[trigger] spec_fix_edits_node(n, opts)[j].1,
            ),
    decreases n, 0int,
{
    lemma_fix_edits_clean_from(n.children@, opts, 0);
    let own_len: int = if crate::classify::spec_eligible(n, opts) {
        1
    } else {
        0
    };
    let rest = spec_fix_edits_from(n.children@, opts, 0);
    assert forall|j: int| 0 <= j < spec_fix_edits_node(n, opts).len() implies no_newline(
        #[trigger] spec_fix_edits_node(n, opts)[j].1,
    ) by {
        if j < own_len {
            lemma_inserted_text_clean(n, opts);
            assert(spec_fix_edits_node(n, opts)[j].1 == crate::walk::spec_inserted_text(n, opts));
        } else {
            assert(spec_fix_edits_node(n, opts)[j] == rest[j - own_len]);
        }
    }
}

proof fn lemma_fix_edits_clean_from(nodes: Seq<FnNode>, opts: Options, i: int)
    requires
        no_newline(opts.attr_head@),
        no_newline(opts.attr_tail@),
        forest_names_clean(nodes),
    ensures
        forall|j: int|
            0 <= j < spec_fix_edits_from(nodes, opts, i).len() ==> no_newline(
                #[trigger] spec_fix_edits_from(nodes, opts, i)[j].1,
            ),
    decreases nodes, nodes.len() - i,
{
    if 0 <= i < nodes.len() {
        lemma_fix_edits_clean_node(nodes[i], opts);
        lemma_fix_edits_clean_from(nodes, opts, i + 1);
        let own = spec_fix_edits_node(nodes[i], opts);
        let rest = spec_fix_edits_from(nodes, opts, i + 1);
        assert forall|j: int|
            0 <= j < spec_fix_edits_from(nodes, opts, i).len() implies no_newline(
            #[trigger] spec_fix_edits_from(nodes, opts, i)[j].1,
        ) by {
            if j < own.len() {
                assert(spec_fix_edits_from(nodes, opts, i)[j] == own[j]);
            } else {
                assert(spec_fix_edits_from(nodes, opts, i)[j] == rest[j - own.len()]);
            }
        }
    }
}

/// The renderer inserts no newline: with a newline-free annotation head and
/// tail, and newline-free parameter names — identifiers always are — every
/// text a fix inserts stays on one line. This discharges the newline premise
/// of the inverse law from the inputs alone.
pub proof fn lemma_fix_edits_no_newline(roots: Seq<FnNode>, opts: Options)
    requires
        no_newline(opts.attr_head@),
        no_newline(opts.attr_tail@),
        forest_names_clean(roots),
    ensures
        forall|j: int|
            0 <= j < spec_fix_edits(roots, opts).len() ==> no_newline(
                #[trigger] spec_fix_edits(roots, opts)[j].1,
            ),
{
    lemma_fix_edits_clean_from(roots, opts, 0);
}

/// Inverse of fix: where a fix succeeded and the fixed text parses to a
/// forest whose strip removes exactly the inserted lines — as a re-parse of
/// the fixed output does, each inserted annotation standing alone on its own
/// line — the strip reproduces the original text byte for byte. The premises
/// name what the parser contributes: the inserted texts hold no newline, and
/// the re-parse's removal flags mark the insertions and nothing else.
pub proof fn lemma_strip_inverts_fix(
    roots: Seq<FnNode>,
    roots2: Seq<FnNode>,
    slots: Seq<Option<Seq<char>>>,
    text: Seq<char>,
    out: Seq<char>,
    opts: Options,
)
    requires
        crate::dispatch::spec_fix_slots(roots, text, opts) == Some(slots),
        spec_fix_result(roots, text, opts) == Some(out),
        forall|j: int|
            0 <= j < spec_fix_edits(roots, opts).len() ==> no_newline(
                #[trigger] spec_fix_edits(roots, opts)[j].1,
            ),
        crate::dispatch::spec_strip_flags(roots2, out, opts) == spec_inserted_flags_from(
            spec_split(text),
            slots,
            0,
        ),
    ensures
        spec_strip_result(roots2, out, opts) == text,
{
    let lines = spec_split(text);
    let n = lines.len();
    let segs = spec_segments(lines, slots, spec_no_removals(n));
    let flags = spec_inserted_flags_from(lines, slots, 0);
    lemma_split_nonempty(text);
    crate::text::lemma_split_no_newline(text);
    assert(out == spec_join(segs));
    assert forall|k: int|
        0 <= k < spec_empty_slots(n).len() implies (#[trigger] spec_empty_slots(n)[k] matches Some(
        t,
    ) ==> no_newline(t)) by {}
    lemma_apply_edits_no_newline(
        spec_empty_slots(n),
        spec_fix_edits(roots, opts),
        0,
        slots,
    );
    lemma_segments_no_newline(lines, slots, spec_no_removals(n), 0);
    lemma_segments_grow(lines, slots, spec_no_removals(n), 0);
    assert(lines.skip(0) =~= lines);
    assert(segs.len() >= n >= 1);
    crate::text::lemma_split_join(segs);
    assert(spec_split(out) == segs);
    lemma_flags_segments_len(lines, slots, 0);
    assert(flags.len() == segs.len());
    lemma_segments_allnone_kept(segs, flags, 0);
    assert(segs.skip(0) =~= segs);
    assert(flags.skip(0) =~= flags);
    lemma_kept_inserted(lines, slots, 0);
    lemma_join_split(text);
    assert(spec_strip_result(roots2, out, opts) == spec_join(kept(segs, flags)));
}

/// Idempotence of fix: on a text whose parse reports no missing annotation —
/// as the output of a fix does once re-parsed, since every function then
/// carries the marker — a fix returns the text unchanged, so running it a
/// second time changes nothing.
pub proof fn lemma_fix_idempotent(roots: Seq<FnNode>, text: Seq<char>, opts: Options)
    requires
        spec_check(roots, opts) is None,
    ensures
        spec_fix_result(roots, text, opts) == Some(text),
{
    let lines = spec_split(text);
    let n = lines.len();
    let slots0 = spec_empty_slots(n);
    lemma_split_nonempty(text);
    lemma_join_split(text);
    lemma_check_none_from(roots, opts, 0);
    assert(spec_apply_edits(slots0, spec_fix_edits(roots, opts), 0) == Some(slots0));
    lemma_segments_untouched(lines, slots0, spec_no_removals(n), 0);
    assert(lines.skip(0) =~= lines);
}

/// Determinism: two results that both meet the contract of one run — same
/// action, same text, same configuration — agree in every observable way; a
/// parse failure's diagnostic wording is the one thing left open.
pub proof fn lemma_process_deterministic(
    r1: Result<crate::dispatch::ProcessOutput, crate::dispatch::CoreError>,
    r2: Result<crate::dispatch::ProcessOutput, crate::dispatch::CoreError>,
    action: crate::tree::Action,
    text: Seq<char>,
    opts: Options,
)
    requires
        crate::dispatch::result_matches(r1, crate::dispatch::spec_process_text(action, text, opts)),
        crate::dispatch::result_matches(r2, crate::dispatch::spec_process_text(action, text, opts)),
    ensures
        r1 matches Ok(crate::dispatch::ProcessOutput::Checked(o1)) ==> (r2 matches Ok(
            crate::dispatch::ProcessOutput::Checked(o2),
        ) && o1 == o2),
        r1 matches Ok(crate::dispatch::ProcessOutput::Edited(a)) ==> (r2 matches Ok(
            crate::dispatch::ProcessOutput::Edited(b),
        ) && a@ == b@),
        r1 matches Err(crate::dispatch::CoreError::EditConflict) ==> r2 matches Err(
            crate::dispatch::CoreError::EditConflict,
        ),
        r1 matches Err(crate::dispatch::CoreError::Parse(_)) ==> r2 matches Err(
            crate::dispatch::CoreError::Parse(_),
        ),
{
}

/// A strip that found no annotation anywhere returns the text unchanged.
pub proof fn lemma_strip_without_markers(roots: Seq<FnNode>, text: Seq<char>, opts: Options)
    requires
        crate::walk::spec_strip_ranges(roots, opts) == Seq::<(int, int)>::empty(),
    ensures
        spec_strip_result(roots, text, opts) == text,
{
    let lines = spec_split(text);
    let n = lines.len();
    assert(crate::walk::spec_apply_ranges(
        spec_no_removals(n),
        crate::walk::spec_strip_ranges(roots, opts),
        0,
    ) == spec_no_removals(n));
    lemma_segments_untouched(lines, spec_empty_slots(n), spec_no_removals(n), 0);
    assert(lines.skip(0) =~= lines);
    lemma_join_split(text);
}

} // verus!
