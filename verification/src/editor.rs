//! The line-indexed text editor: the original lines of a file, a single
//! insertion slot before each line (and one after the last), and a removal
//! flag per line. Slots and flags are addressed by the original line
//! numbering throughout; serialization joins what remains with single
//! newlines.

use vstd::prelude::*;

use crate::text::join_lines;
use crate::text::spec_join;
use crate::text::views_of;

verus! {

/// The views of a sequence of optional strings.
pub open spec fn opt_views_of(v: Seq<Option<String>>) -> Seq<Option<Seq<char>>> {
    v.map_values(
        |o: Option<String>|
            match o {
                Option::Some(s) => Some(s@),
                Option::None => None,
            },
    )
}

pub proof fn lemma_opt_views_of_update(v: Seq<Option<String>>, i: int, s: String)
    requires
        0 <= i < v.len(),
    ensures
        opt_views_of(v.update(i, Some(s))) == opt_views_of(v).update(i, Some(s@)),
{
    assert(opt_views_of(v.update(i, Some(s))) =~= opt_views_of(v).update(i, Some(s@)));
}

/// The slot at position `i`, empty outside the slot range.
pub open spec fn slot_at(slots: Seq<Option<Seq<char>>>, i: int) -> Option<Seq<char>> {
    if 0 <= i < slots.len() {
        slots[i]
    } else {
        None
    }
}

/// The segments an optional insertion contributes: one or none.
pub open spec fn opt_seg(o: Option<Seq<char>>) -> Seq<Seq<char>> {
    match o {
        Option::Some(t) => seq![t],
        Option::None => Seq::empty(),
    }
}

/// The serialized segments of the plan from line `i` on: for each line its
/// pending insertion (if any) and then the line itself (unless removed), and
/// after the last line the final slot.
pub open spec fn spec_segments_from(
    lines: Seq<Seq<char>>,
    slots: Seq<Option<Seq<char>>>,
    removed: Seq<bool>,
    i: int,
) -> Seq<Seq<char>>
    decreases lines.len() - i,
{
    if i < 0 || i >= lines.len() {
        opt_seg(slot_at(slots, lines.len() as int))
    } else {
        opt_seg(slot_at(slots, i)) + (if removed[i] {
            Seq::<Seq<char>>::empty()
        } else {
            seq![lines[i]]
        }) + spec_segments_from(lines, slots, removed, i + 1)
    }
}

/// All serialized segments of the plan.
pub open spec fn spec_segments(
    lines: Seq<Seq<char>>,
    slots: Seq<Option<Seq<char>>>,
    removed: Seq<bool>,
) -> Seq<Seq<char>> {
    spec_segments_from(lines, slots, removed, 0)
}

/// A list of text lines split so that new lines can be inserted between them
/// and present lines can be dropped, all under the original line numbering.
pub struct SegmentedList {
    /// The original physical lines.
    pub lines: Vec<String>,
    /// One pending insertion before each line, and one after the last; each
    /// slot is written at most once by `set_before`.
    pub slots: Vec<Option<String>>,
    /// Which original lines are left out of the serialized text.
    pub removed: Vec<bool>,
}

impl SegmentedList {
    /// The slot and flag vectors cover the lines exactly.
    pub open spec fn wf(self) -> bool {
        &&& self.slots@.len() == self.lines@.len() + 1
        &&& self.removed@.len() == self.lines@.len()
    }

    /// The plan's serialized text.
    pub open spec fn spec_text(self) -> Seq<char> {
        spec_join(
            spec_segments(views_of(self.lines@), opt_views_of(self.slots@), self.removed@),
        )
    }

    /// A fresh plan over the given lines: nothing inserted, nothing removed.
    pub fn new(lines: Vec<String>) -> (r: SegmentedList)
        ensures
            r.wf(),
            r.lines@ == lines@,
            forall|k: int| 0 <= k < r.slots@.len() ==> r.slots@[k] is None,
            forall|k: int| 0 <= k < r.removed@.len() ==> !r.removed@[k],
    {
        let n = lines.len();
        let mut slots: Vec<Option<String>> = Vec::new();
        let mut removed: Vec<bool> = Vec::new();
        let mut i: usize = 0;
        while i < n
            invariant
                i <= n,
                slots@.len() == i,
                removed@.len() == i,
                forall|k: int| 0 <= k < i ==> slots@[k] is None,
                forall|k: int| 0 <= k < i ==> !removed@[k],
            decreases n - i,
        {
            slots.push(None);
            removed.push(false);
            i = i + 1;
        }
        slots.push(None);
        SegmentedList { lines, slots, removed }
    }

    /// Writes `text` into the slot before line `line` (0-based; the number of
    /// lines addresses the slot after the last). Returns true when the write
    /// was applied; an index past the slots, or a slot already written, leaves
    /// the plan unchanged and returns false, so no earlier write is ever
    /// overwritten.
    pub fn set_before(&mut self, line: usize, text: String) -> (r: bool)
        requires
            old(self).wf(),
        ensures
            final(self).wf(),
            final(self).lines@ == old(self).lines@,
            final(self).removed@ == old(self).removed@,
            r == (line < old(self).slots@.len() && old(self).slots@[line as int] is None),
            r ==> final(self).slots@ == old(self).slots@.update(line as int, Some(text)),
            !r ==> final(self).slots@ == old(self).slots@,
    {
        if line < self.slots.len() {
            if self.slots[line].is_none() {
                self.slots[line] = Some(text);
                return true;
            }
        }
        false
    }

    /// Appends `text` to the slot before line `line` (0-based), writing the
    /// slot if it was empty.
    pub fn insert_before(&mut self, line: usize, text: &str)
        requires
            old(self).wf(),
            line < old(self).slots@.len(),
        ensures
            final(self).wf(),
            final(self).lines@ == old(self).lines@,
            final(self).removed@ == old(self).removed@,
            final(self).slots@.len() == old(self).slots@.len(),
            forall|k: int|
                0 <= k < final(self).slots@.len() && k != line ==> final(self).slots@[k] == old(
                    self,
                ).slots@[k],
            final(self).slots@[line as int] matches Some(s) && s@ == (match old(
                self,
            ).slots@[line as int] {
                Option::Some(p) => p@,
                Option::None => Seq::<char>::empty(),
            }) + text@,
    {
        let appended: String = match &self.slots[line] {
            Option::Some(p) => {
                let mut s = p.clone();
                s.append(text);
                s
            },
            Option::None => text.to_owned(),
        };
        proof {
            assert(Seq::<char>::empty() + text@ =~= text@);
        }
        self.slots[line] = Some(appended);
    }

    /// Marks the inclusive range of 0-based lines `start..=end` as removed;
    /// indices past the last line are ignored.
    pub fn remove_lines(&mut self, start: usize, end: usize)
        requires
            old(self).wf(),
        ensures
            final(self).wf(),
            final(self).lines@ == old(self).lines@,
            final(self).slots@ == old(self).slots@,
            final(self).removed@.len() == old(self).removed@.len(),
            forall|k: int|
                0 <= k < final(self).removed@.len() ==> final(self).removed@[k] == (old(
                    self,
                ).removed@[k] || (start <= k <= end)),
    {
        let mut i: usize = start;
        while i < self.removed.len() && i <= end
            invariant
                old(self).wf(),
                self.wf(),
                start <= i,
                self.lines@ == old(self).lines@,
                self.slots@ == old(self).slots@,
                self.removed@.len() == old(self).removed@.len(),
                forall|k: int|
                    0 <= k < self.removed@.len() ==> self.removed@[k] == (old(self).removed@[k]
                        || (start <= k < i && k <= end)),
            decreases self.removed@.len() - i,
        {
            self.removed[i] = true;
            i = i + 1;
        }
    }

    /// Serializes the plan: for each original line the pending insertion (if
    /// any) and then the line itself (unless removed), all joined with single
    /// newlines.
    pub fn into_text(self) -> (r: String)
        requires
            self.wf(),
        ensures
            r@ == self.spec_text(),
    {
        let ghost gl = views_of(self.lines@);
        let ghost gs = opt_views_of(self.slots@);
        let ghost gr = self.removed@;
        let mut segs: Vec<String> = Vec::new();
        let mut i: usize = 0;
        proof {
            assert(views_of(segs@) + spec_segments_from(gl, gs, gr, 0) =~= spec_segments(
                gl,
                gs,
                gr,
            ));
        }
        while i < self.lines.len()
            invariant
                self.wf(),
                gl == views_of(self.lines@),
                gs == opt_views_of(self.slots@),
                gr == self.removed@,
                i <= self.lines@.len(),
                views_of(segs@) + spec_segments_from(gl, gs, gr, i as int) == spec_segments(
                    gl,
                    gs,
                    gr,
                ),
            decreases self.lines@.len() - i,
        {
            let ghost before = views_of(segs@);
            match &self.slots[i] {
                Option::Some(t) => {
                    let c = t.clone();
                    proof {
                        crate::text::lemma_views_of_push(segs@, c);
                        assert(opt_seg(slot_at(gs, i as int)) =~= seq![t@]);
                    }
                    segs.push(c);
                },
                Option::None => {
                    proof {
                        assert(opt_seg(slot_at(gs, i as int)) =~= Seq::<Seq<char>>::empty());
                    }
                },
            }
            let ghost mid = views_of(segs@);
            proof {
                assert(mid =~= before + opt_seg(slot_at(gs, i as int)));
            }
            if !self.removed[i] {
                let c = self.lines[i].clone();
                proof {
                    crate::text::lemma_views_of_push(segs@, c);
                }
                segs.push(c);
            }
            proof {
                let linepart = if gr[i as int] {
                    Seq::<Seq<char>>::empty()
                } else {
                    seq![gl[i as int]]
                };
                assert(views_of(segs@) =~= mid + linepart);
                assert(views_of(segs@) + spec_segments_from(gl, gs, gr, i + 1) =~= before
                    + spec_segments_from(gl, gs, gr, i as int));
            }
            i = i + 1;
        }
        let ghost before = views_of(segs@);
        match &self.slots[self.lines.len()] {
            Option::Some(t) => {
                let c = t.clone();
                proof {
                    crate::text::lemma_views_of_push(segs@, c);
                    assert(spec_segments_from(gl, gs, gr, gl.len() as int) =~= seq![t@]);
                    assert(before.push(t@) =~= before + spec_segments_from(
                        gl,
                        gs,
                        gr,
                        gl.len() as int,
                    ));
                }
                segs.push(c);
            },
            Option::None => {
                proof {
                    assert(spec_segments_from(gl, gs, gr, gl.len() as int)
                        =~= Seq::<Seq<char>>::empty());
                    assert(before + Seq::<Seq<char>>::empty() =~= before);
                }
            },
        }
        join_lines(&segs)
    }
}

} // verus!
