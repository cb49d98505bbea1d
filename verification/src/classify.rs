//! The attribute classifier: reads a function-like item's attribute list and
//! decides whether the item is already instrumented, explicitly skipped, or
//! exempt, and where the instrumentation annotation stands when present.

use vstd::prelude::*;

use crate::tree::Attr;
use crate::tree::AttrKind;
use crate::tree::FnNode;
use crate::tree::Options;
use crate::tree::Span;

verus! {

/// Holds when the attribute is a bare or call-style marker whose path ends in
/// the given segment; a name-value form never matches.
pub open spec fn is_marker_attr(a: Attr, name: Seq<char>) -> bool {
    (a.kind is Bare || a.kind is Call) && a.name@ == name
}

/// Holds when the attribute is a bare marker whose path ends in one of the
/// exemption segments.
pub open spec fn is_exempt_attr(a: Attr, exempt: Seq<String>) -> bool {
    a.kind is Bare && exists|i: int| 0 <= i < exempt.len() && a.name@ == #[trigger] exempt[i]@
}

/// Holds when some attribute of the list is a bare or call-style marker with
/// the given final segment.
pub open spec fn spec_has_marker(attrs: Seq<Attr>, name: Seq<char>) -> bool {
    exists|j: int| 0 <= j < attrs.len() && is_marker_attr(#[trigger] attrs[j], name)
}

/// Holds when some attribute of the list exempts the function.
pub open spec fn spec_exempt(attrs: Seq<Attr>, exempt: Seq<String>) -> bool {
    exists|j: int| 0 <= j < attrs.len() && is_exempt_attr(#[trigger] attrs[j], exempt)
}

/// The span of the first marker attribute at or after position `i`.
pub open spec fn spec_find_from(attrs: Seq<Attr>, name: Seq<char>, i: int) -> Option<Span>
    decreases attrs.len() - i,
{
    if i < 0 || i >= attrs.len() {
        None
    } else if is_marker_attr(attrs[i], name) {
        Some(attrs[i].span)
    } else {
        spec_find_from(attrs, name, i + 1)
    }
}

/// The span of the first marker attribute of the list, if any.
pub open spec fn spec_find_instrumented(attrs: Seq<Attr>, name: Seq<char>) -> Option<Span> {
    spec_find_from(attrs, name, 0)
}

/// A function-like item is eligible for reporting and fixing when it is
/// neither instrumented nor skipped nor exempt, and not `const`-qualified.
pub open spec fn spec_eligible(n: FnNode, opts: Options) -> bool {
    &&& !spec_has_marker(n.attrs@, opts.marker@)
    &&& !spec_has_marker(n.attrs@, opts.skip_marker@)
    &&& !spec_exempt(n.attrs@, opts.exempt@)
    &&& !n.is_const
}

/// The classifier's answer for one attribute list.
pub struct AnnotationState {
    /// Some attribute is a bare or call-style marker named as configured.
    pub instrumented: bool,
    /// Some attribute is a bare or call-style marker named as the skip marker.
    pub skipped: bool,
    /// Some attribute is a bare marker named as one of the exemptions.
    pub exempt: bool,
    /// The span of the first instrumentation marker, when one is present.
    pub found: Option<Span>,
}

/// Whether the name stands in the list.
fn name_in(name: &String, set: &Vec<String>) -> (r: bool)
    ensures
        r == exists|i: int| 0 <= i < set@.len() && name@ == #[trigger] set@[i]@,
{
    let mut i: usize = 0;
    while i < set.len()
        invariant
            i <= set@.len(),
            forall|j: int| 0 <= j < i ==> name@ != #[trigger] set@[j]@,
        decreases set@.len() - i,
    {
        if name.eq(&set[i]) {
            return true;
        }
        i = i + 1;
    }
    false
}

/// The span of the first bare or call-style attribute of the list whose final
/// path segment equals `name`, if any.
pub fn find_instrumented(attrs: &Vec<Attr>, name: &String) -> (r: Option<Span>)
    ensures
        r == spec_find_instrumented(attrs@, name@),
{
    let mut i: usize = 0;
    while i < attrs.len()
        invariant
            i <= attrs@.len(),
            spec_find_from(attrs@, name@, 0) == spec_find_from(attrs@, name@, i as int),
        decreases attrs@.len() - i,
    {
        let a = &attrs[i];
        if (a.kind == AttrKind::Bare || a.kind == AttrKind::Call) && a.name.eq(name) {
            return Some(a.span);
        }
        i = i + 1;
    }
    None
}

/// Classifies one attribute list against the configured markers; the three
/// booleans are judged independently, and the span of the first
/// instrumentation marker is reported when one exists.
pub fn check_attributes(attrs: &Vec<Attr>, opts: &Options) -> (r: AnnotationState)
    ensures
        r.instrumented == spec_has_marker(attrs@, opts.marker@),
        r.skipped == spec_has_marker(attrs@, opts.skip_marker@),
        r.exempt == spec_exempt(attrs@, opts.exempt@),
        r.found == spec_find_instrumented(attrs@, opts.marker@),
{
    let mut instrumented = false;
    let mut skipped = false;
    let mut exempt = false;
    let mut found: Option<Span> = None;
    let mut i: usize = 0;
    while i < attrs.len()
        invariant
            i <= attrs@.len(),
            instrumented == exists|j: int|
                0 <= j < i && is_marker_attr(#[trigger] attrs@[j], opts.marker@),
            skipped == exists|j: int|
                0 <= j < i && is_marker_attr(#[trigger] attrs@[j], opts.skip_marker@),
            exempt == exists|j: int|
                0 <= j < i && is_exempt_attr(#[trigger] attrs@[j], opts.exempt@),
            match found {
                Option::None => spec_find_from(attrs@, opts.marker@, 0) == spec_find_from(
                    attrs@,
                    opts.marker@,
                    i as int,
                ),
                Option::Some(sp) => spec_find_from(attrs@, opts.marker@, 0) == Some(sp),
            },
        decreases attrs@.len() - i,
    {
        let a = &attrs[i];
        let call_or_bare = a.kind == AttrKind::Bare || a.kind == AttrKind::Call;
        if call_or_bare && a.name.eq(&opts.marker) {
            instrumented = true;
            if found.is_none() {
                found = Some(a.span);
            }
        }
        if call_or_bare && a.name.eq(&opts.skip_marker) {
            skipped = true;
        }
        if a.kind == AttrKind::Bare && name_in(&a.name, &opts.exempt) {
            exempt = true;
        }
        i = i + 1;
    }
    AnnotationState { instrumented, skipped, exempt, found }
}

/// Whether the item may be reported by a check or rewritten by a fix.
pub fn eligible(n: &FnNode, opts: &Options) -> (r: bool)
    ensures
        r == spec_eligible(*n, *opts),
{
    let st = check_attributes(&n.attrs, opts);
    !st.instrumented && !st.skipped && !st.exempt && !n.is_const
}

} // verus!
