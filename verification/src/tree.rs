//! The plain data that one source file reduces to: every function-like item
//! with its attributes, its parameters, and its position, plus the
//! configuration that the classifier and the renderer consume.

use vstd::prelude::*;

verus! {

/// The operation to perform on one file's text.
#[derive(Clone, Copy, PartialEq, Eq, Structural, Debug)]
pub enum Action {
    /// Report the first function that lacks the instrumentation marker.
    Check,
    /// Insert a marker before every function that lacks one.
    Fix,
    /// Remove every instrumentation marker that is present.
    Strip,
}

/// The syntactic shape of one attribute.
#[derive(Clone, Copy, PartialEq, Eq, Structural, Debug)]
pub enum AttrKind {
    /// A bare path, `#[name]`.
    Bare,
    /// A call form with arguments, `#[name(...)]`.
    Call,
    /// A name-value pair, `#[name = value]`.
    NameValue,
}

/// A source region: 1-based lines and 0-based character columns, both ends
/// inclusive.
#[derive(Clone, Copy, PartialEq, Eq, Structural, Debug)]
pub struct Span {
    pub start_line: usize,
    pub start_col: usize,
    pub end_line: usize,
    pub end_col: usize,
}

/// One attribute of a function-like item: its shape, the final segment of its
/// path, and where it stands in the file.
#[derive(Clone, Debug)]
pub struct Attr {
    pub kind: AttrKind,
    /// The final segment of the attribute's path; empty for a name-value form.
    pub name: String,
    pub span: Span,
}

/// One field of a struct pattern standing in a parameter position.
#[derive(Clone, Debug)]
pub enum FieldBinding {
    /// A named field: the pattern binds the field under this name.
    Named(String),
    /// A positional field of a tuple struct; it contributes no name.
    Unnamed,
}

/// One parameter of a function signature, reduced to what the exclusion list
/// needs.
#[derive(Clone, Debug)]
pub enum Param {
    /// A receiver parameter such as `self` or `&mut self`.
    Receiver,
    /// A plain named parameter.
    Named(String),
    /// A struct pattern; its fields stand here in declaration order.
    Fields(Vec<FieldBinding>),
    /// Any other pattern; it contributes no names.
    Other,
}

/// One function-like item of the file: a free function or an associated
/// function of an implementation block.
pub struct FnNode {
    /// The item's attributes, in declaration order.
    pub attrs: Vec<Attr>,
    /// The parameters of the item's signature, in declaration order.
    pub params: Vec<Param>,
    /// Whether the signature is `const`-qualified.
    pub is_const: bool,
    /// The region the whole item occupies, its attributes included.
    pub span: Span,
    /// Function-like items nested inside this one's body, in declaration
    /// order.
    pub children: Vec<FnNode>,
}

/// The configuration that the classifier and the renderer consume.
#[derive(Clone, Debug)]
pub struct Options {
    /// A function carrying an attribute whose path ends in this segment, bare
    /// or call-style, counts as instrumented.
    pub marker: String,
    /// A function carrying an attribute whose path ends in this segment, bare
    /// or call-style, is left alone.
    pub skip_marker: String,
    /// A function carrying a bare attribute whose path ends in one of these
    /// segments is exempt (test-like).
    pub exempt: Vec<String>,
    /// The text that precedes the exclusion list in a rendered annotation.
    pub attr_head: String,
    /// The text that follows the exclusion list in a rendered annotation.
    pub attr_tail: String,
}

impl Options {
    /// The stock configuration: the `instrument` marker, the
    /// `clippy_tracing_skip` opt-out, `test` and `proof` as exemptions, and an
    /// annotation rendered under the `tracing::` prefix.
    pub fn standard() -> (r: Options)
        ensures
            r.marker@ == "instrument"@,
            r.skip_marker@ == "clippy_tracing_skip"@,
            r.exempt@.len() == 2,
            r.exempt@[0]@ == "test"@,
            r.exempt@[1]@ == "proof"@,
            r.attr_head@ == "#[tracing::instrument(level = \"trace\", skip("@,
            r.attr_tail@ == "))]"@,
    {
        let mut exempt: Vec<String> = Vec::new();
        exempt.push("test".to_owned());
        exempt.push("proof".to_owned());
        Options {
            marker: "instrument".to_owned(),
            skip_marker: "clippy_tracing_skip".to_owned(),
            exempt,
            attr_head: "#[tracing::instrument(level = \"trace\", skip(".to_owned(),
            attr_tail: "))]".to_owned(),
        }
    }

    /// The stock configuration with the rendered annotation's marker placed
    /// under the given path prefix instead of `tracing::` (the empty prefix
    /// renders a bare `instrument`).
    pub fn with_prefix(prefix: &str) -> (r: Options)
        ensures
            r.marker@ == "instrument"@,
            r.skip_marker@ == "clippy_tracing_skip"@,
            r.exempt@.len() == 2,
            r.exempt@[0]@ == "test"@,
            r.exempt@[1]@ == "proof"@,
            r.attr_head@ == "#["@ + prefix@ + "instrument(level = \"trace\", skip("@,
            r.attr_tail@ == "))]"@,
    {
        let mut head = "#[".to_owned();
        head.append(prefix);
        head.append("instrument(level = \"trace\", skip(");
        let mut r = Options::standard();
        r.attr_head = head;
        r
    }
}

} // verus!
