//! The signature analyzer and the annotation renderer: a signature's
//! parameters become an ordered exclusion list, and the list is rendered
//! between the configured head and tail of the annotation.

use vstd::prelude::*;

use crate::text::views_of;
use crate::tree::FieldBinding;
use crate::tree::Options;
use crate::tree::Param;

verus! {

/// The names the fields of a struct pattern contribute, from position `i` on:
/// each named field its name, positional fields nothing.
pub open spec fn spec_field_names_from(fs: Seq<FieldBinding>, i: int) -> Seq<Seq<char>>
    decreases fs.len() - i,
{
    if i < 0 || i >= fs.len() {
        Seq::empty()
    } else {
        (match fs[i] {
            FieldBinding::Named(s) => seq![s@],
            FieldBinding::Unnamed => Seq::<Seq<char>>::empty(),
        }) + spec_field_names_from(fs, i + 1)
    }
}

/// The names one parameter contributes to the exclusion list.
pub open spec fn spec_param_names(p: Param) -> Seq<Seq<char>> {
    match p {
        Param::Receiver => seq!["self"@],
        Param::Named(s) => seq![s@],
        Param::Fields(fs) => spec_field_names_from(fs@, 0),
        Param::Other => Seq::empty(),
    }
}

/// The exclusion list of the parameters from position `i` on.
pub open spec fn spec_exclusions_from(ps: Seq<Param>, i: int) -> Seq<Seq<char>>
    decreases ps.len() - i,
{
    if i < 0 || i >= ps.len() {
        Seq::empty()
    } else {
        spec_param_names(ps[i]) + spec_exclusions_from(ps, i + 1)
    }
}

/// The full exclusion list of a signature: the names of its parameters in
/// declaration order, kept as declared, duplicates included.
pub open spec fn spec_exclusions(ps: Seq<Param>) -> Seq<Seq<char>> {
    spec_exclusions_from(ps, 0)
}

/// The names joined with a comma and a space between each two.
pub open spec fn spec_comma_join(names: Seq<Seq<char>>) -> Seq<char>
    decreases names.len(),
{
    if names.len() == 0 {
        Seq::empty()
    } else if names.len() == 1 {
        names[0]
    } else {
        names[0] + seq![',', ' '] + spec_comma_join(names.drop_first())
    }
}

/// The rendered annotation for a signature: the configured head, the comma
/// separated exclusion list, and the configured tail.
pub open spec fn spec_annotation(ps: Seq<Param>, opts: Options) -> Seq<char> {
    opts.attr_head@ + spec_comma_join(spec_exclusions(ps)) + opts.attr_tail@
}

/// Joining one more name appends a separator and the name.
proof fn lemma_comma_join_push(names: Seq<Seq<char>>, l: Seq<char>)
    ensures
        names.len() == 0 ==> spec_comma_join(names.push(l)) == l,
        names.len() > 0 ==> spec_comma_join(names.push(l)) == spec_comma_join(names) + seq![
            ',',
            ' ',
        ] + l,
    decreases names.len(),
{
    if names.len() == 0 {
        assert(names.push(l)[0] == l);
    } else if names.len() == 1 {
        let p = names.push(l);
        assert(p.len() == 2);
        assert(p[0] == names[0]);
        assert(p.drop_first() =~= seq![l]);
        assert(spec_comma_join(p.drop_first()) == l);
        assert(spec_comma_join(p) == p[0] + seq![',', ' '] + spec_comma_join(p.drop_first()));
    } else {
        let p = names.push(l);
        assert(p.drop_first() =~= names.drop_first().push(l));
        lemma_comma_join_push(names.drop_first(), l);
        assert(spec_comma_join(p) == p[0] + seq![',', ' '] + spec_comma_join(
            names.drop_first().push(l),
        ));
        assert(spec_comma_join(names.push(l)) =~= spec_comma_join(names) + seq![',', ' '] + l);
    }
}

/// The exclusion list of a signature, as the analyzer computes it: a receiver
/// contributes `self`, a named parameter its name, a struct pattern the names
/// of its named fields in order, and any other pattern nothing.
pub fn exclusions(params: &Vec<Param>) -> (r: Vec<String>)
    ensures
        views_of(r@) == spec_exclusions(params@),
{
    let mut out: Vec<String> = Vec::new();
    let mut i: usize = 0;
    proof {
        assert(views_of(out@) + spec_exclusions_from(params@, 0) =~= spec_exclusions(params@));
    }
    while i < params.len()
        invariant
            i <= params@.len(),
            views_of(out@) + spec_exclusions_from(params@, i as int) == spec_exclusions(params@),
        decreases params@.len() - i,
    {
        let ghost before = views_of(out@);
        match &params[i] {
            Param::Receiver => {
                let s: String = "self".to_owned();
                proof {
                    crate::text::lemma_views_of_push(out@, s);
                    assert(before.push(s@) =~= before + spec_param_names(params@[i as int]));
                }
                out.push(s);
            },
            Param::Named(name) => {
                let s = name.clone();
                proof {
                    crate::text::lemma_views_of_push(out@, s);
                    assert(before.push(s@) =~= before + spec_param_names(params@[i as int]));
                }
                out.push(s);
            },
            Param::Fields(fs) => {
                let mut j: usize = 0;
                proof {
                    assert(before + spec_field_names_from(fs@, 0) =~= before
                        + spec_param_names(params@[i as int]));
                }
                while j < fs.len()
                    invariant
                        j <= fs@.len(),
                        views_of(out@) + spec_field_names_from(fs@, j as int) == before
                            + spec_param_names(params@[i as int]),
                    decreases fs@.len() - j,
                {
                    let ghost mid = views_of(out@);
                    match &fs[j] {
                        FieldBinding::Named(name) => {
                            let s = name.clone();
                            proof {
                                crate::text::lemma_views_of_push(out@, s);
                                assert(mid.push(s@) + spec_field_names_from(fs@, j + 1) =~= mid
                                    + spec_field_names_from(fs@, j as int));
                            }
                            out.push(s);
                        },
                        FieldBinding::Unnamed => {
                            proof {
                                assert(mid + spec_field_names_from(fs@, j + 1) =~= mid
                                    + spec_field_names_from(fs@, j as int));
                            }
                        },
                    }
                    j = j + 1;
                }
                proof {
                    assert(spec_field_names_from(fs@, fs@.len() as int)
                        == Seq::<Seq<char>>::empty());
                    assert(views_of(out@) + Seq::<Seq<char>>::empty() =~= views_of(out@));
                }
            },
            Param::Other => {
                proof {
                    assert(before + Seq::<Seq<char>>::empty() =~= before);
                }
            },
        }
        proof {
            assert((before + spec_param_names(params@[i as int])) + spec_exclusions_from(
                params@,
                i + 1,
            ) =~= before + spec_exclusions_from(params@, i as int));
        }
        i = i + 1;
    }
    proof {
        assert(views_of(out@) + spec_exclusions_from(params@, params@.len() as int) =~= views_of(
            out@,
        ));
    }
    out
}

/// The annotation to insert before an uninstrumented function with these
/// parameters: head, exclusion list, tail.
pub fn instrument(params: &Vec<Param>, opts: &Options) -> (r: String)
    ensures
        r@ == spec_annotation(params@, *opts),
{
    let names = exclusions(params);
    let mut r = opts.attr_head.clone();
    let mut i: usize = 0;
    proof {
        assert(views_of(names@.take(0)) =~= Seq::<Seq<char>>::empty());
        assert(opts.attr_head@ + spec_comma_join(Seq::<Seq<char>>::empty()) =~= opts.attr_head@);
    }
    while i < names.len()
        invariant
            i <= names@.len(),
            views_of(names@) == spec_exclusions(params@),
            r@ == opts.attr_head@ + spec_comma_join(views_of(names@.take(i as int))),
        decreases names@.len() - i,
    {
        if i > 0 {
            r.append(", ");
            proof {
                reveal_strlit(", ");
                assert(", "@ =~= seq![',', ' ']);
            }
        }
        r.append(names[i].as_str());
        proof {
            let prefix = views_of(names@.take(i as int));
            lemma_comma_join_push(prefix, names@[i as int]@);
            assert(views_of(names@.take(i + 1)) =~= prefix.push(names@[i as int]@));
        }
        i = i + 1;
    }
    r.append(opts.attr_tail.as_str());
    proof {
        assert(names@.take(names@.len() as int) =~= names@);
    }
    r
}

} // verus!
