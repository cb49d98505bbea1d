//! Physical lines of a file: splitting text at newlines, joining lines back
//! with newlines, and the round trip between the two.

use vstd::prelude::*;

verus! {

/// The views of a sequence of strings.
pub open spec fn views_of(v: Seq<String>) -> Seq<Seq<char>> {
    v.map_values(|s: String| s@)
}

/// Holds when a piece of text contains no newline, as every segment produced
/// by `spec_split` does.
pub open spec fn no_newline(l: Seq<char>) -> bool {
    forall|j: int| 0 <= j < l.len() ==> l[j] != '\n'
}

/// The physical lines of `s`: the segments between newlines, one more segment
/// than there are newlines, so that empty text is one empty line and text
/// ending in a newline ends with an empty line.
pub open spec fn spec_split(s: Seq<char>) -> Seq<Seq<char>>
    decreases s.len(),
{
    if s.len() == 0 {
        seq![Seq::<char>::empty()]
    } else if s[0] == '\n' {
        seq![Seq::<char>::empty()] + spec_split(s.drop_first())
    } else {
        let rest = spec_split(s.drop_first());
        seq![seq![s[0]] + rest[0]] + rest.drop_first()
    }
}

/// The segments joined back with a single newline between each two.
pub open spec fn spec_join(lines: Seq<Seq<char>>) -> Seq<char>
    decreases lines.len(),
{
    if lines.len() == 0 {
        Seq::empty()
    } else if lines.len() == 1 {
        lines[0]
    } else {
        lines[0] + seq!['\n'] + spec_join(lines.drop_first())
    }
}

pub proof fn lemma_views_of_push(v: Seq<String>, s: String)
    ensures
        views_of(v.push(s)) == views_of(v).push(s@),
{
    assert(views_of(v.push(s)) =~= views_of(v).push(s@));
}

/// Splitting produces at least one segment.
pub proof fn lemma_split_nonempty(s: Seq<char>)
    ensures
        spec_split(s).len() >= 1,
    decreases s.len(),
{
    if s.len() > 0 {
        lemma_split_nonempty(s.drop_first());
    }
}

/// No segment of a split contains a newline.
pub proof fn lemma_split_no_newline(s: Seq<char>)
    ensures
        forall|i: int| 0 <= i < spec_split(s).len() ==> no_newline(#[trigger] spec_split(s)[i]),
    decreases s.len(),
{
    if s.len() == 0 {
        assert(no_newline(spec_split(s)[0]));
    } else if s[0] == '\n' {
        lemma_split_no_newline(s.drop_first());
        let rest = spec_split(s.drop_first());
        assert forall|i: int| 0 <= i < spec_split(s).len() implies no_newline(
            #[trigger] spec_split(s)[i],
        ) by {
            if i == 0 {
                assert(no_newline(Seq::<char>::empty()));
            } else {
                assert(spec_split(s)[i] == rest[i - 1]);
            }
        }
    } else {
        lemma_split_no_newline(s.drop_first());
        lemma_split_nonempty(s.drop_first());
        let rest = spec_split(s.drop_first());
        let head = seq![s[0]] + rest[0];
        assert forall|j: int| 0 <= j < head.len() implies head[j] != '\n' by {
            if j == 0 {
                assert(head[0] == s[0]);
            } else {
                assert(head[j] == rest[0][j - 1]);
                assert(no_newline(rest[0]));
            }
        }
        assert forall|i: int| 0 <= i < spec_split(s).len() implies no_newline(
            #[trigger] spec_split(s)[i],
        ) by {
            if i == 0 {
                assert(spec_split(s)[0] == head);
            } else {
                assert(spec_split(s)[i] == rest[i]);
            }
        }
    }
}

/// Where the first newline of `s` stands (at `i`, or nowhere when `i` is the
/// length), the split opens with the text before it.
proof fn lemma_split_first_newline(s: Seq<char>, i: int)
    requires
        0 <= i <= s.len(),
        forall|j: int| 0 <= j < i ==> s[j] != '\n',
    ensures
        i == s.len() ==> spec_split(s) == seq![s],
        i < s.len() && s[i] == '\n' ==> spec_split(s) == seq![s.subrange(0, i)] + spec_split(
            s.skip(i + 1),
        ),
    decreases i,
{
    if i == 0 {
        if i == s.len() {
            assert(s =~= Seq::<char>::empty());
            assert(spec_split(s) =~= seq![s]);
        } else if s[0] == '\n' {
            assert(s.subrange(0, 0) =~= Seq::<char>::empty());
            assert(s.skip(1) =~= s.drop_first());
            assert(spec_split(s) =~= seq![s.subrange(0, 0)] + spec_split(s.skip(1)));
        }
    } else {
        let d = s.drop_first();
        lemma_split_first_newline(d, i - 1);
        let rest = spec_split(d);
        if i == s.len() {
            assert(rest == seq![d]);
            assert(seq![s[0]] + rest[0] =~= s);
            assert(spec_split(s) =~= seq![s]);
        } else if s[i] == '\n' {
            assert(d[i - 1] == s[i]);
            assert(rest == seq![d.subrange(0, i - 1)] + spec_split(d.skip(i)));
            assert(seq![s[0]] + rest[0] =~= s.subrange(0, i));
            assert(rest.drop_first() =~= spec_split(d.skip(i)));
            assert(d.skip(i) =~= s.skip(i + 1));
            assert(spec_split(s) =~= seq![s.subrange(0, i)] + spec_split(s.skip(i + 1)));
        }
    }
}

/// Joining the split of any text gives the text back.
pub proof fn lemma_join_split(s: Seq<char>)
    ensures
        spec_join(spec_split(s)) == s,
    decreases s.len(),
{
    if s.len() == 0 {
        assert(spec_join(spec_split(s)) =~= s);
    } else if s[0] == '\n' {
        lemma_join_split(s.drop_first());
        lemma_split_nonempty(s.drop_first());
        let sp = seq![Seq::<char>::empty()] + spec_split(s.drop_first());
        assert(sp.drop_first() =~= spec_split(s.drop_first()));
        assert(spec_join(sp) =~= s);
    } else {
        lemma_join_split(s.drop_first());
        lemma_split_nonempty(s.drop_first());
        let rest = spec_split(s.drop_first());
        let sp = seq![seq![s[0]] + rest[0]] + rest.drop_first();
        if rest.len() == 1 {
            assert(spec_join(rest) == rest[0]);
            assert(sp.len() == 1);
            assert(spec_join(sp) == seq![s[0]] + rest[0]);
            assert(spec_join(sp) =~= s);
        } else {
            assert(sp.drop_first() =~= rest.drop_first());
            assert(spec_join(sp) == sp[0] + seq!['\n'] + spec_join(rest.drop_first()));
            assert(spec_join(rest) == rest[0] + seq!['\n'] + spec_join(rest.drop_first()));
            assert(spec_join(sp) =~= seq![s[0]] + spec_join(rest));
            assert(seq![s[0]] + spec_join(rest) =~= s);
        }
    }
}

/// Splitting the join of newline-free segments gives the segments back.
pub proof fn lemma_split_join(lines: Seq<Seq<char>>)
    requires
        lines.len() >= 1,
        forall|i: int| 0 <= i < lines.len() ==> no_newline(#[trigger] lines[i]),
    ensures
        spec_split(spec_join(lines)) == lines,
    decreases lines.len(),
{
    let s = spec_join(lines);
    if lines.len() == 1 {
        lemma_split_first_newline(s, s.len() as int);
        assert(spec_split(s) =~= lines);
    } else {
        let l0 = lines[0];
        assert(s == l0 + seq!['\n'] + spec_join(lines.drop_first()));
        assert forall|j: int| 0 <= j < l0.len() implies s[j] != '\n' by {
            assert(s[j] == l0[j]);
        }
        assert(s[l0.len() as int] == '\n');
        lemma_split_first_newline(s, l0.len() as int);
        assert(s.subrange(0, l0.len() as int) =~= l0);
        assert(s.skip(l0.len() as int + 1) =~= spec_join(lines.drop_first()));
        lemma_split_join(lines.drop_first());
        assert(spec_split(s) =~= lines);
    }
}

/// Joining one more segment appends a newline and the segment.
proof fn lemma_join_push(lines: Seq<Seq<char>>, l: Seq<char>)
    ensures
        lines.len() == 0 ==> spec_join(lines.push(l)) == l,
        lines.len() > 0 ==> spec_join(lines.push(l)) == spec_join(lines) + seq!['\n'] + l,
    decreases lines.len(),
{
    if lines.len() == 0 {
        assert(lines.push(l)[0] == l);
    } else if lines.len() == 1 {
        let p = lines.push(l);
        assert(p.len() == 2);
        assert(p[0] == lines[0]);
        assert(p.drop_first() =~= seq![l]);
        assert(p.drop_first().len() == 1);
        assert(spec_join(p.drop_first()) == p.drop_first()[0]);
        assert(p.drop_first()[0] == l);
        assert(spec_join(p) == p[0] + seq!['\n'] + spec_join(p.drop_first()));
        assert(spec_join(p) == lines[0] + seq!['\n'] + l);
    } else {
        let p = lines.push(l);
        assert(p.drop_first() =~= lines.drop_first().push(l));
        lemma_join_push(lines.drop_first(), l);
        assert(spec_join(p) == p[0] + seq!['\n'] + spec_join(lines.drop_first().push(l)));
        assert(spec_join(lines.push(l)) =~= spec_join(lines) + seq!['\n'] + l);
    }
}

/// `k` spaces of indentation.
pub open spec fn spec_spaces(k: int) -> Seq<char> {
    Seq::new(
        if k >= 0 {
            k as nat
        } else {
            0
        },
        |i: int| ' ',
    )
}

/// A run of `k` spaces.
pub fn spaces(k: usize) -> (r: String)
    ensures
        r@ == spec_spaces(k as int),
{
    let mut r = String::new();
    let mut i: usize = 0;
    proof {
        assert(r@ =~= spec_spaces(0));
    }
    while i < k
        invariant
            i <= k,
            r@ == spec_spaces(i as int),
        decreases k - i,
    {
        r.append(" ");
        proof {
            reveal_strlit(" ");
            assert(" "@ =~= seq![' ']);
            assert(spec_spaces(i as int) + seq![' '] =~= spec_spaces(i + 1));
        }
        i = i + 1;
    }
    r
}

/// The text split into its physical lines.
pub fn split_lines(text: &str) -> (r: Vec<String>)
    ensures
        views_of(r@) == spec_split(text@),
{
    let n = text.unicode_len();
    let mut out: Vec<String> = Vec::new();
    let mut start: usize = 0;
    let mut pos: usize = 0;
    proof {
        assert(views_of(out@) =~= Seq::<Seq<char>>::empty());
        assert(text@.skip(0) =~= text@);
    }
    while pos < n
        invariant
            n == text@.len(),
            start <= pos <= n,
            forall|j: int| start <= j < pos ==> text@[j] != '\n',
            spec_split(text@) == views_of(out@) + spec_split(text@.skip(start as int)),
        decreases n - pos,
    {
        let c = text.get_char(pos);
        if c == '\n' {
            let line = text.substring_char(start, pos).to_owned();
            proof {
                let suffix = text@.skip(start as int);
                assert forall|j: int| 0 <= j < pos - start implies suffix[j] != '\n' by {
                    assert(suffix[j] == text@[start + j]);
                }
                assert(suffix[pos - start] == '\n');
                lemma_split_first_newline(suffix, pos - start);
                assert(suffix.subrange(0, pos - start) =~= text@.subrange(
                    start as int,
                    pos as int,
                ));
                assert(suffix.skip(pos - start + 1) =~= text@.skip(pos + 1));
                lemma_views_of_push(out@, line);
                assert(views_of(out@).push(line@) + spec_split(text@.skip(pos + 1))
                    =~= views_of(out@) + spec_split(suffix));
            }
            out.push(line);
            start = pos + 1;
        }
        pos = pos + 1;
    }
    let last = text.substring_char(start, n).to_owned();
    proof {
        let suffix = text@.skip(start as int);
        assert forall|j: int| 0 <= j < suffix.len() implies suffix[j] != '\n' by {
            assert(suffix[j] == text@[start + j]);
        }
        lemma_split_first_newline(suffix, suffix.len() as int);
        assert(suffix =~= text@.subrange(start as int, n as int));
        lemma_views_of_push(out@, last);
        assert(views_of(out@).push(last@) =~= views_of(out@) + spec_split(suffix));
    }
    out.push(last);
    out
}

/// The segments joined with single newlines.
pub fn join_lines(lines: &Vec<String>) -> (r: String)
    ensures
        r@ == spec_join(views_of(lines@)),
{
    let mut r = String::new();
    let mut i: usize = 0;
    while i < lines.len()
        invariant
            i <= lines@.len(),
            r@ == spec_join(views_of(lines@.take(i as int))),
        decreases lines@.len() - i,
    {
        if i > 0 {
            r.append("\n");
            proof {
                reveal_strlit("\n");
                assert("\n"@ =~= seq!['\n']);
            }
        }
        r.append(lines[i].as_str());
        proof {
            let prefix = views_of(lines@.take(i as int));
            lemma_join_push(prefix, lines@[i as int]@);
            assert(views_of(lines@.take(i + 1)) =~= prefix.push(lines@[i as int]@));
        }
        i = i + 1;
    }
    proof {
        assert(lines@.take(lines@.len() as int) =~= lines@);
    }
    r
}

} // verus!
