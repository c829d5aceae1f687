//! Selection of the declarative metadata lines of a script.
//!
//! A line is retained when its content, after leading whitespace, starts with
//! `desc `, `homepage `, `url `, or exactly `sha256 "`. The last shape keeps
//! the package's primary checksum declaration, whose argument is a bare quoted
//! string, and excludes auxiliary checksum entries, which put a keyword
//! argument after `sha256`. Every other line — installation steps, blocks,
//! comments — is dropped whole; a declaration split over several physical
//! lines is not recognized. Retained lines keep their content and their
//! relative order, so a later declaration of a field still overrides an
//! earlier one.

use crate::text::{
    all_newline_free, has_prefix_from, join_lines, lemma_first_index_of_is,
    lemma_first_index_of_none, lemma_split_join, lemma_split_lines_newline_free, newline_free,
    skip_spaces_from, split_lines, trim_end_from, trim_leading, trim_trailing, trimmed,
};
use vstd::prelude::*;

verus! {

/// Whether the filter keeps the line `l`: its content, whitespace at either
/// end aside, opens with a recognized declaration.
pub open spec fn line_retained(l: Seq<char>) -> bool {
    let t = trimmed(l);
    "desc "@.is_prefix_of(t) || "homepage "@.is_prefix_of(t) || "url "@.is_prefix_of(t)
        || "sha256 \""@.is_prefix_of(t)
}

/// The retained lines of `ls`, in order.
pub open spec fn keep_retained(ls: Seq<Seq<char>>) -> Seq<Seq<char>>
    decreases ls.len(),
{
    if ls.len() == 0 {
        Seq::empty()
    } else if line_retained(ls[0]) {
        seq![ls[0]] + keep_retained(ls.skip(1))
    } else {
        keep_retained(ls.skip(1))
    }
}

/// What `filter` returns: the retained lines of the source, joined by `\n`.
pub open spec fn filter_spec(s: Seq<char>) -> Seq<char> {
    join_lines(keep_retained(split_lines(s)))
}

proof fn lemma_keep_retained_push(ls: Seq<Seq<char>>, l: Seq<char>)
    ensures
        keep_retained(ls.push(l)) == keep_retained(ls) + (if line_retained(l) {
            seq![l]
        } else {
            Seq::<Seq<char>>::empty()
        }),
    decreases ls.len(),
{
    let tail: Seq<Seq<char>> = if line_retained(l) {
        seq![l]
    } else {
        Seq::empty()
    };
    if ls.len() == 0 {
        assert(ls.push(l) =~= seq![l]);
        assert(seq![l].skip(1) =~= Seq::<Seq<char>>::empty());
        assert(keep_retained(Seq::<Seq<char>>::empty()) =~= Seq::<Seq<char>>::empty());
        assert(keep_retained(ls.push(l)) =~= keep_retained(ls) + tail);
    } else {
        assert(ls.push(l)[0] == ls[0]);
        assert(ls.push(l).skip(1) =~= ls.skip(1).push(l));
        lemma_keep_retained_push(ls.skip(1), l);
        if line_retained(ls[0]) {
            assert(seq![ls[0]] + (keep_retained(ls.skip(1)) + tail) =~= (seq![ls[0]]
                + keep_retained(ls.skip(1))) + tail);
        }
    }
}

proof fn lemma_join_lines_push(ls: Seq<Seq<char>>, l: Seq<char>)
    ensures
        ls.len() == 0 ==> join_lines(ls.push(l)) == l,
        ls.len() > 0 ==> join_lines(ls.push(l)) == join_lines(ls) + seq!['\n'] + l,
    decreases ls.len(),
{
    if ls.len() == 0 {
        assert(ls.push(l) =~= seq![l]);
    } else if ls.len() == 1 {
        assert(ls.push(l).skip(1) =~= seq![l]);
        assert(join_lines(seq![l]) == l);
        assert(join_lines(ls.push(l)) == ls[0] + seq!['\n'] + l);
        assert(join_lines(ls) == ls[0]);
    } else {
        assert(ls.push(l).skip(1) =~= ls.skip(1).push(l));
        lemma_join_lines_push(ls.skip(1), l);
        assert(ls[0] + seq!['\n'] + (join_lines(ls.skip(1)) + seq!['\n'] + l) =~= (ls[0]
            + seq!['\n'] + join_lines(ls.skip(1))) + seq!['\n'] + l);
    }
}

proof fn lemma_keep_retained_all(ls: Seq<Seq<char>>)
    requires
        forall|i: int| 0 <= i < ls.len() ==> line_retained(#[trigger] ls[i]),
    ensures
        keep_retained(ls) == ls,
    decreases ls.len(),
{
    if ls.len() > 0 {
        assert forall|i: int|
            0 <= i < ls.skip(1).len() implies line_retained(#[trigger] ls.skip(1)[i]) by {
            assert(ls.skip(1)[i] == ls[i + 1]);
        }
        lemma_keep_retained_all(ls.skip(1));
        assert(seq![ls[0]] + ls.skip(1) =~= ls);
    }
}

proof fn lemma_keep_retained_elems(ls: Seq<Seq<char>>)
    ensures
        forall|i: int|
            0 <= i < keep_retained(ls).len() ==> line_retained(#[trigger] keep_retained(ls)[i]),
        all_newline_free(ls) ==> all_newline_free(keep_retained(ls)),
    decreases ls.len(),
{
    if ls.len() > 0 {
        lemma_keep_retained_elems(ls.skip(1));
        if all_newline_free(ls) {
            assert forall|i: int|
                0 <= i < ls.skip(1).len() implies newline_free(#[trigger] ls.skip(1)[i]) by {
                assert(ls.skip(1)[i] == ls[i + 1]);
            }
            assert(newline_free(ls[0]));
        }
        if line_retained(ls[0]) {
            let k = keep_retained(ls);
            assert forall|i: int| 0 <= i < k.len() implies line_retained(#[trigger] k[i]) by {
                if i > 0 {
                    assert(k[i] == keep_retained(ls.skip(1))[i - 1]);
                }
            }
            if all_newline_free(ls) {
                assert forall|i: int| 0 <= i < k.len() implies newline_free(#[trigger] k[i]) by {
                    if i > 0 {
                        assert(k[i] == keep_retained(ls.skip(1))[i - 1]);
                    }
                }
            }
        }
    }
}

proof fn lemma_empty_line_not_retained()
    ensures
        !line_retained(Seq::<char>::empty()),
{
    reveal_strlit("desc ");
    reveal_strlit("homepage ");
    reveal_strlit("url ");
    reveal_strlit("sha256 \"");
    assert(trim_leading(Seq::<char>::empty()) == Seq::<char>::empty());
    assert(trim_trailing(Seq::<char>::empty()) == Seq::<char>::empty());
}

/// Filtering is idempotent: the retained lines of an already filtered text are
/// all of its lines, so filtering it again changes nothing.
pub proof fn lemma_filter_idempotent(x: Seq<char>)
    ensures
        filter_spec(filter_spec(x)) == filter_spec(x),
{
    let ks = keep_retained(split_lines(x));
    lemma_split_lines_newline_free(x);
    lemma_keep_retained_elems(split_lines(x));
    if ks.len() == 0 {
        assert(filter_spec(x) == Seq::<char>::empty());
        lemma_first_index_of_none(Seq::<char>::empty(), '\n');
        assert(split_lines(Seq::<char>::empty()) == seq![Seq::<char>::empty()]);
        lemma_empty_line_not_retained();
        assert(seq![Seq::<char>::empty()].skip(1) =~= Seq::<Seq<char>>::empty());
        assert(keep_retained(Seq::<Seq<char>>::empty()) =~= Seq::<Seq<char>>::empty());
        assert(keep_retained(seq![Seq::<char>::empty()]) =~= Seq::<Seq<char>>::empty());
        assert(filter_spec(filter_spec(x)) == join_lines(Seq::<Seq<char>>::empty()));
    } else {
        lemma_split_join(ks);
        lemma_keep_retained_all(ks);
    }
}

fn has_trimmed_prefix(l: &str, k: usize, e: usize, p: &str) -> (b: bool)
    requires
        k <= e <= l@.len(),
    ensures
        b == p@.is_prefix_of(l@.skip(k as int).take(e - k)),
{
    let m = p.unicode_len();
    if m > e - k {
        return false;
    }
    let b = has_prefix_from(l, k, p);
    proof {
        let t = l@.skip(k as int).take(e - k);
        assert(t.subrange(0, m as int) =~= l@.skip(k as int).subrange(0, m as int));
    }
    b
}

/// Whether the filter keeps the line `l`.
pub fn line_retained_exec(l: &str) -> (b: bool)
    ensures
        b == line_retained(l@),
{
    let k = skip_spaces_from(l, 0);
    let e = trim_end_from(l, k);
    proof {
        assert(l@.skip(0) =~= l@);
    }
    has_trimmed_prefix(l, k, e, "desc ") || has_trimmed_prefix(l, k, e, "homepage ")
        || has_trimmed_prefix(l, k, e, "url ") || has_trimmed_prefix(l, k, e, "sha256 \"")
}

fn append_line(out: &mut String, any: &mut bool, line: &str)
    ensures
        line_retained(line@) ==> final(out)@ == (if *old(any) {
            old(out)@ + seq!['\n']
        } else {
            old(out)@
        }) + line@ && *final(any),
        !line_retained(line@) ==> final(out)@ == old(out)@ && *final(any) == *old(any),
{
    if line_retained_exec(line) {
        if *any {
            out.append("\n");
            proof {
                reveal_strlit("\n");
                assert("\n"@ =~= seq!['\n']);
            }
        }
        out.append(line);
        *any = true;
    }
}

/// Returns the retained lines of `source`, joined by `\n` with no trailing
/// separator; empty when no line is retained.
pub fn filter(source: &str) -> (r: String)
    ensures
        r@ == filter_spec(source@),
{
    let n = source.unicode_len();
    let mut out = String::new();
    let mut any = false;
    let mut start: usize = 0;
    let mut i: usize = 0;
    let ghost mut done: Seq<Seq<char>> = Seq::empty();
    proof {
        assert(source@.skip(0) =~= source@);
        assert(done + split_lines(source@) =~= split_lines(source@));
    }
    while i < n
        invariant
            0 <= start <= i <= n,
            n == source@.len(),
            split_lines(source@) == done + split_lines(source@.skip(start as int)),
            forall|x: int| start <= x < i ==> source@[x] != '\n',
            out@ == join_lines(keep_retained(done)),
            any <==> keep_retained(done).len() > 0,
        decreases n - i,
    {
        let c = source.get_char(i);
        if c == '\n' {
            let line = source.substring_char(start, i);
            proof {
                let t = source@.skip(start as int);
                let k = i - start;
                assert(t[k] == source@[i as int]);
                assert forall|x: int| 0 <= x < k implies t[x] != '\n' by {
                    assert(t[x] == source@[start + x]);
                }
                lemma_first_index_of_is(t, '\n', k);
                assert(t.take(k) =~= line@);
                assert(t.skip(k + 1) =~= source@.skip(i + 1));
                assert(split_lines(t) == seq![line@] + split_lines(source@.skip(i + 1)));
                assert(done + (seq![line@] + split_lines(source@.skip(i + 1))) =~= done.push(line@)
                    + split_lines(source@.skip(i + 1)));
                lemma_keep_retained_push(done, line@);
                lemma_join_lines_push(keep_retained(done), line@);
                if line_retained(line@) {
                    assert(keep_retained(done.push(line@)) =~= keep_retained(done).push(line@));
                } else {
                    assert(keep_retained(done.push(line@)) =~= keep_retained(done));
                }
            }
            append_line(&mut out, &mut any, line);
            proof {
                done = done.push(line@);
            }
            start = i + 1;
        }
        i = i + 1;
    }
    let line = source.substring_char(start, n);
    proof {
        let t = source@.skip(start as int);
        assert forall|x: int| 0 <= x < t.len() implies t[x] != '\n' by {
            assert(t[x] == source@[start + x]);
        }
        lemma_first_index_of_none(t, '\n');
        assert(split_lines(t) == seq![t]);
        assert(t =~= line@);
        assert(done + seq![line@] =~= done.push(line@));
        lemma_keep_retained_push(done, line@);
        lemma_join_lines_push(keep_retained(done), line@);
        if line_retained(line@) {
            assert(keep_retained(done.push(line@)) =~= keep_retained(done).push(line@));
        } else {
            assert(keep_retained(done.push(line@)) =~= keep_retained(done));
        }
    }
    append_line(&mut out, &mut any, line);
    proof {
        done = done.push(line@);
        assert(split_lines(source@) == done);
    }
    out
}

} // verus!
