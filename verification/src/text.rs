//! Shared model of script text: whitespace, prefixes, and physical lines.
//!
//! Scripts are processed line by line; a line is a maximal run of characters
//! between `\n` separators. Whitespace is the ASCII whitespace set; characters
//! outside it, including non-ASCII spacing characters, count as line content.

use vstd::prelude::*;

verus! {

/// ASCII whitespace, the characters stripped from the front of a line before
/// a declaration keyword is looked for.
pub open spec fn is_space(c: char) -> bool {
    c == ' ' || c == '\t' || c == '\n' || c == '\r' || c == '\x0b' || c == '\x0c'
}

/// The sequence with its leading whitespace removed.
pub open spec fn trim_leading(s: Seq<char>) -> Seq<char>
    decreases s.len(),
{
    if s.len() > 0 && is_space(s[0]) {
        trim_leading(s.skip(1))
    } else {
        s
    }
}

/// The sequence with its trailing whitespace removed.
pub open spec fn trim_trailing(s: Seq<char>) -> Seq<char>
    decreases s.len(),
{
    if s.len() > 0 && is_space(s[s.len() - 1]) {
        trim_trailing(s.take(s.len() - 1))
    } else {
        s
    }
}

/// The sequence with whitespace removed from both ends.
pub open spec fn trimmed(s: Seq<char>) -> Seq<char> {
    trim_trailing(trim_leading(s))
}

/// Number of characters `trim_trailing` keeps: the content ends where the
/// trailing whitespace run begins.
pub proof fn lemma_trim_trailing_take(s: Seq<char>, i: int)
    requires
        0 <= i <= s.len(),
        forall|x: int| i <= x < s.len() ==> is_space(s[x]),
        i == 0 || !is_space(s[i - 1]),
    ensures
        trim_trailing(s) == s.take(i),
    decreases s.len(),
{
    if s.len() == i {
        assert(s.take(i) =~= s);
    } else {
        assert(is_space(s[s.len() - 1]));
        let p = s.take(s.len() - 1);
        assert forall|x: int| i <= x < p.len() implies is_space(p[x]) by {
            assert(p[x] == s[x]);
        }
        if i > 0 {
            assert(p[i - 1] == s[i - 1]);
        }
        lemma_trim_trailing_take(p, i);
        assert(p.take(i) =~= s.take(i));
    }
}

/// Index at which the trailing whitespace of `s@.skip(from)` begins.
///
/// Afterwards `s@.skip(from).take(e - from)` is that suffix without its
/// trailing whitespace.
pub fn trim_end_from(s: &str, from: usize) -> (e: usize)
    requires
        from <= s@.len(),
    ensures
        from <= e <= s@.len(),
        trim_trailing(s@.skip(from as int)) == s@.skip(from as int).take(e - from),
{
    let n = s.unicode_len();
    let mut e: usize = n;
    while e > from && is_space_char(s.get_char(e - 1))
        invariant
            from <= e <= n,
            n == s@.len(),
            forall|x: int| e <= x < n ==> is_space(s@[x]),
        decreases e,
    {
        e = e - 1;
    }
    proof {
        let t = s@.skip(from as int);
        assert forall|x: int| e - from <= x < t.len() implies is_space(t[x]) by {
            assert(t[x] == s@[from + x]);
        }
        if e > from {
            assert(t[e - from - 1] == s@[e - 1]);
        }
        lemma_trim_trailing_take(t, e - from);
    }
    e
}

/// Index of the first occurrence of `c` in `s`, or -1 when `c` does not occur.
pub open spec fn first_index_of(s: Seq<char>, c: char) -> int
    decreases s.len(),
{
    if s.len() == 0 {
        -1
    } else if s[0] == c {
        0
    } else {
        let r = first_index_of(s.skip(1), c);
        if r < 0 {
            -1
        } else {
            r + 1
        }
    }
}

/// `first_index_of` finds an occurrence when there is one, and the earliest.
pub proof fn lemma_first_index_of(s: Seq<char>, c: char)
    ensures
        -1 <= first_index_of(s, c) < s.len(),
        first_index_of(s, c) >= 0 ==> s[first_index_of(s, c)] == c,
        first_index_of(s, c) >= 0 ==> forall|x: int|
            0 <= x < first_index_of(s, c) ==> s[x] != c,
        first_index_of(s, c) == -1 ==> forall|x: int| 0 <= x < s.len() ==> s[x] != c,
    decreases s.len(),
{
    if s.len() > 0 && s[0] != c {
        lemma_first_index_of(s.skip(1), c);
        let r = first_index_of(s.skip(1), c);
        assert forall|x: int| 1 <= x < s.len() implies s.skip(1)[x - 1] == s[x] by {}
        if r >= 0 {
            assert(s[r + 1] == s.skip(1)[r]);
        }
    }
}

/// `first_index_of` is pinned down by an occurrence with nothing equal before it.
pub proof fn lemma_first_index_of_is(s: Seq<char>, c: char, k: int)
    requires
        0 <= k < s.len(),
        s[k] == c,
        forall|x: int| 0 <= x < k ==> s[x] != c,
    ensures
        first_index_of(s, c) == k,
    decreases s.len(),
{
    if k > 0 {
        assert forall|x: int| 0 <= x < k - 1 implies s.skip(1)[x] != c by {
            assert(s.skip(1)[x] == s[x + 1]);
        }
        assert(s.skip(1)[k - 1] == s[k]);
        lemma_first_index_of_is(s.skip(1), c, k - 1);
    }
}

/// When `c` occurs nowhere in `s`, `first_index_of` reports -1.
pub proof fn lemma_first_index_of_none(s: Seq<char>, c: char)
    requires
        forall|x: int| 0 <= x < s.len() ==> s[x] != c,
    ensures
        first_index_of(s, c) == -1,
{
    lemma_first_index_of(s, c);
    if first_index_of(s, c) >= 0 {
        assert(s[first_index_of(s, c)] == c);
    }
}

/// No `\n` anywhere in the sequence: the mark of a single physical line.
pub open spec fn newline_free(l: Seq<char>) -> bool {
    forall|j: int| 0 <= j < l.len() ==> l[j] != '\n'
}

/// Every element is a single physical line.
pub open spec fn all_newline_free(ls: Seq<Seq<char>>) -> bool {
    forall|i: int| 0 <= i < ls.len() ==> newline_free(#[trigger] ls[i])
}

/// The physical lines of `s`: the segments between `\n` separators, in order,
/// each without its separator. Empty text has one empty line, and a trailing
/// `\n` contributes a final empty line.
pub open spec fn split_lines(s: Seq<char>) -> Seq<Seq<char>>
    decreases s.len(),
{
    let k = first_index_of(s, '\n');
    if k < 0 || k >= s.len() {
        seq![s]
    } else {
        seq![s.take(k)] + split_lines(s.skip(k + 1))
    }
}

/// The inverse of `split_lines` on line sequences: the lines joined by `\n`,
/// with no trailing separator.
pub open spec fn join_lines(ls: Seq<Seq<char>>) -> Seq<char>
    decreases ls.len(),
{
    if ls.len() == 0 {
        Seq::empty()
    } else if ls.len() == 1 {
        ls[0]
    } else {
        ls[0] + seq!['\n'] + join_lines(ls.skip(1))
    }
}

/// Each line that `split_lines` yields is free of `\n`.
pub proof fn lemma_split_lines_newline_free(s: Seq<char>)
    ensures
        all_newline_free(split_lines(s)),
    decreases s.len(),
{
    lemma_first_index_of(s, '\n');
    let k = first_index_of(s, '\n');
    if k < 0 {
        assert(split_lines(s) == seq![s]);
        assert(newline_free(s));
    } else {
        lemma_split_lines_newline_free(s.skip(k + 1));
        assert forall|j: int| 0 <= j < s.take(k).len() implies s.take(k)[j] != '\n' by {
            assert(s.take(k)[j] == s[j]);
        }
        assert(newline_free(s.take(k)));
        assert forall|i: int|
            0 <= i < split_lines(s).len() implies newline_free(#[trigger] split_lines(s)[i]) by {
            if i == 0 {
            } else {
                assert(split_lines(s)[i] == split_lines(s.skip(k + 1))[i - 1]);
            }
        }
    }
}

/// Splitting after joining gives the lines back, for any nonempty sequence of
/// single physical lines.
pub proof fn lemma_split_join(ls: Seq<Seq<char>>)
    requires
        ls.len() >= 1,
        all_newline_free(ls),
    ensures
        split_lines(join_lines(ls)) == ls,
    decreases ls.len(),
{
    if ls.len() == 1 {
        lemma_first_index_of_none(ls[0], '\n');
        assert(split_lines(join_lines(ls)) =~= ls);
    } else {
        let a = ls[0];
        let j = join_lines(ls);
        let rest = join_lines(ls.skip(1));
        assert(j == a + seq!['\n'] + rest);
        let m = a.len() as int;
        assert(j[m] == '\n');
        assert forall|x: int| 0 <= x < m implies j[x] != '\n' by {
            assert(j[x] == a[x]);
        }
        lemma_first_index_of_is(j, '\n', m);
        assert(j.take(m) =~= a);
        assert(j.skip(m + 1) =~= rest);
        assert forall|i: int|
            0 <= i < ls.skip(1).len() implies newline_free(#[trigger] ls.skip(1)[i]) by {
            assert(ls.skip(1)[i] == ls[i + 1]);
        }
        lemma_split_join(ls.skip(1));
        assert(split_lines(j) =~= seq![a] + ls.skip(1));
        assert(seq![a] + ls.skip(1) =~= ls);
    }
}

/// Number of characters `trim_leading` removes: the whitespace prefix ends at
/// the returned index.
pub proof fn lemma_trim_leading_skip(s: Seq<char>, i: int)
    requires
        0 <= i <= s.len(),
        forall|x: int| 0 <= x < i ==> is_space(s[x]),
        i == s.len() || !is_space(s[i]),
    ensures
        trim_leading(s) == s.skip(i),
    decreases i,
{
    if i == 0 {
        assert(s.skip(0) =~= s);
    } else {
        assert(is_space(s[0]));
        assert forall|x: int| 0 <= x < i - 1 implies is_space(s.skip(1)[x]) by {
            assert(s.skip(1)[x] == s[x + 1]);
        }
        if i < s.len() {
            assert(s.skip(1)[i - 1] == s[i]);
        }
        lemma_trim_leading_skip(s.skip(1), i - 1);
        assert(s.skip(1).skip(i - 1) =~= s.skip(i));
    }
}

/// Index just past the whitespace run of `s` that begins at `from`.
///
/// Afterwards `s@.skip(i)` is the trimmed remainder of `s@.skip(from)`.
pub fn skip_spaces_from(s: &str, from: usize) -> (i: usize)
    requires
        from <= s@.len(),
    ensures
        from <= i <= s@.len(),
        trim_leading(s@.skip(from as int)) == s@.skip(i as int),
{
    let n = s.unicode_len();
    let mut i: usize = from;
    while i < n && is_space_char(s.get_char(i))
        invariant
            from <= i <= n,
            n == s@.len(),
            forall|x: int| from <= x < i ==> is_space(s@[x]),
        decreases n - i,
    {
        i = i + 1;
    }
    proof {
        let t = s@.skip(from as int);
        assert forall|x: int| 0 <= x < i - from implies is_space(t[x]) by {
            assert(t[x] == s@[from + x]);
        }
        if i < n {
            assert(t[i - from] == s@[i as int]);
        }
        lemma_trim_leading_skip(t, i - from);
        assert(t.skip(i - from) =~= s@.skip(i as int));
    }
    i
}

/// Whether `c` is ASCII whitespace.
pub fn is_space_char(c: char) -> (b: bool)
    ensures
        b == is_space(c),
{
    c == ' ' || c == '\t' || c == '\n' || c == '\r' || c == '\x0b' || c == '\x0c'
}

/// Whether `p` occurs at position `from` of `s`.
pub fn has_prefix_from(s: &str, from: usize, p: &str) -> (b: bool)
    requires
        from <= s@.len(),
    ensures
        b == p@.is_prefix_of(s@.skip(from as int)),
{
    let n = s.unicode_len();
    let m = p.unicode_len();
    if m > n - from {
        return false;
    }
    let mut j: usize = 0;
    while j < m
        invariant
            0 <= j <= m,
            m == p@.len(),
            n == s@.len(),
            from + m <= n,
            forall|x: int| 0 <= x < j ==> s@[from + x] == p@[x],
        decreases m - j,
    {
        if s.get_char(from + j) != p.get_char(j) {
            proof {
                let t = s@.skip(from as int);
                assert(t.subrange(0, m as int)[j as int] == s@[from + j]);
            }
            return false;
        }
        j = j + 1;
    }
    proof {
        let t = s@.skip(from as int);
        assert forall|x: int| 0 <= x < m implies t.subrange(0, m as int)[x] == p@[x] by {
            assert(t.subrange(0, m as int)[x] == s@[from + x]);
        }
        assert(t.subrange(0, m as int) =~= p@);
    }
    true
}

/// Position of the first `c` at or after `from` in `s`, if any.
pub fn find_char_from(s: &str, from: usize, c: char) -> (r: Option<usize>)
    requires
        from <= s@.len(),
    ensures
        match r {
            Some(e) => from <= e < s@.len() && s@[e as int] == c && forall|x: int|
                from <= x < e ==> s@[x] != c,
            None => forall|x: int| from <= x < s@.len() ==> s@[x] != c,
        },
{
    let n = s.unicode_len();
    let mut i: usize = from;
    while i < n
        invariant
            from <= i <= n,
            n == s@.len(),
            forall|x: int| from <= x < i ==> s@[x] != c,
        decreases n - i,
    {
        if s.get_char(i) == c {
            return Some(i);
        }
        i = i + 1;
    }
    None
}

} // verus!
