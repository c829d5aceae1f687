//! Derivation of the canonical class identifier from a file stem.
//!
//! The stem is split on `-`; each nonempty segment contributes its first
//! character uppercased (ASCII letters only; anything else is kept as it is)
//! followed by the rest of the segment verbatim; the segments are joined with
//! no separator. A stem whose every segment is empty yields no identifier.

use crate::ParseError;
use vstd::prelude::*;

verus! {

/// `c` with an ASCII lowercase letter mapped to its uppercase form and every
/// other character unchanged.
pub open spec fn upper_char(c: char) -> char {
    if 97 <= c as u32 && c as u32 <= 122 {
        (((c as u32) - 32) as u8) as char
    } else {
        c
    }
}

/// The identifier characters contributed by `s`, where `boundary` records
/// whether the next content character starts a segment. A `-` consumes no
/// output and opens a new segment; a segment's first character is uppercased.
pub open spec fn derive_rec(s: Seq<char>, boundary: bool) -> Seq<char>
    decreases s.len(),
{
    if s.len() == 0 {
        Seq::empty()
    } else if s[0] == '-' {
        derive_rec(s.skip(1), true)
    } else if boundary {
        seq![upper_char(s[0])] + derive_rec(s.skip(1), false)
    } else {
        seq![s[0]] + derive_rec(s.skip(1), false)
    }
}

/// The identifier derived from the stem `s`.
pub open spec fn derived(s: Seq<char>) -> Seq<char> {
    derive_rec(s, true)
}

proof fn lemma_derive_rec_empty(s: Seq<char>, boundary: bool)
    ensures
        derive_rec(s, boundary).len() == 0 <==> (forall|i: int| 0 <= i < s.len() ==> s[i] == '-'),
    decreases s.len(),
{
    if s.len() > 0 {
        if s[0] == '-' {
            lemma_derive_rec_empty(s.skip(1), true);
            if derive_rec(s, boundary).len() == 0 {
                assert forall|i: int| 0 <= i < s.len() implies s[i] == '-' by {
                    if i > 0 {
                        assert(s.skip(1)[i - 1] == s[i]);
                    }
                }
            } else {
                let j = choose|j: int| 0 <= j < s.skip(1).len() && s.skip(1)[j] != '-';
                assert(s[j + 1] == s.skip(1)[j]);
            }
        }
    }
}

/// The derived identifier is empty exactly when every `-`-separated segment
/// of the stem is empty, that is, when every character of the stem is the
/// separator itself (an empty stem included).
pub proof fn lemma_derived_empty_iff_all_separators(s: Seq<char>)
    ensures
        derived(s).len() == 0 <==> (forall|i: int| 0 <= i < s.len() ==> s[i] == '-'),
{
    lemma_derive_rec_empty(s, true);
}

/// Relies on `String::push`: appends exactly the one character given.
#[verifier::external_body]
fn push_char(s: &mut String, c: char)
    ensures
        final(s)@ == old(s)@ + seq![c],
{
    s.push(c);
}

fn upper_char_exec(c: char) -> (r: char)
    ensures
        r == upper_char(c),
{
    let u = c as u32;
    if 97 <= u && u <= 122 {
        ((u - 32) as u8) as char
    } else {
        c
    }
}

/// Derives the canonical class identifier from the file stem, failing exactly
/// when every `-`-separated segment of the stem is empty.
pub fn derive_identifier(stem: &str) -> (r: Result<String, ParseError>)
    ensures
        derived(stem@).len() > 0 ==> (r matches Ok(id) && id@ == derived(stem@)),
        derived(stem@).len() == 0 ==> r == Err::<String, ParseError>(ParseError::InvalidIdentifier),
{
    let n = stem.unicode_len();
    let mut out = String::new();
    let mut boundary = true;
    let mut i: usize = 0;
    proof {
        assert(stem@.skip(0) =~= stem@);
        assert(out@ + derive_rec(stem@, true) =~= derive_rec(stem@, true));
    }
    while i < n
        invariant
            0 <= i <= n,
            n == stem@.len(),
            derived(stem@) == out@ + derive_rec(stem@.skip(i as int), boundary),
        decreases n - i,
    {
        let c = stem.get_char(i);
        proof {
            let t = stem@.skip(i as int);
            assert(t[0] == c);
            assert(t.skip(1) =~= stem@.skip(i + 1));
        }
        if c == '-' {
            boundary = true;
        } else if boundary {
            let ghost prev = out@;
            push_char(&mut out, upper_char_exec(c));
            boundary = false;
            proof {
                assert(prev + (seq![upper_char(c)] + derive_rec(stem@.skip(i + 1), false)) =~= out@
                    + derive_rec(stem@.skip(i + 1), false));
            }
        } else {
            let ghost prev = out@;
            push_char(&mut out, c);
            proof {
                assert(prev + (seq![c] + derive_rec(stem@.skip(i + 1), false)) =~= out@
                    + derive_rec(stem@.skip(i + 1), false));
            }
        }
        i = i + 1;
    }
    proof {
        assert(stem@.skip(n as int) =~= Seq::<char>::empty());
        assert(out@ + Seq::<char>::empty() =~= out@);
    }
    if out.unicode_len() == 0 {
        Err(ParseError::InvalidIdentifier)
    } else {
        Ok(out)
    }
}

} // verus!
