//! Evaluation of filtered script lines inside the restricted capture
//! environment.
//!
//! The evaluator reads one physical line at a time. A recognized declaration
//! keyword followed by a single double-quoted string literal stores the
//! literal's content in the capture record, a later declaration overriding an
//! earlier one. Blank lines, comment lines, the forward-compatible no-op
//! declarations, and declarations whose argument is not a string literal are
//! accepted and record nothing. A malformed literal on a declaration line — an
//! unterminated quote, or trailing content after the closing quote — rejects
//! the whole evaluation. Nothing is ever executed: evaluation only records and
//! returns values.

use crate::capture::{
    apply_capture, empty_captured, field_of, CapturedAttributes, CapturedView, FieldKind,
};
use crate::text::{
    find_char_from, first_index_of, has_prefix_from, lemma_first_index_of_is,
    lemma_first_index_of_none, skip_spaces_from, split_lines, trim_leading,
};
use crate::ParseError;
use vstd::prelude::*;

verus! {

/// The effect of one line on the capture record.
pub enum LineOutcome {
    /// The line stores nothing: blank, comment, no-op declaration, or a
    /// declaration whose argument is not a string literal.
    Skip,
    /// The line stores the literal's content in the given field.
    Capture(FieldKind, Seq<char>),
    /// The line's literal is malformed; the evaluation fails.
    Reject,
}

/// The characters of the declaration keyword for `k`, including the
/// separating space.
pub open spec fn keyword_seq(k: FieldKind) -> Seq<char> {
    match k {
        FieldKind::Description => "desc "@,
        FieldKind::Homepage => "homepage "@,
        FieldKind::Url => "url "@,
        FieldKind::Sha256 => "sha256 "@,
    }
}

/// The recognized declaration keyword opening the trimmed line `t`, if any.
pub open spec fn line_keyword(t: Seq<char>) -> Option<FieldKind> {
    if "desc "@.is_prefix_of(t) {
        Some(FieldKind::Description)
    } else if "homepage "@.is_prefix_of(t) {
        Some(FieldKind::Homepage)
    } else if "url "@.is_prefix_of(t) {
        Some(FieldKind::Url)
    } else if "sha256 "@.is_prefix_of(t) {
        Some(FieldKind::Sha256)
    } else {
        None
    }
}

/// Declarations accepted and ignored, so that extending the filter with them
/// never makes an evaluation fail.
pub open spec fn is_noop_declaration(t: Seq<char>) -> bool {
    "depends_on "@.is_prefix_of(t) || "license "@.is_prefix_of(t) || "mirror "@.is_prefix_of(t)
        || "uses_from_macos "@.is_prefix_of(t)
}

/// The effect of a declaration's argument text `r` (already trimmed) on the
/// field `k`: a bare string literal is captured; an empty or non-literal
/// argument records nothing; an unterminated literal or trailing content
/// after it is malformed.
pub open spec fn arg_outcome(k: FieldKind, r: Seq<char>) -> LineOutcome {
    if r.len() == 0 {
        LineOutcome::Skip
    } else if r[0] != '"' {
        LineOutcome::Skip
    } else {
        let q = first_index_of(r.skip(1), '"');
        if q < 0 {
            LineOutcome::Reject
        } else if trim_leading(r.skip(q + 2)).len() == 0 {
            LineOutcome::Capture(k, r.skip(1).take(q))
        } else {
            LineOutcome::Reject
        }
    }
}

/// The effect of the physical line `l` on the capture record.
pub open spec fn line_outcome(l: Seq<char>) -> LineOutcome {
    let t = trim_leading(l);
    if t.len() == 0 {
        LineOutcome::Skip
    } else if t[0] == '#' {
        LineOutcome::Skip
    } else {
        match line_keyword(t) {
            Some(k) => arg_outcome(k, trim_leading(t.skip(keyword_seq(k).len() as int))),
            None => if is_noop_declaration(t) {
                LineOutcome::Skip
            } else {
                LineOutcome::Reject
            },
        }
    }
}

/// The capture record after evaluating the lines `ls` in order, starting from
/// `c`; absent when some line is malformed.
pub open spec fn eval_lines_spec(c: CapturedView, ls: Seq<Seq<char>>) -> Option<CapturedView>
    decreases ls.len(),
{
    if ls.len() == 0 {
        Some(c)
    } else {
        match line_outcome(ls[0]) {
            LineOutcome::Skip => eval_lines_spec(c, ls.skip(1)),
            LineOutcome::Capture(k, v) => eval_lines_spec(apply_capture(c, k, v), ls.skip(1)),
            LineOutcome::Reject => None,
        }
    }
}

/// What one evaluation of the text `s` captures, from a fresh record; absent
/// when some line of `s` is malformed.
pub open spec fn evaluate_spec(s: Seq<char>) -> Option<CapturedView> {
    eval_lines_spec(empty_captured(), split_lines(s))
}

/// Whether the line `l` stores a value into the field `k`.
pub open spec fn captures_field(l: Seq<char>, k: FieldKind) -> bool {
    line_outcome(l) matches LineOutcome::Capture(k2, _) && k2 == k
}

/// A field is present after an evaluation only if some line declared it:
/// evaluating lines none of which captures the field `k` leaves that field
/// exactly as it began — absent, when the record began fresh.
pub proof fn lemma_uncaptured_field_stays(c: CapturedView, ls: Seq<Seq<char>>, k: FieldKind)
    requires
        forall|i: int| 0 <= i < ls.len() ==> !captures_field(#[trigger] ls[i], k),
    ensures
        eval_lines_spec(c, ls) matches Some(c2) ==> field_of(c2, k) == field_of(c, k),
    decreases ls.len(),
{
    if ls.len() > 0 {
        assert forall|i: int|
            0 <= i < ls.skip(1).len() implies !captures_field(#[trigger] ls.skip(1)[i], k) by {
            assert(ls.skip(1)[i] == ls[i + 1]);
        }
        match line_outcome(ls[0]) {
            LineOutcome::Skip => {
                lemma_uncaptured_field_stays(c, ls.skip(1), k);
            },
            LineOutcome::Capture(k2, v) => {
                assert(!captures_field(ls[0], k));
                assert(field_of(apply_capture(c, k2, v), k) == field_of(c, k));
                lemma_uncaptured_field_stays(apply_capture(c, k2, v), ls.skip(1), k);
            },
            LineOutcome::Reject => {},
        }
    }
}

fn eval_arg(caps: &mut CapturedAttributes, line: &str, pos: usize, kind: FieldKind) -> (ok: bool)
    requires
        pos <= line@.len(),
    ensures
        match arg_outcome(kind, trim_leading(line@.skip(pos as int))) {
            LineOutcome::Skip => ok && final(caps)@ == old(caps)@,
            LineOutcome::Capture(k, v) => ok && final(caps)@ == apply_capture(old(caps)@, k, v),
            LineOutcome::Reject => !ok && final(caps)@ == old(caps)@,
        },
{
    let n = line.unicode_len();
    let j = skip_spaces_from(line, pos);
    if j == n {
        return true;
    }
    let cq = line.get_char(j);
    proof {
        assert(line@.skip(j as int)[0] == line@[j as int]);
    }
    if cq != '"' {
        return true;
    }
    match find_char_from(line, j + 1, '"') {
        None => {
            proof {
                let r = line@.skip(j as int);
                assert forall|x: int| 0 <= x < r.skip(1).len() implies r.skip(1)[x] != '"' by {
                    assert(r.skip(1)[x] == line@[j + 1 + x]);
                }
                lemma_first_index_of_none(r.skip(1), '"');
            }
            false
        },
        Some(e) => {
            let content = line.substring_char(j + 1, e).to_owned();
            let j2 = skip_spaces_from(line, e + 1);
            proof {
                let r = line@.skip(j as int);
                let q = e - (j + 1);
                assert(r.skip(1)[q] == line@[e as int]);
                assert forall|x: int| 0 <= x < q implies r.skip(1)[x] != '"' by {
                    assert(r.skip(1)[x] == line@[j + 1 + x]);
                }
                lemma_first_index_of_is(r.skip(1), '"', q);
                assert(r.skip(1).take(q) =~= content@);
                assert(r.skip(q + 2) =~= line@.skip(e + 1));
            }
            if j2 == n {
                caps.set(kind, content);
                true
            } else {
                false
            }
        },
    }
}

/// Applies one physical line to the capture record, returning whether the
/// line was acceptable.
fn eval_line(caps: &mut CapturedAttributes, line: &str) -> (ok: bool)
    ensures
        match line_outcome(line@) {
            LineOutcome::Skip => ok && final(caps)@ == old(caps)@,
            LineOutcome::Capture(k, v) => ok && final(caps)@ == apply_capture(old(caps)@, k, v),
            LineOutcome::Reject => !ok && final(caps)@ == old(caps)@,
        },
{
    let n = line.unicode_len();
    let k0 = skip_spaces_from(line, 0);
    proof {
        assert(line@.skip(0) =~= line@);
    }
    if k0 == n {
        return true;
    }
    let c0 = line.get_char(k0);
    proof {
        assert(trim_leading(line@)[0] == line@[k0 as int]);
    }
    if c0 == '#' {
        return true;
    }
    if has_prefix_from(line, k0, "desc ") {
        proof {
            reveal_strlit("desc ");
            assert(trim_leading(line@).skip(5) =~= line@.skip(k0 + 5));
        }
        return eval_arg(caps, line, k0 + 5, FieldKind::Description);
    }
    if has_prefix_from(line, k0, "homepage ") {
        proof {
            reveal_strlit("homepage ");
            assert(trim_leading(line@).skip(9) =~= line@.skip(k0 + 9));
        }
        return eval_arg(caps, line, k0 + 9, FieldKind::Homepage);
    }
    if has_prefix_from(line, k0, "url ") {
        proof {
            reveal_strlit("url ");
            assert(trim_leading(line@).skip(4) =~= line@.skip(k0 + 4));
        }
        return eval_arg(caps, line, k0 + 4, FieldKind::Url);
    }
    if has_prefix_from(line, k0, "sha256 ") {
        proof {
            reveal_strlit("sha256 ");
            assert(trim_leading(line@).skip(7) =~= line@.skip(k0 + 7));
        }
        return eval_arg(caps, line, k0 + 7, FieldKind::Sha256);
    }
    if has_prefix_from(line, k0, "depends_on ") || has_prefix_from(line, k0, "license ")
        || has_prefix_from(line, k0, "mirror ") || has_prefix_from(
        line,
        k0,
        "uses_from_macos ",
    ) {
        return true;
    }
    false
}

/// Evaluates filtered script text: captures each declared literal into a
/// fresh record, later declarations of a field overriding earlier ones, and
/// fails exactly when some line carries a malformed literal.
pub fn evaluate(filtered: &str) -> (r: Result<CapturedAttributes, ParseError>)
    ensures
        match evaluate_spec(filtered@) {
            Some(c) => r matches Ok(caps) && caps@ == c,
            None => r matches Err(err) && err matches ParseError::EvaluationError(_),
        },
{
    let n = filtered.unicode_len();
    let mut caps = CapturedAttributes::new();
    let mut start: usize = 0;
    let mut i: usize = 0;
    proof {
        assert(filtered@.skip(0) =~= filtered@);
    }
    while i < n
        invariant
            0 <= start <= i <= n,
            n == filtered@.len(),
            forall|x: int| start <= x < i ==> filtered@[x] != '\n',
            eval_lines_spec(caps@, split_lines(filtered@.skip(start as int))) == evaluate_spec(
                filtered@,
            ),
        decreases n - i,
    {
        let c = filtered.get_char(i);
        if c == '\n' {
            let line = filtered.substring_char(start, i);
            let ghost ls = split_lines(filtered@.skip(start as int));
            proof {
                let t = filtered@.skip(start as int);
                let k = i - start;
                assert(t[k] == filtered@[i as int]);
                assert forall|x: int| 0 <= x < k implies t[x] != '\n' by {
                    assert(t[x] == filtered@[start + x]);
                }
                lemma_first_index_of_is(t, '\n', k);
                assert(t.take(k) =~= line@);
                assert(t.skip(k + 1) =~= filtered@.skip(i + 1));
                assert(ls == seq![line@] + split_lines(filtered@.skip(i + 1)));
                assert(ls[0] == line@);
                assert(ls.skip(1) =~= split_lines(filtered@.skip(i + 1)));
            }
            let ok = eval_line(&mut caps, line);
            if !ok {
                return Err(
                    ParseError::EvaluationError(
                        String::from_str("malformed declaration line: ").concat(line),
                    ),
                );
            }
            start = i + 1;
        }
        i = i + 1;
    }
    let line = filtered.substring_char(start, n);
    let ghost ls = split_lines(filtered@.skip(start as int));
    proof {
        let t = filtered@.skip(start as int);
        assert forall|x: int| 0 <= x < t.len() implies t[x] != '\n' by {
            assert(t[x] == filtered@[start + x]);
        }
        lemma_first_index_of_none(t, '\n');
        assert(ls == seq![t]);
        assert(t =~= line@);
        assert(ls[0] == line@);
        assert(ls.skip(1) =~= Seq::<Seq<char>>::empty());
    }
    let ok = eval_line(&mut caps, line);
    if !ok {
        return Err(
            ParseError::EvaluationError(
                String::from_str("malformed declaration line: ").concat(line),
            ),
        );
    }
    proof {
        assert(eval_lines_spec(caps@, Seq::<Seq<char>>::empty()) == Some(caps@));
        assert(evaluate_spec(filtered@) == Some(caps@));
    }
    Ok(caps)
}

} // verus!
