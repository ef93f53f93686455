//! Template syntax.
//!
//! Two small languages live here. A *template* is scanned left to right:
//! `$$` stands for a literal `$`, and `${...}` is a placeholder whose body
//! (which may not contain `$` or `{`) is handed to the resolver. A *format
//! string* must contain exactly one `{}` marker (a `{` doubled as `{{` does
//! not open a marker), and the resolved value is spliced into that marker.

use crate::error::EvalError;
use crate::text::push_char;
use vstd::prelude::*;
use vstd::string::StrSliceExecFns;

verus! {

// ------------------------------------------------------------------
// Format strings: exactly one `{}` marker, spliced with a value.
// ------------------------------------------------------------------
/// Scanner state entering position `i`: was the previous character an
/// unconsumed `{`? A doubled `{{` cancels itself out.
pub open spec fn lbrace_pending(s: Seq<char>, i: int) -> bool
    decreases i,
{
    if i <= 0 {
        false
    } else if s[i - 1] == '{' {
        !lbrace_pending(s, i - 1)
    } else {
        false
    }
}

/// A `{}` marker closes at position `i`.
pub open spec fn is_marker(s: Seq<char>, i: int) -> bool {
    0 <= i < s.len() && s[i] == '}' && lbrace_pending(s, i)
}

/// How many markers close before position `n`.
pub open spec fn marker_count(s: Seq<char>, n: int) -> int
    decreases n,
{
    if n <= 0 {
        0
    } else {
        marker_count(s, n - 1) + if is_marker(s, n - 1) {
            1int
        } else {
            0int
        }
    }
}

/// The position of the first marker, or the length when there is none.
pub open spec fn first_marker_from(s: Seq<char>, i: int) -> int
    decreases s.len() - i,
{
    if i < 0 || i >= s.len() {
        s.len() as int
    } else if is_marker(s, i) {
        i
    } else {
        first_marker_from(s, i + 1)
    }
}

/// The format string with the value spliced into its one marker.
pub open spec fn spliced(s: Seq<char>, v: Seq<char>) -> Seq<char> {
    let idx = first_marker_from(s, 0);
    s.subrange(0, idx - 1) + v + s.subrange(idx + 1, s.len() as int)
}

/// Marker counts never go negative.
proof fn lemma_marker_count_nonneg(s: Seq<char>, n: int)
    ensures
        marker_count(s, n) >= 0,
    decreases n,
{
    if n > 0 {
        lemma_marker_count_nonneg(s, n - 1);
    }
}

/// Marker counts only grow along the scan.
proof fn lemma_marker_count_monotone(s: Seq<char>, m: int, n: int)
    requires
        m <= n,
    ensures
        marker_count(s, m) <= marker_count(s, n),
    decreases n - m,
{
    if m < n {
        lemma_marker_count_monotone(s, m, n - 1);
    }
}

/// If no marker closes before `i` and one closes at `i`, it is the first.
proof fn lemma_first_marker_is(s: Seq<char>, k: int, i: int)
    requires
        0 <= k <= i < s.len(),
        marker_count(s, i) == 0,
        is_marker(s, i),
    ensures
        first_marker_from(s, k) == i,
    decreases i - k,
{
    if k < i {
        lemma_marker_count_nonneg(s, k);
        lemma_marker_count_monotone(s, k + 1, i);
        lemma_first_marker_is(s, k + 1, i);
    }
}

/// Splice `value` into the exactly-one `{}` marker of `fmtstr`.
///
/// Succeeds precisely when one marker closes in the whole string; the result
/// is the string with that marker replaced by `value`. Zero markers and more
/// than one marker are both rejected.
pub fn format_one(fmtstr: String, value: &str) -> (r: Result<String, EvalError>)
    ensures
        r is Ok <==> marker_count(fmtstr@, fmtstr@.len() as int) == 1,
        r matches Ok(out) ==> out@ == spliced(fmtstr@, value@),
        r matches Err(e) ==> e is BadFormatString,
{
    let s = fmtstr.as_str();
    let len = s.unicode_len();
    let mut prev = false;
    let mut found: Option<usize> = None;
    let mut i: usize = 0;
    while i < len
        invariant
            i <= len,
            len == fmtstr@.len(),
            s@ == fmtstr@,
            prev == lbrace_pending(fmtstr@, i as int),
            match found {
                None => marker_count(fmtstr@, i as int) == 0,
                Some(idx) => {
                    &&& marker_count(fmtstr@, i as int) == 1
                    &&& is_marker(fmtstr@, idx as int)
                    &&& idx < i
                    &&& first_marker_from(fmtstr@, 0) == idx
                },
            },
        decreases len - i,
    {
        let c = s.get_char(i);
        if c == '{' {
            prev = !prev;
        } else {
            if c == '}' && prev {
                if found.is_some() {
                    proof {
                        lemma_marker_count_monotone(fmtstr@, i + 1, len as int);
                    }
                    return Err(EvalError::BadFormatString);
                }
                proof {
                    lemma_first_marker_is(fmtstr@, 0, i as int);
                }
                found = Some(i);
            }
            prev = false;
        }
        i = i + 1;
    }
    match found {
        Some(idx) => {
            // a marker at idx closes a `{` at idx - 1
            assert(lbrace_pending(fmtstr@, idx as int));
            let head = s.substring_char(0, idx - 1);
            let tail = s.substring_char(idx + 1, len);
            let mut out = String::new();
            out.append(head);
            out.append(value);
            out.append(tail);
            proof {
                assert(out@ =~= spliced(fmtstr@, value@));
            }
            Ok(out)
        },
        None => Err(EvalError::BadFormatString),
    }
}

// ------------------------------------------------------------------
// Templates: literal text, `$$` escapes, `${...}` placeholders.
// ------------------------------------------------------------------
/// One parsed piece of a template.
pub enum TemplateSegment {
    /// Literal text, emitted as it stands.
    Lit(String),
    /// The body of a `${...}` placeholder, to be resolved.
    Placeholder(String),
}

/// Model of a parsed piece.
pub enum SegModel {
    Lit(Seq<char>),
    Placeholder(Seq<char>),
}

impl View for TemplateSegment {
    type V = SegModel;

    open spec fn view(&self) -> SegModel {
        match self {
            TemplateSegment::Lit(t) => SegModel::Lit(t@),
            TemplateSegment::Placeholder(t) => SegModel::Placeholder(t@),
        }
    }
}

/// Model of a whole parse.
pub open spec fn segs_model(v: Seq<TemplateSegment>) -> Seq<SegModel> {
    v.map_values(|seg: TemplateSegment| seg@)
}

/// Characters that end a placeholder body: its closing brace, or the two
/// characters a body may not contain.
pub open spec fn ends_placeholder(c: char) -> bool {
    c == '}' || c == '$' || c == '{'
}

/// The first position at or after `k` that would end a placeholder body, or
/// the length when the body never ends.
pub open spec fn placeholder_end(s: Seq<char>, k: int) -> int
    decreases s.len() - k,
{
    if k < 0 || k >= s.len() {
        s.len() as int
    } else if ends_placeholder(s[k]) {
        k
    } else {
        placeholder_end(s, k + 1)
    }
}

/// Glue a literal character onto the front of a parse: it merges with a
/// leading literal segment, so literal runs stay maximal.
pub open spec fn prepend_lit(c: char, r: Result<Seq<SegModel>, EvalError>) -> Result<
    Seq<SegModel>,
    EvalError,
> {
    match r {
        Err(e) => Err(e),
        Ok(segs) => if segs.len() > 0 && segs[0] is Lit {
            Ok(seq![SegModel::Lit(seq![c] + segs[0]->Lit_0)] + segs.drop_first())
        } else {
            Ok(seq![SegModel::Lit(seq![c])] + segs)
        },
    }
}

/// A placeholder body never ends before where it starts.
proof fn lemma_placeholder_end_ge(s: Seq<char>, k: int)
    requires
        0 <= k <= s.len(),
    ensures
        placeholder_end(s, k) >= k,
    decreases s.len() - k,
{
    if k < s.len() && !ends_placeholder(s[k]) {
        lemma_placeholder_end_ge(s, k + 1);
    }
}

/// Parse of the template suffix starting at `i`.
///
/// This is the template grammar: `$$` denotes one literal `$`; `${body}`
/// is a placeholder whose body may not contain `$` or `{`; a `$` followed by
/// anything else, or by nothing, is an error, as is a body that never closes.
pub open spec fn parse_from(s: Seq<char>, i: int) -> Result<Seq<SegModel>, EvalError>
    decreases s.len() - i,
    via parse_from_decreases
{
    if i < 0 || i >= s.len() {
        Ok(Seq::empty())
    } else if s[i] == '$' {
        if i + 1 >= s.len() {
            Err(EvalError::DollarAtEnd)
        } else if s[i + 1] == '$' {
            prepend_lit('$', parse_from(s, i + 2))
        } else if s[i + 1] == '{' {
            let j = placeholder_end(s, i + 2);
            if j >= s.len() {
                Err(EvalError::UnterminatedPlaceholder)
            } else if s[j] == '}' {
                match parse_from(s, j + 1) {
                    Err(e) => Err(e),
                    Ok(segs) => Ok(seq![SegModel::Placeholder(s.subrange(i + 2, j))] + segs),
                }
            } else {
                Err(EvalError::BraceInPlaceholder(s[j]))
            }
        } else {
            Err(EvalError::BadCharAfterDollar(s[i + 1]))
        }
    } else {
        prepend_lit(s[i], parse_from(s, i + 1))
    }
}

#[via_fn]
proof fn parse_from_decreases(s: Seq<char>, i: int) {
    if 0 <= i && i + 2 <= s.len() {
        lemma_placeholder_end_ge(s, i + 2);
    }
}

/// Parse a whole template into its segments.
pub fn parse_template(s: &str) -> (r: Result<Vec<TemplateSegment>, EvalError>)
    ensures
        r matches Ok(segs) ==> parse_from(s@, 0) == Ok::<_, EvalError>(segs_model(segs@)),
        r matches Err(e) ==> parse_from(s@, 0) == Err::<Seq<SegModel>, _>(e),
{
    let len = s.unicode_len();
    parse_template_from(s, 0, len)
}

/// A placeholder body runs on while no ending character appears.
proof fn lemma_placeholder_end_is(s: Seq<char>, k: int, j: int)
    requires
        0 <= k <= j <= s.len(),
        forall|m: int| k <= m < j ==> !ends_placeholder(s[m]),
        j < s.len() ==> ends_placeholder(s[j]),
    ensures
        placeholder_end(s, k) == if j < s.len() {
            j
        } else {
            s.len() as int
        },
    decreases j - k,
{
    if k < j {
        lemma_placeholder_end_is(s, k + 1, j);
    }
}

/// Recursive worker for [`parse_template`], mirroring [`parse_from`].
fn parse_template_from(s: &str, i: usize, len: usize) -> (r: Result<
    Vec<TemplateSegment>,
    EvalError,
>)
    requires
        len == s@.len(),
        i <= len,
    ensures
        r matches Ok(segs) ==> parse_from(s@, i as int) == Ok::<_, EvalError>(segs_model(segs@)),
        r matches Err(e) ==> parse_from(s@, i as int) == Err::<Seq<SegModel>, _>(e),
    decreases len - i,
{
    if i >= len {
        proof {
            assert(segs_model(Seq::<TemplateSegment>::empty()) =~= Seq::<SegModel>::empty());
        }
        return Ok(Vec::new());
    }
    let c = s.get_char(i);
    if c == '$' {
        if i + 1 >= len {
            return Err(EvalError::DollarAtEnd);
        }
        let c1 = s.get_char(i + 1);
        if c1 == '$' {
            let rest = parse_template_from(s, i + 2, len)?;
            Ok(push_lit_front('$', rest))
        } else if c1 == '{' {
            // scan for the end of the placeholder body
            let mut j: usize = i + 2;
            loop
                invariant
                    i + 2 <= j <= len,
                    len == s@.len(),
                    forall|m: int| i + 2 <= m < j ==> !ends_placeholder(s@[m]),
                ensures
                    i + 2 <= j <= len,
                    forall|m: int| i + 2 <= m < j ==> !ends_placeholder(s@[m]),
                    j == len || ends_placeholder(s@[j as int]),
                decreases len - j,
            {
                if j >= len {
                    break ;
                }
                let cj = s.get_char(j);
                if cj == '}' || cj == '$' || cj == '{' {
                    break ;
                }
                j = j + 1;
            }
            proof {
                lemma_placeholder_end_is(s@, i + 2, j as int);
            }
            if j >= len {
                return Err(EvalError::UnterminatedPlaceholder);
            }
            let cj = s.get_char(j);
            if cj == '}' {
                let body = s.substring_char(i + 2, j);
                let rest = parse_template_from(s, j + 1, len)?;
                let ghost restv = rest@;
                let mut segs = rest;
                segs.insert(0, TemplateSegment::Placeholder(body.to_owned()));
                proof {
                    assert(segs@.drop_first() =~= restv);
                    assert(segs_model(segs@) =~= seq![
                        SegModel::Placeholder(s@.subrange(i + 2, j as int)),
                    ] + segs_model(restv));
                }
                Ok(segs)
            } else {
                Err(EvalError::BraceInPlaceholder(cj))
            }
        } else {
            Err(EvalError::BadCharAfterDollar(c1))
        }
    } else {
        let rest = parse_template_from(s, i + 1, len)?;
        Ok(push_lit_front(c, rest))
    }
}

/// Exec counterpart of [`prepend_lit`].
fn push_lit_front(c: char, segs: Vec<TemplateSegment>) -> (r: Vec<TemplateSegment>)
    ensures
        Ok::<_, EvalError>(segs_model(r@)) == prepend_lit(c, Ok::<_, EvalError>(segs_model(segs@))),
{
    let mut segs = segs;
    let ghost orig = segs@;
    let mut is_lit = false;
    if segs.len() > 0 {
        if let TemplateSegment::Lit(_) = &segs[0] {
            is_lit = true;
        }
    }
    if is_lit {
        let mut text = String::new();
        push_char(&mut text, c);
        if let TemplateSegment::Lit(t) = &segs[0] {
            text.append(t.as_str());
        }
        segs.set(0, TemplateSegment::Lit(text));
        proof {
            assert(segs_model(segs@) =~= seq![SegModel::Lit(seq![c] + segs_model(orig)[0]->Lit_0)]
                + segs_model(orig).drop_first());
        }
        segs
    } else {
        let mut text = String::new();
        push_char(&mut text, c);
        segs.insert(0, TemplateSegment::Lit(text));
        proof {
            assert(segs_model(segs@) =~= seq![SegModel::Lit(seq![c])] + segs_model(orig));
        }
        segs
    }
}

} // verus!
