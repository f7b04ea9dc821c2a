//! Inference of a failure message from the output that a failed test captured.

use vstd::prelude::*;
use vstd::string::*;
use crate::text::{has_content, has_non_whitespace, is_whitespace, is_ws};

verus! {

/// A line that reports an error: the word `error` in any case, a colon, a
/// space and at least one more character.
pub const ERROR_LINE_PATTERN: &'static str = "(?mi)^error: .+$";

pub open spec fn same_letter(c: char, lower: char) -> bool {
    c == lower || (c as u32) + 32 == lower as u32
}

/// Whether one line (no `\n` in it) is an error line.
pub open spec fn is_error_line(l: Seq<char>) -> bool {
    l.len() > 7 && same_letter(l[0], 'e') && same_letter(l[1], 'r') && same_letter(l[2], 'r')
        && same_letter(l[3], 'o') && same_letter(l[4], 'r') && l[5] == ':' && l[6] == ' '
}

/// The error lines among the `\n`-separated lines of `s[..line_end]`, in
/// order, where the line being read starts after index `i`.
pub open spec fn error_lines_before(s: Seq<char>, i: int, line_end: int) -> Seq<Seq<char>>
    decreases i,
{
    if i <= 0 {
        let l = s.subrange(0, line_end);
        if is_error_line(l) {
            seq![l]
        } else {
            Seq::empty()
        }
    } else if s[i - 1] == '\n' {
        let l = s.subrange(i, line_end);
        let earlier = error_lines_before(s, i - 1, i - 1);
        if is_error_line(l) {
            earlier.push(l)
        } else {
            earlier
        }
    } else {
        error_lines_before(s, i - 1, line_end)
    }
}

/// The error lines of `s`, in order.
pub open spec fn error_lines(s: Seq<char>) -> Seq<Seq<char>> {
    error_lines_before(s, s.len() as int, s.len() as int)
}

/// The last error line of `s`, if any.
pub open spec fn last_error_line(s: Seq<char>) -> Option<Seq<char>> {
    if error_lines(s).len() > 0 {
        Some(error_lines(s).last())
    } else {
        None
    }
}

/// Relies on `regex::Regex::new` and `regex::Regex::find_iter`: in multi-line
/// mode `^` and `$` match at the ends of each `\n`-separated line and `.`
/// matches any character but `\n`, so the successive matches of the
/// error-line pattern are the error lines, in order.
#[verifier::external_body]
fn error_line_matches(pattern: &str, s: &str) -> (r: Vec<String>)
    requires
        pattern@ == ERROR_LINE_PATTERN@,
    ensures
        r@.len() == error_lines(s@).len(),
        forall|i: int| 0 <= i < r@.len() ==> (#[trigger] r@[i])@ == error_lines(s@)[i],
{
    let exp = regex::Regex::new(pattern).unwrap();
    exp.find_iter(s).map(|m| m.as_str().to_string()).collect()
}

pub open spec fn trim_start(s: Seq<char>) -> Seq<char>
    decreases s.len(),
{
    if s.len() > 0 && is_ws(s[0]) {
        trim_start(s.drop_first())
    } else {
        s
    }
}

pub open spec fn trim_end(s: Seq<char>) -> Seq<char>
    decreases s.len(),
{
    if s.len() > 0 && is_ws(s.last()) {
        trim_end(s.drop_last())
    } else {
        s
    }
}

/// `s` without leading and trailing whitespace, as `str::trim` gives it.
pub open spec fn trimmed(s: Seq<char>) -> Seq<char> {
    trim_end(trim_start(s))
}

proof fn lemma_trim_start(s: Seq<char>, i: int)
    requires
        0 <= i <= s.len(),
        forall|j: int| 0 <= j < i ==> is_ws(#[trigger] s[j]),
        i == s.len() || !is_ws(s[i]),
    ensures
        trim_start(s) == s.subrange(i, s.len() as int),
    decreases i,
{
    if i > 0 {
        lemma_trim_start(s.drop_first(), i - 1);
        assert(s.drop_first().subrange(i - 1, s.len() - 1) =~= s.subrange(i, s.len() as int));
    } else {
        assert(s.subrange(0, s.len() as int) =~= s);
    }
}

proof fn lemma_trim_end(s: Seq<char>, e: int)
    requires
        0 <= e <= s.len(),
        forall|j: int| e <= j < s.len() ==> is_ws(#[trigger] s[j]),
        e == 0 || !is_ws(s[e - 1]),
    ensures
        trim_end(s) == s.subrange(0, e),
    decreases s.len() - e,
{
    if e < s.len() {
        lemma_trim_end(s.drop_last(), e);
        assert(s.drop_last().subrange(0, e) =~= s.subrange(0, e));
    } else {
        assert(s.subrange(0, s.len() as int) =~= s);
    }
}

/// `s` without leading and trailing whitespace.
pub fn trim(s: &str) -> (r: String)
    ensures
        r@ == trimmed(s@),
{
    let n = s.unicode_len();
    let mut a: usize = 0;
    while a < n && is_whitespace(s.get_char(a))
        invariant
            a <= n == s@.len(),
            forall|j: int| 0 <= j < a ==> is_ws(#[trigger] s@[j]),
        decreases n - a,
    {
        a = a + 1;
    }
    let mut e: usize = n;
    while e > a && is_whitespace(s.get_char(e - 1))
        invariant
            a <= e <= n == s@.len(),
            forall|j: int| e <= j < n ==> is_ws(#[trigger] s@[j]),
        decreases e,
    {
        e = e - 1;
    }
    proof {
        lemma_trim_start(s@, a as int);
        let t = s@.subrange(a as int, n as int);
        assert forall|j: int| e - a <= j < t.len() implies is_ws(#[trigger] t[j]) by {
            assert(t[j] == s@[a + j]);
        }
        if e > a {
            assert(t[e - a - 1] == s@[e - 1]);
        }
        lemma_trim_end(t, e - a);
        assert(t.subrange(0, e - a) =~= s@.subrange(a as int, e as int));
    }
    String::from_str(s.substring_char(a, e))
}

pub open spec fn opt_view(o: Option<String>) -> Option<Seq<char>> {
    match o {
        Some(s) => Some(s@),
        None => None,
    }
}

/// The message inferred for a failed test: its stderr when that holds more
/// than whitespace, else the last error line of its stdout, trimmed.
pub open spec fn inferred_message(stdout: Option<Seq<char>>, stderr: Option<Seq<char>>) -> Option<
    Seq<char>,
> {
    if stderr is Some && has_content(stderr->Some_0) {
        stderr
    } else if stdout is Some && last_error_line(stdout->Some_0) is Some {
        Some(trimmed(last_error_line(stdout->Some_0)->Some_0))
    } else {
        None
    }
}

/// Infers a failure message from captured stdout and stderr (see
/// `inferred_message`); `None` when neither yields one.
pub fn detect_error(stdout: &Option<String>, stderr: &Option<String>) -> (r: Option<String>)
    ensures
        opt_view(r) == inferred_message(opt_view(*stdout), opt_view(*stderr)),
{
    if let Some(body) = stderr {
        if has_non_whitespace(body.as_str()) {
            return Some(body.clone());
        }
    }
    if let Some(out) = stdout {
        let lines = error_line_matches(ERROR_LINE_PATTERN, out.as_str());
        if lines.len() > 0 {
            return Some(trim(lines[lines.len() - 1].as_str()));
        }
    }
    None
}

} // verus!
