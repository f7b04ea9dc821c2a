//! Text helpers of the event decoder: the line filter, the backslash repair
//! and the truncation of captured output.

use vstd::prelude::*;
use vstd::string::*;

verus! {

/// The marker that stands between the two kept halves of truncated text.
pub const TRUNCATION_MARKER: &'static str = "[...TRUNCATED...]";

/// The marker's length in bytes: the least bound that truncation accepts.
pub const MARKER_LEN: usize = 17;

/// Unicode `White_Space`, the property that `char::is_whitespace` tests.
pub open spec fn is_ws(c: char) -> bool {
    ('\u{9}' <= c && c <= '\u{d}') || c == ' ' || c == '\u{85}' || c == '\u{a0}' || c
        == '\u{1680}' || ('\u{2000}' <= c && c <= '\u{200a}') || c == '\u{2028}' || c
        == '\u{2029}' || c == '\u{202f}' || c == '\u{205f}' || c == '\u{3000}'
}

pub fn is_whitespace(c: char) -> (r: bool)
    ensures
        r == is_ws(c),
{
    ('\u{9}' <= c && c <= '\u{d}') || c == ' ' || c == '\u{85}' || c == '\u{a0}' || c
        == '\u{1680}' || ('\u{2000}' <= c && c <= '\u{200a}') || c == '\u{2028}' || c
        == '\u{2029}' || c == '\u{202f}' || c == '\u{205f}' || c == '\u{3000}'
}

/// The first character of `s` that is not whitespace, if any.
pub open spec fn first_non_ws(s: Seq<char>) -> Option<char>
    decreases s.len(),
{
    if s.len() == 0 {
        None
    } else if is_ws(s[0]) {
        first_non_ws(s.drop_first())
    } else {
        Some(s[0])
    }
}

/// Whether `s` holds a character that is not whitespace.
pub open spec fn has_content(s: Seq<char>) -> bool {
    exists|i: int| 0 <= i < s.len() && !is_ws(#[trigger] s[i])
}

proof fn lemma_first_non_ws_skip(s: Seq<char>, i: int)
    requires
        0 <= i < s.len(),
        forall|j: int| 0 <= j < i ==> is_ws(#[trigger] s[j]),
    ensures
        first_non_ws(s) == first_non_ws(s.subrange(i, s.len() as int)),
    decreases i,
{
    if i > 0 {
        lemma_first_non_ws_skip(s.drop_first(), i - 1);
        assert(s.drop_first().subrange(i - 1, s.drop_first().len() as int) =~= s.subrange(
            i,
            s.len() as int,
        ));
    } else {
        assert(s.subrange(0, s.len() as int) =~= s);
    }
}

proof fn lemma_first_non_ws_none(s: Seq<char>)
    requires
        forall|j: int| 0 <= j < s.len() ==> is_ws(#[trigger] s[j]),
    ensures
        first_non_ws(s) is None,
    decreases s.len(),
{
    if s.len() > 0 {
        lemma_first_non_ws_none(s.drop_first());
    }
}

/// A line takes part in the event protocol only when its first character
/// that is not whitespace opens a JSON object; all other lines are dropped.
pub fn is_event_line(line: &str) -> (r: bool)
    ensures
        r == (first_non_ws(line@) == Some('{')),
{
    let n = line.unicode_len();
    let mut i: usize = 0;
    while i < n
        invariant
            n == line@.len(),
            i <= n,
            forall|j: int| 0 <= j < i ==> is_ws(#[trigger] line@[j]),
        decreases n - i,
    {
        let c = line.get_char(i);
        if !is_whitespace(c) {
            proof {
                lemma_first_non_ws_skip(line@, i as int);
            }
            return c == '{';
        }
        i = i + 1;
    }
    proof {
        lemma_first_non_ws_none(line@);
    }
    false
}

/// Whether `s` holds anything but whitespace.
pub fn has_non_whitespace(s: &str) -> (r: bool)
    ensures
        r == has_content(s@),
{
    let n = s.unicode_len();
    let mut i: usize = 0;
    while i < n
        invariant
            n == s@.len(),
            i <= n,
            forall|j: int| 0 <= j < i ==> is_ws(#[trigger] s@[j]),
        decreases n - i,
    {
        if !is_whitespace(s.get_char(i)) {
            return true;
        }
        i = i + 1;
    }
    false
}

/// `s` with every backslash doubled.
pub open spec fn doubled_backslashes(s: Seq<char>) -> Seq<char>
    decreases s.len(),
{
    if s.len() == 0 {
        s
    } else if s[0] == '\\' {
        seq!['\\', '\\'] + doubled_backslashes(s.drop_first())
    } else {
        seq![s[0]] + doubled_backslashes(s.drop_first())
    }
}

/// Relies on `str::replace`, which replaces every occurrence of the pattern.
#[verifier::external_body]
fn replace_backslashes(s: &str) -> (r: String)
    ensures
        r@ == doubled_backslashes(s@),
{
    s.replace("\\", "\\\\")
}

/// The one repair that the decoder tries on a line that fails to decode: the
/// producer writes backslashes inside JSON strings without escaping them.
pub fn repair_escapes(line: &str) -> (r: String)
    ensures
        r@ == doubled_backslashes(line@),
{
    replace_backslashes(line)
}

/// The bytes of the truncation marker.
pub open spec fn marker_bytes() -> Seq<u8> {
    TRUNCATION_MARKER@.map_values(|c: char| c as u8)
}

/// How many bytes of each end survive truncation to `max_len` bytes.
pub open spec fn kept_half(max_len: nat) -> int {
    (max_len - marker_bytes().len()) / 2
}

/// `s` bounded to `max_len` bytes: unchanged when it fits, else its first and
/// last `kept_half(max_len)` bytes around the marker on a line of its own.
pub open spec fn truncated(s: Seq<u8>, max_len: nat) -> Seq<u8> {
    if s.len() <= max_len {
        s
    } else {
        let h = kept_half(max_len);
        s.subrange(0, h) + seq![10u8] + marker_bytes() + seq![10u8] + s.subrange(
            s.len() - h,
            s.len() as int,
        )
    }
}

pub proof fn lemma_marker_bytes()
    ensures
        TRUNCATION_MARKER.spec_bytes() == marker_bytes(),
        marker_bytes().len() == MARKER_LEN,
{
    reveal_strlit("[...TRUNCATED...]");
    assert(TRUNCATION_MARKER.is_ascii());
    broadcast use is_ascii_spec_bytes;
    assert(TRUNCATION_MARKER.spec_bytes() =~= marker_bytes());
}

fn push_all(out: &mut Vec<u8>, b: &[u8], from: usize, to: usize)
    requires
        from <= to <= b@.len(),
    ensures
        final(out)@ == old(out)@ + b@.subrange(from as int, to as int),
{
    let mut i = from;
    while i < to
        invariant
            from <= i <= to <= b@.len(),
            out@ == old(out)@ + b@.subrange(from as int, i as int),
        decreases to - i,
    {
        out.push(b[i]);
        proof {
            assert(b@.subrange(from as int, i + 1) =~= b@.subrange(from as int, i as int) + seq![b@[i as int]]);
        }
        i = i + 1;
    }
}

/// Bounds captured output to `max_len` bytes (see `truncated`). A bound
/// below the marker's length cannot hold the marker, so text longer than
/// such a bound is not accepted.
pub fn truncate(s: &[u8], max_len: usize) -> (r: Vec<u8>)
    requires
        s@.len() > max_len ==> max_len >= MARKER_LEN,
    ensures
        r@ == truncated(s@, max_len as nat),
{
    proof {
        lemma_marker_bytes();
    }
    if s.len() <= max_len {
        let mut whole: Vec<u8> = Vec::new();
        push_all(&mut whole, s, 0, s.len());
        proof {
            assert(s@.subrange(0, s@.len() as int) =~= s@);
            assert(whole@ =~= s@);
        }
        return whole;
    }
    let half = (max_len - MARKER_LEN) / 2;
    let m = TRUNCATION_MARKER.as_bytes();
    let mut out: Vec<u8> = Vec::new();
    push_all(&mut out, s, 0, half);
    out.push(10u8);
    push_all(&mut out, m, 0, m.len());
    out.push(10u8);
    push_all(&mut out, s, s.len() - half, s.len());
    proof {
        assert(m@.subrange(0, m@.len() as int) =~= m@);
        assert(out@ =~= truncated(s@, max_len as nat));
    }
    out
}

/// When the text fits it comes back unchanged; when it does not, the result
/// keeps the two halves and the marker with its two line breaks, which takes
/// at most two bytes more than the bound.
pub proof fn truncate_bounds(s: Seq<u8>, max_len: nat)
    requires
        s.len() > max_len ==> max_len >= MARKER_LEN,
    ensures
        s.len() <= max_len ==> truncated(s, max_len) == s,
        s.len() > max_len ==> truncated(s, max_len).len() == 2 * kept_half(max_len) + 19,
        truncated(s, max_len).len() <= max_len + 2,
{
    lemma_marker_bytes();
}

} // verus!
