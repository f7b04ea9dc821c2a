//! Splitting of fully-qualified test names into a leaf name and a module path.

use vstd::prelude::*;
use vstd::string::*;

verus! {

/// Position just after the last `::` found by a left-to-right,
/// non-overlapping scan of `s` that starts at index `i`.
pub open spec fn last_cut(s: Seq<char>, i: int) -> Option<int>
    decreases s.len() - i,
{
    if i < 0 || i + 1 >= s.len() {
        None
    } else if s[i] == ':' && s[i + 1] == ':' {
        match last_cut(s, i + 2) {
            Some(c) => Some(c),
            None => Some(i + 2),
        }
    } else {
        last_cut(s, i + 1)
    }
}

/// The leaf name: the text after the last separator, or all of `s`.
pub open spec fn leaf_of(s: Seq<char>) -> Seq<char> {
    match last_cut(s, 0) {
        Some(c) => s.subrange(c, s.len() as int),
        None => s,
    }
}

/// The module path: the text before the last separator, or empty.
pub open spec fn module_of(s: Seq<char>) -> Seq<char> {
    match last_cut(s, 0) {
        Some(c) => s.subrange(0, c - 2),
        None => Seq::empty(),
    }
}

pub open spec fn has_separator(s: Seq<char>) -> bool {
    exists|j: int| 0 <= j && j + 1 < s.len() && s[j] == ':' && #[trigger] s[j + 1] == ':'
}

proof fn lemma_cut_bounds(s: Seq<char>, i: int)
    ensures
        last_cut(s, i) matches Some(c) ==> 0 <= i && i + 2 <= c <= s.len() && s[c - 2] == ':'
            && s[c - 1] == ':',
    decreases s.len() - i,
{
    if i < 0 || i + 1 >= s.len() {
    } else if s[i] == ':' && s[i + 1] == ':' {
        lemma_cut_bounds(s, i + 2);
    } else {
        lemma_cut_bounds(s, i + 1);
    }
}

proof fn lemma_cut_found(s: Seq<char>, i: int, j: int)
    requires
        0 <= i <= j,
        j + 1 < s.len(),
        s[j] == ':',
        s[j + 1] == ':',
    ensures
        last_cut(s, i) is Some,
    decreases s.len() - i,
{
    if s[i] == ':' && s[i + 1] == ':' {
    } else {
        lemma_cut_found(s, i + 1, j);
    }
}

/// Joining the module path and the leaf name with the separator gives the
/// full name back whenever it holds a separator; without one the module path
/// is empty and the leaf is the whole name.
pub proof fn split_recombines(s: Seq<char>)
    ensures
        has_separator(s) ==> module_of(s) + seq![':', ':'] + leaf_of(s) == s,
        !has_separator(s) ==> module_of(s) == Seq::<char>::empty() && leaf_of(s) == s,
{
    lemma_cut_bounds(s, 0);
    if has_separator(s) {
        let j = choose|j: int| 0 <= j && j + 1 < s.len() && s[j] == ':' && #[trigger] s[j + 1] == ':';
        lemma_cut_found(s, 0, j);
        assert(module_of(s) + seq![':', ':'] + leaf_of(s) =~= s);
    } else {
        if last_cut(s, 0) is Some {
            let c = last_cut(s, 0)->Some_0;
            assert(s[(c - 2) + 1] == ':');
        }
    }
}

/// Splits `full_name` on `::` into its leaf name and its module path.
pub fn split_name(full_name: &str) -> (r: (String, String))
    ensures
        r.0@ == leaf_of(full_name@),
        r.1@ == module_of(full_name@),
{
    let n = full_name.unicode_len();
    let mut i: usize = 0;
    let mut cut: Option<usize> = None;
    while i < n && n - i > 1
        invariant
            n == full_name@.len(),
            i <= n,
            last_cut(full_name@, 0) == match last_cut(full_name@, i as int) {
                Some(c) => Some(c),
                None => match cut {
                    Some(c) => Some(c as int),
                    None => None,
                },
            },
        decreases n - i,
    {
        if full_name.get_char(i) == ':' && full_name.get_char(i + 1) == ':' {
            cut = Some(i + 2);
            i = i + 2;
        } else {
            i = i + 1;
        }
    }
    match cut {
        Some(c) => {
            proof {
                lemma_cut_bounds(full_name@, 0);
            }
            let leaf = String::from_str(full_name.substring_char(c, n));
            let module = String::from_str(full_name.substring_char(0, c - 2));
            (leaf, module)
        },
        None => (String::from_str(full_name), String::new()),
    }
}

} // verus!
