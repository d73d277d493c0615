//! Base names, extensions, and the file-matching predicate.
//!
//! Paths are plain character sequences; `/` separates components. The base
//! name is everything after the last separator, and the extension is
//! everything after the last dot of the base name, provided that dot is not
//! its first character (so a name like `.gitignore` has no extension).

use vstd::prelude::*;

use crate::selector::SelectionRule;
use crate::util::contains_string;

verus! {

/// The index of the last occurrence of `c` in `s`, or -1 when absent.
pub open spec fn last_index_of(s: Seq<char>, c: char) -> int
    decreases s.len(),
{
    if s.len() == 0 {
        -1
    } else if s[s.len() - 1] == c {
        s.len() - 1
    } else {
        last_index_of(s.drop_last(), c)
    }
}

/// The base name of a path: everything after the last `/`.
pub open spec fn base_of(p: Seq<char>) -> Seq<char> {
    p.subrange(last_index_of(p, '/') + 1, p.len() as int)
}

/// The extension of a path: everything after the last `.` of the base
/// name, provided that dot is not the base name's first character.
pub open spec fn ext_of(p: Seq<char>) -> Option<Seq<char>> {
    let b = base_of(p);
    let d = last_index_of(b, '.');
    if d >= 1 {
        Some(b.subrange(d + 1, b.len() as int))
    } else {
        None
    }
}

/// Returns the character position one past the last occurrence of `c` in
/// `s`, or 0 when `c` does not occur.
fn scan_past_last(s: &str, c: char) -> (cut: usize)
    ensures
        cut as int - 1 == last_index_of(s@, c),
        cut <= s@.len(),
{
    let n = s.unicode_len();
    let mut i: usize = 0;
    let mut cut: usize = 0;
    while i < n
        invariant
            n as int == s@.len(),
            i <= n,
            cut <= i,
            cut as int - 1 == last_index_of(s@.take(i as int), c),
        decreases n - i,
    {
        let ch = s.get_char(i);
        proof {
            assert(s@.take(i as int + 1).drop_last() =~= s@.take(i as int));
            assert(s@.take(i as int + 1).last() == s@[i as int]);
        }
        if ch == c {
            cut = i + 1;
        }
        i += 1;
    }
    proof {
        assert(s@.take(n as int) =~= s@);
    }
    cut
}

/// The base name of `path`: everything after its last `/`.
pub fn basename_of(path: &str) -> (r: String)
    ensures
        r@ == base_of(path@),
{
    let n = path.unicode_len();
    let cut = scan_past_last(path, '/');
    let b = path.substring_char(cut, n);
    String::from_str(b)
}

/// The extension of `path`, when its base name has one.
pub fn extension_of(path: &str) -> (r: Option<String>)
    ensures
        match r {
            Some(e) => ext_of(path@) == Some(e@),
            None => ext_of(path@) is None,
        },
{
    let base = basename_of(path);
    let b = base.as_str();
    let m = b.unicode_len();
    let dot = scan_past_last(b, '.');
    if dot >= 2 {
        let e = b.substring_char(dot, m);
        Some(String::from_str(e))
    } else {
        None
    }
}

/// The matching predicate: a path is selected when its extension is in the
/// rule's extension set, or its base name is in the rule's name set. A path
/// without an extension never matches on the extension branch.
pub open spec fn spec_matches(path: Seq<char>, rule: SelectionRule) -> bool {
    ||| (match ext_of(path) {
        Some(e) => rule.has_extension(e),
        None => false,
    })
    ||| rule.has_name(base_of(path))
}

/// Whether the file at `path` is selected by `rule`.
pub fn matches_rule(path: &str, rule: &SelectionRule) -> (b: bool)
    ensures
        b == spec_matches(path@, *rule),
{
    let ext_hit = match extension_of(path) {
        Some(e) => contains_string(&rule.extensions, &e),
        None => false,
    };
    if ext_hit {
        true
    } else {
        let base = basename_of(path);
        contains_string(&rule.names, &base)
    }
}

} // verus!
