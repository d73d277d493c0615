//! Size-based read strategy and line splitting for file contents.

use vstd::prelude::*;

verus! {

/// Files at least this many bytes long are read line by line through a
/// buffer instead of as one whole string, to bound peak memory.
pub const BUFFERED_READ_THRESHOLD: u64 = 1000000;

/// Decides the read strategy for a file of `size` bytes: `true` means the
/// buffered, line-by-line path; `false` means the whole-file path.
pub fn uses_buffered_read(size: u64) -> (b: bool)
    ensures
        b == (size >= BUFFERED_READ_THRESHOLD),
{
    size >= BUFFERED_READ_THRESHOLD
}

/// Strips one trailing carriage return, as line splitting does just before
/// a line feed.
pub open spec fn strip_cr(line: Seq<char>) -> Seq<char> {
    if line.len() > 0 && line.last() == '\r' {
        line.drop_last()
    } else {
        line
    }
}

/// Prepends `c` to the first line of `rest`, opening a line when there is
/// none.
pub open spec fn prepend_first(c: char, rest: Seq<Seq<char>>) -> Seq<Seq<char>> {
    if rest.len() == 0 {
        seq![seq![c]]
    } else {
        seq![seq![c] + rest[0]] + rest.skip(1)
    }
}

/// The lines of `s`: split at each line feed, one carriage return directly
/// before a line feed stripped, and no empty final line for a trailing
/// terminator. A lone carriage return stays in its line.
pub open spec fn spec_lines(s: Seq<char>) -> Seq<Seq<char>>
    decreases s.len(),
{
    if s.len() == 0 {
        Seq::empty()
    } else if s[0] == '\n' {
        seq![Seq::<char>::empty()] + spec_lines(s.skip(1))
    } else if s[0] == '\r' && s.len() > 1 && s[1] == '\n' {
        seq![Seq::<char>::empty()] + spec_lines(s.skip(2))
    } else {
        prepend_first(s[0], spec_lines(s.skip(1)))
    }
}

/// Unfolds `spec_lines` one whole line at a time: up to position `m` there
/// is no line feed, so the first line runs to `m` (end of input, kept
/// whole) or to the line feed at `m` (carriage return stripped).
pub proof fn lemma_lines_split(s: Seq<char>, m: int)
    requires
        0 <= m <= s.len(),
        forall|k: int| 0 <= k < m ==> s[k] != '\n',
    ensures
        m == s.len() && s.len() > 0 ==> spec_lines(s) == seq![s],
        m < s.len() && s[m] == '\n' ==> spec_lines(s) == seq![strip_cr(s.take(m))] + spec_lines(
            s.skip(m + 1),
        ),
    decreases m,
{
    if m == 0 {
        if m < s.len() && s[m] == '\n' {
            assert(s.take(0) =~= Seq::<char>::empty());
            assert(strip_cr(s.take(0)) == Seq::<char>::empty());
            assert(spec_lines(s) == seq![Seq::<char>::empty()] + spec_lines(s.skip(1)));
        }
    } else {
        let rest = s.skip(1);
        if s[0] == '\r' && s.len() > 1 && s[1] == '\n' {
            assert(m == 1);
            assert(s.take(1) =~= seq!['\r']);
            assert(strip_cr(s.take(1)) =~= Seq::<char>::empty());
            assert(spec_lines(s) == seq![Seq::<char>::empty()] + spec_lines(s.skip(2)));
            assert(seq![strip_cr(s.take(1))] =~= seq![Seq::<char>::empty()]);
        } else {
            assert forall|k: int| 0 <= k < m - 1 implies rest[k] != '\n' by {
                assert(rest[k] == s[k + 1]);
            }
            lemma_lines_split(rest, m - 1);
            assert(spec_lines(s) == prepend_first(s[0], spec_lines(rest)));
            if m == s.len() {
                if s.len() == 1 {
                    assert(rest.len() == 0);
                    assert(spec_lines(rest) == Seq::<Seq<char>>::empty());
                    assert(seq![s[0]] =~= s);
                    assert(prepend_first(s[0], spec_lines(rest)) =~= seq![s]);
                } else {
                    assert(rest.len() > 0);
                    assert(spec_lines(rest) == seq![rest]);
                    assert(seq![s[0]] + rest =~= s);
                    assert(seq![rest].skip(1) =~= Seq::<Seq<char>>::empty());
                    assert(prepend_first(s[0], spec_lines(rest)) =~= seq![s]);
                }
            }
            if m < s.len() && s[m] == '\n' {
                assert(rest[m - 1] == s[m]);
                let rl = spec_lines(rest);
                assert(rl == seq![strip_cr(rest.take(m - 1))] + spec_lines(rest.skip(m)));
                assert(rl.len() > 0);
                assert(rl[0] == strip_cr(rest.take(m - 1)));
                assert(rl.skip(1) =~= spec_lines(rest.skip(m)));
                assert(rest.skip(m) =~= s.skip(m + 1));
                // the first line, with the leading character restored
                if m == 1 {
                    assert(rest.take(0) =~= Seq::<char>::empty());
                    assert(strip_cr(rest.take(0)) == Seq::<char>::empty());
                    // here the head is no carriage return before a line feed
                    assert(s[0] != '\r');
                    assert(s.take(1) =~= seq![s[0]]);
                    assert(strip_cr(s.take(1)) == s.take(1));
                    assert(seq![s[0]] + strip_cr(rest.take(0)) =~= strip_cr(s.take(1)));
                } else {
                    assert(rest.take(m - 1).last() == s[m - 1]);
                    assert(s.take(m).last() == s[m - 1]);
                    if s[m - 1] == '\r' {
                        assert(strip_cr(s.take(m)) == s.take(m).drop_last());
                        assert(strip_cr(rest.take(m - 1)) == rest.take(m - 1).drop_last());
                        assert(seq![s[0]] + rest.take(m - 1).drop_last() =~= s.take(m).drop_last());
                    } else {
                        assert(seq![s[0]] + rest.take(m - 1) =~= s.take(m));
                    }
                }
                assert(seq![s[0]] + rl[0] == strip_cr(s.take(m)));
                assert(prepend_first(s[0], rl) == seq![seq![s[0]] + rl[0]] + rl.skip(1));
                assert(prepend_first(s[0], rl) =~= seq![strip_cr(s.take(m))] + spec_lines(
                    s.skip(m + 1),
                ));
            }
        }
    }
}

/// Splits `content` into its lines: split at each line feed, a carriage
/// return directly before a line feed stripped, no empty final line for a
/// trailing terminator. Both read strategies split identically.
pub fn split_lines(content: &str) -> (r: Vec<String>)
    ensures
        r.deep_view() == spec_lines(content@),
{
    let n = content.unicode_len();
    let mut r: Vec<String> = Vec::new();
    let mut start: usize = 0;
    proof {
        assert(content@.skip(0) =~= content@);
        assert(r.deep_view() =~= Seq::<Seq<char>>::empty());
        assert(Seq::<Seq<char>>::empty() + spec_lines(content@) =~= spec_lines(content@));
    }
    while start < n
        invariant
            n as int == content@.len(),
            start <= n,
            r.deep_view() + spec_lines(content@.skip(start as int)) == spec_lines(content@),
        decreases n - start,
    {
        let mut j = start;
        while j < n && content.get_char(j) != '\n'
            invariant
                n as int == content@.len(),
                start <= j <= n,
                forall|k: int| start <= k < j ==> content@[k] != '\n',
            decreases n - j,
        {
            j += 1;
        }
        let ghost tail = content@.skip(start as int);
        proof {
            assert forall|k: int| 0 <= k < j - start implies tail[k] != '\n' by {
                assert(tail[k] == content@[k + start]);
            }
        }
        if j == n {
            let line = content.substring_char(start, n);
            let ghost prev = r.deep_view();
            r.push(String::from_str(line));
            proof {
                lemma_lines_split(tail, n as int - start as int);
                assert(line@ =~= tail);
                assert(r.deep_view() =~= prev.push(tail));
                assert(prev.push(tail) =~= prev + spec_lines(tail));
                assert(content@.skip(n as int) =~= Seq::<char>::empty());
                assert(spec_lines(content@.skip(n as int)) == Seq::<Seq<char>>::empty());
                assert(r.deep_view() + spec_lines(content@.skip(n as int)) =~= prev + spec_lines(
                    tail,
                ));
            }
            start = n;
        } else {
            assert(content@[j as int] == '\n');
            let stripped_end = if j > start {
                let prevc = content.get_char(j - 1);
                if prevc == '\r' {
                    j - 1
                } else {
                    j
                }
            } else {
                j
            };
            let line = content.substring_char(start, stripped_end);
            let ghost prev = r.deep_view();
            r.push(String::from_str(line));
            proof {
                let mm = j as int - start as int;
                lemma_lines_split(tail, mm);
                assert(tail[mm] == content@[j as int]);
                assert(spec_lines(tail) == seq![strip_cr(tail.take(mm))] + spec_lines(
                    tail.skip(mm + 1),
                ));
                assert(tail.take(mm) =~= content@.subrange(start as int, j as int));
                if stripped_end < j {
                    assert(tail.take(mm).last() == content@[j as int - 1]);
                    assert(strip_cr(tail.take(mm)) == tail.take(mm).drop_last());
                    assert(line@ =~= tail.take(mm).drop_last());
                } else {
                    if mm > 0 {
                        assert(tail.take(mm).last() == content@[j as int - 1]);
                    }
                    assert(strip_cr(tail.take(mm)) == tail.take(mm));
                    assert(line@ =~= tail.take(mm));
                }
                assert(tail.skip(mm + 1) =~= content@.skip(j as int + 1));
                assert(r.deep_view() =~= prev.push(line@));
                assert(r.deep_view() + spec_lines(content@.skip(j as int + 1)) =~= prev
                    + spec_lines(tail));
            }
            start = j + 1;
        }
    }
    proof {
        assert(content@.skip(start as int) =~= content@.skip(n as int));
        assert(content@.skip(n as int) =~= Seq::<char>::empty());
        assert(spec_lines(content@.skip(start as int)) == Seq::<Seq<char>>::empty());
        assert(r.deep_view() + spec_lines(content@.skip(start as int)) =~= r.deep_view());
    }
    r
}

} // verus!
