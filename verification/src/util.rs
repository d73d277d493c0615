//! Small verified helpers on vectors of strings.

use vstd::prelude::*;

verus! {

/// Appends a clone of every string of `src` onto `dst`, in order.
pub fn append_all(dst: &mut Vec<String>, src: &Vec<String>)
    ensures
        final(dst).deep_view() == old(dst).deep_view() + src.deep_view(),
{
    let ghost base = dst.deep_view();
    let mut i: usize = 0;
    while i < src.len()
        invariant
            i <= src.len(),
            dst.deep_view() == base + src.deep_view().take(i as int),
        decreases src.len() - i,
    {
        let s: String = src[i].clone();
        let ghost sv = s@;
        let ghost prev = dst.deep_view();
        dst.push(s);
        proof {
            assert(sv == src.deep_view()[i as int]);
            assert(dst.deep_view() =~= prev.push(sv));
            assert(prev.push(sv) =~= base + src.deep_view().take(i as int + 1));
        }
        i += 1;
    }
    proof {
        assert(src.deep_view().take(src.len() as int) =~= src.deep_view());
    }
}

/// Whether some string of `v` has the same characters as `s`.
pub fn contains_string(v: &Vec<String>, s: &String) -> (r: bool)
    ensures
        r == v.deep_view().contains(s@),
{
    let mut i: usize = 0;
    while i < v.len()
        invariant
            i <= v.len(),
            forall|j: int| 0 <= j < i ==> v.deep_view()[j] != s@,
        decreases v.len() - i,
    {
        if v[i] == *s {
            assert(v.deep_view()[i as int] == s@);
            return true;
        }
        i += 1;
    }
    false
}

} // verus!
