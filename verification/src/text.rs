use vstd::prelude::*;
use vstd::string::*;

verus! {

/// The character sequences behind a list of strings.
pub open spec fn views_of(v: Seq<String>) -> Seq<Seq<char>> {
    v.map_values(|s: String| s@)
}

/// `c` occurs nowhere in `s` between `from` (inclusive) and `to` (exclusive).
pub open spec fn no_char_in(s: Seq<char>, c: char, from: int, to: int) -> bool {
    forall|k: int| from <= k < to ==> s[k] != c
}

/// First occurrence of `c` in `s` at or after `from`, scanning left to right.
pub fn find_char(s: &str, c: char, from: usize) -> (r: Option<usize>)
    requires
        from <= s@.len(),
    ensures
        match r {
            Some(i) => from <= i < s@.len() && s@[i as int] == c && no_char_in(
                s@,
                c,
                from as int,
                i as int,
            ),
            None => no_char_in(s@, c, from as int, s@.len() as int),
        },
{
    let len = s.unicode_len();
    let mut i = from;
    while i < len
        invariant
            from <= i <= len,
            len == s@.len(),
            no_char_in(s@, c, from as int, i as int),
        decreases len - i,
    {
        if s.get_char(i) == c {
            return Some(i);
        }
        i += 1;
    }
    None
}

/// `n` occurs in `h` starting at position `at`.
pub open spec fn occurs_at(h: Seq<char>, n: Seq<char>, at: int) -> bool {
    0 <= at && at + n.len() <= h.len() && h.subrange(at, at + n.len() as int) == n
}

/// `n` occurs somewhere in `h`.
pub open spec fn contains_seq(h: Seq<char>, n: Seq<char>) -> bool {
    exists|at: int| occurs_at(h, n, at)
}

/// Whether `needle` occurs anywhere in `haystack`.
pub fn contains_str(haystack: &str, needle: &str) -> (r: bool)
    ensures
        r == contains_seq(haystack@, needle@),
{
    let hlen = haystack.unicode_len();
    let nlen = needle.unicode_len();
    if nlen > hlen {
        return false;
    }
    let mut at: usize = 0;
    while at <= hlen - nlen
        invariant
            nlen <= hlen,
            hlen == haystack@.len(),
            nlen == needle@.len(),
            0 <= at <= hlen - nlen + 1,
            forall|t: int| 0 <= t < at ==> !occurs_at(haystack@, needle@, t),
        decreases hlen - nlen - at + 1,
    {
        let mut k: usize = 0;
        let mut ok = true;
        while k < nlen && ok
            invariant
                nlen <= hlen,
                hlen == haystack@.len(),
                nlen == needle@.len(),
                at + nlen <= hlen,
                0 <= k <= nlen,
                ok ==> forall|t: int| 0 <= t < k ==> haystack@[at + t] == needle@[t],
                !ok ==> !occurs_at(haystack@, needle@, at as int),
                !ok ==> k < nlen,
            decreases nlen - k + (if ok { 1int } else { 0int }),
        {
            if haystack.get_char(at + k) != needle.get_char(k) {
                proof {
                    assert(haystack@.subrange(at as int, at + nlen)[k as int] != needle@[k as int]);
                }
                ok = false;
            } else {
                k += 1;
            }
        }
        if ok {
            proof {
                assert(haystack@.subrange(at as int, at + nlen) =~= needle@);
                assert(occurs_at(haystack@, needle@, at as int));
            }
            return true;
        }
        at += 1;
    }
    proof {
        assert forall|t: int| !occurs_at(haystack@, needle@, t) by {
            if 0 <= t && t + needle@.len() <= haystack@.len() {
                assert(t < at);
            }
        }
    }
    false
}

} // verus!
