use vstd::prelude::*;
use vstd::string::*;
use crate::text::{find_char, no_char_in, views_of};

verus! {

/// `i` and `j` delimit the path's tag group: `i` is the first `{` of the path
/// and `j` the first `}` after it.
pub open spec fn is_tag_span(p: Seq<char>, i: int, j: int) -> bool {
    &&& 0 <= i < j < p.len()
    &&& p[i] == '{'
    &&& p[j] == '}'
    &&& no_char_in(p, '{', 0, i)
    &&& no_char_in(p, '}', i + 1, j)
}

/// The path carries a tag group.
pub open spec fn has_tag_group(p: Seq<char>) -> bool {
    exists|i: int, j: int| is_tag_span(p, i, j)
}

/// The bounds of the path's tag group.
pub open spec fn tag_span(p: Seq<char>) -> (int, int)
    recommends
        has_tag_group(p),
{
    choose|i: int, j: int| is_tag_span(p, i, j)
}

/// A path delimits at most one tag group.
pub proof fn lemma_tag_span_unique(p: Seq<char>, i1: int, j1: int, i2: int, j2: int)
    requires
        is_tag_span(p, i1, j1),
        is_tag_span(p, i2, j2),
    ensures
        i1 == i2,
        j1 == j2,
{
    assert(i1 == i2) by {
        if i1 < i2 {
            assert(p[i1] != '{');
        } else if i2 < i1 {
            assert(p[i2] != '{');
        }
    }
    assert(j1 == j2) by {
        if j1 < j2 {
            assert(p[j1] != '}');
        } else if j2 < j1 {
            assert(p[j2] != '}');
        }
    }
}

/// The path with its tag group removed, braces included; a path without a
/// group is left as it is.
pub open spec fn strip_tags_spec(p: Seq<char>) -> Seq<char> {
    if has_tag_group(p) {
        let (i, j) = tag_span(p);
        p.subrange(0, i) + p.subrange(j + 1, p.len() as int)
    } else {
        p
    }
}

/// The comma-separated tokens of `s`: raw substrings between commas, with
/// nothing trimmed. A sequence without commas is one token, so the empty
/// sequence is one empty token.
pub open spec fn split_commas(s: Seq<char>) -> Seq<Seq<char>>
    decreases s.len(),
{
    if s.len() == 0 {
        seq![Seq::<char>::empty()]
    } else if s[0] == ',' {
        seq![Seq::<char>::empty()] + split_commas(s.drop_first())
    } else {
        let rest = split_commas(s.drop_first());
        seq![seq![s[0]] + rest[0]] + rest.drop_first()
    }
}

/// The set of option identifiers the path's tag group names: the comma-split
/// tokens of the group's interior, collapsed to a set. A path without a
/// group names no options, and a group with an empty interior, `{}`, is
/// explicitly read as naming none.
pub open spec fn tag_options(p: Seq<char>) -> Set<Seq<char>> {
    if has_tag_group(p) {
        let (i, j) = tag_span(p);
        if j == i + 1 {
            Set::empty()
        } else {
            split_commas(p.subrange(i + 1, j)).to_set()
        }
    } else {
        Set::empty()
    }
}

/// A path without a tag group names no options and is unchanged by
/// tag-stripping.
pub proof fn lemma_untagged_path(p: Seq<char>)
    requires
        !has_tag_group(p),
    ensures
        tag_options(p) == Set::<Seq<char>>::empty(),
        strip_tags_spec(p) == p,
{
}

/// Tag-stripping is idempotent: a path that is already rewritten carries no
/// tag group, and stripping such a tag-free path is a no-op.
pub proof fn lemma_strip_tag_free_noop(p: Seq<char>)
    requires
        !has_tag_group(p),
    ensures
        strip_tags_spec(p) == p,
{
}

proof fn lemma_split_commas_len(s: Seq<char>)
    ensures
        split_commas(s).len() >= 1,
    decreases s.len(),
{
    if s.len() == 0 {
    } else {
        lemma_split_commas_len(s.drop_first());
    }
}

/// Splitting a comma-free sequence gives that sequence as the one token.
proof fn lemma_split_no_comma(s: Seq<char>)
    requires
        no_char_in(s, ',', 0, s.len() as int),
    ensures
        split_commas(s) == seq![s],
    decreases s.len(),
{
    if s.len() == 0 {
        assert(s =~= Seq::<char>::empty());
    } else {
        assert(s[0] != ',');
        let d = s.drop_first();
        lemma_split_no_comma(d);
        let rest = split_commas(d);
        assert(seq![s[0]] + rest[0] =~= s);
        assert(rest.drop_first() =~= Seq::<Seq<char>>::empty());
        assert(split_commas(s) =~= seq![s]);
    }
}

/// Splitting at the first comma peels off the leading token.
proof fn lemma_split_first_comma(s: Seq<char>, c: int)
    requires
        0 <= c < s.len(),
        s[c] == ',',
        no_char_in(s, ',', 0, c),
    ensures
        split_commas(s) == seq![s.subrange(0, c)] + split_commas(
            s.subrange(c + 1, s.len() as int),
        ),
    decreases c,
{
    if c == 0 {
        assert(s.drop_first() =~= s.subrange(1, s.len() as int));
        assert(s.subrange(0, 0) =~= Seq::<char>::empty());
        assert(split_commas(s) =~= seq![s.subrange(0, c)] + split_commas(
            s.subrange(c + 1, s.len() as int),
        ));
    } else {
        assert(s[0] != ',');
        let d = s.drop_first();
        lemma_split_first_comma(d, c - 1);
        let rest = split_commas(d);
        assert(rest[0] == d.subrange(0, c - 1));
        assert(seq![s[0]] + rest[0] =~= s.subrange(0, c));
        assert(rest.drop_first() =~= split_commas(d.subrange(c - 1 + 1, d.len() as int)));
        assert(d.subrange(c, d.len() as int) =~= s.subrange(c + 1, s.len() as int));
        assert(split_commas(s) =~= seq![s.subrange(0, c)] + split_commas(
            s.subrange(c + 1, s.len() as int),
        ));
    }
}

/// Prepending an element to a sequence adds it to the element set.
proof fn lemma_cons_to_set<A>(x: A, t: Seq<A>)
    ensures
        (seq![x] + t).to_set() == t.to_set().insert(x),
{
    let u = seq![x] + t;
    assert forall|a: A| u.to_set().contains(a) implies t.to_set().insert(x).contains(a) by {
        let k = choose|k: int| 0 <= k < u.len() && u[k] == a;
        if k > 0 {
            assert(t[k - 1] == a);
        }
    }
    assert forall|a: A| t.to_set().insert(x).contains(a) implies u.to_set().contains(a) by {
        if a == x {
            assert(u[0] == a);
        } else {
            let k = choose|k: int| 0 <= k < t.len() && t[k] == a;
            assert(u[k + 1] == a);
        }
    }
    assert(u.to_set() =~= t.to_set().insert(x));
}

/// No `{` anywhere means no tag group.
proof fn lemma_no_open_no_group(p: Seq<char>)
    requires
        no_char_in(p, '{', 0, p.len() as int),
    ensures
        !has_tag_group(p),
{
    if has_tag_group(p) {
        let (a, b) = choose|a: int, b: int| is_tag_span(p, a, b);
        assert(p[a] == '{');
        assert(false);
    }
}

/// No `}` after the first `{` means no tag group.
proof fn lemma_no_close_no_group(p: Seq<char>, i: int)
    requires
        0 <= i < p.len(),
        p[i] == '{',
        no_char_in(p, '{', 0, i),
        no_char_in(p, '}', i + 1, p.len() as int),
    ensures
        !has_tag_group(p),
{
    if has_tag_group(p) {
        let (a, b) = choose|a: int, b: int| is_tag_span(p, a, b);
        assert(a == i) by {
            if a < i {
                assert(p[a] != '{');
            } else if i < a {
                assert(p[i] != '{');
            }
        }
        assert(p[b] == '}');
        assert(false);
    }
}

/// Appends `s` to `v` unless an equal string already stands there.
fn insert_unique(v: &mut Vec<String>, s: String)
    ensures
        views_of(final(v)@).to_set() == views_of(old(v)@).to_set().insert(s@),
        views_of(old(v)@).no_duplicates() ==> views_of(final(v)@).no_duplicates(),
{
    let ghost olds = views_of(v@);
    let mut k: usize = 0;
    while k < v.len()
        invariant
            0 <= k <= v@.len(),
            forall|t: int| 0 <= t < k ==> v@[t]@ != s@,
            olds == views_of(v@),
        decreases v@.len() - k,
    {
        if v[k] == s {
            proof {
                assert(olds[k as int] == s@);
                assert(olds.to_set().contains(s@));
                assert(olds.to_set() =~= olds.to_set().insert(s@));
            }
            return ;
        }
        k += 1;
    }
    v.push(s);
    proof {
        assert(views_of(v@) =~= olds.push(s@));
        assert(views_of(v@).to_set() =~= olds.to_set().insert(s@)) by {
            assert forall|a: Seq<char>| olds.push(s@).to_set().contains(a) implies olds.to_set().insert(
                s@,
            ).contains(a) by {
                let t = choose|t: int| 0 <= t < olds.push(s@).len() && olds.push(s@)[t] == a;
                if t < olds.len() {
                    assert(olds[t] == a);
                }
            }
            assert forall|a: Seq<char>| olds.to_set().insert(s@).contains(a) implies olds.push(
                s@,
            ).to_set().contains(a) by {
                if a == s@ {
                    assert(olds.push(s@)[olds.len() as int] == a);
                } else {
                    let t = choose|t: int| 0 <= t < olds.len() && olds[t] == a;
                    assert(olds.push(s@)[t] == a);
                }
            }
        }
        if olds.no_duplicates() {
            assert(forall|t: int| 0 <= t < olds.len() ==> olds[t] != s@);
            assert(views_of(v@).no_duplicates());
        }
    }
}

/// The option identifiers named by the path's tag group, each once, in the
/// order first seen.
pub fn options_in_file(path: &str) -> (r: Vec<String>)
    ensures
        views_of(r@).to_set() == tag_options(path@),
        views_of(r@).no_duplicates(),
{
    let mut r: Vec<String> = Vec::new();
    proof {
        assert(views_of(r@) =~= Seq::<Seq<char>>::empty());
        assert(views_of(r@).to_set() =~= Set::<Seq<char>>::empty());
    }
    let len = path.unicode_len();
    let i = match find_char(path, '{', 0) {
        None => {
            proof {
                lemma_no_open_no_group(path@);
            }
            return r;
        },
        Some(i) => i,
    };
    let j = match find_char(path, '}', i + 1) {
        None => {
            proof {
                lemma_no_close_no_group(path@, i as int);
            }
            return r;
        },
        Some(j) => j,
    };
    proof {
        assert(is_tag_span(path@, i as int, j as int));
        let (ci, cj) = tag_span(path@);
        lemma_tag_span_unique(path@, ci, cj, i as int, j as int);
    }
    if j == i + 1 {
        return r;
    }
    let ghost g = path@.subrange(i + 1, j as int);
    let mut pos: usize = i + 1;
    let mut done = false;
    proof {
        assert(g.subrange(0, g.len() as int) =~= g);
        assert(views_of(r@).to_set() + split_commas(g).to_set() =~= split_commas(g).to_set());
    }
    while !done
        invariant
            i + 1 <= pos <= j < path@.len(),
            is_tag_span(path@, i as int, j as int),
            j > i + 1,
            g == path@.subrange(i + 1, j as int),
            views_of(r@).no_duplicates(),
            !done ==> split_commas(g).to_set() == views_of(r@).to_set() + split_commas(
                g.subrange(pos - (i + 1), g.len() as int),
            ).to_set(),
            done ==> split_commas(g).to_set() == views_of(r@).to_set(),
        decreases j - pos + (if done { 0int } else { 1int }),
    {
        let c = find_char(path, ',', pos);
        let mut end = j;
        let mut more = false;
        match c {
            Some(cc) => {
                if cc < j {
                    end = cc;
                    more = true;
                }
            },
            None => {},
        }
        let tok = path.substring_char(pos, end).to_owned();
        let ghost suf = g.subrange(pos - (i + 1), g.len() as int);
        proof {
            assert(suf =~= path@.subrange(pos as int, j as int));
            assert(tok@ =~= suf.subrange(0, end - pos));
            if more {
                lemma_split_first_comma(suf, end - pos);
                lemma_cons_to_set(tok@, split_commas(suf.subrange(end - pos + 1, suf.len() as int)));
            } else {
                assert(no_char_in(suf, ',', 0, suf.len() as int));
                assert(tok@ =~= suf);
                lemma_split_no_comma(suf);
                lemma_cons_to_set(tok@, Seq::<Seq<char>>::empty());
                assert(Seq::<Seq<char>>::empty().to_set() =~= Set::<Seq<char>>::empty());
                assert(split_commas(suf) =~= seq![tok@] + Seq::<Seq<char>>::empty());
            }
        }
        let ghost old_set = views_of(r@).to_set();
        insert_unique(&mut r, tok);
        if more {
            proof {
                assert(g.subrange(end + 1 - (i + 1), g.len() as int) =~= suf.subrange(
                    end - pos + 1,
                    suf.len() as int,
                ));
                assert(split_commas(g).to_set() =~= views_of(r@).to_set() + split_commas(
                    g.subrange(end + 1 - (i + 1), g.len() as int),
                ).to_set());
            }
            pos = end + 1;
        } else {
            proof {
                assert(split_commas(suf).to_set() =~= Set::<Seq<char>>::empty().insert(tok@));
                assert(split_commas(g).to_set() =~= views_of(r@).to_set());
            }
            done = true;
        }
    }
    r
}

/// Removes the tag group, braces included, from the path; a path without a
/// group comes back unchanged.
pub fn strip_tags(path: &str) -> (r: String)
    ensures
        r@ == strip_tags_spec(path@),
{
    let len = path.unicode_len();
    let i = match find_char(path, '{', 0) {
        None => {
            proof {
                lemma_no_open_no_group(path@);
            }
            return path.to_owned();
        },
        Some(i) => i,
    };
    let j = match find_char(path, '}', i + 1) {
        None => {
            proof {
                lemma_no_close_no_group(path@, i as int);
            }
            return path.to_owned();
        },
        Some(j) => j,
    };
    proof {
        assert(is_tag_span(path@, i as int, j as int));
        let (ci, cj) = tag_span(path@);
        lemma_tag_span_unique(path@, ci, cj, i as int, j as int);
    }
    let mut r = path.substring_char(0, i).to_owned();
    r.append(path.substring_char(j + 1, len));
    r
}

} // verus!
