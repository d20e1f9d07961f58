use vstd::prelude::*;
use vstd::string::*;
use vstd::multiset::Multiset;
use crate::text::{contains_seq, contains_str, views_of};

verus! {

/// The options catalog read from the template's configuration: pairs of
/// option identifier and human-readable label, each identifier once.
pub struct Config {
    pub options: Vec<(String, String)>,
}

/// The identifiers of a catalog's options, in catalog order.
pub open spec fn option_keys(options: Seq<(String, String)>) -> Seq<Seq<char>> {
    options.map_values(|kv: (String, String)| kv.0@)
}

/// Lexicographic order on character sequences, by code point.
pub open spec fn lex_le(a: Seq<char>, b: Seq<char>) -> bool
    decreases a.len(),
{
    if a.len() == 0 {
        true
    } else if b.len() == 0 {
        false
    } else if a[0] == b[0] {
        lex_le(a.drop_first(), b.drop_first())
    } else {
        (a[0] as u32) < (b[0] as u32)
    }
}

/// The lexicographic order is total.
pub proof fn lemma_lex_total(a: Seq<char>, b: Seq<char>)
    ensures
        lex_le(a, b) || lex_le(b, a),
    decreases a.len(),
{
    if a.len() > 0 && b.len() > 0 {
        if a[0] == b[0] {
            lemma_lex_total(a.drop_first(), b.drop_first());
        } else {
            assert((a[0] as u32) != (b[0] as u32)) by {
                vstd::utf8::char_u32_cast(a[0], a[0] as u32);
                vstd::utf8::char_u32_cast(b[0], b[0] as u32);
            }
        }
    }
}

/// The lexicographic order is transitive.
pub proof fn lemma_lex_trans(a: Seq<char>, b: Seq<char>, c: Seq<char>)
    requires
        lex_le(a, b),
        lex_le(b, c),
    ensures
        lex_le(a, c),
    decreases a.len(),
{
    if a.len() > 0 {
        if a[0] == b[0] {
            if b[0] == c[0] {
                lemma_lex_trans(a.drop_first(), b.drop_first(), c.drop_first());
            }
        }
    }
}

/// Whether `a` comes no later than `b` in lexicographic order.
pub fn str_le(a: &str, b: &str) -> (r: bool)
    ensures
        r == lex_le(a@, b@),
{
    let alen = a.unicode_len();
    let blen = b.unicode_len();
    let mut k: usize = 0;
    proof {
        assert(a@.skip(0) =~= a@);
        assert(b@.skip(0) =~= b@);
    }
    while k < alen && k < blen
        invariant
            alen == a@.len(),
            blen == b@.len(),
            0 <= k <= alen,
            0 <= k <= blen,
            lex_le(a@, b@) == lex_le(a@.skip(k as int), b@.skip(k as int)),
        decreases alen - k,
    {
        let ca = a.get_char(k);
        let cb = b.get_char(k);
        proof {
            assert(a@.skip(k as int)[0] == a@[k as int]);
            assert(b@.skip(k as int)[0] == b@[k as int]);
        }
        if ca != cb {
            return (ca as u32) < (cb as u32);
        }
        proof {
            assert(a@.skip(k as int).drop_first() =~= a@.skip(k + 1));
            assert(b@.skip(k as int).drop_first() =~= b@.skip(k + 1));
        }
        k += 1;
    }
    proof {
        if k == alen {
            assert(a@.skip(k as int).len() == 0);
        } else {
            assert(b@.skip(k as int).len() == 0);
            assert(a@.skip(k as int).len() > 0);
        }
    }
    alen <= blen
}

proof fn lemma_multiset_transfer<T>(a: Multiset<T>, b: Multiset<T>, x: T)
    requires
        b.count(x) >= 1,
    ensures
        a.insert(x).add(b.remove(x)) == a.add(b),
{
    broadcast use vstd::multiset::group_multiset_axioms;

    assert(a.insert(x).add(b.remove(x)) =~= a.add(b));
}

/// An exact copy of the catalog's pairs.
fn clone_pairs(v: &Vec<(String, String)>) -> (r: Vec<(String, String)>)
    ensures
        r@ == v@,
{
    let mut r: Vec<(String, String)> = Vec::new();
    let mut k: usize = 0;
    while k < v.len()
        invariant
            0 <= k <= v@.len(),
            r@ == v@.subrange(0, k as int),
        decreases v@.len() - k,
    {
        r.push((v[k].0.clone(), v[k].1.clone()));
        proof {
            assert(r@ =~= v@.subrange(0, k + 1));
        }
        k += 1;
    }
    proof {
        assert(r@ =~= v@);
    }
    r
}

impl Config {
    /// Well-formed: option identifiers are unique within a template set.
    pub open spec fn wf(self) -> bool {
        option_keys(self.options@).no_duplicates()
    }

    /// Every option identifier the catalog names, in catalog order.
    pub fn get_all_options(&self) -> (r: Vec<String>)
        ensures
            views_of(r@) == option_keys(self.options@),
    {
        let mut r: Vec<String> = Vec::new();
        let mut k: usize = 0;
        while k < self.options.len()
            invariant
                0 <= k <= self.options@.len(),
                views_of(r@) == option_keys(self.options@).take(k as int),
            decreases self.options@.len() - k,
        {
            let ghost prev = r@;
            r.push(self.options[k].0.clone());
            proof {
                assert(views_of(r@) =~= views_of(prev).push(self.options@[k as int].0@));
                assert(option_keys(self.options@).take(k + 1) =~= option_keys(
                    self.options@,
                ).take(k as int).push(self.options@[k as int].0@));
            }
            k += 1;
        }
        proof {
            assert(option_keys(self.options@).take(self.options@.len() as int) =~= option_keys(
                self.options@,
            ));
        }
        r
    }

    /// The catalog's options reordered by human-readable label, for the
    /// prompt: the same pairs, labels ascending.
    pub fn sorted_by_label(&self) -> (r: Vec<(String, String)>)
        ensures
            r@.to_multiset() == self.options@.to_multiset(),
            forall|i: int, j: int| 0 <= i < j < r@.len() ==> lex_le(r@[i].1@, r@[j].1@),
    {
        broadcast use vstd::seq_lib::group_to_multiset_ensures;

        let mut work = clone_pairs(&self.options);
        let mut out: Vec<(String, String)> = Vec::new();
        proof {
            assert(out@.to_multiset().add(work@.to_multiset()) =~= self.options@.to_multiset());
        }
        while work.len() > 0
            invariant
                out@.to_multiset().add(work@.to_multiset()) == self.options@.to_multiset(),
                forall|i: int, j: int| 0 <= i < j < out@.len() ==> lex_le(out@[i].1@, out@[j].1@),
                forall|i: int, w: int|
                    0 <= i < out@.len() && 0 <= w < work@.len() ==> lex_le(
                        (#[trigger] out@[i]).1@,
                        (#[trigger] work@[w]).1@,
                    ),
            decreases work@.len(),
        {
            let mut j: usize = 0;
            let mut t: usize = 1;
            proof {
                lemma_lex_total(work@[0].1@, work@[0].1@);
            }
            while t < work.len()
                invariant
                    work@.len() > 0,
                    0 <= j < work@.len(),
                    1 <= t <= work@.len(),
                    forall|u: int| 0 <= u < t ==> lex_le(work@[j as int].1@, (#[trigger] work@[u]).1@),
                decreases work@.len() - t,
            {
                if str_le(work[t].1.as_str(), work[j].1.as_str()) {
                    proof {
                        assert forall|u: int| 0 <= u < t + 1 implies lex_le(
                            work@[t as int].1@,
                            (#[trigger] work@[u]).1@,
                        ) by {
                            if u < t {
                                lemma_lex_trans(work@[t as int].1@, work@[j as int].1@, work@[u].1@);
                            } else {
                                lemma_lex_total(work@[t as int].1@, work@[t as int].1@);
                            }
                        }
                    }
                    j = t;
                } else {
                    proof {
                        lemma_lex_total(work@[t as int].1@, work@[j as int].1@);
                    }
                }
                t += 1;
            }
            let ghost old_work = work@;
            let ghost old_out = out@;
            let x = work.remove(j);
            out.push(x);
            proof {
                assert(old_work[j as int] == x);
                assert(work@ == old_work.remove(j as int));
                assert(out@ == old_out.push(x));
                old_out.to_multiset_ensures();
                old_work.to_multiset_ensures();
                assert(old_work.contains(x)) by {
                    assert(old_work[j as int] == x);
                }
                assert(old_work.to_multiset().count(x) >= 1);
                assert(out@.to_multiset() == old_out.to_multiset().insert(x));
                assert(work@.to_multiset() == old_work.to_multiset().remove(x));
                lemma_multiset_transfer(old_out.to_multiset(), old_work.to_multiset(), x);
                assert(out@.to_multiset().add(work@.to_multiset()) == self.options@.to_multiset());
                assert forall|i: int, w: int|
                    0 <= i < out@.len() && 0 <= w < work@.len() implies lex_le(
                    (#[trigger] out@[i]).1@,
                    (#[trigger] work@[w]).1@,
                ) by {
                    if w < j {
                        assert(work@[w] == old_work[w]);
                    } else {
                        assert(work@[w] == old_work[w + 1]);
                    }
                    if i < old_out.len() {
                        assert(out@[i] == old_out[i]);
                    } else {
                        assert(out@[i] == x);
                    }
                }
                assert forall|i: int, jj: int| 0 <= i < jj < out@.len() implies lex_le(
                    out@[i].1@,
                    out@[jj].1@,
                ) by {
                    if jj < old_out.len() {
                        assert(out@[i] == old_out[i] && out@[jj] == old_out[jj]);
                    } else {
                        assert(out@[jj] == x);
                        assert(lex_le(old_out[i].1@, old_work[j as int].1@));
                    }
                }
            }
        }
        proof {
            broadcast use vstd::multiset::group_multiset_axioms;

            work@.to_multiset_ensures();
            assert(work@.to_multiset().len() == 0);
            assert(out@.to_multiset().add(work@.to_multiset()) =~= out@.to_multiset());
        }
        out
    }
}

/// The identifiers behind the prompt rows the user picked; row indices point
/// into the label-sorted catalog.
pub fn selected_keys(sorted: &Vec<(String, String)>, picked: &Vec<usize>) -> (r: Vec<String>)
    requires
        forall|k: int| 0 <= k < picked@.len() ==> (#[trigger] picked@[k]) < sorted@.len(),
    ensures
        r@.len() == picked@.len(),
        forall|k: int|
            0 <= k < picked@.len() ==> (#[trigger] r@[k])@ == sorted@[picked@[k] as int].0@,
{
    let mut r: Vec<String> = Vec::new();
    let mut k: usize = 0;
    while k < picked.len()
        invariant
            0 <= k <= picked@.len(),
            forall|t: int| 0 <= t < picked@.len() ==> (#[trigger] picked@[t]) < sorted@.len(),
            r@.len() == k,
            forall|t: int| 0 <= t < k ==> (#[trigger] r@[t])@ == sorted@[picked@[t] as int].0@,
        decreases picked@.len() - k,
    {
        let idx = picked[k];
        r.push(sorted[idx].0.clone());
        k += 1;
    }
    r
}

/// Whether a discovered path is the template's own configuration file, which
/// discovery skips: any path that holds `scaf.toml`.
pub fn is_config_path(path: &str) -> (r: bool)
    ensures
        r == contains_seq(path@, "scaf.toml"@),
{
    contains_str(path, "scaf.toml")
}

} // verus!
