use vstd::prelude::*;
use vstd::string::*;
use crate::errors::ScafError;
use crate::filter::{filter_records, survives_pred};
use crate::record::{clone_record, lemma_wf_specificity, record_views, specificity, FileRecord, RecordView};

verus! {

/// `m` is the maximal specificity among the records at output path `p`.
#[verifier::opaque]
pub open spec fn max_spec_at(files: Seq<RecordView>, p: Seq<char>, m: nat) -> bool {
    &&& exists|k: int| 0 <= k < files.len() && files[k].path == p && specificity(files[k]) == m
    &&& forall|k: int|
        0 <= k < files.len() && (#[trigger] files[k]).path == p ==> specificity(files[k]) <= m
}

/// How many records at path `p` have specificity `m`.
#[verifier::opaque]
pub open spec fn count_at(files: Seq<RecordView>, p: Seq<char>, m: nat) -> nat
    decreases files.len(),
{
    if files.len() == 0 {
        0
    } else {
        count_at(files.drop_last(), p, m) + if files.last().path == p && specificity(files.last())
            == m {
            1nat
        } else {
            0nat
        }
    }
}

/// Exactly one record at path `p` reaches the maximal specificity there: the
/// collision at `p` is resolvable.
#[verifier::opaque]
pub open spec fn unique_winner(files: Seq<RecordView>, p: Seq<char>) -> bool {
    exists|m: nat| max_spec_at(files, p, m) && count_at(files, p, m) == 1
}

/// Two or more records at path `p` tie at the maximal specificity there: the
/// collision at `p` is ambiguous.
#[verifier::opaque]
pub open spec fn ambiguous_at(files: Seq<RecordView>, p: Seq<char>) -> bool {
    exists|m: nat| max_spec_at(files, p, m) && count_at(files, p, m) >= 2
}

/// `r` is the record kept for its path: it reaches the maximal specificity
/// there, alone.
#[verifier::opaque]
pub open spec fn is_winner(files: Seq<RecordView>, r: RecordView) -> bool {
    &&& files.contains(r)
    &&& max_spec_at(files, r.path, specificity(r))
    &&& count_at(files, r.path, specificity(r)) == 1
}

proof fn lemma_count_take_step(files: Seq<RecordView>, p: Seq<char>, m: nat, t: int)
    requires
        0 <= t < files.len(),
    ensures
        count_at(files.take(t + 1), p, m) == count_at(files.take(t), p, m) + if files[t].path == p
            && specificity(files[t]) == m {
            1nat
        } else {
            0nat
        },
{
    reveal(count_at);
    assert(files.take(t + 1).drop_last() =~= files.take(t));
    assert(files.take(t + 1).last() == files[t]);
}

proof fn lemma_count_zero(files: Seq<RecordView>, p: Seq<char>, m: nat)
    requires
        forall|k: int|
            0 <= k < files.len() ==> !((#[trigger] files[k]).path == p && specificity(files[k])
                == m),
    ensures
        count_at(files, p, m) == 0,
    decreases files.len(),
{
    reveal(count_at);
    if files.len() > 0 {
        lemma_count_zero(files.drop_last(), p, m);
        assert(files.last() == files[files.len() - 1]);
    }
}

proof fn lemma_count_pos(files: Seq<RecordView>, p: Seq<char>, m: nat, k: int)
    requires
        0 <= k < files.len(),
        files[k].path == p,
        specificity(files[k]) == m,
    ensures
        count_at(files, p, m) >= 1,
    decreases files.len(),
{
    reveal(count_at);
    if k == files.len() - 1 {
        assert(files.last() == files[k]);
    } else {
        lemma_count_pos(files.drop_last(), p, m, k);
    }
}

/// Scans all records sharing the path of `files[i]`: returns the maximal
/// specificity in that group, how many records reach it, and the index of the
/// first that does.
fn scan_group(files: &Vec<FileRecord>, i: usize) -> (r: (usize, usize, usize))
    requires
        i < files@.len(),
        forall|k: int| 0 <= k < files@.len() ==> (#[trigger] files@[k]).wf(),
    ensures
        ({
            let (m, cnt, best) = r;
            let vs = record_views(files@);
            let p = vs[i as int].path;
            &&& max_spec_at(vs, p, m as nat)
            &&& cnt == count_at(vs, p, m as nat)
            &&& cnt >= 1
            &&& best < files@.len()
            &&& vs[best as int].path == p
            &&& specificity(vs[best as int]) == m
        }),
{
    let ghost vs = record_views(files@);
    let ghost p = vs[i as int].path;
    proof {
        lemma_wf_specificity(files@[i as int]);
    }
    let mut m: usize = files[i].depends_on.len();
    let mut cnt: usize = 0;
    let mut best: usize = i;
    let mut t: usize = 0;
    proof {
        assert(vs.take(0) =~= Seq::<RecordView>::empty());
        assert(count_at(vs.take(0), p, m as nat) == 0) by {
            reveal(count_at);
        }
    }
    while t < files.len()
        invariant
            i < files@.len(),
            forall|k: int| 0 <= k < files@.len() ==> (#[trigger] files@[k]).wf(),
            vs == record_views(files@),
            p == vs[i as int].path,
            0 <= t <= files@.len(),
            cnt <= t,
            cnt == count_at(vs.take(t as int), p, m as nat),
            forall|k: int|
                0 <= k < t && (#[trigger] vs[k]).path == p ==> specificity(vs[k]) <= m as nat,
            m as nat == specificity(vs[i as int]) || (exists|k: int|
                0 <= k < t && vs[k].path == p && specificity(vs[k]) == m as nat),
            best < files@.len(),
            vs[best as int].path == p,
            specificity(vs[best as int]) == m as nat,
        decreases files@.len() - t,
    {
        if files[t].path == files[i].path {
            proof {
                lemma_wf_specificity(files@[t as int]);
                assert(vs[t as int].path == p);
            }
            let s = files[t].depends_on.len();
            if s > m {
                proof {
                    assert forall|k: int|
                        0 <= k < vs.take(t as int).len() implies !((#[trigger] vs.take(
                        t as int,
                    )[k]).path == p && specificity(vs.take(t as int)[k]) == s as nat) by {
                        assert(vs.take(t as int)[k] == vs[k]);
                    }
                    lemma_count_zero(vs.take(t as int), p, s as nat);
                    lemma_count_take_step(vs, p, s as nat, t as int);
                }
                m = s;
                cnt = 1;
                best = t;
            } else if s == m {
                proof {
                    lemma_count_take_step(vs, p, m as nat, t as int);
                }
                cnt = cnt + 1;
            } else {
                proof {
                    lemma_count_take_step(vs, p, m as nat, t as int);
                }
            }
        } else {
            proof {
                assert(vs[t as int].path != p);
                lemma_count_take_step(vs, p, m as nat, t as int);
            }
        }
        t += 1;
    }
    proof {
        assert(vs.take(files@.len() as int) =~= vs);
        lemma_count_pos(vs, p, m as nat, best as int);
        assert(max_spec_at(vs, p, m as nat)) by {
            reveal(max_spec_at);
        }
    }
    (m, cnt, best)
}

/// Some kept record has output path `p`.
#[verifier::opaque]
pub open spec fn path_covered(out: Seq<FileRecord>, p: Seq<char>) -> bool {
    exists|k: int| 0 <= k < out.len() && (#[trigger] out[k])@.path == p
}

proof fn lemma_covered_push(out: Seq<FileRecord>, rec: FileRecord, p: Seq<char>)
    requires
        path_covered(out, p),
    ensures
        path_covered(out.push(rec), p),
{
    reveal(path_covered);
    let k = choose|k: int| 0 <= k < out.len() && (#[trigger] out[k])@.path == p;
    assert(out.push(rec)[k] == out[k]);
}

/// Every kept record's path stands among the first `i` input paths.
#[verifier::opaque]
spec fn out_from_prefix(files: Seq<RecordView>, out: Seq<FileRecord>, i: int) -> bool {
    forall|k: int|
        0 <= k < out.len() ==> exists|t: int|
            0 <= t < i && files[t].path == (#[trigger] out[k])@.path
}

/// Keeps exactly one record per output path, in first-occurrence order: the
/// record whose specificity is strictly greatest among those at its path.
/// When two or more records tie at the maximum, reports the collision as an
/// ambiguous conflict, naming the path, and keeps nothing.
pub fn resolve_conflicts(files: &Vec<FileRecord>) -> (res: Result<Vec<FileRecord>, ScafError>)
    requires
        forall|k: int| 0 <= k < files@.len() ==> (#[trigger] files@[k]).wf(),
    ensures
        ({
            let vs = record_views(files@);
            match res {
                Ok(out) => {
                    &&& forall|k: int| 0 <= k < out@.len() ==> is_winner(vs, (#[trigger] out@[k])@)
                    &&& forall|k1: int, k2: int|
                        0 <= k1 < k2 < out@.len() ==> out@[k1]@.path != out@[k2]@.path
                    &&& forall|t: int|
                        0 <= t < vs.len() ==> path_covered(out@, (#[trigger] vs[t]).path)
                    &&& forall|t: int| 0 <= t < vs.len() ==> unique_winner(vs, (#[trigger] vs[t]).path)
                },
                Err(e) => e matches ScafError::AmbiguousConflict { path } && ambiguous_at(vs, path@),
            }
        }),
{
    let ghost vs = record_views(files@);
    let mut out: Vec<FileRecord> = Vec::new();
    let mut i: usize = 0;
    proof {
        assert(out_from_prefix(vs, out@, 0)) by {
            reveal(out_from_prefix);
        }
    }
    while i < files.len()
        invariant
            forall|k: int| 0 <= k < files@.len() ==> (#[trigger] files@[k]).wf(),
            vs == record_views(files@),
            0 <= i <= files@.len(),
            forall|k: int| 0 <= k < out@.len() ==> is_winner(vs, (#[trigger] out@[k])@),
            forall|k1: int, k2: int|
                0 <= k1 < k2 < out@.len() ==> out@[k1]@.path != out@[k2]@.path,
            out_from_prefix(vs, out@, i as int),
            forall|t: int| 0 <= t < i ==> path_covered(out@, (#[trigger] vs[t]).path),
            forall|t: int| 0 <= t < i ==> unique_winner(vs, (#[trigger] vs[t]).path),
        decreases files@.len() - i,
    {
        let mut seen = false;
        let mut t: usize = 0;
        while t < i
            invariant
                0 <= t <= i < files@.len(),
                vs == record_views(files@),
                !seen ==> forall|u: int| 0 <= u < t ==> (#[trigger] vs[u]).path != vs[i as int].path,
                seen ==> exists|u: int| 0 <= u < i && vs[u].path == vs[i as int].path,
            decreases i - t,
        {
            proof {
                assert(vs[t as int] == files@[t as int]@);
                assert(vs[i as int] == files@[i as int]@);
            }
            if files[t].path == files[i].path {
                seen = true;
            }
            t += 1;
        }
        let ghost p = vs[i as int].path;
        if !seen {
            let (m, cnt, best) = scan_group(files, i);
            if cnt > 1 {
                proof {
                    assert(vs[i as int] == files@[i as int]@);
                    assert(ambiguous_at(vs, p)) by {
                        reveal(ambiguous_at);
                        assert(max_spec_at(vs, p, m as nat) && count_at(vs, p, m as nat) >= 2);
                    }
                }
                return Err(ScafError::AmbiguousConflict { path: files[i].path.clone() });
            }
            let ghost old_out = out@;
            let rec = clone_record(&files[best]);
            out.push(rec);
            proof {
                assert(out@ == old_out.push(rec));
                assert(vs.contains(vs[best as int]));
                assert(rec@ == vs[best as int]);
                assert(rec@.path == p);
                assert(is_winner(vs, rec@)) by {
                    reveal(is_winner);
                }
                assert(unique_winner(vs, p)) by {
                    reveal(unique_winner);
                    assert(max_spec_at(vs, p, m as nat) && count_at(vs, p, m as nat) == 1);
                }
                assert forall|k: int| 0 <= k < out@.len() implies is_winner(
                    vs,
                    (#[trigger] out@[k])@,
                ) by {
                    if k < old_out.len() {
                        assert(out@[k] == old_out[k]);
                    } else {
                        assert(out@[k] == rec);
                    }
                }
                assert forall|k1: int, k2: int| 0 <= k1 < k2 < out@.len() implies out@[k1]@.path
                    != out@[k2]@.path by {
                    reveal(out_from_prefix);
                    if k2 < old_out.len() {
                        assert(out@[k1] == old_out[k1] && out@[k2] == old_out[k2]);
                    } else {
                        assert(out@[k1] == old_out[k1] && out@[k2] == rec);
                        let u = choose|u: int|
                            0 <= u < i && vs[u].path == (#[trigger] old_out[k1])@.path;
                        assert(vs[u].path != p);
                    }
                }
                assert(out_from_prefix(vs, out@, i + 1)) by {
                    reveal(out_from_prefix);
                    assert forall|k: int| 0 <= k < out@.len() implies exists|t: int|
                        0 <= t < i + 1 && vs[t].path == (#[trigger] out@[k])@.path by {
                        if k < old_out.len() {
                            assert(out@[k] == old_out[k]);
                            let t = choose|t: int|
                                0 <= t < i && vs[t].path == (#[trigger] old_out[k])@.path;
                            assert(0 <= t < i + 1 && vs[t].path == out@[k]@.path);
                        } else {
                            assert(out@[k] == rec);
                            assert(vs[i as int].path == out@[k]@.path);
                        }
                    }
                }
                assert forall|t: int| 0 <= t < i + 1 implies path_covered(
                    out@,
                    (#[trigger] vs[t]).path,
                ) by {
                    if t < i {
                        lemma_covered_push(old_out, rec, vs[t].path);
                    } else {
                        assert(path_covered(out@, p)) by {
                            reveal(path_covered);
                            assert(out@[out@.len() - 1]@.path == p);
                        }
                    }
                }
            }
        } else {
            proof {
                let u = choose|u: int| 0 <= u < i && vs[u].path == vs[i as int].path;
                assert(unique_winner(vs, p));
                assert(path_covered(out@, p));
                assert(out_from_prefix(vs, out@, i + 1)) by {
                    reveal(out_from_prefix);
                    assert forall|k: int| 0 <= k < out@.len() implies exists|t: int|
                        0 <= t < i + 1 && vs[t].path == (#[trigger] out@[k])@.path by {
                        let t = choose|t: int|
                            0 <= t < i && vs[t].path == (#[trigger] out@[k])@.path;
                        assert(0 <= t < i + 1 && vs[t].path == out@[k]@.path);
                    }
                }
            }
        }
        i += 1;
    }
    Ok(out)
}

/// Filters the records against the chosen options, then resolves duplicate
/// output paths among the survivors by specificity.
pub fn dedupe_files(files: &Vec<FileRecord>, chosen: &Vec<String>) -> (res: Result<
    Vec<FileRecord>,
    ScafError,
>)
    requires
        forall|k: int| 0 <= k < files@.len() ==> (#[trigger] files@[k]).wf(),
    ensures
        ({
            let survivors = record_views(files@).filter(survives_pred(chosen@));
            match res {
                Ok(out) => {
                    &&& forall|k: int|
                        0 <= k < out@.len() ==> is_winner(survivors, (#[trigger] out@[k])@)
                    &&& forall|k1: int, k2: int|
                        0 <= k1 < k2 < out@.len() ==> out@[k1]@.path != out@[k2]@.path
                    &&& forall|t: int|
                        0 <= t < survivors.len() ==> path_covered(
                            out@,
                            (#[trigger] survivors[t]).path,
                        )
                    &&& forall|t: int|
                        0 <= t < survivors.len() ==> unique_winner(
                            survivors,
                            (#[trigger] survivors[t]).path,
                        )
                },
                Err(e) => e matches ScafError::AmbiguousConflict { path } && ambiguous_at(
                    survivors,
                    path@,
                ),
            }
        }),
{
    broadcast use vstd::seq_lib::group_filter_ensures;

    let kept = filter_records(files, chosen);
    proof {
        let vs = record_views(files@);
        let survivors = record_views(files@).filter(survives_pred(chosen@));
        assert(record_views(kept@) == survivors);
        assert forall|k: int| 0 <= k < kept@.len() implies (#[trigger] kept@[k]).wf() by {
            assert(survivors[k] == kept@[k]@);
            assert(survivors.contains(survivors[k]));
            vs.lemma_filter_contains_rev(survives_pred(chosen@), survivors[k]);
            assert(vs.contains(survivors[k]));
            let t = choose|t: int| 0 <= t < vs.len() && vs[t] == survivors[k];
            assert(files@[t].wf());
        }
    }
    resolve_conflicts(&kept)
}

/// Of two records at one output path with specificities one and two, the
/// resolver always keeps the more specific one.
pub proof fn lemma_keeps_most_specific(a: RecordView, b: RecordView)
    requires
        a.path == b.path,
        specificity(a) == 1,
        specificity(b) == 2,
    ensures
        unique_winner(seq![a, b], a.path),
        is_winner(seq![a, b], b),
        !is_winner(seq![a, b], a),
{
    reveal(count_at);
    reveal(max_spec_at);
    reveal(unique_winner);
    reveal(is_winner);
    let s = seq![a, b];
    assert(s.drop_last() =~= seq![a]);
    assert(seq![a].drop_last() =~= Seq::<RecordView>::empty());
    assert(count_at(Seq::<RecordView>::empty(), a.path, 2nat) == 0);
    assert(count_at(seq![a], a.path, 2nat) == 0);
    assert(count_at(s, a.path, 2nat) == 1);
    assert(max_spec_at(s, a.path, 2nat)) by {
        assert(s[1] == b && s[1].path == a.path && specificity(s[1]) == 2nat);
    }
    assert(s.contains(b)) by {
        assert(s[1] == b);
    }
    if is_winner(s, a) {
        assert(s[1].path == a.path);
        assert(specificity(s[1]) <= 1nat);
        assert(false);
    }
}

/// Of two records at one output path that tie at specificity two, the
/// resolver reports the collision as ambiguous.
pub proof fn lemma_tie_is_ambiguous(a: RecordView, b: RecordView)
    requires
        a.path == b.path,
        specificity(a) == 2,
        specificity(b) == 2,
    ensures
        ambiguous_at(seq![a, b], a.path),
        !unique_winner(seq![a, b], a.path),
{
    reveal(count_at);
    reveal(max_spec_at);
    reveal(unique_winner);
    reveal(ambiguous_at);
    let s = seq![a, b];
    assert(s.drop_last() =~= seq![a]);
    assert(seq![a].drop_last() =~= Seq::<RecordView>::empty());
    assert(count_at(Seq::<RecordView>::empty(), a.path, 2nat) == 0);
    assert(count_at(seq![a], a.path, 2nat) == 1);
    assert(count_at(s, a.path, 2nat) == 2);
    assert(max_spec_at(s, a.path, 2nat)) by {
        assert(s[1] == b && s[1].path == a.path && specificity(s[1]) == 2nat);
    }
    if unique_winner(s, a.path) {
        let m = choose|m: nat| max_spec_at(s, a.path, m) && count_at(s, a.path, m) == 1;
        let k = choose|k: int| 0 <= k < s.len() && s[k].path == a.path && specificity(s[k]) == m;
        assert(m == 2nat) by {
            assert(specificity(s[0]) == 2nat && specificity(s[1]) == 2nat);
            assert(specificity(s[k]) == m);
        }
        assert(false);
    }
}

} // verus!
