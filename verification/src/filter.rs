use vstd::prelude::*;
use vstd::string::*;
use crate::record::{clone_record, dep_set, record_views, FileRecord, RecordView};
use crate::text::views_of;

verus! {

/// The set of options behind the user's chosen identifiers.
pub open spec fn chosen_set(chosen: Seq<String>) -> Set<Seq<char>> {
    views_of(chosen).to_set()
}

/// A record survives filtering exactly when every option it requires was
/// chosen; a record that requires none always survives.
pub open spec fn survives(r: RecordView, chosen: Set<Seq<char>>) -> bool {
    dep_set(r).subset_of(chosen)
}

/// The filter's test against one choice of options, as a predicate on records.
pub open spec fn survives_pred(chosen: Seq<String>) -> spec_fn(RecordView) -> bool {
    |v: RecordView| survives(v, chosen_set(chosen))
}

/// The option filter is a pure membership test: a record survives iff its
/// dependency set is a subset of the chosen set; one with no dependencies
/// survives under any choice, and under an empty choice only such records
/// survive.
pub proof fn lemma_filter_is_subset_test(r: RecordView, chosen: Set<Seq<char>>)
    ensures
        survives(r, chosen) == dep_set(r).subset_of(chosen),
        dep_set(r) == Set::<Seq<char>>::empty() ==> survives(r, chosen),
        chosen == Set::<Seq<char>>::empty() ==> (survives(r, chosen) <==> dep_set(r)
            == Set::<Seq<char>>::empty()),
{
    if chosen == Set::<Seq<char>>::empty() && survives(r, chosen) {
        assert(dep_set(r) =~= Set::<Seq<char>>::empty());
    }
}

/// Whether an equal string stands in the list.
fn contains_string(v: &Vec<String>, s: &String) -> (r: bool)
    ensures
        r == views_of(v@).to_set().contains(s@),
{
    let mut k: usize = 0;
    while k < v.len()
        invariant
            0 <= k <= v@.len(),
            forall|t: int| 0 <= t < k ==> v@[t]@ != s@,
        decreases v@.len() - k,
    {
        if v[k] == *s {
            proof {
                assert(views_of(v@)[k as int] == s@);
            }
            return true;
        }
        k += 1;
    }
    proof {
        if views_of(v@).to_set().contains(s@) {
            let t = choose|t: int| 0 <= t < views_of(v@).len() && views_of(v@)[t] == s@;
            assert(v@[t]@ == s@);
            assert(false);
        }
    }
    false
}

/// Whether every dependency stands among the chosen options.
fn all_chosen(deps: &Vec<String>, chosen: &Vec<String>) -> (r: bool)
    ensures
        r == views_of(deps@).to_set().subset_of(views_of(chosen@).to_set()),
{
    let mut k: usize = 0;
    while k < deps.len()
        invariant
            0 <= k <= deps@.len(),
            forall|t: int| 0 <= t < k ==> views_of(chosen@).to_set().contains(#[trigger] deps@[t]@),
        decreases deps@.len() - k,
    {
        if !contains_string(chosen, &deps[k]) {
            proof {
                assert(views_of(deps@)[k as int] == deps@[k as int]@);
                assert(views_of(deps@).to_set().contains(deps@[k as int]@));
            }
            return false;
        }
        k += 1;
    }
    proof {
        assert forall|a: Seq<char>| views_of(deps@).to_set().contains(a) implies views_of(
            chosen@,
        ).to_set().contains(a) by {
            let t = choose|t: int| 0 <= t < views_of(deps@).len() && views_of(deps@)[t] == a;
            assert(deps@[t]@ == a);
        }
    }
    true
}

/// Keeps exactly the records whose required options were all chosen, in their
/// input order.
pub fn filter_records(files: &Vec<FileRecord>, chosen: &Vec<String>) -> (r: Vec<FileRecord>)
    ensures
        record_views(r@) == record_views(files@).filter(survives_pred(chosen@)),
{
    broadcast use vstd::seq_lib::group_filter_ensures;

    let ghost pred = survives_pred(chosen@);
    let ghost vs = record_views(files@);
    let mut r: Vec<FileRecord> = Vec::new();
    proof {
        assert(record_views(r@) =~= vs.take(0).filter(pred));
        assert(vs.take(0) =~= Seq::<RecordView>::empty());
        vs.take(0).lemma_all_neg_filter_empty(pred);
    }
    let mut k: usize = 0;
    while k < files.len()
        invariant
            0 <= k <= files@.len(),
            vs == record_views(files@),
            record_views(r@) == vs.take(k as int).filter(pred),
            pred == survives_pred(chosen@),
        decreases files@.len() - k,
    {
        proof {
            assert(vs.take(k + 1) =~= vs.take(k as int).push(vs[k as int]));
            vs.take(k as int).lemma_filter_push(vs[k as int], pred);
        }
        if all_chosen(&files[k].depends_on, chosen) {
            proof {
                assert(dep_set(files@[k as int]@) =~= views_of(
                    files@[k as int].depends_on@,
                ).to_set());
                assert(pred(vs[k as int]));
            }
            let rec = clone_record(&files[k]);
            r.push(rec);
            proof {
                assert(record_views(r@) =~= vs.take(k + 1).filter(pred));
            }
        } else {
            proof {
                assert(!pred(vs[k as int]));
                assert(record_views(r@) =~= vs.take(k + 1).filter(pred));
            }
        }
        k += 1;
    }
    proof {
        assert(vs.take(files@.len() as int) =~= vs);
    }
    r
}

} // verus!
