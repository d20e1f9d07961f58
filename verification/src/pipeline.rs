use vstd::prelude::*;
use vstd::string::*;
use crate::errors::ScafError;
use crate::filter::survives_pred;
use crate::record::{record_views, FileRecord, RecordView};
use crate::resolve::{ambiguous_at, dedupe_files, is_winner, path_covered, unique_winner};
use crate::rewrite::{has_root, replace_file_paths, rewritten_path};

verus! {

/// What the runner found at the output root before writing.
pub enum OutputDirState {
    /// No directory stands there yet.
    Missing,
    /// A directory with this many entries.
    Present { entries: usize },
}

/// What a successful run performs: create the output directory if it was
/// missing, then write each record verbatim to its path.
#[derive(Debug)]
pub struct RunPlan {
    pub create_output_dir: bool,
    pub files: Vec<FileRecord>,
}

/// Decides whether writing into the output root may proceed: a missing
/// directory is to be created, an empty one is used as it stands, and a
/// non-empty one stops the run before anything is written.
pub fn validate_output(state: &OutputDirState) -> (r: Result<bool, ScafError>)
    ensures
        match r {
            Ok(create) => {
                &&& create == (*state matches OutputDirState::Missing)
                &&& !(*state matches OutputDirState::Present { entries } && entries > 0)
            },
            Err(e) => {
                &&& e matches ScafError::OutputNotEmpty
                &&& *state matches OutputDirState::Present { entries } && entries > 0
            },
        },
{
    match state {
        OutputDirState::Missing => Ok(true),
        OutputDirState::Present { entries } => {
            if *entries > 0 {
                Err(ScafError::OutputNotEmpty)
            } else {
                Ok(false)
            }
        },
    }
}

/// A record after path rewriting: the same contents and options, the path
/// re-rooted from the template root to the output root.
pub open spec fn rewritten_view(v: RecordView, tmpl: Seq<char>, outroot: Seq<char>) -> RecordView {
    RecordView { path: rewritten_path(v.path, tmpl, outroot), contents: v.contents, deps: v.deps }
}

/// `v` is some kept winner among the survivors, its path re-rooted.
#[verifier::opaque]
pub open spec fn is_rewritten_winner(
    survivors: Seq<RecordView>,
    v: RecordView,
    tmpl: Seq<char>,
    outroot: Seq<char>,
) -> bool {
    exists|w: RecordView|
        #[trigger] is_winner(survivors, w) && has_root(w.path, tmpl) && v == rewritten_view(
            w,
            tmpl,
            outroot,
        )
}

/// Some planned file carries the rewritten form of path `p`.
#[verifier::opaque]
pub open spec fn plan_covers(
    out: Seq<FileRecord>,
    p: Seq<char>,
    tmpl: Seq<char>,
    outroot: Seq<char>,
) -> bool {
    exists|k: int| 0 <= k < out.len() && (#[trigger] out[k])@.path == rewritten_path(p, tmpl, outroot)
}

/// The pure tail of a run, after discovery and the prompt: filter the records
/// against the chosen options, resolve duplicate output paths by specificity,
/// rewrite the survivors' paths into the output root, and judge the output
/// directory. Failures come in that order: an ambiguous collision stops the
/// run before any path is rewritten, and both stop it before the output
/// directory is judged.
pub fn plan_run(
    files: &Vec<FileRecord>,
    chosen: &Vec<String>,
    template_path: &str,
    output_path: &str,
    output_state: &OutputDirState,
) -> (r: Result<RunPlan, ScafError>)
    requires
        forall|k: int| 0 <= k < files@.len() ==> (#[trigger] files@[k]).wf(),
    ensures
        ({
            let survivors = record_views(files@).filter(survives_pred(chosen@));
            match r {
                Ok(plan) => {
                    &&& forall|t: int|
                        0 <= t < survivors.len() ==> unique_winner(
                            survivors,
                            (#[trigger] survivors[t]).path,
                        )
                    &&& !(*output_state matches OutputDirState::Present { entries } && entries > 0)
                    &&& plan.create_output_dir == (*output_state matches OutputDirState::Missing)
                    &&& forall|k: int|
                        0 <= k < plan.files@.len() ==> is_rewritten_winner(
                            survivors,
                            (#[trigger] plan.files@[k])@,
                            template_path@,
                            output_path@,
                        )
                    &&& forall|t: int|
                        0 <= t < survivors.len() ==> plan_covers(
                            plan.files@,
                            (#[trigger] survivors[t]).path,
                            template_path@,
                            output_path@,
                        )
                },
                Err(e) => match e {
                    ScafError::AmbiguousConflict { path } => ambiguous_at(survivors, path@),
                    ScafError::PathError { path } => {
                        &&& forall|t: int|
                            0 <= t < survivors.len() ==> unique_winner(
                                survivors,
                                (#[trigger] survivors[t]).path,
                            )
                        &&& exists|w: RecordView|
                            #[trigger] is_winner(survivors, w) && w.path == path@ && !has_root(
                                w.path,
                                template_path@,
                            )
                    },
                    ScafError::OutputNotEmpty => {
                        &&& forall|t: int|
                            0 <= t < survivors.len() ==> unique_winner(
                                survivors,
                                (#[trigger] survivors[t]).path,
                            )
                        &&& forall|k: int|
                            0 <= k < survivors.len() ==> (is_winner(
                                survivors,
                                #[trigger] survivors[k],
                            ) ==> has_root(survivors[k].path, template_path@))
                        &&& *output_state matches OutputDirState::Present { entries } && entries > 0
                    },
                    _ => false,
                },
            }
        }),
{
    let mut resolved = match dedupe_files(files, chosen) {
        Ok(v) => v,
        Err(e) => {
            return Err(e);
        },
    };
    let ghost pre = resolved@;
    let ghost survivors = record_views(files@).filter(survives_pred(chosen@));
    match replace_file_paths(&mut resolved, template_path, output_path) {
        Ok(()) => {
            let create = match validate_output(output_state) {
                Ok(c) => c,
                Err(e) => {
                    proof {
                        assert forall|k: int|
                            0 <= k < survivors.len() implies (is_winner(
                            survivors,
                            #[trigger] survivors[k],
                        ) ==> has_root(survivors[k].path, template_path@)) by {
                            if is_winner(survivors, survivors[k]) {
                                reveal(path_covered);
                                assert(path_covered(pre, survivors[k].path));
                                let t = choose|t: int|
                                    0 <= t < pre.len() && (#[trigger] pre[t])@.path
                                        == survivors[k].path;
                                assert(has_root(pre[t]@.path, template_path@));
                            }
                        }
                    }
                    return Err(e);
                },
            };
            proof {
                assert forall|k: int| 0 <= k < resolved@.len() implies is_rewritten_winner(
                    survivors,
                    (#[trigger] resolved@[k])@,
                    template_path@,
                    output_path@,
                ) by {
                    reveal(is_rewritten_winner);
                    let w = pre[k]@;
                    assert(is_winner(survivors, w));
                    assert(has_root(w.path, template_path@));
                    assert(resolved@[k]@ =~= rewritten_view(w, template_path@, output_path@));
                }
                assert forall|t: int| 0 <= t < survivors.len() implies plan_covers(
                    resolved@,
                    (#[trigger] survivors[t]).path,
                    template_path@,
                    output_path@,
                ) by {
                    reveal(path_covered);
                    reveal(plan_covers);
                    assert(path_covered(pre, survivors[t].path));
                    let k = choose|k: int|
                        0 <= k < pre.len() && (#[trigger] pre[k])@.path == survivors[t].path;
                    assert(resolved@[k]@.path == rewritten_path(
                        pre[k]@.path,
                        template_path@,
                        output_path@,
                    ));
                }
            }
            Ok(RunPlan { create_output_dir: create, files: resolved })
        },
        Err(e) => {
            proof {
                let q = choose|k: int|
                    0 <= k < pre.len() && (#[trigger] pre[k])@.path == (e->PathError_path)@
                        && !has_root(pre[k]@.path, template_path@);
                assert(is_winner(survivors, pre[q]@));
            }
            return Err(e);
        },
    }
}

} // verus!

