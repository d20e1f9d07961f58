use vstd::prelude::*;
use vstd::string::*;
use crate::errors::ScafError;
use crate::record::{clone_record, FileRecord};

verus! {

/// `root` is a textual prefix of `p`.
pub open spec fn has_root(p: Seq<char>, root: Seq<char>) -> bool {
    p.len() >= root.len() && p.subrange(0, root.len() as int) == root
}

/// The path re-rooted from the template root to the output root: the template
/// prefix is dropped, one separating `/` after it is dropped too, and the
/// remainder stands under the output root after a `/`.
pub open spec fn rewritten_path(p: Seq<char>, root: Seq<char>, out: Seq<char>) -> Seq<char> {
    let rest = p.skip(root.len() as int);
    let rel = if rest.len() > 0 && rest[0] == '/' {
        rest.skip(1)
    } else {
        rest
    };
    out + seq!['/'] + rel
}

/// Re-roots one path from the template root into the output root. A path that
/// does not carry the template root as a prefix is reported, not assumed away.
pub fn rewrite_path(path: &str, template_root: &str, output_root: &str) -> (r: Result<
    String,
    ScafError,
>)
    ensures
        match r {
            Ok(s) => has_root(path@, template_root@) && s@ == rewritten_path(
                path@,
                template_root@,
                output_root@,
            ),
            Err(e) => !has_root(path@, template_root@) && (e matches ScafError::PathError {
                path: q,
            } && q@ == path@),
        },
{
    let plen = path.unicode_len();
    let tlen = template_root.unicode_len();
    if plen < tlen {
        return Err(ScafError::PathError { path: path.to_owned() });
    }
    let mut k: usize = 0;
    while k < tlen
        invariant
            0 <= k <= tlen <= plen,
            plen == path@.len(),
            tlen == template_root@.len(),
            forall|t: int| 0 <= t < k ==> path@[t] == template_root@[t],
        decreases tlen - k,
    {
        if path.get_char(k) != template_root.get_char(k) {
            proof {
                assert(path@.subrange(0, tlen as int)[k as int] != template_root@[k as int]);
            }
            return Err(ScafError::PathError { path: path.to_owned() });
        }
        k += 1;
    }
    proof {
        assert(path@.subrange(0, tlen as int) =~= template_root@);
    }
    let mut start = tlen;
    if start < plen && path.get_char(start) == '/' {
        start = start + 1;
    }
    let mut s = output_root.to_owned();
    s.append("/");
    s.append(path.substring_char(start, plen));
    proof {
        reveal_strlit("/");
        assert("/"@ =~= seq!['/']);
        let rest = path@.skip(tlen as int);
        if rest.len() > 0 && rest[0] == '/' {
            assert(rest[0] == path@[tlen as int]);
            assert(start == tlen + 1);
            assert(rest.skip(1) =~= path@.subrange(tlen + 1, plen as int));
        } else {
            assert(start == tlen);
            assert(rest =~= path@.subrange(tlen as int, plen as int));
        }
        assert(s@ =~= rewritten_path(path@, template_root@, output_root@));
    }
    Ok(s)
}

/// Rewrites every record's path from the template root into the output root,
/// leaving contents and dependencies alone. When some record's path does not
/// carry the template root, reports that path and changes nothing.
pub fn replace_file_paths(
    files: &mut Vec<FileRecord>,
    template_path: &str,
    output_path: &str,
) -> (r: Result<(), ScafError>)
    ensures
        match r {
            Ok(()) => {
                &&& final(files)@.len() == old(files)@.len()
                &&& forall|k: int|
                    0 <= k < old(files)@.len() ==> {
                        &&& has_root((#[trigger] old(files)@[k])@.path, template_path@)
                        &&& final(files)@[k]@.path == rewritten_path(
                            old(files)@[k]@.path,
                            template_path@,
                            output_path@,
                        )
                        &&& final(files)@[k]@.contents == old(files)@[k]@.contents
                        &&& final(files)@[k]@.deps == old(files)@[k]@.deps
                    }
            },
            Err(e) => {
                &&& e matches ScafError::PathError { path: q } && (exists|k: int|
                    0 <= k < old(files)@.len() && (#[trigger] old(files)@[k])@.path == q@
                        && !has_root(old(files)@[k]@.path, template_path@))
                &&& final(files)@ == old(files)@
            },
        },
{
    let mut k: usize = 0;
    while k < files.len()
        invariant
            0 <= k <= files@.len(),
            files@ == old(files)@,
            forall|t: int|
                0 <= t < k ==> has_root((#[trigger] files@[t])@.path, template_path@),
        decreases files@.len() - k,
    {
        match rewrite_path(files[k].path.as_str(), template_path, output_path) {
            Ok(_) => {},
            Err(e) => {
                return Err(e);
            },
        }
        k += 1;
    }
    let mut outv: Vec<FileRecord> = Vec::new();
    let mut t: usize = 0;
    while t < files.len()
        invariant
            0 <= t <= files@.len(),
            files@ == old(files)@,
            forall|u: int|
                0 <= u < files@.len() ==> has_root((#[trigger] files@[u])@.path, template_path@),
            outv@.len() == t,
            forall|u: int|
                0 <= u < t ==> {
                    &&& (#[trigger] outv@[u])@.path == rewritten_path(
                        files@[u]@.path,
                        template_path@,
                        output_path@,
                    )
                    &&& outv@[u]@.contents == files@[u]@.contents
                    &&& outv@[u]@.deps == files@[u]@.deps
                },
        decreases files@.len() - t,
    {
        match rewrite_path(files[t].path.as_str(), template_path, output_path) {
            Ok(np) => {
                let mut rec = clone_record(&files[t]);
                rec.path = np;
                outv.push(rec);
            },
            Err(e) => {
                proof {
                    assert(false);
                }
                return Err(e);
            },
        }
        t += 1;
    }
    *files = outv;
    Ok(())
}

} // verus!
