use vstd::prelude::*;
use vstd::string::*;
use crate::tag::{options_in_file, strip_tags, strip_tags_spec, tag_options};
use crate::text::views_of;

verus! {

/// One discovered template file: its path (tag group already stripped, still
/// rooted at the template directory until rewriting), its verbatim contents,
/// and the identifiers of the options it requires.
#[derive(Debug)]
pub struct FileRecord {
    pub path: String,
    pub contents: String,
    pub depends_on: Vec<String>,
}

/// The mathematical content of a `FileRecord`.
#[verifier::ext_equal]
pub ghost struct RecordView {
    pub path: Seq<char>,
    pub contents: Seq<char>,
    pub deps: Seq<Seq<char>>,
}

impl View for FileRecord {
    type V = RecordView;

    open spec fn view(&self) -> RecordView {
        RecordView {
            path: self.path@,
            contents: self.contents@,
            deps: views_of(self.depends_on@),
        }
    }
}

/// The set of options a record requires; an empty set means the file is
/// unconditional.
pub open spec fn dep_set(r: RecordView) -> Set<Seq<char>> {
    r.deps.to_set()
}

/// A record's specificity: how many distinct options it requires.
pub open spec fn specificity(r: RecordView) -> nat {
    dep_set(r).len()
}

impl FileRecord {
    /// Well-formed: the dependency list names each required option once.
    pub open spec fn wf(self) -> bool {
        self@.deps.no_duplicates()
    }
}

/// The views of a sequence of records.
pub open spec fn record_views(files: Seq<FileRecord>) -> Seq<RecordView> {
    files.map_values(|f: FileRecord| f@)
}

/// A well-formed record's specificity is the length of its dependency list.
pub proof fn lemma_wf_specificity(f: FileRecord)
    requires
        f.wf(),
    ensures
        specificity(f@) == f.depends_on@.len(),
{
    f@.deps.unique_seq_to_set();
}

/// An exact copy of a list of strings.
fn clone_strings(v: &Vec<String>) -> (r: Vec<String>)
    ensures
        r@ == v@,
{
    let mut r: Vec<String> = Vec::new();
    let mut k: usize = 0;
    while k < v.len()
        invariant
            0 <= k <= v@.len(),
            r@ == v@.subrange(0, k as int),
        decreases v@.len() - k,
    {
        r.push(v[k].clone());
        proof {
            assert(r@ =~= v@.subrange(0, k + 1));
        }
        k += 1;
    }
    proof {
        assert(r@ =~= v@);
    }
    r
}

/// An exact copy of a record.
pub fn clone_record(f: &FileRecord) -> (r: FileRecord)
    ensures
        r@ == f@,
        r.depends_on@ == f.depends_on@,
{
    let r = FileRecord {
        path: f.path.clone(),
        contents: f.contents.clone(),
        depends_on: clone_strings(&f.depends_on),
    };
    proof {
        assert(r@ =~= f@);
    }
    r
}

/// Builds the record for one discovered file from its raw path, its verbatim
/// contents, and its parsed options: the stored path keeps its text but loses
/// the tag group.
pub fn create_file(path: &str, contents: String, options: Vec<String>) -> (r: FileRecord)
    requires
        views_of(options@).no_duplicates(),
    ensures
        r@.path == strip_tags_spec(path@),
        r@.contents == contents@,
        r@.deps == views_of(options@),
        r.wf(),
{
    FileRecord { path: strip_tags(path), contents, depends_on: options }
}

/// Builds one record per discovered (raw path, contents) pair: each record's
/// path is the raw path without its tag group, and its dependency set is the
/// set of options the raw path names.
pub fn build_records(discovered: Vec<(String, String)>) -> (r: Vec<FileRecord>)
    ensures
        r@.len() == discovered@.len(),
        forall|k: int|
            0 <= k < r@.len() ==> {
                &&& (#[trigger] r@[k])@.path == strip_tags_spec(discovered@[k].0@)
                &&& r@[k]@.contents == discovered@[k].1@
                &&& dep_set(r@[k]@) == tag_options(discovered@[k].0@)
                &&& r@[k].wf()
            },
{
    let mut r: Vec<FileRecord> = Vec::new();
    let mut k: usize = 0;
    while k < discovered.len()
        invariant
            0 <= k <= discovered@.len(),
            r@.len() == k,
            forall|t: int|
                0 <= t < k ==> {
                    &&& (#[trigger] r@[t])@.path == strip_tags_spec(discovered@[t].0@)
                    &&& r@[t]@.contents == discovered@[t].1@
                    &&& dep_set(r@[t]@) == tag_options(discovered@[t].0@)
                    &&& r@[t].wf()
                },
        decreases discovered@.len() - k,
    {
        let path = discovered[k].0.clone();
        let contents = discovered[k].1.clone();
        let options = options_in_file(path.as_str());
        let rec = create_file(path.as_str(), contents, options);
        r.push(rec);
        k += 1;
    }
    r
}

} // verus!
