use vstd::prelude::*;

use crate::stamp::{stamp_of, Timestamp};

verus! {

/// One migration script of the project: its file name and the timestamp
/// that the name starts with.
pub struct ProjectFile {
    pub file: String,
    pub date: Timestamp,
}

impl View for ProjectFile {
    type V = (Seq<char>, Timestamp);

    open spec fn view(&self) -> (Seq<char>, Timestamp) {
        (self.file@, self.date)
    }
}

impl ProjectFile {
    pub fn duplicate(&self) -> (r: ProjectFile)
        ensures
            r@ == self@,
    {
        ProjectFile { file: self.file.clone(), date: self.date }
    }
}

/// A list of migration files as (name, timestamp) pairs.
pub open spec fn listing(v: Seq<ProjectFile>) -> Seq<(Seq<char>, Timestamp)> {
    v.map_values(|f: ProjectFile| f@)
}

pub open spec fn texts(v: Seq<String>) -> Seq<Seq<char>> {
    v.map_values(|s: String| s@)
}

/// A file name paired with the timestamp it starts with, where it has one.
pub open spec fn stamped_name(n: Seq<char>) -> Option<(Seq<char>, Timestamp)> {
    match stamp_of(n) {
        Some(t) => Some((n, t)),
        None => None,
    }
}

/// A file name whose first fourteen characters hold no timestamp.
pub open spec fn unstamped_name(n: Seq<char>) -> Option<Seq<char>> {
    match stamp_of(n) {
        Some(t) => None,
        None => Some(n),
    }
}

/// The migration files among `names`, in the order of `names`.
pub open spec fn scanned(names: Seq<Seq<char>>) -> Seq<(Seq<char>, Timestamp)> {
    names.filter_map(|n: Seq<char>| stamped_name(n))
}

/// The names among `names` that are no migration files, in their order.
pub open spec fn unknown_names(names: Seq<Seq<char>>) -> Seq<Seq<char>> {
    names.filter_map(|n: Seq<char>| unstamped_name(n))
}

/// Sorts the names of the `*.sql` files found in the project directory into
/// migration files, whose names start with a `YYYYMMDDHHMMSS` timestamp, and
/// the other names, which are only worth a warning. Both keep the order of
/// `names`.
pub fn get_project_files(names: &Vec<String>) -> (r: (Vec<ProjectFile>, Vec<String>))
    ensures
        listing(r.0@) == scanned(texts(names@)),
        texts(r.1@) == unknown_names(texts(names@)),
{
    let ghost ns = texts(names@);
    let mut files: Vec<ProjectFile> = Vec::new();
    let mut unknown: Vec<String> = Vec::new();
    let mut i: usize = 0;
    while i < names.len()
        invariant
            i <= names.len(),
            ns == texts(names@),
            listing(files@) == ns.take(i as int).filter_map(|n: Seq<char>| stamped_name(n)),
            texts(unknown@) == ns.take(i as int).filter_map(|n: Seq<char>| unstamped_name(n)),
        decreases names.len() - i,
    {
        proof {
            ns.lemma_filter_map_take_succ(|n: Seq<char>| stamped_name(n), i as int);
            ns.lemma_filter_map_take_succ(|n: Seq<char>| unstamped_name(n), i as int);
        }
        let name = &names[i];
        match Timestamp::parse_prefix(name.as_str()) {
            Some(date) => {
                files.push(ProjectFile { file: name.clone(), date });
                assert(listing(files@) =~= ns.take(i + 1).filter_map(
                    |n: Seq<char>| stamped_name(n),
                ));
                assert(texts(unknown@) =~= ns.take(i + 1).filter_map(
                    |n: Seq<char>| unstamped_name(n),
                ));
            },
            None => {
                unknown.push(name.clone());
                assert(listing(files@) =~= ns.take(i + 1).filter_map(
                    |n: Seq<char>| stamped_name(n),
                ));
                assert(texts(unknown@) =~= ns.take(i + 1).filter_map(
                    |n: Seq<char>| unstamped_name(n),
                ));
            },
        }
        i = i + 1;
    }
    assert(ns.take(names.len() as int) =~= ns);
    (files, unknown)
}

/// `i` is the position of the latest file of `s`: none is later, and none
/// after it is as late.
pub open spec fn is_latest(s: Seq<ProjectFile>, i: int) -> bool {
    &&& 0 <= i < s.len()
    &&& forall|j: int| 0 <= j < s.len() ==> #[trigger] s[j].date.rank() <= s[i].date.rank()
    &&& forall|j: int| i < j < s.len() ==> #[trigger] s[j].date.rank() < s[i].date.rank()
}

/// The position of the most recent migration file; of several with the
/// latest timestamp, the last one listed. `None` where there is no file.
pub fn get_latest_project_file(files: &Vec<ProjectFile>) -> (r: Option<usize>)
    ensures
        r is None <==> files@.len() == 0,
        r matches Some(i) ==> is_latest(files@, i as int),
{
    if files.len() == 0 {
        return None;
    }
    let mut best: usize = 0;
    let mut i: usize = 1;
    while i < files.len()
        invariant
            0 <= best < i <= files.len(),
            forall|j: int| 0 <= j < i ==> #[trigger] files@[j].date.rank() <= files@[best as int].date.rank(),
            forall|j: int| best < j < i ==> #[trigger] files@[j].date.rank() < files@[best as int].date.rank(),
        decreases files.len() - i,
    {
        if !files[best].date.is_after(&files[i].date) {
            best = i;
        }
        i = i + 1;
    }
    Some(best)
}

} // verus!
