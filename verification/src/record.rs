//! Commit records: the ordered input the layout engine consumes.

use vstd::prelude::*;

verus! {

/// One commit of the input sequence, as handed over by the repository
/// service. The sequence is expected to list every commit before the
/// commits it names as parents (children first). `parent_ids[0]`, when
/// present, is the primary ancestry link; any further entries are merge
/// parents. Identity is by `id`; ids are treated as opaque strings.
#[derive(Clone, Debug)]
pub struct CommitRecord {
    pub id: String,
    pub summary: String,
    pub author: String,
    pub timestamp: String,
    pub parent_ids: Vec<String>,
}

/// The first row at or after `from` whose commit carries the given id.
pub open spec fn row_of_from(commits: Seq<CommitRecord>, id: Seq<char>, from: int) -> Option<int>
    decreases commits.len() - from,
{
    if from < 0 || from >= commits.len() {
        None
    } else if commits[from].id@ == id {
        Some(from)
    } else {
        row_of_from(commits, id, from + 1)
    }
}

/// The row of the first commit carrying the given id, if the id appears
/// in the window at all.
pub open spec fn row_of(commits: Seq<CommitRecord>, id: Seq<char>) -> Option<int> {
    row_of_from(commits, id, 0)
}

/// Every commit id occurs on exactly one row: the well-formedness the
/// ordering contract assumes of the input. The engine itself never
/// requires it; malformed input only degrades the picture.
pub open spec fn distinct_ids(commits: Seq<CommitRecord>) -> bool {
    forall|i: int, j: int|
        0 <= i < j < commits.len() ==> commits[i].id@ != commits[j].id@
}

/// A found row indeed carries the id that was looked up, and lies at or
/// after the starting point.
pub proof fn lemma_row_of_found(commits: Seq<CommitRecord>, id: Seq<char>, from: int)
    requires
        row_of_from(commits, id, from) is Some,
    ensures
        ({
            let j = row_of_from(commits, id, from)->Some_0;
            from <= j < commits.len() && commits[j].id@ == id
        }),
    decreases commits.len() - from,
{
    if 0 <= from < commits.len() && commits[from].id@ != id {
        lemma_row_of_found(commits, id, from + 1);
    }
}

/// Under distinct ids, looking up the id of row `j` finds exactly row `j`.
pub proof fn lemma_row_of_unique(commits: Seq<CommitRecord>, j: int)
    requires
        distinct_ids(commits),
        0 <= j < commits.len(),
    ensures
        row_of(commits, commits[j].id@) == Some(j),
{
    lemma_row_of_from_unique(commits, j, 0);
}

proof fn lemma_row_of_from_unique(commits: Seq<CommitRecord>, j: int, from: int)
    requires
        distinct_ids(commits),
        0 <= from <= j < commits.len(),
    ensures
        row_of_from(commits, commits[j].id@, from) == Some(j),
    decreases j - from,
{
    if from < j {
        assert(commits[from].id@ != commits[j].id@);
        lemma_row_of_from_unique(commits, j, from + 1);
    }
}

/// Finds the first row whose commit carries the given id.
pub fn find_row(commits: &Vec<CommitRecord>, id: &String) -> (r: Option<usize>)
    ensures
        match r {
            Some(j) => j < commits@.len() && row_of(commits@, id@) == Some(j as int),
            None => row_of(commits@, id@) is None,
        },
{
    let n = commits.len();
    let mut i: usize = 0;
    while i < n
        invariant
            i <= n,
            n == commits@.len(),
            row_of(commits@, id@) == row_of_from(commits@, id@, i as int),
        decreases n - i,
    {
        if commits[i].id == *id {
            return Some(i);
        }
        i = i + 1;
    }
    None
}

} // verus!
