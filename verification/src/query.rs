//! Preparing a SQL query over the files of a snapshot. The table is always
//! registered under the name `t`.

use crate::error::LakehouseError;
use crate::log::AddFile;
use crate::snapshot::Snapshot;
use crate::text::{push_str, string_views};
use vstd::prelude::*;

verus! {

/// The statement to run and the files, relative to the table root, to run it over.
#[derive(Debug)]
pub struct SqlPlan {
    /// Paths of the snapshot's files, in snapshot order.
    pub file_paths: Vec<String>,
    /// The query, prefixed with `EXPLAIN ` when only the plan is asked for.
    pub statement: String,
}

/// The prefix that asks for the plan of a query instead of its rows.
pub open spec fn explain_prefix() -> Seq<char> {
    seq!['E', 'X', 'P', 'L', 'A', 'I', 'N', ' ']
}

/// The paths of `files`, in order.
pub open spec fn file_paths(files: Seq<AddFile>) -> Seq<Seq<char>> {
    files.map_values(|f: AddFile| f.path@)
}

/// The statement that runs `query`, or explains it when `explain` is set.
pub fn effective_query(query: &str, explain: bool) -> (s: String)
    ensures
        s@ == if explain {
            explain_prefix() + query@
        } else {
            query@
        },
{
    let mut s = String::new();
    if explain {
        let prefix = "EXPLAIN ";
        proof {
            reveal_strlit("EXPLAIN ");
        }
        push_str(&mut s, prefix);
    }
    push_str(&mut s, query);
    s
}

/// Prepares `query` over the snapshot `snap`: the paths of its files and the
/// statement to run; a snapshot with no file is refused.
pub fn plan_sql(snap: &Snapshot, query: &str, explain: bool) -> (r: Result<SqlPlan, LakehouseError>)
    ensures
        snap.files@.len() == 0 ==> r == Err::<SqlPlan, LakehouseError>(
            LakehouseError::EmptySnapshot { version: snap.version },
        ),
        snap.files@.len() > 0 ==> (r matches Ok(plan) && string_views(plan.file_paths@)
            == file_paths(snap.files@) && plan.statement@ == (if explain {
            explain_prefix() + query@
        } else {
            query@
        })),
{
    if snap.files.len() == 0 {
        return Err(LakehouseError::EmptySnapshot { version: snap.version });
    }
    let mut paths: Vec<String> = Vec::new();
    let mut i: usize = 0;
    while i < snap.files.len()
        invariant
            i <= snap.files@.len(),
            string_views(paths@) == file_paths(snap.files@.take(i as int)),
        decreases snap.files@.len() - i,
    {
        let p = snap.files[i].path.clone();
        assert(p@ == snap.files@[i as int].path@);
        let ghost before = paths@;
        paths.push(p);
        proof {
            assert(string_views(paths@) =~= string_views(before).push(p@));
            assert(file_paths(snap.files@.take(i + 1)) =~= file_paths(snap.files@.take(i as int)).push(p@));
        }
        i = i + 1;
        assert(string_views(paths@) =~= file_paths(snap.files@.take(i as int)));
    }
    assert(snap.files@.take(i as int) =~= snap.files@);
    Ok(SqlPlan { file_paths: paths, statement: effective_query(query, explain) })
}

} // verus!
