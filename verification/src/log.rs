//! The transaction log: the actions a commit records, how a commit is laid
//! out as a log file, and how a log file is split back into its lines.
//!
//! Each log file is newline-delimited JSON, one action per line, and its first
//! line is always the commit's `CommitInfo`.

use crate::clock::{current_timestamp, is_clock_text};
use crate::error::LakehouseError;
use crate::layout::{
    log_file_name, log_version_of_file_name, spec_log_file_name, spec_log_version_of_file_name,
    spec_tmp_log_file_name, tmp_log_file_name,
};
use crate::text::{push_char, push_str, string_views};
use std::collections::HashMap;
use vstd::prelude::*;

verus! {

/// Metadata recorded for every Parquet file added to the table.
#[derive(Debug, Clone)]
pub struct AddFile {
    /// Path relative to the table root (e.g. `data/<id>.parquet`).
    pub path: String,
    /// File size in bytes, recorded at write time.
    pub size: u64,
    /// Number of rows in the file.
    pub row_count: u64,
    /// Partition column to value; empty while the table is unpartitioned.
    pub partition_values: HashMap<String, String>,
}

/// Marks a previously added file as logically deleted from that version on.
/// The physical file is untouched, so earlier versions still see it.
#[derive(Debug, Clone)]
pub struct RemoveFile {
    /// The relative path recorded in the matching `AddFile`.
    pub path: String,
    /// Partition values of the file being removed.
    pub partition_values: HashMap<String, String>,
}

/// Per-commit housekeeping, always the first action of a log file.
#[derive(Debug, Clone)]
pub struct CommitInfo {
    /// RFC 3339 wall-clock time of the commit (UTC).
    pub timestamp: String,
    /// What the commit does (e.g. `write`, `delete`).
    pub operation: String,
    /// Caller-supplied idempotency token.
    pub txn_id: Option<String>,
    /// Tag of the application that issued the commit.
    pub app_id: Option<String>,
}

/// One action of a log file.
#[derive(Debug, Clone)]
pub enum Action {
    Add(AddFile),
    Remove(RemoveFile),
    CommitInfo(CommitInfo),
}

/// What the caller chooses of a commit's `CommitInfo`.
#[derive(Debug, Clone)]
pub struct CommitOptions {
    /// Short label for the operation; `write` by default.
    pub operation: String,
    pub txn_id: Option<String>,
    pub app_id: Option<String>,
}

impl Default for CommitOptions {
    fn default() -> (opts: Self)
        ensures
            opts.operation@ == seq!['w', 'r', 'i', 't', 'e'],
            opts.txn_id is None,
            opts.app_id is None,
    {
        let operation = String::from_str("write");
        proof {
            reveal_strlit("write");
        }
        CommitOptions { operation, txn_id: None, app_id: None }
    }
}

/// A commit laid out for writing: the file names, and the actions in the
/// order in which they are written, one per line.
#[derive(Debug)]
pub struct CommitPlan {
    /// The final name of the log file, `<20 digits>.json`.
    pub log_file_name: String,
    /// The name the file is written under before it is renamed, `<20 digits>.json.tmp`.
    pub tmp_file_name: String,
    /// The commit information first, then the caller's actions in order.
    pub actions: Vec<Action>,
}

/// The actions of a commit of `actions` stamped `timestamp`: the commit
/// information carrying `opts` first, then `actions` in order.
pub open spec fn spec_commit_actions(
    actions: Seq<Action>,
    opts: CommitOptions,
    timestamp: String,
) -> Seq<Action> {
    seq![
        Action::CommitInfo(
            CommitInfo {
                timestamp,
                operation: opts.operation,
                txn_id: opts.txn_id,
                app_id: opts.app_id,
            },
        ),
    ] + actions
}

/// Whether `plan` lays out the commit of `actions` as version `version`,
/// stamped `timestamp`.
pub open spec fn is_commit_plan(
    plan: CommitPlan,
    version: u64,
    actions: Seq<Action>,
    opts: CommitOptions,
    timestamp: String,
) -> bool {
    &&& plan.log_file_name@ == spec_log_file_name(version)
    &&& plan.tmp_file_name@ == spec_tmp_log_file_name(version)
    &&& plan.actions@ == spec_commit_actions(actions, opts, timestamp)
}

/// Lays out the commit of `actions` as log version `version`, stamped
/// `timestamp`: a `CommitInfo` with that timestamp and carrying `opts` comes
/// first, the actions follow in order, and the file is written under its
/// temporary name before it is renamed to its final one.
pub fn commit_at(version: u64, actions: Vec<Action>, opts: CommitOptions, timestamp: String) -> (plan:
    CommitPlan)
    ensures
        is_commit_plan(plan, version, actions@, opts, timestamp),
{
    let ghost opts0 = opts;
    let ghost ts0 = timestamp;
    let ci = CommitInfo {
        timestamp,
        operation: opts.operation,
        txn_id: opts.txn_id,
        app_id: opts.app_id,
    };
    let mut all: Vec<Action> = Vec::new();
    all.push(Action::CommitInfo(ci));
    let mut rest = actions;
    all.append(&mut rest);
    assert(all@ =~= spec_commit_actions(actions@, opts0, ts0));
    CommitPlan {
        log_file_name: log_file_name(version),
        tmp_file_name: tmp_log_file_name(version),
        actions: all,
    }
}

/// The timestamp that a commit plan stamps on its commit information.
pub open spec fn plan_timestamp(plan: CommitPlan) -> String {
    plan.actions@[0]->CommitInfo_0.timestamp
}

/// Whether a name of `names` is the committed log file of `version`.
pub open spec fn is_committed(names: Seq<Seq<char>>, version: u64) -> bool {
    exists|i: int| 0 <= i < names.len() && spec_log_version_of_file_name(names[i]) == Some(version)
}

/// Whether `version` is committed, given the names of the files in the log directory.
pub fn version_is_committed(names: &Vec<String>, version: u64) -> (r: bool)
    ensures
        r == is_committed(string_views(names@), version),
{
    let ghost all = string_views(names@);
    let mut i: usize = 0;
    while i < names.len()
        invariant
            i <= names@.len(),
            all == string_views(names@),
            forall|j: int| 0 <= j < i ==> spec_log_version_of_file_name(all[j]) != Some(version),
        decreases names@.len() - i,
    {
        let v = log_version_of_file_name(names[i].as_str());
        assert(all[i as int] == names@[i as int]@);
        if v == Some(version) {
            return true;
        }
        i = i + 1;
    }
    false
}

/// Lays out the commit of `actions` as log version `version`, stamped with
/// the current time, given the names of the files in the log directory. The
/// log is append-only: a version that is already committed is refused, and
/// so is a commit when the clock cannot be read.
pub fn commit(version: u64, actions: Vec<Action>, opts: CommitOptions, names: &Vec<String>) -> (r:
    Result<CommitPlan, LakehouseError>)
    ensures
        is_committed(string_views(names@), version) ==> r == Err::<CommitPlan, LakehouseError>(
            LakehouseError::VersionAlreadyCommitted { version },
        ),
        !is_committed(string_views(names@), version) ==> match r {
            Ok(plan) => is_clock_text(plan_timestamp(plan)@) && is_commit_plan(
                plan,
                version,
                actions@,
                opts,
                plan_timestamp(plan),
            ),
            Err(e) => e == LakehouseError::ClockUnreadable,
        },
{
    if version_is_committed(names, version) {
        return Err(LakehouseError::VersionAlreadyCommitted { version });
    }
    match current_timestamp() {
        Err(e) => {
            assert(e == LakehouseError::ClockUnreadable);
            Err(e)
        },
        Ok(ts) => {
            let ghost t = ts;
            let plan = commit_at(version, actions, opts, ts);
            assert(plan.actions@[0] == spec_commit_actions(actions@, opts, t)[0]);
            assert(plan_timestamp(plan) == t);
            Ok(plan)
        },
    }
}

/// The content of a log file holding `lines`: each line followed by a newline.
pub open spec fn spec_log_file_contents(lines: Seq<Seq<char>>) -> Seq<char>
    decreases lines.len(),
{
    if lines.len() == 0 {
        Seq::empty()
    } else {
        spec_log_file_contents(lines.drop_last()) + lines.last() + seq!['\n']
    }
}

/// `t` without one trailing carriage return.
pub open spec fn strip_cr(t: Seq<char>) -> Seq<char> {
    if t.len() > 0 && t.last() == '\r' {
        t.drop_last()
    } else {
        t
    }
}

/// Splitting `s` at newlines, read from the left: the lines completed so far
/// (each without its newline and one carriage return before it) and the text
/// of the line not yet ended.
pub open spec fn split_state(s: Seq<char>) -> (Seq<Seq<char>>, Seq<char>)
    decreases s.len(),
{
    if s.len() == 0 {
        (Seq::empty(), Seq::empty())
    } else {
        let (done, cur) = split_state(s.drop_last());
        if s.last() == '\n' {
            (done.push(strip_cr(cur)), Seq::empty())
        } else {
            (done, cur.push(s.last()))
        }
    }
}

/// The lines of `s` as `str::lines` gives them: split at each newline, a
/// carriage return just before a newline dropped, and no empty line after a
/// final newline.
pub open spec fn spec_lines(s: Seq<char>) -> Seq<Seq<char>> {
    let (done, cur) = split_state(s);
    if cur.len() == 0 {
        done
    } else {
        done.push(cur)
    }
}

/// The content of a log file whose lines are `lines`, each ended by a newline.
pub fn log_file_contents(lines: &Vec<String>) -> (s: String)
    ensures
        s@ == spec_log_file_contents(string_views(lines@)),
{
    let mut s = String::new();
    let mut i: usize = 0;
    while i < lines.len()
        invariant
            i <= lines@.len(),
            s@ == spec_log_file_contents(string_views(lines@.take(i as int))),
        decreases lines@.len() - i,
    {
        push_str(&mut s, lines[i].as_str());
        push_char(&mut s, '\n');
        proof {
            let next = string_views(lines@.take(i + 1));
            assert(next.drop_last() =~= string_views(lines@.take(i as int)));
            assert(next.last() == lines@[i as int]@);
        }
        i = i + 1;
    }
    assert(lines@.take(i as int) =~= lines@);
    s
}

/// The first `n` characters of `cs` as a string.
fn string_from_chars(cs: &Vec<char>, n: usize) -> (s: String)
    requires
        n <= cs@.len(),
    ensures
        s@ == cs@.take(n as int),
{
    let mut s = String::new();
    let mut i: usize = 0;
    while i < n
        invariant
            i <= n,
            n <= cs@.len(),
            s@ == cs@.take(i as int),
        decreases n - i,
    {
        push_char(&mut s, cs[i]);
        i = i + 1;
        assert(s@ =~= cs@.take(i as int));
    }
    s
}

/// Splits the content of a log file into its lines, as `str::lines` does.
pub fn split_lines(contents: &str) -> (lines: Vec<String>)
    ensures
        string_views(lines@) == spec_lines(contents@),
{
    let mut done: Vec<String> = Vec::new();
    let mut cur: Vec<char> = Vec::new();
    for c in it: contents.chars()
        invariant
            it.seq() == contents@,
            split_state(contents@.take(it.index() as int)) == (string_views(done@), cur@),
    {
        let ghost pre = contents@.take(it.index() as int);
        let ghost post = contents@.take(it.index() + 1);
        proof {
            assert(post.drop_last() =~= pre);
        }
        if c == '\n' {
            let n = cur.len();
            let keep = if n > 0 && cur[n - 1] == '\r' { n - 1 } else { n };
            let line = string_from_chars(&cur, keep);
            proof {
                assert(line@ =~= strip_cr(cur@));
            }
            done.push(line);
            cur = Vec::new();
            proof {
                assert(string_views(done@) =~= split_state(pre).0.push(strip_cr(split_state(pre).1)));
                assert(cur@ =~= Seq::<char>::empty());
            }
        } else {
            cur.push(c);
            proof {
                assert(string_views(done@) =~= split_state(pre).0);
            }
        }
    }
    assert(contents@.take(contents@.len() as int) =~= contents@);
    if cur.len() > 0 {
        let n = cur.len();
        let line = string_from_chars(&cur, n);
        proof {
            assert(line@ =~= cur@);
        }
        let ghost before = done@;
        done.push(line);
        proof {
            assert(string_views(done@) =~= string_views(before).push(cur@));
        }
    }
    done
}

/// Whether `t` can stand as one line of a log file: it holds no newline and
/// does not end with a carriage return.
pub open spec fn is_clean_line(t: Seq<char>) -> bool {
    &&& forall|i: int| 0 <= i < t.len() ==> t[i] != '\n'
    &&& !(t.len() > 0 && t.last() == '\r')
}

proof fn lemma_split_state_append_text(x: Seq<char>, t: Seq<char>)
    requires
        forall|i: int| 0 <= i < t.len() ==> t[i] != '\n',
    ensures
        split_state(x + t) == (split_state(x).0, split_state(x).1 + t),
    decreases t.len(),
{
    if t.len() == 0 {
        assert(x + t =~= x);
        assert(split_state(x).1 + t =~= split_state(x).1);
    } else {
        let t0 = t.drop_last();
        lemma_split_state_append_text(x, t0);
        assert((x + t).drop_last() =~= x + t0);
        assert((x + t).last() == t.last());
        assert(split_state(x).1 + t0 + seq![t.last()] =~= split_state(x).1 + t);
        assert((split_state(x).1 + t0).push(t.last()) =~= split_state(x).1 + t);
    }
}

proof fn lemma_split_state_of_contents(lines: Seq<Seq<char>>)
    requires
        forall|i: int| 0 <= i < lines.len() ==> is_clean_line(#[trigger] lines[i]),
    ensures
        split_state(spec_log_file_contents(lines)) == (lines, Seq::<char>::empty()),
    decreases lines.len(),
{
    if lines.len() == 0 {
        assert(lines =~= Seq::<Seq<char>>::empty());
    } else {
        let prev = lines.drop_last();
        let l = lines.last();
        assert forall|i: int| 0 <= i < prev.len() implies is_clean_line(#[trigger] prev[i]) by {
            assert(prev[i] == lines[i]);
        }
        lemma_split_state_of_contents(prev);
        assert(is_clean_line(lines[lines.len() - 1]));
        let body = spec_log_file_contents(prev) + l;
        lemma_split_state_append_text(spec_log_file_contents(prev), l);
        assert(Seq::<char>::empty() + l =~= l);
        let whole = spec_log_file_contents(lines);
        assert(whole.drop_last() =~= body);
        assert(whole.last() == '\n');
        assert(prev.push(l) =~= lines);
    }
}

/// A log file read back gives the lines that were written: splitting the
/// content of a log file into lines gives back its lines, provided that no
/// line holds a newline or ends with a carriage return (as no JSON text does).
pub proof fn lemma_lines_of_log_file_contents(lines: Seq<Seq<char>>)
    requires
        forall|i: int| 0 <= i < lines.len() ==> is_clean_line(#[trigger] lines[i]),
    ensures
        spec_lines(spec_log_file_contents(lines)) == lines,
{
    lemma_split_state_of_contents(lines);
}

} // verus!
