//! Reconstructing the state of a table at a version by replaying its log,
//! finding the committed versions, and travelling back in time by timestamp.

use crate::clock::{instant_at_or_before, instant_le, parse_rfc3339, rfc3339_instant};
use crate::error::LakehouseError;
use crate::layout::{
    lemma_log_file_name_denotes_version, lemma_tmp_log_file_name_is_not_a_version,
    log_version_of_file_name, spec_log_file_name, spec_log_version_of_file_name,
    spec_tmp_log_file_name,
};
use crate::log::{Action, AddFile, RemoveFile};
use crate::text::string_views;
use vstd::prelude::*;

verus! {

/// The state of a table at a version: the files active at that version, in
/// the order in which they were added.
#[derive(Debug)]
pub struct Snapshot {
    pub version: u64,
    pub files: Vec<AddFile>,
}

/// Whether `f` is a file other than the one at `path`.
pub open spec fn is_other_file(path: Seq<char>) -> spec_fn(AddFile) -> bool {
    |f: AddFile| f.path@ != path
}

/// The active files after `action`: an `Add` appends its file, a `Remove`
/// evicts every file with its path, and a `CommitInfo` changes nothing.
pub open spec fn spec_apply_action(files: Seq<AddFile>, action: Action) -> Seq<AddFile> {
    match action {
        Action::Add(f) => files.push(f),
        Action::Remove(r) => files.filter(is_other_file(r.path@)),
        Action::CommitInfo(_) => files,
    }
}

/// The active files after the actions of `actions`, in order.
pub open spec fn spec_apply_actions(files: Seq<AddFile>, actions: Seq<Action>) -> Seq<AddFile>
    decreases actions.len(),
{
    if actions.len() == 0 {
        files
    } else {
        spec_apply_action(spec_apply_actions(files, actions.drop_last()), actions.last())
    }
}

/// The actions of each commit of `commits`.
pub open spec fn commit_views(commits: Seq<Vec<Action>>) -> Seq<Seq<Action>> {
    commits.map_values(|c: Vec<Action>| c@)
}

/// The active files after replaying the commits of `commits` from an empty table.
pub open spec fn spec_replay(commits: Seq<Seq<Action>>) -> Seq<AddFile>
    decreases commits.len(),
{
    if commits.len() == 0 {
        Seq::empty()
    } else {
        spec_apply_actions(spec_replay(commits.drop_last()), commits.last())
    }
}

/// A removal evicts exactly the files at the removed path: every file at
/// another path stays, and every file left was there before and lies at
/// another path.
pub proof fn lemma_remove_evicts_exactly_that_path(files: Seq<AddFile>, r: RemoveFile)
    ensures
        forall|i: int|
            0 <= i < files.len() && (#[trigger] files[i]).path@ != r.path@ ==> spec_apply_action(
                files,
                Action::Remove(r),
            ).contains(files[i]),
        forall|j: int|
            0 <= j < spec_apply_action(files, Action::Remove(r)).len() ==> {
                let f = #[trigger] spec_apply_action(files, Action::Remove(r))[j];
                &&& f.path@ != r.path@
                &&& files.contains(f)
            },
{
    let pred = is_other_file(r.path@);
    let kept = files.filter(pred);
    assert forall|i: int| 0 <= i < files.len() && (#[trigger] files[i]).path@ != r.path@ implies kept.contains(
        files[i],
    ) by {
        files.lemma_filter_contains(pred, i);
    }
    assert forall|j: int| 0 <= j < kept.len() implies (#[trigger] kept[j]).path@ != r.path@
        && files.contains(kept[j]) by {
        files.lemma_filter_pred(pred, j);
        assert(kept.contains(kept[j]));
        files.lemma_filter_contains_rev(pred, kept[j]);
    }
}

/// Applies one action to the active files.
pub fn apply_action(files: Vec<AddFile>, action: Action) -> (out: Vec<AddFile>)
    ensures
        out@ == spec_apply_action(files@, action),
{
    match action {
        Action::Add(f) => {
            let mut out = files;
            out.push(f);
            out
        },
        Action::Remove(r) => {
            let ghost pred = is_other_file(r.path@);
            let mut out: Vec<AddFile> = Vec::new();
            proof {
                reveal(Seq::filter);
                assert(files@.take(0).filter(pred) =~= Seq::<AddFile>::empty());
            }
            for f in it: files.into_iter()
                invariant
                    it.seq() == files@,
                    pred == is_other_file(r.path@),
                    out@ == files@.take(it.index() as int).filter(pred),
            {
                let ghost k = it.index();
                proof {
                    reveal(Seq::filter);
                    assert(files@.take(k + 1).drop_last() =~= files@.take(k as int));
                    assert(files@.take(k + 1).last() == f);
                }
                if f.path != r.path {
                    out.push(f);
                }
            }
            proof {
                assert(files@.take(files@.len() as int) =~= files@);
            }
            out
        },
        Action::CommitInfo(_) => files,
    }
}

/// Applies the actions of one commit, in order, to the active files.
pub fn apply_commit(files: Vec<AddFile>, actions: Vec<Action>) -> (out: Vec<AddFile>)
    ensures
        out@ == spec_apply_actions(files@, actions@),
{
    let mut out = files;
    let ghost start = out@;
    for a in it: actions.into_iter()
        invariant
            it.seq() == actions@,
            out@ == spec_apply_actions(start, actions@.take(it.index() as int)),
    {
        let ghost k = it.index();
        proof {
            assert(actions@.take(k + 1).drop_last() =~= actions@.take(k as int));
            assert(actions@.take(k + 1).last() == a);
        }
        out = apply_action(out, a);
    }
    proof {
        assert(actions@.take(actions@.len() as int) =~= actions@);
    }
    out
}

/// Replays the commits of `commits` from an empty table, in order.
pub fn replay(commits: Vec<Vec<Action>>) -> (files: Vec<AddFile>)
    ensures
        files@ == spec_replay(commit_views(commits@)),
{
    let mut files: Vec<AddFile> = Vec::new();
    let ghost all = commit_views(commits@);
    for c in it: commits.into_iter()
        invariant
            it.seq() == commits@,
            all == commit_views(commits@),
            files@ == spec_replay(all.take(it.index() as int)),
    {
        let ghost k = it.index();
        proof {
            assert(all.take(k + 1).drop_last() =~= all.take(k as int));
            assert(all.take(k + 1).last() == c@);
        }
        files = apply_commit(files, c);
    }
    proof {
        assert(all.take(all.len() as int) =~= all);
    }
    files
}

/// The lines of each log file of `log`, where it could be read.
pub open spec fn log_views(log: Seq<Option<Vec<Option<Action>>>>) -> Seq<Option<Seq<Option<Action>>>> {
    log.map_values(
        |f: Option<Vec<Option<Action>>>|
            match f {
                None => None,
                Some(lines) => Some(lines@),
            },
    )
}

/// The actions of the log file of `version` whose lines are `lines`, each
/// the action it holds or `None` where it is not a valid action; the first
/// invalid line is an error.
pub open spec fn spec_check_log_file(version: u64, lines: Seq<Option<Action>>) -> Result<
    Seq<Action>,
    LakehouseError,
>
    decreases lines.len(),
{
    if lines.len() == 0 {
        Ok(Seq::empty())
    } else {
        match spec_check_log_file(version, lines.drop_last()) {
            Err(e) => Err(e),
            Ok(actions) => match lines.last() {
                None => Err(LakehouseError::InvalidLogLine { version, line: (lines.len() - 1) as usize }),
                Some(a) => Ok(actions.push(a)),
            },
        }
    }
}

/// The actions of every log file of `log`, version by version: `log[v]` is
/// `None` where the log file of version `v` could not be read. The first
/// missing file or invalid line, in version and line order, is an error.
pub open spec fn spec_check_log(log: Seq<Option<Seq<Option<Action>>>>) -> Result<
    Seq<Seq<Action>>,
    LakehouseError,
>
    decreases log.len(),
{
    if log.len() == 0 {
        Ok(Seq::empty())
    } else {
        match spec_check_log(log.drop_last()) {
            Err(e) => Err(e),
            Ok(commits) => match log.last() {
                None => Err(LakehouseError::MissingLogFile { version: (log.len() - 1) as u64 }),
                Some(lines) => match spec_check_log_file((log.len() - 1) as u64, lines) {
                    Err(e) => Err(e),
                    Ok(actions) => Ok(commits.push(actions)),
                },
            },
        }
    }
}

proof fn lemma_check_log_file_error_persists(version: u64, lines: Seq<Option<Action>>, k: int)
    requires
        0 <= k <= lines.len(),
        spec_check_log_file(version, lines.take(k)) is Err,
    ensures
        spec_check_log_file(version, lines) == spec_check_log_file(version, lines.take(k)),
    decreases lines.len(),
{
    if k == lines.len() {
        assert(lines.take(k) =~= lines);
    } else {
        assert(lines.drop_last().take(k) =~= lines.take(k));
        lemma_check_log_file_error_persists(version, lines.drop_last(), k);
    }
}

proof fn lemma_check_log_error_persists(log: Seq<Option<Seq<Option<Action>>>>, k: int)
    requires
        0 <= k <= log.len(),
        spec_check_log(log.take(k)) is Err,
    ensures
        spec_check_log(log) == spec_check_log(log.take(k)),
    decreases log.len(),
{
    if k == log.len() {
        assert(log.take(k) =~= log);
    } else {
        assert(log.drop_last().take(k) =~= log.take(k));
        lemma_check_log_error_persists(log.drop_last(), k);
    }
}

/// The actions of the log file of `version`, whose lines are `lines` in file
/// order; the first line that is not a valid action is an error.
pub fn check_log_file(version: u64, lines: Vec<Option<Action>>) -> (r: Result<
    Vec<Action>,
    LakehouseError,
>)
    ensures
        match r {
            Ok(actions) => spec_check_log_file(version, lines@) == Ok::<
                Seq<Action>,
                LakehouseError,
            >(actions@),
            Err(e) => spec_check_log_file(version, lines@) == Err::<Seq<Action>, LakehouseError>(e),
        },
{
    let ghost all = lines@;
    let n = lines.len();
    let mut actions: Vec<Action> = Vec::new();
    let mut i: usize = 0;
    for line in it: lines.into_iter()
        invariant
            it.seq() == all,
            all == lines@,
            n == lines@.len(),
            i == it.index(),
            spec_check_log_file(version, all.take(i as int)) == Ok::<
                Seq<Action>,
                LakehouseError,
            >(actions@),
    {
        proof {
            assert(all.take(i + 1).drop_last() =~= all.take(i as int));
            assert(all.take(i + 1).last() == line);
        }
        match line {
            None => {
                proof {
                    lemma_check_log_file_error_persists(version, all, i + 1);
                }
                return Err(LakehouseError::InvalidLogLine { version, line: i });
            },
            Some(a) => {
                actions.push(a);
            },
        }
        assert(i < lines@.len());
        i = i + 1;
    }
    proof {
        assert(all.take(i as int) =~= all);
    }
    Ok(actions)
}

/// Reconstructs the table at `version` from its log: `log[v]` holds the
/// lines of the log file of version `v`, for every `v` from 0 up to and
/// including `version`, each line the action it holds or `None` where it is
/// not a valid action, and `log[v]` is `None` where that file could not be
/// read. The actions of every commit are replayed in order; the first missing
/// file or invalid line, in version and line order, is an error.
pub fn read(version: u64, log: Vec<Option<Vec<Option<Action>>>>) -> (r: Result<
    Snapshot,
    LakehouseError,
>)
    requires
        log@.len() == version + 1,
    ensures
        match spec_check_log(log_views(log@)) {
            Err(e) => r == Err::<Snapshot, LakehouseError>(e),
            Ok(commits) => r matches Ok(snap) && snap.version == version && snap.files@
                == spec_replay(commits),
        },
{
    let ghost all = log_views(log@);
    let n = log.len();
    let ghost mut commits: Seq<Seq<Action>> = Seq::empty();
    let mut files: Vec<AddFile> = Vec::new();
    let mut v: u64 = 0;
    for file in it: log.into_iter()
        invariant
            it.seq() == log@,
            all == log_views(log@),
            log@.len() == version + 1,
            n == log@.len(),
            v == it.index(),
            spec_check_log(all.take(v as int)) == Ok::<Seq<Seq<Action>>, LakehouseError>(commits),
            files@ == spec_replay(commits),
    {
        proof {
            assert(all.take(v + 1).drop_last() =~= all.take(v as int));
            assert(all.take(v + 1).last() == all[v as int]);
            assert(all[v as int] == match file {
                None => None,
                Some(lines) => Some(lines@),
            });
        }
        match file {
            None => {
                proof {
                    lemma_check_log_error_persists(all, v + 1);
                }
                return Err(LakehouseError::MissingLogFile { version: v });
            },
            Some(lines) => match check_log_file(v, lines) {
                Err(e) => {
                    proof {
                        lemma_check_log_error_persists(all, v + 1);
                    }
                    return Err(e);
                },
                Ok(actions) => {
                    proof {
                        assert(commits.push(actions@).drop_last() =~= commits);
                        commits = commits.push(actions@);
                    }
                    files = apply_commit(files, actions);
                },
            },
        }
        assert(v < log@.len());
        v = v + 1;
    }
    proof {
        assert(all.take(all.len() as int) =~= all);
    }
    Ok(Snapshot { version, files })
}

/// The highest version that a name of `names` denotes, if any name denotes one.
pub open spec fn spec_latest_version(names: Seq<Seq<char>>) -> Option<u64>
    decreases names.len(),
{
    if names.len() == 0 {
        None
    } else {
        let prev = spec_latest_version(names.drop_last());
        match (prev, spec_log_version_of_file_name(names.last())) {
            (None, x) => x,
            (Some(a), None) => Some(a),
            (Some(a), Some(b)) => Some(if a >= b { a } else { b }),
        }
    }
}

/// The latest version of a table is the greatest version that a log file
/// name in its log directory denotes, and there is none exactly when no name
/// denotes a version.
pub proof fn lemma_latest_version_is_max(names: Seq<Seq<char>>)
    ensures
        match spec_latest_version(names) {
            None => forall|i: int|
                0 <= i < names.len() ==> (#[trigger] spec_log_version_of_file_name(names[i])) is None,
            Some(m) => {
                &&& exists|i: int|
                    0 <= i < names.len() && #[trigger] spec_log_version_of_file_name(names[i])
                        == Some(m)
                &&& forall|i: int|
                    0 <= i < names.len() && (#[trigger] spec_log_version_of_file_name(names[i]))
                        is Some ==> spec_log_version_of_file_name(names[i])->0 <= m
            },
        },
    decreases names.len(),
{
    if names.len() > 0 {
        let prev = names.drop_last();
        lemma_latest_version_is_max(prev);
        let last = names.len() - 1;
        assert forall|i: int| 0 <= i < prev.len() implies names[i] == prev[i] by {}
        match spec_latest_version(prev) {
            None => {},
            Some(a) => {
                let i0 = choose|i: int|
                    0 <= i < prev.len() && #[trigger] spec_log_version_of_file_name(prev[i])
                        == Some(a);
                assert(spec_log_version_of_file_name(names[i0]) == Some(a));
            },
        }
        assert(names[last] == names.last());
    }
}

/// The latest committed version, given the names of the files in the log
/// directory (none where the directory does not exist): the greatest version
/// that a name denotes, or `None` where no name denotes one.
pub fn latest_version(names: &Vec<String>) -> (r: Option<u64>)
    ensures
        r == spec_latest_version(string_views(names@)),
{
    let mut max: Option<u64> = None;
    let mut i: usize = 0;
    let ghost all = string_views(names@);
    while i < names.len()
        invariant
            i <= names@.len(),
            all == string_views(names@),
            max == spec_latest_version(all.take(i as int)),
        decreases names@.len() - i,
    {
        let v = log_version_of_file_name(names[i].as_str());
        proof {
            assert(all.take(i + 1).drop_last() =~= all.take(i as int));
            assert(all.take(i + 1).last() == names@[i as int]@);
        }
        max = match (max, v) {
            (None, x) => x,
            (Some(a), None) => Some(a),
            (Some(a), Some(b)) => Some(if a >= b { a } else { b }),
        };
        i = i + 1;
    }
    proof {
        assert(all.take(i as int) =~= all);
    }
    max
}

/// The version that the next commit takes, given the latest committed version.
pub open spec fn spec_next_version(latest: Option<u64>) -> int {
    match latest {
        None => 0,
        Some(v) => v + 1,
    }
}

/// The version for the next commit: `0` for a table with no committed
/// version, the latest committed version plus one otherwise.
pub fn next_version(names: &Vec<String>) -> (r: u64)
    requires
        spec_latest_version(string_views(names@)) != Some(u64::MAX),
    ensures
        r == spec_next_version(spec_latest_version(string_views(names@))),
{
    match latest_version(names) {
        None => 0,
        Some(v) => v + 1,
    }
}

/// The next version is one past the latest committed one: it is `0` exactly
/// when no name denotes a committed version; otherwise the version just
/// before it is denoted by a name, and every denoted version lies below it.
pub proof fn lemma_next_version_is_one_past_latest(names: Seq<Seq<char>>)
    requires
        spec_latest_version(names) != Some(u64::MAX),
    ensures
        spec_next_version(spec_latest_version(names)) == 0 <==> forall|i: int|
            0 <= i < names.len() ==> (#[trigger] spec_log_version_of_file_name(names[i])) is None,
        spec_next_version(spec_latest_version(names)) > 0 ==> exists|i: int|
            0 <= i < names.len() && #[trigger] spec_log_version_of_file_name(names[i]) == Some(
                (spec_next_version(spec_latest_version(names)) - 1) as u64,
            ),
        forall|i: int|
            0 <= i < names.len() && (#[trigger] spec_log_version_of_file_name(names[i])) is Some
                ==> spec_log_version_of_file_name(names[i])->0 < spec_next_version(
                spec_latest_version(names),
            ),
{
    lemma_latest_version_is_max(names);
    match spec_latest_version(names) {
        None => {},
        Some(m) => {
            let i0 = choose|i: int|
                0 <= i < names.len() && #[trigger] spec_log_version_of_file_name(names[i]) == Some(
                    m,
                );
            assert(spec_log_version_of_file_name(names[i0]) is Some);
        },
    }
}

/// Committing advances the version: once the log file of the next version
/// is in the log directory, that version is the latest, so the next version
/// after it is one more.
pub proof fn lemma_commit_advances_next_version(names: Seq<Seq<char>>)
    requires
        spec_latest_version(names) != Some(u64::MAX),
    ensures
        spec_latest_version(
            names.push(spec_log_file_name(spec_next_version(spec_latest_version(names)) as u64)),
        ) == Some(spec_next_version(spec_latest_version(names)) as u64),
{
    let v = spec_next_version(spec_latest_version(names)) as u64;
    let more = names.push(spec_log_file_name(v));
    assert(more.drop_last() =~= names);
    lemma_log_file_name_denotes_version(v);
}

/// A commit interrupted before its rename leaves only a temporary file,
/// which does not change the latest committed version.
pub proof fn lemma_interrupted_commit_is_invisible(names: Seq<Seq<char>>, version: u64)
    ensures
        spec_latest_version(names.push(spec_tmp_log_file_name(version))) == spec_latest_version(
            names,
        ),
{
    let more = names.push(spec_tmp_log_file_name(version));
    assert(more.drop_last() =~= names);
    lemma_tmp_log_file_name_is_not_a_version(version);
}

/// The latest committed version, or an error for a table with no committed version.
pub fn latest_committed_version(names: &Vec<String>) -> (r: Result<u64, LakehouseError>)
    ensures
        r == match spec_latest_version(string_views(names@)) {
            None => Err(LakehouseError::NoCommittedVersions),
            Some(v) => Ok(v),
        },
{
    match latest_version(names) {
        None => Err(LakehouseError::NoCommittedVersions),
        Some(v) => Ok(v),
    }
}

/// What reading the commit timestamp of the log file of `version` gives when
/// its lines from line `i` on are `lines[i..]`: the lines are read in order,
/// a line that is not a valid action is an error, and the timestamp of the
/// first `CommitInfo` is the answer.
pub open spec fn spec_scan_commit_timestamp(
    version: u64,
    lines: Seq<Option<Action>>,
    i: nat,
) -> Result<Seq<char>, LakehouseError>
    decreases lines.len() - i,
{
    if i >= lines.len() {
        Err(LakehouseError::MissingCommitInfo { version })
    } else {
        match lines[i as int] {
            None => Err(LakehouseError::InvalidLogLine { version, line: i as usize }),
            Some(Action::CommitInfo(ci)) => Ok(ci.timestamp@),
            Some(_) => spec_scan_commit_timestamp(version, lines, i + 1),
        }
    }
}

/// The timestamp of the first `CommitInfo` of the log file of `version`,
/// whose lines are `lines` in file order, each the action it holds or `None`
/// where the line is not a valid action. Lines after that `CommitInfo` are
/// not looked at.
pub fn read_commit_timestamp(version: u64, lines: Vec<Option<Action>>) -> (r: Result<
    String,
    LakehouseError,
>)
    ensures
        match r {
            Ok(ts) => spec_scan_commit_timestamp(version, lines@, 0) == Ok::<
                Seq<char>,
                LakehouseError,
            >(ts@),
            Err(e) => spec_scan_commit_timestamp(version, lines@, 0) == Err::<
                Seq<char>,
                LakehouseError,
            >(e),
        },
{
    let ghost all = lines@;
    let n = lines.len();
    let mut i: usize = 0;
    for line in it: lines.into_iter()
        invariant
            it.seq() == all,
            n == all.len(),
            i == it.index(),
            spec_scan_commit_timestamp(version, all, 0) == spec_scan_commit_timestamp(
                version,
                all,
                i as nat,
            ),
    {
        assert(line == all[i as int]);
        match line {
            None => {
                return Err(LakehouseError::InvalidLogLine { version, line: i });
            },
            Some(Action::CommitInfo(ci)) => {
                return Ok(ci.timestamp);
            },
            Some(_) => {},
        }
        i = i + 1;
    }
    Err(LakehouseError::MissingCommitInfo { version })
}

/// The result of looking at the commit timestamp `ts` of `version`, when the
/// latest version found so far at or before `requested` is `found`.
pub open spec fn spec_observe_commit_timestamp(
    found: Option<u64>,
    requested: (i64, u32),
    version: u64,
    ts: Seq<char>,
) -> Result<Option<u64>, LakehouseError> {
    match rfc3339_instant(ts) {
        None => Err(LakehouseError::MalformedCommitTimestamp { version }),
        Some(t) => Ok(
            if instant_le(t, requested) {
                Some(version)
            } else {
                found
            },
        ),
    }
}

/// Scanning the commit timestamps `tss` of versions `0..tss.len()` in order:
/// the latest version whose timestamp is at or before `requested`, or the
/// first malformed timestamp.
pub open spec fn spec_search_versions(requested: (i64, u32), tss: Seq<Seq<char>>) -> Result<
    Option<u64>,
    LakehouseError,
>
    decreases tss.len(),
{
    if tss.len() == 0 {
        Ok(None)
    } else {
        match spec_search_versions(requested, tss.drop_last()) {
            Err(e) => Err(e),
            Ok(found) => spec_observe_commit_timestamp(
                found,
                requested,
                (tss.len() - 1) as u64,
                tss.last(),
            ),
        }
    }
}

/// Time travel by timestamp: the latest version whose commit timestamp lies
/// at or before `ts`, where `tss[v]` is the commit timestamp of version `v`.
pub open spec fn spec_version_at_timestamp(ts: Seq<char>, tss: Seq<Seq<char>>) -> Result<
    u64,
    LakehouseError,
> {
    match rfc3339_instant(ts) {
        None => Err(LakehouseError::InvalidTimestamp),
        Some(requested) => if tss.len() == 0 {
            Err(LakehouseError::NoCommittedVersions)
        } else {
            match spec_search_versions(requested, tss) {
                Err(e) => Err(e),
                Ok(None) => Err(LakehouseError::NoVersionAtOrBefore),
                Ok(Some(v)) => Ok(v),
            }
        },
    }
}

proof fn lemma_search_error_persists(requested: (i64, u32), tss: Seq<Seq<char>>, k: int)
    requires
        0 <= k <= tss.len(),
        spec_search_versions(requested, tss.take(k)) is Err,
    ensures
        spec_search_versions(requested, tss) == spec_search_versions(requested, tss.take(k)),
    decreases tss.len(),
{
    if k == tss.len() {
        assert(tss.take(k) =~= tss);
    } else {
        assert(tss.drop_last().take(k) =~= tss.take(k));
        lemma_search_error_persists(requested, tss.drop_last(), k);
    }
}

/// Reads a requested timestamp: its instant, or an error where it is not RFC 3339.
pub fn requested_instant(timestamp: &str) -> (r: Result<(i64, u32), LakehouseError>)
    ensures
        r == match rfc3339_instant(timestamp@) {
            Some(t) => Ok(t),
            None => Err(LakehouseError::InvalidTimestamp),
        },
{
    match parse_rfc3339(timestamp) {
        Some(t) => Ok(t),
        None => Err(LakehouseError::InvalidTimestamp),
    }
}

/// Looks at the commit timestamp `commit_timestamp` of `version` while searching
/// for the latest version at or before `requested`; `found` is the latest
/// such version among the earlier ones.
pub fn observe_commit_timestamp(
    found: Option<u64>,
    requested: (i64, u32),
    version: u64,
    commit_timestamp: &str,
) -> (r: Result<Option<u64>, LakehouseError>)
    ensures
        r == spec_observe_commit_timestamp(found, requested, version, commit_timestamp@),
{
    match parse_rfc3339(commit_timestamp) {
        None => Err(LakehouseError::MalformedCommitTimestamp { version }),
        Some(t) => if instant_at_or_before(t, requested) {
            Ok(Some(version))
        } else {
            Ok(found)
        },
    }
}

/// Resolves an RFC 3339 timestamp to the latest version whose commit
/// timestamp lies at or before it; `commit_timestamps[v]` is the commit
/// timestamp of version `v`, for every committed version.
pub fn version_at_timestamp(timestamp: &str, commit_timestamps: &Vec<String>) -> (r: Result<
    u64,
    LakehouseError,
>)
    ensures
        r == spec_version_at_timestamp(timestamp@, string_views(commit_timestamps@)),
{
    let requested = match requested_instant(timestamp) {
        Ok(t) => t,
        Err(e) => return Err(e),
    };
    let n = commit_timestamps.len();
    if n == 0 {
        return Err(LakehouseError::NoCommittedVersions);
    }
    let ghost tss = string_views(commit_timestamps@);
    let mut found: Option<u64> = None;
    let mut v: usize = 0;
    while v < n
        invariant
            v <= n,
            n == commit_timestamps@.len(),
            tss == string_views(commit_timestamps@),
            rfc3339_instant(timestamp@) == Some(requested),
            spec_search_versions(requested, tss.take(v as int)) == Ok::<
                Option<u64>,
                LakehouseError,
            >(found),
        decreases n - v,
    {
        proof {
            assert(tss.take(v + 1).drop_last() =~= tss.take(v as int));
            assert(tss.take(v + 1).last() == commit_timestamps@[v as int]@);
        }
        match observe_commit_timestamp(found, requested, v as u64, commit_timestamps[v].as_str()) {
            Ok(f) => {
                found = f;
            },
            Err(e) => {
                proof {
                    lemma_search_error_persists(requested, tss, v + 1);
                }
                return Err(e);
            },
        }
        v = v + 1;
    }
    proof {
        assert(tss.take(v as int) =~= tss);
    }
    match found {
        None => Err(LakehouseError::NoVersionAtOrBefore),
        Some(v) => Ok(v),
    }
}

/// Whether the commit timestamp `ts` parses and lies at or before `requested`.
pub open spec fn committed_at_or_before(ts: Seq<char>, requested: (i64, u32)) -> bool {
    rfc3339_instant(ts) matches Some(t) && instant_le(t, requested)
}

proof fn lemma_search_versions_meaning(requested: (i64, u32), tss: Seq<Seq<char>>)
    requires
        tss.len() <= u64::MAX,
    ensures
        match spec_search_versions(requested, tss) {
            Ok(found) => {
                &&& forall|j: int| 0 <= j < tss.len() ==> (#[trigger] rfc3339_instant(tss[j])) is Some
                &&& match found {
                    None => forall|j: int|
                        0 <= j < tss.len() ==> !committed_at_or_before(#[trigger] tss[j], requested),
                    Some(v) => {
                        &&& v < tss.len()
                        &&& committed_at_or_before(tss[v as int], requested)
                        &&& forall|j: int|
                            v < j < tss.len() ==> !committed_at_or_before(
                                #[trigger] tss[j],
                                requested,
                            )
                    },
                }
            },
            Err(e) => exists|k: int|
                0 <= k < tss.len() && e == LakehouseError::MalformedCommitTimestamp {
                    version: k as u64,
                } && (#[trigger] rfc3339_instant(tss[k])) is None,
        },
    decreases tss.len(),
{
    if tss.len() > 0 {
        let prev = tss.drop_last();
        let last = tss.len() - 1;
        lemma_search_versions_meaning(requested, prev);
        assert forall|j: int| 0 <= j < prev.len() implies prev[j] == tss[j] by {}
        assert(tss[last] == tss.last());
        match spec_search_versions(requested, prev) {
            Err(e) => {
                let k = choose|k: int|
                    0 <= k < prev.len() && e == LakehouseError::MalformedCommitTimestamp {
                        version: k as u64,
                    } && (#[trigger] rfc3339_instant(prev[k])) is None;
                assert(rfc3339_instant(tss[k]) is None);
            },
            Ok(found) => {
                match rfc3339_instant(tss.last()) {
                    None => {
                        assert(rfc3339_instant(tss[last]) is None);
                    },
                    Some(t) => {
                        if instant_le(t, requested) {
                            assert(committed_at_or_before(tss[last], requested));
                        } else {
                            assert(!committed_at_or_before(tss[last], requested));
                            match found {
                                None => {},
                                Some(v) => {
                                    assert(committed_at_or_before(tss[v as int], requested));
                                },
                            }
                        }
                    },
                }
            },
        }
    }
}

/// Time travel by timestamp finds the snapshot one would have seen at that
/// moment: the version it gives has a commit timestamp at or before the
/// requested one, and every later version was committed after it; it refuses
/// only where no version was committed at or before that moment, where a
/// timestamp does not parse, or where there is no version.
pub proof fn lemma_version_at_timestamp_is_latest_at_or_before(
    ts: Seq<char>,
    tss: Seq<Seq<char>>,
)
    requires
        tss.len() <= u64::MAX,
    ensures
        match spec_version_at_timestamp(ts, tss) {
            Ok(v) => {
                &&& v < tss.len()
                &&& committed_at_or_before(tss[v as int], rfc3339_instant(ts)->0)
                &&& forall|j: int|
                    v < j < tss.len() ==> !committed_at_or_before(
                        #[trigger] tss[j],
                        rfc3339_instant(ts)->0,
                    )
            },
            Err(LakehouseError::NoVersionAtOrBefore) => {
                &&& rfc3339_instant(ts) is Some
                &&& forall|j: int|
                    0 <= j < tss.len() ==> !committed_at_or_before(
                        #[trigger] tss[j],
                        rfc3339_instant(ts)->0,
                    )
            },
            Err(LakehouseError::InvalidTimestamp) => rfc3339_instant(ts) is None,
            Err(LakehouseError::NoCommittedVersions) => tss.len() == 0,
            Err(LakehouseError::MalformedCommitTimestamp { version }) => {
                &&& version < tss.len()
                &&& rfc3339_instant(tss[version as int]) is None
            },
            Err(_) => false,
        },
{
    if let Some(requested) = rfc3339_instant(ts) {
        lemma_search_versions_meaning(requested, tss);
    }
}

/// Applying two runs of actions one after the other is applying their concatenation.
pub proof fn lemma_apply_actions_concat(files: Seq<AddFile>, a: Seq<Action>, b: Seq<Action>)
    ensures
        spec_apply_actions(files, a + b) == spec_apply_actions(spec_apply_actions(files, a), b),
    decreases b.len(),
{
    if b.len() == 0 {
        assert(a + b =~= a);
    } else {
        lemma_apply_actions_concat(files, a, b.drop_last());
        assert((a + b).drop_last() =~= a + b.drop_last());
        assert((a + b).last() == b.last());
    }
}

/// The commit information at the head of every log file changes no file:
/// replaying a commit gives the files that replaying its actions alone gives.
pub proof fn lemma_commit_info_changes_no_file(
    files: Seq<AddFile>,
    info: Action,
    actions: Seq<Action>,
)
    requires
        info is CommitInfo,
    ensures
        spec_apply_actions(files, seq![info] + actions) == spec_apply_actions(files, actions),
{
    lemma_apply_actions_concat(files, seq![info], actions);
    assert(seq![info].drop_last() =~= Seq::<Action>::empty());
    assert(seq![info].last() == info);
    assert(spec_apply_actions(files, Seq::<Action>::empty()) == files);
    assert(spec_apply_actions(files, seq![info]) == files);
}

/// The files that the `Add` actions of `actions` add, in order.
pub open spec fn added_files(actions: Seq<Action>) -> Seq<AddFile>
    decreases actions.len(),
{
    if actions.len() == 0 {
        Seq::empty()
    } else {
        match actions.last() {
            Action::Add(f) => added_files(actions.drop_last()).push(f),
            _ => added_files(actions.drop_last()),
        }
    }
}

/// Whether no action of `actions` removes a file.
pub open spec fn removes_nothing(actions: Seq<Action>) -> bool {
    forall|i: int| 0 <= i < actions.len() ==> !(#[trigger] actions[i] is Remove)
}

proof fn lemma_append_only_actions(files: Seq<AddFile>, actions: Seq<Action>)
    requires
        removes_nothing(actions),
    ensures
        spec_apply_actions(files, actions) == files + added_files(actions),
    decreases actions.len(),
{
    if actions.len() == 0 {
        assert(files + Seq::<AddFile>::empty() =~= files);
    } else {
        let prev = actions.drop_last();
        assert forall|i: int| 0 <= i < prev.len() implies !(#[trigger] prev[i] is Remove) by {
            assert(prev[i] == actions[i]);
        }
        lemma_append_only_actions(files, prev);
        assert(!(actions[actions.len() - 1] is Remove));
        match actions.last() {
            Action::Add(f) => {
                assert((files + added_files(prev)).push(f) =~= files + added_files(prev).push(f));
            },
            _ => {},
        }
    }
}

/// Appending never loses a file: after a commit that removes nothing, the
/// table holds the files it held before, in the same order, followed by the
/// files the commit adds.
pub proof fn lemma_append_commit_extends_snapshot(
    commits: Seq<Seq<Action>>,
    actions: Seq<Action>,
)
    requires
        removes_nothing(actions),
    ensures
        spec_replay(commits.push(actions)) == spec_replay(commits) + added_files(actions),
{
    assert(commits.push(actions).drop_last() =~= commits);
    lemma_append_only_actions(spec_replay(commits), actions);
}

/// Whether some file of `files` has path `path`.
pub open spec fn has_file_at(files: Seq<AddFile>, path: Seq<char>) -> bool {
    exists|i: int| 0 <= i < files.len() && (#[trigger] files[i]).path@ == path
}

/// Whether `actions[i]` removes the file at `path`, and no later action adds
/// a file at `path` again.
pub open spec fn removed_for_good(actions: Seq<Action>, i: int, path: Seq<char>) -> bool {
    &&& 0 <= i < actions.len()
    &&& actions[i] matches Action::Remove(r) && r.path@ == path
    &&& forall|j: int|
        i < j < actions.len() ==> !(#[trigger] actions[j] matches Action::Add(f) && f.path@ == path)
}

proof fn lemma_filter_drops_path(files: Seq<AddFile>, path: Seq<char>)
    ensures
        !has_file_at(files.filter(is_other_file(path)), path),
{
    broadcast use vstd::seq_lib::group_filter_ensures;

    let kept = files.filter(is_other_file(path));
    if has_file_at(kept, path) {
        let i = choose|i: int| 0 <= i < kept.len() && (#[trigger] kept[i]).path@ == path;
        assert(is_other_file(path)(kept[i]));
    }
}

proof fn lemma_removed_stays_removed(files: Seq<AddFile>, actions: Seq<Action>, i: int, path: Seq<char>)
    requires
        removed_for_good(actions, i, path),
    ensures
        !has_file_at(spec_apply_actions(files, actions), path),
    decreases actions.len(),
{
    let prev = actions.drop_last();
    let last = actions.len() - 1;
    assert(actions.last() == actions[last]);
    if i == last {
        lemma_filter_drops_path(spec_apply_actions(files, prev), path);
    } else {
        assert(prev[i] == actions[i]);
        assert forall|j: int| i < j < prev.len() implies !(#[trigger] prev[j] matches Action::Add(
            f,
        ) && f.path@ == path) by {
            assert(prev[j] == actions[j]);
        }
        lemma_removed_stays_removed(files, prev, i, path);
        let before = spec_apply_actions(files, prev);
        match actions.last() {
            Action::Add(f) => {
                assert(f.path@ != path);
                if has_file_at(before.push(f), path) {
                    let k = choose|k: int|
                        0 <= k < before.push(f).len() && (#[trigger] before.push(f)[k]).path@
                            == path;
                    assert(before.push(f)[k] == before[k]);
                }
            },
            Action::Remove(r) => {
                broadcast use vstd::seq_lib::group_filter_ensures;

                let kept = before.filter(is_other_file(r.path@));
                if has_file_at(kept, path) {
                    let k = choose|k: int| 0 <= k < kept.len() && (#[trigger] kept[k]).path@ == path;
                    assert(kept.contains(kept[k]));
                    before.lemma_filter_contains_rev(is_other_file(r.path@), kept[k]);
                    let m = choose|m: int| 0 <= m < before.len() && before[m] == kept[k];
                    assert(before[m].path@ == path);
                }
            },
            Action::CommitInfo(_) => {},
        }
    }
}

/// A removed file is gone: once a commit removes the file at a path and does
/// not add it again afterwards, the table at that version holds no file at
/// that path.
pub proof fn lemma_remove_evicts_file(
    commits: Seq<Seq<Action>>,
    actions: Seq<Action>,
    i: int,
    path: Seq<char>,
)
    requires
        removed_for_good(actions, i, path),
    ensures
        !has_file_at(spec_replay(commits.push(actions)), path),
{
    assert(commits.push(actions).drop_last() =~= commits);
    lemma_removed_stays_removed(spec_replay(commits), actions, i, path);
}

/// What a commit made by `commit` does to the table: when the caller's
/// actions remove nothing, the table after the commit holds the files it held
/// before followed by the files the actions add; the commit information that
/// heads the log file adds nothing.
pub proof fn lemma_committed_appends_extend_snapshot(
    commits: Seq<Seq<Action>>,
    committed: Seq<Action>,
)
    requires
        committed.len() >= 1,
        committed[0] is CommitInfo,
        removes_nothing(committed.drop_first()),
    ensures
        spec_replay(commits.push(committed)) == spec_replay(commits) + added_files(
            committed.drop_first(),
        ),
{
    let rest = committed.drop_first();
    assert(committed =~= seq![committed[0]] + rest);
    assert(commits.push(committed).drop_last() =~= commits);
    lemma_commit_info_changes_no_file(spec_replay(commits), committed[0], rest);
    lemma_append_only_actions(spec_replay(commits), rest);
}

/// How the version to read is chosen.
#[derive(Debug)]
pub enum VersionChoice {
    /// Exactly this version.
    Exact(u64),
    /// The latest version committed at or before this RFC 3339 timestamp.
    AtTimestamp(String),
    /// The latest committed version.
    Latest,
}

/// Chooses the version to read from an optional exact version and an
/// optional timestamp: both at once are refused as ambiguous, either one
/// alone is used, and neither means the latest committed version.
pub fn resolve_version(version: Option<u64>, timestamp: Option<String>) -> (r: Result<
    VersionChoice,
    LakehouseError,
>)
    ensures
        match (version, timestamp) {
            (Some(_), Some(_)) => r == Err::<VersionChoice, LakehouseError>(
                LakehouseError::VersionAndTimestampBothSet,
            ),
            (Some(v), None) => r == Ok::<VersionChoice, LakehouseError>(VersionChoice::Exact(v)),
            (None, Some(ts)) => r == Ok::<VersionChoice, LakehouseError>(
                VersionChoice::AtTimestamp(ts),
            ),
            (None, None) => r == Ok::<VersionChoice, LakehouseError>(VersionChoice::Latest),
        },
{
    match (version, timestamp) {
        (Some(_), Some(_)) => Err(LakehouseError::VersionAndTimestampBothSet),
        (Some(v), None) => Ok(VersionChoice::Exact(v)),
        (None, Some(ts)) => Ok(VersionChoice::AtTimestamp(ts)),
        (None, None) => Ok(VersionChoice::Latest),
    }
}

} // verus!
