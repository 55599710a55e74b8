//! Build status detection.
//!
//! Whether a project is built is read off the file system and git:
//! 1. No build artifacts: `Unbuilt`.
//! 2. Artifacts and many uncommitted git changes: `Rebuild`.
//! 3. Artifacts and a lock file with merge conflict markers, or sources
//!    newer than the artifacts: `Error`.
//! 4. Artifacts, fresh: `Built`.
//!
//! The detector is a small state machine: each step names what to look at
//! next (a probe), the caller looks and reports what it saw, and the step
//! function decides what comes next or what the status is. The looking
//! (directories, `git status`, reading lock files, file times) is the
//! caller's.

use vstd::prelude::*;
use crate::ir::{BuildStatus, Language};
use crate::path::{pieces_view, split_chars, split_on};
use crate::text::{chars_of, contains_seq, str_contains, string_of, strs};

verus! {

/// More uncommitted changes than this mean an active refactor.
pub const REBUILD_CHANGE_THRESHOLD: usize = 10;

/// The number of lock files looked at.
pub const LOCK_FILE_COUNT: usize = 6;

/// What the detector looks at next.
#[derive(Debug, Clone, Copy, PartialEq, Eq, Structural)]
pub enum Probe {
    /// Whether any of the artifact directories exists under the root.
    ArtifactDirs,
    /// Whether the root holds a `.git` directory.
    GitRepo,
    /// The output of `git status --porcelain` run in the root.
    GitStatus,
    /// The content of the lock file with this index, if it exists.
    LockFile(usize),
    /// Whether a source file is newer than the newest artifact directory.
    Staleness,
}

/// What the caller saw when it looked.
#[derive(Debug, Clone, PartialEq)]
pub enum Observation {
    /// The answer to a yes/no probe.
    Flag(bool),
    /// The standard output of git, or `None` when git did not succeed.
    GitOutput(Option<String>),
    /// The lock file's content, or `None` when it does not exist.
    LockContent(Option<String>),
}

/// The detector's next move.
#[derive(Debug, Clone, Copy, PartialEq, Eq, Structural)]
pub enum Step {
    Look(Probe),
    Finished(BuildStatus),
}

/// The artifact directories looked for under the root.
pub open spec fn artifact_dirs_spec() -> Seq<Seq<char>> {
    seq!["target"@, "node_modules"@, "__pycache__"@, "build"@, ".build"@]
}

/// The lock files looked at, in order.
pub open spec fn lock_files_spec() -> Seq<Seq<char>> {
    seq![
        "Cargo.lock"@,
        "package-lock.json"@,
        "yarn.lock"@,
        "pnpm-lock.yaml"@,
        "go.sum"@,
        "Gemfile.lock"@,
    ]
}

/// Whether a line of `git status --porcelain` output counts: it is not
/// empty once a trailing carriage return is dropped.
pub open spec fn counted_line(p: Seq<char>) -> bool {
    p.len() > 0 && !(p.len() == 1 && p[0] == '\r')
}

pub open spec fn count_counted(ps: Seq<Seq<char>>) -> nat
    decreases ps.len(),
{
    if ps.len() == 0 {
        0
    } else {
        count_counted(ps.drop_last()) + if counted_line(ps.last()) {
            1nat
        } else {
            0nat
        }
    }
}

/// The number of non-empty lines of a text (`str::lines` splits at `\n`
/// and drops one trailing `\r` from each line).
pub open spec fn change_count(text: Seq<char>) -> nat {
    count_counted(split_on(text, '\n'))
}

/// Whether a lock file holds merge conflict markers.
pub open spec fn conflicted(content: Seq<char>) -> bool {
    contains_seq(content, "<<<<<<<"@) || contains_seq(content, ">>>>>>>"@)
}

/// The probe after the lock file with index `i`.
pub open spec fn after_lock(i: usize) -> Probe {
    if i + 1 < LOCK_FILE_COUNT {
        Probe::LockFile((i + 1) as usize)
    } else {
        Probe::Staleness
    }
}

/// Whether an observation answers a probe.
pub open spec fn answers(probe: Probe, seen: Observation) -> bool {
    match probe {
        Probe::ArtifactDirs | Probe::GitRepo | Probe::Staleness => seen is Flag,
        Probe::GitStatus => seen is GitOutput,
        Probe::LockFile(i) => seen is LockContent && i < LOCK_FILE_COUNT,
    }
}

/// The detector's decision after seeing the answer to a probe.
pub open spec fn next_step(probe: Probe, seen: Observation) -> Step {
    match (probe, seen) {
        (Probe::ArtifactDirs, Observation::Flag(found)) => if found {
            Step::Look(Probe::GitRepo)
        } else {
            Step::Finished(BuildStatus::Unbuilt)
        },
        (Probe::GitRepo, Observation::Flag(repo)) => if repo {
            Step::Look(Probe::GitStatus)
        } else {
            Step::Look(Probe::LockFile(0))
        },
        (Probe::GitStatus, Observation::GitOutput(out)) => match out {
            Some(text) => if change_count(text@) > REBUILD_CHANGE_THRESHOLD {
                Step::Finished(BuildStatus::Rebuild)
            } else {
                Step::Look(Probe::LockFile(0))
            },
            None => Step::Look(Probe::LockFile(0)),
        },
        (Probe::LockFile(i), Observation::LockContent(content)) => match content {
            Some(c) => if conflicted(c@) {
                Step::Finished(BuildStatus::Error)
            } else {
                Step::Look(after_lock(i))
            },
            None => Step::Look(after_lock(i)),
        },
        (Probe::Staleness, Observation::Flag(stale)) => if stale {
            Step::Finished(BuildStatus::Error)
        } else {
            Step::Finished(BuildStatus::Built)
        },
        _ => Step::Look(probe),
    }
}

/// The first thing the detector looks at: the artifact directories.
pub fn first_probe() -> (p: Probe)
    ensures
        p == Probe::ArtifactDirs,
{
    Probe::ArtifactDirs
}

/// The artifact directories looked for under the root, in order.
pub fn artifact_dir_names() -> (r: Vec<String>)
    ensures
        strs(r@) == artifact_dirs_spec(),
{
    let mut r: Vec<String> = Vec::new();
    r.push(string_of(&chars_of("target")));
    r.push(string_of(&chars_of("node_modules")));
    r.push(string_of(&chars_of("__pycache__")));
    r.push(string_of(&chars_of("build")));
    r.push(string_of(&chars_of(".build")));
    assert(strs(r@) =~= artifact_dirs_spec());
    r
}

/// The name of the lock file with index `i`.
pub fn lock_file_name(i: usize) -> (r: String)
    requires
        i < LOCK_FILE_COUNT,
    ensures
        r@ == lock_files_spec()[i as int],
{
    let name = if i == 0 {
        "Cargo.lock"
    } else if i == 1 {
        "package-lock.json"
    } else if i == 2 {
        "yarn.lock"
    } else if i == 3 {
        "pnpm-lock.yaml"
    } else if i == 4 {
        "go.sum"
    } else {
        "Gemfile.lock"
    };
    string_of(&chars_of(name))
}

/// The number of non-empty lines of `git status --porcelain` output.
pub fn count_changes(text: &str) -> (n: usize)
    ensures
        n == change_count(text@),
{
    let lines = split_chars(&chars_of(text), '\n');
    let ghost ps = pieces_view(lines@);
    let mut n: usize = 0;
    let mut i: usize = 0;
    while i < lines.len()
        invariant
            i <= lines.len(),
            ps == pieces_view(lines@),
            n == count_counted(ps.take(i as int)),
            n <= i,
        decreases lines.len() - i,
    {
        assert(ps.take(i + 1 as int).drop_last() =~= ps.take(i as int));
        assert(ps[i as int] == lines@[i as int]@);
        let line = &lines[i];
        if line.len() > 0 && !(line.len() == 1 && line[0] == '\r') {
            n = n + 1;
        }
        i += 1;
    }
    assert(ps.take(lines.len() as int) =~= ps);
    n
}

/// Whether a lock file's content holds merge conflict markers.
pub fn has_conflict_markers(content: &str) -> (r: bool)
    ensures
        r == conflicted(content@),
{
    str_contains(content, "<<<<<<<") || str_contains(content, ">>>>>>>")
}

/// Decides what comes after seeing `seen` for `probe`: a status, or the
/// next probe. In order: no artifacts give `Unbuilt`; in a git repository
/// more than ten changed lines of `git status --porcelain` give `Rebuild`
/// (a failed git run counts as none); a lock file with conflict markers
/// gives `Error`; then stale artifacts give `Error` and fresh ones `Built`.
pub fn build_status_step(probe: Probe, seen: &Observation) -> (s: Step)
    requires
        answers(probe, *seen),
    ensures
        s == next_step(probe, *seen),
{
    match (probe, seen) {
        (Probe::ArtifactDirs, Observation::Flag(found)) => {
            if *found {
                Step::Look(Probe::GitRepo)
            } else {
                Step::Finished(BuildStatus::Unbuilt)
            }
        },
        (Probe::GitRepo, Observation::Flag(repo)) => {
            if *repo {
                Step::Look(Probe::GitStatus)
            } else {
                Step::Look(Probe::LockFile(0))
            }
        },
        (Probe::GitStatus, Observation::GitOutput(out)) => match out {
            Some(text) => {
                if count_changes(text.as_str()) > REBUILD_CHANGE_THRESHOLD {
                    Step::Finished(BuildStatus::Rebuild)
                } else {
                    Step::Look(Probe::LockFile(0))
                }
            },
            None => Step::Look(Probe::LockFile(0)),
        },
        (Probe::LockFile(i), Observation::LockContent(content)) => {
            let next = if i + 1 < LOCK_FILE_COUNT {
                Probe::LockFile(i + 1)
            } else {
                Probe::Staleness
            };
            match content {
                Some(c) => {
                    if has_conflict_markers(c.as_str()) {
                        Step::Finished(BuildStatus::Error)
                    } else {
                        Step::Look(next)
                    }
                },
                None => Step::Look(next),
            }
        },
        (Probe::Staleness, Observation::Flag(stale)) => {
            if *stale {
                Step::Finished(BuildStatus::Error)
            } else {
                Step::Finished(BuildStatus::Built)
            }
        },
        _ => Step::Look(probe),
    }
}

/// The paths, relative to the root, whose existence shows that a
/// language's project has been built.
pub open spec fn language_artifacts(language: Language) -> Seq<Seq<char>> {
    match language {
        Language::Rust => seq!["target"@],
        Language::TypeScript => seq!["node_modules"@, "node_modules/.cache"@],
        Language::Python => seq!["__pycache__"@],
        Language::Java | Language::Kotlin | Language::Scala => seq!["build"@, "target"@],
        Language::Go => seq!["go.sum"@],
        Language::CSharp => seq!["bin"@, "obj"@],
        Language::Swift => seq![".build"@],
        Language::Cpp => seq!["build"@],
        Language::PHP => seq!["vendor"@],
        Language::Ruby => seq!["Gemfile.lock"@],
    }
}

/// The paths whose existence shows that a language's project has been
/// built. When none exists the status is `Unbuilt`; otherwise the general
/// detector decides.
pub fn language_artifact_paths(language: Language) -> (r: Vec<String>)
    ensures
        strs(r@) == language_artifacts(language),
{
    let mut r: Vec<String> = Vec::new();
    match language {
        Language::Rust => {
            r.push(string_of(&chars_of("target")));
        },
        Language::TypeScript => {
            r.push(string_of(&chars_of("node_modules")));
            r.push(string_of(&chars_of("node_modules/.cache")));
        },
        Language::Python => {
            r.push(string_of(&chars_of("__pycache__")));
        },
        Language::Java | Language::Kotlin | Language::Scala => {
            r.push(string_of(&chars_of("build")));
            r.push(string_of(&chars_of("target")));
        },
        Language::Go => {
            r.push(string_of(&chars_of("go.sum")));
        },
        Language::CSharp => {
            r.push(string_of(&chars_of("bin")));
            r.push(string_of(&chars_of("obj")));
        },
        Language::Swift => {
            r.push(string_of(&chars_of(".build")));
        },
        Language::Cpp => {
            r.push(string_of(&chars_of("build")));
        },
        Language::PHP => {
            r.push(string_of(&chars_of("vendor")));
        },
        Language::Ruby => {
            r.push(string_of(&chars_of("Gemfile.lock")));
        },
    }
    assert(strs(r@) =~= language_artifacts(language));
    r
}

/// The status a language's artifact check alone decides: `Unbuilt` when
/// none of its artifact paths exists, nothing (the general detector
/// decides) otherwise. `exists` tells, for each path of
/// `language_artifact_paths`, whether it exists.
pub fn language_precheck(exists: &Vec<bool>) -> (r: Option<BuildStatus>)
    ensures
        r is Some <==> forall|k: int| 0 <= k < exists@.len() ==> !exists@[k],
        r matches Some(s) ==> s == BuildStatus::Unbuilt,
{
    let mut i: usize = 0;
    while i < exists.len()
        invariant
            i <= exists.len(),
            forall|k: int| 0 <= k < i ==> !exists@[k],
        decreases exists.len() - i,
    {
        if exists[i] {
            return None;
        }
        i += 1;
    }
    Some(BuildStatus::Unbuilt)
}

/// How many probes, this one included, may still be looked at: the
/// artifact directories, the git repository, git status, six lock files
/// and the staleness check come in that order.
pub open spec fn probes_left(p: Probe) -> nat {
    match p {
        Probe::ArtifactDirs => 10,
        Probe::GitRepo => 9,
        Probe::GitStatus => 8,
        Probe::LockFile(i) => (7 - i) as nat,
        Probe::Staleness => 1,
    }
}

/// Each answered probe leads either to a status or to a probe with fewer
/// probes left, so the detector finishes.
pub proof fn lemma_step_progress(probe: Probe, seen: Observation)
    requires
        answers(probe, seen),
    ensures
        next_step(probe, seen) matches Step::Look(q) ==> probes_left(q) < probes_left(probe),
        probe == Probe::Staleness ==> next_step(probe, seen) is Finished,
{
}

/// Build artifacts are stale: there are artifacts, and some source file
/// was modified after the newest of them (times in a common unit).
pub open spec fn spec_artifacts_stale(artifact_times: Seq<u64>, source_times: Seq<u64>) -> bool {
    &&& artifact_times.len() > 0
    &&& exists|j: int|
        0 <= j < source_times.len() && forall|i: int|
            0 <= i < artifact_times.len() ==> #[trigger] source_times[j] > #[trigger] artifact_times[i]
}

/// Whether build artifacts are stale, from the modification times of the
/// artifact directories and of the source files.
pub fn artifacts_stale(artifact_times: &Vec<u64>, source_times: &Vec<u64>) -> (r: bool)
    ensures
        r == spec_artifacts_stale(artifact_times@, source_times@),
{
    if artifact_times.len() == 0 {
        return false;
    }
    let mut newest: u64 = artifact_times[0];
    let mut k: usize = 1;
    while k < artifact_times.len()
        invariant
            1 <= k <= artifact_times.len(),
            exists|i: int| 0 <= i < k && artifact_times@[i] == newest,
            forall|i: int| 0 <= i < k ==> artifact_times@[i] <= newest,
        decreases artifact_times.len() - k,
    {
        if artifact_times[k] > newest {
            newest = artifact_times[k];
        }
        k += 1;
    }
    let mut j: usize = 0;
    while j < source_times.len()
        invariant
            j <= source_times.len(),
            exists|i: int| 0 <= i < artifact_times.len() && artifact_times@[i] == newest,
            forall|i: int| 0 <= i < artifact_times.len() ==> artifact_times@[i] <= newest,
            forall|q: int| 0 <= q < j ==> source_times@[q] <= newest,
        decreases source_times.len() - j,
    {
        if source_times[j] > newest {
            assert(forall|i: int| 0 <= i < artifact_times.len() ==> source_times@[j as int] > artifact_times@[i]);
            return true;
        }
        j += 1;
    }
    proof {
        let w = choose|i: int| 0 <= i < artifact_times.len() && artifact_times@[i] == newest;
        assert forall|q: int| 0 <= q < source_times.len() implies !(forall|i: int|
            0 <= i < artifact_times.len() ==> #[trigger] source_times@[q] > #[trigger] artifact_times@[i]) by {
            assert(artifact_times@[w] == newest);
        }
    }
    false
}

} // verus!
