//! Durable file replacement: a temporary file, a rename over the target, a synced directory.
//!
//! A store call that succeeds must leave its data on stable storage. Votes and the rest of the
//! hard state are therefore synced at least at `Data`, even where the log runs at `Os`.

use vstd::prelude::*;

use crate::config::FileLogSyncLevel;
use crate::text;

verus! {

/// The call that syncs a file at some level.
#[derive(Clone, Copy, Debug, PartialEq, Eq, Structural)]
pub enum SyncCall {
    Nothing,
    SyncData,
    SyncAll,
}

/// What each level asks for.
pub open spec fn call_at(level: FileLogSyncLevel) -> SyncCall {
    match level {
        FileLogSyncLevel::Os => SyncCall::Nothing,
        FileLogSyncLevel::Data => SyncCall::SyncData,
        FileLogSyncLevel::All => SyncCall::SyncAll,
    }
}

/// The level for hard state and votes: never weaker than `Data`, never weaker than the log's.
pub fn hard_state_sync_level(log_level: FileLogSyncLevel) -> (r: FileLogSyncLevel)
    ensures
        r == spec_hard_state_sync_level(log_level),
{
    match log_level {
        FileLogSyncLevel::Os => FileLogSyncLevel::Data,
        other => other,
    }
}

/// The stronger of the log's level and `Data`.
pub open spec fn spec_hard_state_sync_level(log_level: FileLogSyncLevel) -> FileLogSyncLevel {
    if log_level.number() < FileLogSyncLevel::Data.number() {
        FileLogSyncLevel::Data
    } else {
        log_level
    }
}

/// How an open file is synced at `level`.
pub fn sync_file(level: FileLogSyncLevel) -> (r: SyncCall)
    ensures
        r == call_at(level),
{
    match level {
        FileLogSyncLevel::Os => SyncCall::Nothing,
        FileLogSyncLevel::Data => SyncCall::SyncData,
        FileLogSyncLevel::All => SyncCall::SyncAll,
    }
}

/// The name of the file that is written before it takes the place of a file called `file_name`;
/// a path whose last part is no name, or no text, counts as `file`.
pub fn temp_swap_path(file_name: Option<&str>) -> (r: String)
    ensures
        r@ == (match file_name {
            Some(name) => name@,
            None => "file"@,
        }) + ".tmp"@,
{
    let name = match file_name {
        Some(name) => name,
        None => "file",
    };
    text::concat(name, ".tmp")
}

/// One step of replacing a file.
#[derive(Clone, Copy, Debug, PartialEq, Eq, Structural)]
pub enum ReplaceStep {
    /// Create the temporary file, empty.
    CreateTemp,
    /// Write the whole contents to the temporary file.
    WriteTemp,
    /// Sync the temporary file.
    SyncTemp(SyncCall),
    /// Rename the temporary file over the target.
    Rename,
    /// Sync the directory that holds both names.
    SyncDir,
    /// Sync the target.
    SyncTarget(SyncCall),
}

/// The steps that replace a file, durable at `level`.
pub open spec fn replace_steps(level: FileLogSyncLevel) -> Seq<ReplaceStep> {
    let steps = seq![
        ReplaceStep::CreateTemp,
        ReplaceStep::WriteTemp,
        ReplaceStep::SyncTemp(call_at(level)),
        ReplaceStep::Rename,
        ReplaceStep::SyncDir,
    ];
    if level == FileLogSyncLevel::All {
        steps.push(ReplaceStep::SyncTarget(SyncCall::SyncAll))
    } else {
        steps
    }
}

/// The steps that replace the log file on a rewrite. At `Os` neither the file nor its directory
/// is synced.
pub open spec fn rewrite_steps(level: FileLogSyncLevel) -> Seq<ReplaceStep> {
    let steps = seq![
        ReplaceStep::CreateTemp,
        ReplaceStep::WriteTemp,
        ReplaceStep::SyncTemp(call_at(level)),
        ReplaceStep::Rename,
    ];
    if level == FileLogSyncLevel::Os {
        steps
    } else {
        steps.push(ReplaceStep::SyncDir).push(ReplaceStep::SyncTarget(call_at(level)))
    }
}

/// The steps of replacing a file at `level`, in order; the first that fails ends the run.
pub fn atomic_replace(level: FileLogSyncLevel) -> (r: Vec<ReplaceStep>)
    ensures
        r@ == replace_steps(level),
{
    let mut steps: Vec<ReplaceStep> = Vec::new();
    steps.push(ReplaceStep::CreateTemp);
    steps.push(ReplaceStep::WriteTemp);
    steps.push(ReplaceStep::SyncTemp(sync_file(level)));
    steps.push(ReplaceStep::Rename);
    steps.push(ReplaceStep::SyncDir);
    if matches!(level, FileLogSyncLevel::All) {
        steps.push(ReplaceStep::SyncTarget(sync_file(level)));
    }
    assert(steps@ =~= replace_steps(level));
    steps
}

/// The steps of rewriting the log file at `level`, in order; the first that fails ends the run.
pub fn rewrite_replace(level: FileLogSyncLevel) -> (r: Vec<ReplaceStep>)
    ensures
        r@ == rewrite_steps(level),
{
    let mut steps: Vec<ReplaceStep> = Vec::new();
    steps.push(ReplaceStep::CreateTemp);
    steps.push(ReplaceStep::WriteTemp);
    steps.push(ReplaceStep::SyncTemp(sync_file(level)));
    steps.push(ReplaceStep::Rename);
    if !matches!(level, FileLogSyncLevel::Os) {
        steps.push(ReplaceStep::SyncDir);
        steps.push(ReplaceStep::SyncTarget(sync_file(level)));
    }
    assert(steps@ =~= rewrite_steps(level));
    steps
}

/// A disk as far as one replacement goes: the target's old contents, the temporary file, and how
/// much of that has reached stable storage.
pub ghost struct Disk {
    /// What the target held before; `None` where there was no such file.
    pub before: Option<Seq<u8>>,
    /// What the temporary file holds; the target's new contents once renamed.
    pub temp: Seq<u8>,
    /// The contents of the temporary file are on stable storage.
    pub temp_durable: bool,
    /// The target's name stands for the temporary file.
    pub renamed: bool,
    /// So does it on stable storage.
    pub rename_durable: bool,
}

/// The disk before the first step.
pub open spec fn untouched(before: Option<Seq<u8>>) -> Disk {
    Disk {
        before,
        temp: Seq::empty(),
        temp_durable: false,
        renamed: false,
        rename_durable: false,
    }
}

/// What one step does to the disk.
pub open spec fn step_on(d: Disk, contents: Seq<u8>, step: ReplaceStep) -> Disk {
    match step {
        ReplaceStep::CreateTemp => Disk { temp: Seq::empty(), temp_durable: false, ..d },
        ReplaceStep::WriteTemp => Disk { temp: contents, temp_durable: false, ..d },
        ReplaceStep::SyncTemp(call) => if call == SyncCall::Nothing {
            d
        } else {
            Disk { temp_durable: true, ..d }
        },
        ReplaceStep::Rename => Disk { renamed: true, ..d },
        ReplaceStep::SyncDir => Disk { rename_durable: d.renamed, ..d },
        ReplaceStep::SyncTarget(call) => if call == SyncCall::Nothing {
            d
        } else {
            Disk { temp_durable: true, ..d }
        },
    }
}

/// The disk after `steps`.
pub open spec fn after_steps(d: Disk, contents: Seq<u8>, steps: Seq<ReplaceStep>) -> Disk
    decreases steps.len(),
{
    if steps.len() == 0 {
        d
    } else {
        step_on(after_steps(d, contents, steps.drop_last()), contents, steps.last())
    }
}

/// The target may hold `c` after a power loss: what has not reached stable storage may be lost,
/// and a file that was not synced may hold anything.
pub open spec fn may_survive(d: Disk, c: Option<Seq<u8>>) -> bool {
    ||| !d.rename_durable && c == d.before
    ||| d.renamed && (if d.temp_durable {
        c == Some(d.temp)
    } else {
        c is Some
    })
}

/// A replacement at `Data` or `All` is atomic under power loss: after any number of its steps the
/// target holds its old contents or the new ones in full, and after all of them the new ones.
pub proof fn law_replace_is_atomic(
    before: Option<Seq<u8>>,
    contents: Seq<u8>,
    level: FileLogSyncLevel,
    done: int,
    c: Option<Seq<u8>>,
)
    requires
        level != FileLogSyncLevel::Os,
        0 <= done <= replace_steps(level).len(),
        may_survive(after_steps(untouched(before), contents, replace_steps(level).take(done)), c),
    ensures
        c == before || c == Some(contents),
        done == replace_steps(level).len() ==> c == Some(contents),
{
    lemma_states(before, contents, replace_steps(level), done);
}

/// The hard state survives a power loss whatever the log's own level: a replacement that is done
/// is found again.
pub proof fn law_hard_state_survives(
    before: Option<Seq<u8>>,
    contents: Seq<u8>,
    log_level: FileLogSyncLevel,
    c: Option<Seq<u8>>,
)
    requires
        may_survive(
            after_steps(
                untouched(before),
                contents,
                replace_steps(spec_hard_state_sync_level(log_level)),
            ),
            c,
        ),
    ensures
        c == Some(contents),
{
    let level = spec_hard_state_sync_level(log_level);
    let all = replace_steps(level);
    assert(all.take(all.len() as int) =~= all);
    law_replace_is_atomic(before, contents, level, all.len() as int, c);
}

/// The hard state's level is at least `Data` and at least the log's.
pub proof fn law_hard_state_never_weaker(log_level: FileLogSyncLevel)
    ensures
        spec_hard_state_sync_level(log_level).number() >= FileLogSyncLevel::Data.number(),
        spec_hard_state_sync_level(log_level).number() >= log_level.number(),
{
}

/// A log rewrite at `Data` or `All` is atomic under power loss too.
pub proof fn law_rewrite_is_atomic(
    before: Option<Seq<u8>>,
    contents: Seq<u8>,
    level: FileLogSyncLevel,
    done: int,
    c: Option<Seq<u8>>,
)
    requires
        level != FileLogSyncLevel::Os,
        0 <= done <= rewrite_steps(level).len(),
        may_survive(after_steps(untouched(before), contents, rewrite_steps(level).take(done)), c),
    ensures
        c == before || c == Some(contents),
        done == rewrite_steps(level).len() ==> c == Some(contents),
{
    lemma_states(before, contents, rewrite_steps(level), done);
}

proof fn lemma_take_steps(
    before: Option<Seq<u8>>,
    contents: Seq<u8>,
    all: Seq<ReplaceStep>,
    done: int,
)
    requires
        0 <= done <= all.len(),
    ensures
        done > 0 ==> after_steps(untouched(before), contents, all.take(done)) == step_on(
            after_steps(untouched(before), contents, all.take(done - 1)),
            contents,
            all[done - 1],
        ),
        done == 0 ==> after_steps(untouched(before), contents, all.take(done)) == untouched(before),
{
    if done > 0 {
        assert(all.take(done).drop_last() =~= all.take(done - 1));
    }
}

/// The steps write the temporary file, sync it, rename it, and then only sync, the directory
/// first.
spec fn syncs_before_rename(all: Seq<ReplaceStep>) -> bool {
    &&& all.len() >= 5
    &&& all[0] == ReplaceStep::CreateTemp
    &&& all[1] == ReplaceStep::WriteTemp
    &&& all[2] is SyncTemp
    &&& all[2] != ReplaceStep::SyncTemp(SyncCall::Nothing)
    &&& all[3] == ReplaceStep::Rename
    &&& all[4] == ReplaceStep::SyncDir
    &&& forall|i: int| 5 <= i < all.len() ==> #[trigger] all[i] is SyncTarget
}

proof fn lemma_states(
    before: Option<Seq<u8>>,
    contents: Seq<u8>,
    all: Seq<ReplaceStep>,
    done: int,
)
    requires
        syncs_before_rename(all),
        0 <= done <= all.len(),
    ensures
        ({
            let d = after_steps(untouched(before), contents, all.take(done));
            &&& d.before == before
            &&& d.renamed <==> done >= 4
            &&& d.rename_durable <==> done >= 5
            &&& done >= 2 ==> d.temp == contents
            &&& done >= 3 ==> d.temp_durable
        }),
    decreases done,
{
    lemma_take_steps(before, contents, all, done);
    if done > 0 {
        lemma_states(before, contents, all, done - 1);
        assert(done > 5 ==> all[done - 1] is SyncTarget);
    }
}

} // verus!
