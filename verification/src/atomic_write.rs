//! Replacing a file in one step: its new contents go to a temporary file beside it,
//! which takes its place only once it is complete.

use vstd::prelude::*;

use crate::paths;
use crate::text;

verus! {

/// What is to be done next.
#[derive(Clone, Copy, Debug, PartialEq, Eq, Structural)]
pub enum WriteStep {
    CreateDirectory,
    CreateTemporary,
    WriteTemporary,
    SyncTemporary,
    Replace,
    CheckTarget,
    RemoveTarget,
    ReplaceAgain,
    RemoveTemporary,
    Finished,
    Failed(WriteFailure),
}

/// What went wrong.
#[derive(Clone, Copy, Debug, PartialEq, Eq, Structural)]
pub enum WriteFailure {
    NoFileName,
    Directory,
    Create,
    Write,
    Sync,
    RemoveTarget,
    Replace,
}

/// The step after `step`, which succeeded or not. Where a file cannot be renamed onto an
/// existing one, the target is removed first. That a path names no file is found out once its
/// directory is there.
pub open spec fn next_step(step: WriteStep, ok: bool, removes_target: bool, named: bool) -> WriteStep {
    match step {
        WriteStep::CreateDirectory => if !ok {
            WriteStep::Failed(WriteFailure::Directory)
        } else if named {
            WriteStep::CreateTemporary
        } else {
            WriteStep::Failed(WriteFailure::NoFileName)
        },
        WriteStep::CreateTemporary => if ok {
            WriteStep::WriteTemporary
        } else {
            WriteStep::Failed(WriteFailure::Create)
        },
        WriteStep::WriteTemporary => if ok {
            WriteStep::SyncTemporary
        } else {
            WriteStep::Failed(WriteFailure::Write)
        },
        WriteStep::SyncTemporary => if ok {
            WriteStep::Replace
        } else {
            WriteStep::Failed(WriteFailure::Sync)
        },
        WriteStep::Replace => if ok {
            WriteStep::Finished
        } else if removes_target {
            WriteStep::CheckTarget
        } else {
            WriteStep::RemoveTemporary
        },
        WriteStep::CheckTarget => if ok {
            WriteStep::RemoveTarget
        } else {
            WriteStep::RemoveTemporary
        },
        WriteStep::RemoveTarget => if ok {
            WriteStep::ReplaceAgain
        } else {
            WriteStep::Failed(WriteFailure::RemoveTarget)
        },
        WriteStep::ReplaceAgain => if ok {
            WriteStep::Finished
        } else {
            WriteStep::Failed(WriteFailure::Replace)
        },
        WriteStep::RemoveTemporary => WriteStep::Failed(WriteFailure::Replace),
        WriteStep::Finished => WriteStep::Finished,
        WriteStep::Failed(f) => WriteStep::Failed(f),
    }
}

/// The steps that act on the target itself.
pub open spec fn touches_target(step: WriteStep) -> bool {
    step is Replace || step is RemoveTarget || step is ReplaceAgain
}

/// How many steps may still follow.
pub open spec fn steps_left(step: WriteStep) -> nat {
    match step {
        WriteStep::CreateDirectory => 9,
        WriteStep::CreateTemporary => 8,
        WriteStep::WriteTemporary => 7,
        WriteStep::SyncTemporary => 6,
        WriteStep::Replace => 5,
        WriteStep::CheckTarget => 4,
        WriteStep::RemoveTarget => 3,
        WriteStep::ReplaceAgain => 2,
        WriteStep::RemoveTemporary => 1,
        WriteStep::Finished => 0,
        WriteStep::Failed(_) => 0,
    }
}

/// The step reached after the outcomes `oks`, from the beginning.
pub open spec fn after(oks: Seq<bool>, removes_target: bool, named: bool) -> WriteStep
    decreases oks.len(),
{
    if oks.len() == 0 {
        WriteStep::CreateDirectory
    } else {
        next_step(after(oks.drop_last(), removes_target, named), oks.last(), removes_target, named)
    }
}

proof fn lemma_position(oks: Seq<bool>, removes_target: bool, named: bool)
    ensures
        after(oks, removes_target, named) is CreateDirectory ==> oks.len() == 0,
        after(oks, removes_target, named) is CreateTemporary ==> oks.len() == 1,
        after(oks, removes_target, named) is WriteTemporary ==> oks.len() == 2,
        after(oks, removes_target, named) is SyncTemporary ==> oks.len() == 3 && oks[2],
        after(oks, removes_target, named) is Replace ==> oks.len() == 4 && oks[2] && oks[3],
        touches_target(after(oks, removes_target, named)) || after(oks, removes_target, named) is CheckTarget
            || after(oks, removes_target, named) is Finished ==> oks.len() >= 4 && oks[2] && oks[3],
    decreases oks.len(),
{
    if oks.len() > 0 {
        lemma_position(oks.drop_last(), removes_target, named);
    }
}

/// The target is touched, and the write counts as finished, only after the new contents
/// were written to the temporary file and synced.
pub proof fn target_is_replaced_by_complete_file(oks: Seq<bool>, removes_target: bool, named: bool)
    requires
        touches_target(after(oks, removes_target, named)) || after(oks, removes_target, named) is Finished,
    ensures
        after(oks.take(2), removes_target, named) is WriteTemporary,
        after(oks.take(3), removes_target, named) is SyncTemporary,
        oks.len() >= 4 && oks[2] && oks[3],
{
    lemma_position(oks, removes_target, named);
    lemma_prefix(oks, removes_target, named, 2);
    lemma_prefix(oks, removes_target, named, 3);
}

/// A run that reached its fourth outcome went through the steps before in order.
proof fn lemma_prefix(oks: Seq<bool>, removes_target: bool, named: bool, n: int)
    requires
        oks.len() >= 4,
        2 <= n <= 3,
        touches_target(after(oks, removes_target, named)) || after(oks, removes_target, named) is CheckTarget
            || after(oks, removes_target, named) is Finished,
    ensures
        n == 2 ==> after(oks.take(2), removes_target, named) is WriteTemporary,
        n == 3 ==> after(oks.take(3), removes_target, named) is SyncTemporary,
    decreases oks.len(),
{
    let before = oks.drop_last();
    lemma_position(oks, removes_target, named);
    lemma_position(before, removes_target, named);
    if oks.len() == 4 {
        assert(before.len() == 3);
        assert(oks.take(3) =~= before);
        assert(oks.take(2) =~= before.drop_last());
        lemma_position(before.drop_last(), removes_target, named);
    } else {
        lemma_prefix(before, removes_target, named, n);
        assert(before.take(n) =~= oks.take(n));
    }
}

/// Every write ends: each step that is not the last leads closer to the end.
pub proof fn writes_end(step: WriteStep, ok: bool, removes_target: bool, named: bool)
    ensures
        steps_left(step) > 0 ==> steps_left(next_step(step, ok, removes_target, named)) < steps_left(step),
{
}

/// The name of the temporary file: hidden, and told apart by process and time.
pub open spec fn temporary_name(name: Seq<char>, process: u32, nonce: u128) -> Seq<char> {
    "."@ + name + ".tmp-"@ + text::decimal(process as nat) + "-"@ + text::decimal(nonce as nat)
}

/// What a path without a parent is reported as.
pub fn no_parent_message(path: &str) -> (r: String)
    ensures
        r@ == "failed to compute parent directory for session state at "@ + path@,
{
    let mut m = "failed to compute parent directory for session state at ".to_owned();
    m.push_str(path);
    m
}

/// One file being replaced.
#[derive(Debug)]
pub struct AtomicWrite {
    pub path: String,
    pub directory: String,
    /// Whether the path names a file.
    pub named: bool,
    /// The temporary file, where the path names a file.
    pub temporary: String,
    pub removes_target: bool,
    pub step: WriteStep,
}

impl AtomicWrite {
    /// Begins to replace the file at `path`; `None` where the path has no parent.
    pub fn begin(path: &str, process: u32, nonce: u128, removes_target: bool) -> (r: Option<
        AtomicWrite,
    >)
        ensures
            match r {
                Some(w) => {
                    &&& w.path@ == path@
                    &&& paths::parent(path@) == Some(w.directory@)
                    &&& match paths::file_name(path@) {
                        Some(name) => w.named && w.temporary@ == paths::joined(
                            w.directory@,
                            temporary_name(name, process, nonce),
                        ),
                        None => !w.named && w.temporary@.len() == 0,
                    }
                    &&& w.removes_target == removes_target
                    &&& w.step == WriteStep::CreateDirectory
                },
                None => paths::parent(path@) is None,
            },
    {
        let directory = match paths::parent_of(path) {
            Some(d) => d,
            None => {
                return None;
            },
        };
        let chars = text::chars_of(path);
        let (named, temporary) = match paths::file_name_of(chars.as_slice()) {
            Some(name) => {
                let mut temporary = ".".to_owned();
                temporary.push_str(text::string_of(name.as_slice()).as_str());
                temporary.push_str(".tmp-");
                temporary.push_str(text::decimal_u64(process as u64).as_str());
                temporary.push_str("-");
                temporary.push_str(text::decimal_u128(nonce).as_str());
                assert(temporary@ == temporary_name(name@, process, nonce));
                (true, paths::join_path(directory.as_str(), temporary.as_str()))
            },
            None => (false, String::new()),
        };
        Some(
            AtomicWrite {
                path: path.to_owned(),
                directory,
                named,
                temporary,
                removes_target,
                step: WriteStep::CreateDirectory,
            },
        )
    }

    /// Takes note of how the current step ended.
    pub fn advance(&mut self, ok: bool)
        ensures
            final(self).step == next_step(
                old(self).step,
                ok,
                old(self).removes_target,
                old(self).named,
            ),
            final(self).path == old(self).path,
            final(self).directory == old(self).directory,
            final(self).named == old(self).named,
            final(self).temporary == old(self).temporary,
            final(self).removes_target == old(self).removes_target,
    {
        self.step = match self.step {
            WriteStep::CreateDirectory => if !ok {
                WriteStep::Failed(WriteFailure::Directory)
            } else if self.named {
                WriteStep::CreateTemporary
            } else {
                WriteStep::Failed(WriteFailure::NoFileName)
            },
            WriteStep::CreateTemporary => if ok {
                WriteStep::WriteTemporary
            } else {
                WriteStep::Failed(WriteFailure::Create)
            },
            WriteStep::WriteTemporary => if ok {
                WriteStep::SyncTemporary
            } else {
                WriteStep::Failed(WriteFailure::Write)
            },
            WriteStep::SyncTemporary => if ok {
                WriteStep::Replace
            } else {
                WriteStep::Failed(WriteFailure::Sync)
            },
            WriteStep::Replace => if ok {
                WriteStep::Finished
            } else if self.removes_target {
                WriteStep::CheckTarget
            } else {
                WriteStep::RemoveTemporary
            },
            WriteStep::CheckTarget => if ok {
                WriteStep::RemoveTarget
            } else {
                WriteStep::RemoveTemporary
            },
            WriteStep::RemoveTarget => if ok {
                WriteStep::ReplaceAgain
            } else {
                WriteStep::Failed(WriteFailure::RemoveTarget)
            },
            WriteStep::ReplaceAgain => if ok {
                WriteStep::Finished
            } else {
                WriteStep::Failed(WriteFailure::Replace)
            },
            WriteStep::RemoveTemporary => WriteStep::Failed(WriteFailure::Replace),
            WriteStep::Finished => WriteStep::Finished,
            WriteStep::Failed(f) => WriteStep::Failed(f),
        };
    }

    /// What a failure of this write reads like.
    pub fn failure_message(&self, failure: WriteFailure) -> (r: String)
        ensures
            r@ == match failure {
                WriteFailure::NoFileName => "session state file name is not valid UTF-8"@,
                WriteFailure::Directory => "failed to create session state dir "@
                    + self.directory@,
                WriteFailure::Create => "failed to create temp session state file at "@
                    + self.temporary@,
                WriteFailure::Write => "failed to write temp session state file at "@
                    + self.temporary@,
                WriteFailure::Sync => "failed to sync temp session state file at "@
                    + self.temporary@,
                WriteFailure::RemoveTarget => "failed to remove existing session state file at "@
                    + self.path@ + " before replace"@,
                WriteFailure::Replace => "failed to replace session state file at "@ + self.path@
                    + " with "@ + self.temporary@,
            },
    {
        match failure {
            WriteFailure::NoFileName => "session state file name is not valid UTF-8".to_owned(),
            WriteFailure::Directory => {
                let mut m = "failed to create session state dir ".to_owned();
                m.push_str(self.directory.as_str());
                m
            },
            WriteFailure::Create => {
                let mut m = "failed to create temp session state file at ".to_owned();
                m.push_str(self.temporary.as_str());
                m
            },
            WriteFailure::Write => {
                let mut m = "failed to write temp session state file at ".to_owned();
                m.push_str(self.temporary.as_str());
                m
            },
            WriteFailure::Sync => {
                let mut m = "failed to sync temp session state file at ".to_owned();
                m.push_str(self.temporary.as_str());
                m
            },
            WriteFailure::RemoveTarget => {
                let mut m = "failed to remove existing session state file at ".to_owned();
                m.push_str(self.path.as_str());
                m.push_str(" before replace");
                m
            },
            WriteFailure::Replace => {
                let mut m = "failed to replace session state file at ".to_owned();
                m.push_str(self.path.as_str());
                m.push_str(" with ");
                m.push_str(self.temporary.as_str());
                m
            },
        }
    }
}

/// A write whose steps all succeed replaces its target after four others and is then finished.
pub proof fn writes_finish_where_every_step_succeeds(oks: Seq<bool>, removes_target: bool)
    requires
        oks.len() == 5,
        forall|i: int| 0 <= i < 5 ==> #[trigger] oks[i],
    ensures
        after(oks, removes_target, true) is Finished,
        after(oks.take(4), removes_target, true) is Replace,
{
    reveal_with_fuel(after, 6);
    assert(oks.take(4) =~= oks.drop_last());
    assert(oks[0] && oks[1] && oks[2] && oks[3] && oks[4]);
}

/// A step that fails ends the write with its own failure, but for the replacing: what that leaves
/// behind is cleared away first. A path that names no file fails once its directory is there.
pub proof fn steps_fail_with_their_own_failure(step: WriteStep, removes_target: bool, named: bool)
    ensures
        ({
            let next = next_step(step, false, removes_target, named);
            &&& step is CreateDirectory ==> next == WriteStep::Failed(WriteFailure::Directory)
            &&& step is CreateTemporary ==> next == WriteStep::Failed(WriteFailure::Create)
            &&& step is WriteTemporary ==> next == WriteStep::Failed(WriteFailure::Write)
            &&& step is SyncTemporary ==> next == WriteStep::Failed(WriteFailure::Sync)
            &&& step is RemoveTarget ==> next == WriteStep::Failed(WriteFailure::RemoveTarget)
            &&& step is ReplaceAgain ==> next == WriteStep::Failed(WriteFailure::Replace)
            &&& step is Replace && !removes_target ==> next is RemoveTemporary
            &&& next_step(WriteStep::RemoveTemporary, true, removes_target, named)
                == WriteStep::Failed(WriteFailure::Replace)
        }),
        next_step(WriteStep::CreateDirectory, true, removes_target, false) == WriteStep::Failed(
            WriteFailure::NoFileName,
        ),
{
}

/// The target is only removed where it stands in the way of being replaced: after a failed attempt,
/// with the target there, and where files cannot be replaced otherwise. It is then replaced or the
/// write fails.
pub proof fn targets_are_removed_to_be_replaced(
    step: WriteStep,
    ok: bool,
    removes_target: bool,
    named: bool,
)
    ensures
        next_step(step, ok, removes_target, named) is RemoveTarget ==> step is CheckTarget && ok,
        next_step(step, ok, removes_target, named) is CheckTarget ==> step is Replace && !ok
            && removes_target,
        step is RemoveTarget && ok ==> next_step(step, ok, removes_target, named) is ReplaceAgain,
        next_step(step, ok, removes_target, named) is Finished ==> step is Finished || ok && (step
            is Replace || step is ReplaceAgain),
{
}

/// Two writes of a process with different nonces use different temporary files, and none is the
/// file itself.
pub proof fn temporary_names_differ(name: Seq<char>, process: u32, a: u128, b: u128)
    ensures
        temporary_name(name, process, a) != name,
        temporary_name(name, process, a)[0] == '.',
        temporary_name(name, process, a) == temporary_name(name, process, b) ==> a == b,
{
    reveal_strlit(".");
    reveal_strlit(".tmp-");
    reveal_strlit("-");
    let head = "."@ + name + ".tmp-"@ + text::decimal(process as nat) + "-"@;
    let x = temporary_name(name, process, a);
    let y = temporary_name(name, process, b);
    assert(x == head + text::decimal(a as nat));
    assert(y == head + text::decimal(b as nat));
    assert(x.len() > name.len());
    if x == y {
        assert(x.skip(head.len() as int) =~= text::decimal(a as nat));
        assert(y.skip(head.len() as int) =~= text::decimal(b as nat));
        text::decimal_round_trip(a as nat);
        text::decimal_round_trip(b as nat);
    }
}

} // verus!
