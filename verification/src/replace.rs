//! Replacing a file so that it holds its old contents or the new ones and
//! never a part of either: the decisions, one step at a time.
//!
//! The caller does the work on the file system and reports how each step
//! went. The new contents go to a temporary file beside the target, which is
//! then renamed onto it. When a step fails after the temporary file exists,
//! that file is removed before the failure is reported.

use vstd::prelude::*;
use vstd::string::StringExecFns;

verus! {

/// Attempts at creating the temporary file before giving up.
pub const MAX_ATTEMPTS: usize = 5;

/// Length of the temporary file's name.
pub const TMP_NAME_LEN: usize = 16;

/// How often a rename that was denied is tried again on Windows, where a
/// rename onto a file that another process holds open is denied for a
/// moment.
pub const RENAME_RETRIES_WINDOWS: usize = 5;

/// How often a rename that was denied is tried again on other systems.
pub const RENAME_RETRIES: usize = 1;

/// How a step on the file system went.
#[derive(Debug, Clone, Copy, PartialEq, Eq, Structural)]
pub enum Reply {
    /// It was done.
    Done,
    /// A file of that name exists already.
    AlreadyExists,
    /// Permission was denied.
    PermissionDenied,
    /// It failed otherwise.
    Failed,
}

/// The step that failed.
#[derive(Debug, Clone, Copy, PartialEq, Eq, Structural)]
pub enum Fault {
    /// The temporary file could not be created.
    Create,
    /// The contents could not be written.
    Write,
    /// The temporary file could not be renamed onto the target.
    Rename,
}

/// Where a replacement stands.
#[derive(Debug, Clone, Copy, PartialEq, Eq, Structural)]
pub enum Stage {
    /// The temporary file is being created.
    Creating,
    /// The contents are being written to the temporary file.
    Writing,
    /// The temporary file is being renamed onto the target.
    Renaming,
    /// The temporary file is being removed after this fault.
    Removing(Fault),
    /// The target holds the new contents.
    Finished,
    /// The replacement failed with this fault.
    Failed(Fault),
}

/// A kind of step, without what the step carries.
#[derive(Debug, Clone, Copy, PartialEq, Eq, Structural)]
pub enum StepKind {
    Create,
    Write,
    Rename,
    Remove,
    Finish,
    Fail,
}

/// What the caller is to do next.
#[derive(Debug, Clone, PartialEq, Eq)]
pub enum Step {
    /// Create a new file of this name in the target's directory, failing if
    /// one exists, and open it for writing.
    Create(String),
    /// Write the contents to the temporary file, give it the target's owner
    /// where that can be done, and close it.
    Write,
    /// Rename the temporary file onto the target.
    Rename,
    /// Remove the temporary file; how that goes does not matter.
    Remove,
    /// Nothing: the target holds the new contents.
    Finish,
    /// Nothing: report this fault.
    Fail(Fault),
}

impl Step {
    /// The kind of this step.
    pub open spec fn kind(self) -> StepKind {
        match self {
            Step::Create(_) => StepKind::Create,
            Step::Write => StepKind::Write,
            Step::Rename => StepKind::Rename,
            Step::Remove => StepKind::Remove,
            Step::Finish => StepKind::Finish,
            Step::Fail(_) => StepKind::Fail,
        }
    }
}

/// A replacement under way.
#[derive(Debug, Clone, Copy, PartialEq, Eq, Structural)]
pub struct Replace {
    /// Where it stands.
    pub stage: Stage,
    /// Attempts made at the step under way: creations counted from one,
    /// renames that were denied counted from zero.
    pub attempts: usize,
    /// How often a rename that was denied is tried again.
    pub rename_retries: usize,
}

/// A replacement that has just ordered the first creation.
pub open spec fn started(rename_retries: usize) -> Replace {
    Replace { stage: Stage::Creating, attempts: 1, rename_retries }
}

/// The stage and the step that follow when `reply` comes in at `r`.
///
/// A creation that finds the name taken is tried again under another name,
/// up to `MAX_ATTEMPTS` creations in all. A rename that is denied is tried
/// again, up to `rename_retries` times. Any other failure ends the
/// replacement: at once while no temporary file exists, after its removal
/// otherwise.
pub open spec fn transition(r: Replace, reply: Reply) -> (Replace, StepKind) {
    match r.stage {
        Stage::Creating => match reply {
            Reply::Done => (Replace { stage: Stage::Writing, attempts: 0, ..r }, StepKind::Write),
            Reply::AlreadyExists if r.attempts < MAX_ATTEMPTS => (
                Replace { attempts: (r.attempts + 1) as usize, ..r },
                StepKind::Create,
            ),
            _ => (Replace { stage: Stage::Failed(Fault::Create), ..r }, StepKind::Fail),
        },
        Stage::Writing => match reply {
            Reply::Done => (Replace { stage: Stage::Renaming, attempts: 0, ..r }, StepKind::Rename),
            _ => (Replace { stage: Stage::Removing(Fault::Write), ..r }, StepKind::Remove),
        },
        Stage::Renaming => match reply {
            Reply::Done => (Replace { stage: Stage::Finished, ..r }, StepKind::Finish),
            Reply::PermissionDenied if r.attempts < r.rename_retries => (
                Replace { attempts: (r.attempts + 1) as usize, ..r },
                StepKind::Rename,
            ),
            _ => (Replace { stage: Stage::Removing(Fault::Rename), ..r }, StepKind::Remove),
        },
        Stage::Removing(fault) => (Replace { stage: Stage::Failed(fault), ..r }, StepKind::Fail),
        Stage::Finished => (r, StepKind::Finish),
        Stage::Failed(_) => (r, StepKind::Fail),
    }
}

/// Whether `c` is a letter of the English alphabet or a decimal digit.
pub open spec fn is_alphanumeric(c: char) -> bool {
    ('a' <= c && c <= 'z') || ('A' <= c && c <= 'Z') || ('0' <= c && c <= '9')
}

/// What every temporary file's name starts with.
pub open spec fn junk_prefix() -> Seq<char> {
    seq!['j', 'u', 'n', 'k', '_']
}

/// Whether `name` is a temporary file's name: the prefix, then letters and
/// digits up to `TMP_NAME_LEN` characters.
pub open spec fn is_junk_name(name: Seq<char>) -> bool {
    &&& name.len() == TMP_NAME_LEN
    &&& name.take(5) == junk_prefix()
    &&& forall|i: int| 5 <= i < name.len() ==> is_alphanumeric(#[trigger] name[i])
}

/// `fastrand::alphanumeric`: a character drawn at random from the letters
/// `a` to `z` and `A` to `Z` and the digits.
#[verifier::external_body]
fn random_alphanumeric() -> (c: char)
    ensures
        is_alphanumeric(c),
{
    fastrand::alphanumeric()
}

/// `String::push`: the character goes to the end of the string.
#[verifier::external_body]
fn push_char(s: &mut String, c: char)
    ensures
        final(s)@ == old(s)@.push(c),
{
    s.push(c)
}

/// A fresh name for a temporary file.
pub fn junk_name() -> (name: String)
    ensures
        is_junk_name(name@),
{
    let mut name = String::new();
    proof {
        reveal_strlit("junk_");
    }
    name.append("junk_");
    assert(name@ =~= junk_prefix());
    let mut n: usize = 5;
    while n < TMP_NAME_LEN
        invariant
            5 <= n <= TMP_NAME_LEN,
            name@.len() == n,
            name@.take(5) == junk_prefix(),
            forall|i: int| 5 <= i < n ==> is_alphanumeric(#[trigger] name@[i]),
        decreases TMP_NAME_LEN - n,
    {
        let ghost before = name@;
        push_char(&mut name, random_alphanumeric());
        assert(name@.take(5) =~= before.take(5));
        n = n + 1;
    }
    name
}

impl Replace {
    /// Starts a replacement: the first step is the creation of the
    /// temporary file.
    pub fn begin(rename_retries: usize) -> (r: (Replace, Step))
        ensures
            r.0 == started(rename_retries),
            r.1 matches Step::Create(name) && is_junk_name(name@),
    {
        (Replace { stage: Stage::Creating, attempts: 1, rename_retries }, Step::Create(junk_name()))
    }

    /// Takes in how the step under way went and gives the next step.
    pub fn advance(&mut self, reply: Reply) -> (step: Step)
        ensures
            *final(self) == transition(*old(self), reply).0,
            step.kind() == transition(*old(self), reply).1,
            step matches Step::Create(name) ==> is_junk_name(name@),
            step matches Step::Fail(fault) ==> final(self).stage == Stage::Failed(fault),
    {
        match self.stage {
            Stage::Creating => self.junk_file(reply),
            Stage::Writing => match reply {
                Reply::Done => {
                    self.stage = Stage::Renaming;
                    self.attempts = 0;
                    Step::Rename
                },
                _ => {
                    self.stage = Stage::Removing(Fault::Write);
                    Step::Remove
                },
            },
            Stage::Renaming => self.rename(reply),
            Stage::Removing(fault) => {
                self.stage = Stage::Failed(fault);
                Step::Fail(fault)
            },
            Stage::Finished => Step::Finish,
            Stage::Failed(fault) => Step::Fail(fault),
        }
    }

    /// The step after an attempt at creating the temporary file.
    fn junk_file(&mut self, reply: Reply) -> (step: Step)
        requires
            old(self).stage == Stage::Creating,
        ensures
            *final(self) == transition(*old(self), reply).0,
            step.kind() == transition(*old(self), reply).1,
            step matches Step::Create(name) ==> is_junk_name(name@),
            step matches Step::Fail(fault) ==> final(self).stage == Stage::Failed(fault),
    {
        match reply {
            Reply::Done => {
                self.stage = Stage::Writing;
                self.attempts = 0;
                Step::Write
            },
            Reply::AlreadyExists if self.attempts < MAX_ATTEMPTS => {
                self.attempts = self.attempts + 1;
                Step::Create(junk_name())
            },
            _ => {
                self.stage = Stage::Failed(Fault::Create);
                Step::Fail(Fault::Create)
            },
        }
    }

    /// The step after an attempt at renaming the temporary file.
    fn rename(&mut self, reply: Reply) -> (step: Step)
        requires
            old(self).stage == Stage::Renaming,
        ensures
            *final(self) == transition(*old(self), reply).0,
            step.kind() == transition(*old(self), reply).1,
            step matches Step::Create(name) ==> is_junk_name(name@),
            step matches Step::Fail(fault) ==> final(self).stage == Stage::Failed(fault),
    {
        match reply {
            Reply::Done => {
                self.stage = Stage::Finished;
                Step::Finish
            },
            Reply::PermissionDenied if self.attempts < self.rename_retries => {
                self.attempts = self.attempts + 1;
                Step::Rename
            },
            _ => {
                self.stage = Stage::Removing(Fault::Rename);
                Step::Remove
            },
        }
    }
}

/// The replacement after the replies `replies` came in, one after the other.
pub open spec fn run(start: Replace, replies: Seq<Reply>) -> Replace
    decreases replies.len(),
{
    if replies.len() == 0 {
        start
    } else {
        transition(run(start, replies.drop_last()), replies.last()).0
    }
}

/// Whether, in the course of `replies`, a creation was done: the temporary
/// file came to exist.
pub open spec fn created(start: Replace, replies: Seq<Reply>) -> bool
    decreases replies.len(),
{
    replies.len() > 0 && (created(start, replies.drop_last()) || (run(
        start,
        replies.drop_last(),
    ).stage == Stage::Creating && replies.last() == Reply::Done))
}

/// Whether, in the course of `replies`, a rename was done: the target came
/// to hold the new contents.
pub open spec fn replaced(start: Replace, replies: Seq<Reply>) -> bool
    decreases replies.len(),
{
    replies.len() > 0 && (replaced(start, replies.drop_last()) || (run(
        start,
        replies.drop_last(),
    ).stage == Stage::Renaming && replies.last() == Reply::Done))
}

/// Whether, in the course of `replies`, the removal of the temporary file
/// was ordered.
pub open spec fn removal_ordered(start: Replace, replies: Seq<Reply>) -> bool
    decreases replies.len(),
{
    replies.len() > 0 && (removal_ordered(start, replies.drop_last()) || transition(
        run(start, replies.drop_last()),
        replies.last(),
    ).1 == StepKind::Remove)
}

/// What holds of the course of a replacement at each stage.
pub open spec fn consistent(start: Replace, replies: Seq<Reply>) -> bool {
    let made = created(start, replies);
    let swapped = replaced(start, replies);
    let cleaned = removal_ordered(start, replies);
    match run(start, replies).stage {
        Stage::Creating => !made && !swapped && !cleaned,
        Stage::Writing => made && !swapped && !cleaned,
        Stage::Renaming => made && !swapped && !cleaned,
        Stage::Removing(_) => made && !swapped && cleaned,
        Stage::Finished => made && swapped && !cleaned,
        Stage::Failed(_) => !swapped && (made ==> cleaned),
    }
}

/// Every course of a replacement is consistent.
pub proof fn lemma_consistent(rename_retries: usize, replies: Seq<Reply>)
    ensures
        consistent(started(rename_retries), replies),
    decreases replies.len(),
{
    if replies.len() > 0 {
        lemma_consistent(rename_retries, replies.drop_last());
    }
}

/// A replacement is all or nothing, whatever the file system replies.
///
/// When it has failed, no rename was ever done, so the target holds what it
/// held; and if the temporary file came to exist, its removal was ordered.
/// When it has finished, a rename was done, and no removal was ordered.
pub proof fn lemma_all_or_nothing(rename_retries: usize, replies: Seq<Reply>)
    ensures
        run(started(rename_retries), replies).stage matches Stage::Failed(_) ==> {
            &&& !replaced(started(rename_retries), replies)
            &&& created(started(rename_retries), replies) ==> removal_ordered(
                started(rename_retries),
                replies,
            )
        },
        run(started(rename_retries), replies).stage == Stage::Finished ==> {
            &&& replaced(started(rename_retries), replies)
            &&& !removal_ordered(started(rename_retries), replies)
        },
{
    lemma_consistent(rename_retries, replies);
}

/// A failure while the temporary file exists orders its removal first, and
/// the answer to that removal, whatever it is, ends the replacement with
/// that failure.
pub proof fn lemma_failure_removes(r: Replace, reply: Reply, after: Reply)
    requires
        r.stage == Stage::Writing || r.stage == Stage::Renaming,
        reply != Reply::Done,
        !(r.stage == Stage::Renaming && reply == Reply::PermissionDenied && r.attempts
            < r.rename_retries),
    ensures
        transition(r, reply).1 == StepKind::Remove,
        transition(transition(r, reply).0, after).1 == StepKind::Fail,
        transition(transition(r, reply).0, after).0.stage matches Stage::Failed(_),
{
}

/// The temporary file is created at most `MAX_ATTEMPTS` times, and a rename
/// is tried again at most `rename_retries` times.
pub proof fn lemma_attempts_bounded(rename_retries: usize, replies: Seq<Reply>)
    ensures
        run(started(rename_retries), replies).stage == Stage::Creating ==> 1 <= run(
            started(rename_retries),
            replies,
        ).attempts <= MAX_ATTEMPTS,
        run(started(rename_retries), replies).stage == Stage::Renaming ==> run(
            started(rename_retries),
            replies,
        ).attempts <= rename_retries,
        run(started(rename_retries), replies).rename_retries == rename_retries,
    decreases replies.len(),
{
    if replies.len() > 0 {
        lemma_attempts_bounded(rename_retries, replies.drop_last());
    }
}

} // verus!
