//! What procedures ask of the system, and what comes back.

use vstd::prelude::*;

use crate::text::{concat4, concat5, decode_lossy, lossy_text};

verus! {

// ---------------------------------------------------------------------------
// Effects
// ---------------------------------------------------------------------------

/// One thing to do to the system, or to ask of it.
#[derive(Debug)]
pub enum Effect {
    /// Tell whether something exists at `path`, links followed.
    Exists { path: String },
    /// Tell whether `path` is a symbolic link.
    IsSymlink { path: String },
    /// Read the file as text.
    ReadText { path: String },
    /// List the paths of the directory's readable entries.
    ListDirectory { path: String },
    /// Replace the file's content.
    WriteText { path: String, text: String },
    /// Remove the file or link.
    RemoveFile { path: String },
    /// Create the directory and those above it.
    CreateDirectories { path: String },
    /// Create the symbolic link `link`, which points to `target`.
    Symlink { target: String, link: String },
    /// Set the owner and the group.
    SetOwner { path: String, uid: u32, gid: u32 },
    /// Set the permission bits.
    SetMode { path: String, mode: u32 },
    /// Run a program to its end, in `directory` if one is given.
    Run { program: String, args: Vec<String>, directory: Option<String> },
    /// Read a bootloader variable.
    GetEnv { name: String },
    /// Set a bootloader variable, or clear it.
    SetEnv { name: String, value: Option<String> },
    /// Mount a device.
    Mount { device: String, target: String, fs_type: String, read_only: bool },
    /// Unmount one mountpoint.
    Unmount { target: String },
    /// Unmount all that this run has mounted, last first.
    UnmountAll,
    /// Read a factory-reset request out of its JSON text.
    ReadRequest { json: String },
}

/// An effect as mathematical text.
#[verifier::ext_equal]
pub enum EffectView {
    Exists { path: Seq<char> },
    IsSymlink { path: Seq<char> },
    ReadText { path: Seq<char> },
    ListDirectory { path: Seq<char> },
    WriteText { path: Seq<char>, text: Seq<char> },
    RemoveFile { path: Seq<char> },
    CreateDirectories { path: Seq<char> },
    Symlink { target: Seq<char>, link: Seq<char> },
    SetOwner { path: Seq<char>, uid: u32, gid: u32 },
    SetMode { path: Seq<char>, mode: u32 },
    Run { program: Seq<char>, args: Seq<Seq<char>>, directory: Option<Seq<char>> },
    GetEnv { name: Seq<char> },
    SetEnv { name: Seq<char>, value: Option<Seq<char>> },
    Mount { device: Seq<char>, target: Seq<char>, fs_type: Seq<char>, read_only: bool },
    Unmount { target: Seq<char> },
    UnmountAll,
    ReadRequest { json: Seq<char> },
}

impl DeepView for Effect {
    type V = EffectView;

    open spec fn deep_view(&self) -> EffectView {
        match self {
            Effect::Exists { path } => EffectView::Exists { path: path@ },
            Effect::IsSymlink { path } => EffectView::IsSymlink { path: path@ },
            Effect::ReadText { path } => EffectView::ReadText { path: path@ },
            Effect::ListDirectory { path } => EffectView::ListDirectory { path: path@ },
            Effect::WriteText { path, text } => EffectView::WriteText { path: path@, text: text@ },
            Effect::RemoveFile { path } => EffectView::RemoveFile { path: path@ },
            Effect::CreateDirectories { path } => EffectView::CreateDirectories { path: path@ },
            Effect::Symlink { target, link } => EffectView::Symlink {
                target: target@,
                link: link@,
            },
            Effect::SetOwner { path, uid, gid } => EffectView::SetOwner {
                path: path@,
                uid: *uid,
                gid: *gid,
            },
            Effect::SetMode { path, mode } => EffectView::SetMode { path: path@, mode: *mode },
            Effect::Run { program, args, directory } => EffectView::Run {
                program: program@,
                args: args.deep_view(),
                directory: directory.deep_view(),
            },
            Effect::GetEnv { name } => EffectView::GetEnv { name: name@ },
            Effect::SetEnv { name, value } => EffectView::SetEnv {
                name: name@,
                value: value.deep_view(),
            },
            Effect::Mount { device, target, fs_type, read_only } => EffectView::Mount {
                device: device@,
                target: target@,
                fs_type: fs_type@,
                read_only: *read_only,
            },
            Effect::Unmount { target } => EffectView::Unmount { target: target@ },
            Effect::UnmountAll => EffectView::UnmountAll,
            Effect::ReadRequest { json } => EffectView::ReadRequest { json: json@ },
        }
    }
}

// ---------------------------------------------------------------------------
// Outcomes
// ---------------------------------------------------------------------------

/// What a program that ran to its end left behind.
#[derive(Debug)]
pub struct CommandOutput {
    /// Whether it exited with code zero.
    pub success: bool,
    /// Its exit code; none if a signal ended it.
    pub code: Option<i32>,
    /// How it ended, in words.
    pub status: String,
    pub stdout: Vec<u8>,
    pub stderr: Vec<u8>,
}

/// A program's output as mathematical text.
#[verifier::ext_equal]
pub struct CommandOutputView {
    pub success: bool,
    pub code: Option<i32>,
    pub status: Seq<char>,
    pub stdout: Seq<u8>,
    pub stderr: Seq<u8>,
}

impl DeepView for CommandOutput {
    type V = CommandOutputView;

    open spec fn deep_view(&self) -> CommandOutputView {
        CommandOutputView {
            success: self.success,
            code: self.code,
            status: self.status@,
            stdout: self.stdout@,
            stderr: self.stderr@,
        }
    }
}

/// What came back of an effect.
#[derive(Debug)]
pub enum Outcome {
    /// It was done.
    Done,
    /// It failed, for the reason given in words.
    Failed(String),
    /// The answer to a question.
    Flag(bool),
    /// The text of a file.
    Text(String),
    /// The paths of a directory's entries.
    Paths(Vec<String>),
    /// The value of a bootloader variable, if it is set.
    Value(Option<String>),
    /// What a program left behind.
    Output(CommandOutput),
    /// A factory-reset request: its mode, and the keys of what to preserve.
    Request(u32, Vec<String>),
}

/// An outcome as mathematical text.
#[verifier::ext_equal]
pub enum OutcomeView {
    Done,
    Failed(Seq<char>),
    Flag(bool),
    Text(Seq<char>),
    Paths(Seq<Seq<char>>),
    Value(Option<Seq<char>>),
    Output(CommandOutputView),
    Request(u32, Seq<Seq<char>>),
}

impl DeepView for Outcome {
    type V = OutcomeView;

    open spec fn deep_view(&self) -> OutcomeView {
        match self {
            Outcome::Done => OutcomeView::Done,
            Outcome::Failed(t) => OutcomeView::Failed(t@),
            Outcome::Flag(b) => OutcomeView::Flag(*b),
            Outcome::Text(t) => OutcomeView::Text(t@),
            Outcome::Paths(p) => OutcomeView::Paths(p.deep_view()),
            Outcome::Value(v) => OutcomeView::Value(v.deep_view()),
            Outcome::Output(o) => OutcomeView::Output(o.deep_view()),
            Outcome::Request(mode, keys) => OutcomeView::Request(*mode, keys.deep_view()),
        }
    }
}

// ---------------------------------------------------------------------------
// Procedures
// ---------------------------------------------------------------------------

/// Why a procedure did not return.
#[derive(Debug)]
pub enum Stop<E> {
    /// It needs this performed first, and its outcome appended to the record.
    Perform(Effect),
    /// It is over and fails with this.
    Fail(E),
    /// It is over; its caller panics with this message.
    Panic(String),
}

/// How far a procedure gets with the outcomes on record. A position is the
/// number of outcomes that have been used.
#[verifier::ext_equal]
pub enum Progress<T, E> {
    /// It asks for an effect that has no outcome yet.
    Asks(EffectView),
    /// It returns a value, at a position.
    Returns(T, int),
    /// It fails with an error, at a position.
    Fails(E, int),
    /// It panics.
    Panics(Seq<char>),
}

/// The progress that a procedure's result and position stand for.
pub open spec fn progress<T: DeepView, E: DeepView>(r: Result<T, Stop<E>>, at: usize) -> Progress<
    T::V,
    E::V,
> {
    match r {
        Ok(t) => Progress::Returns(t.deep_view(), at as int),
        Err(Stop::Perform(effect)) => Progress::Asks(effect.deep_view()),
        Err(Stop::Fail(e)) => Progress::Fails(e.deep_view(), at as int),
        Err(Stop::Panic(message)) => Progress::Panics(message@),
    }
}

/// Asks for one effect and returns its outcome.
pub open spec fn ask<E>(effect: EffectView, outcomes: Seq<OutcomeView>, at: int) -> Progress<
    OutcomeView,
    E,
> {
    if 0 <= at < outcomes.len() {
        Progress::Returns(outcomes[at], at + 1)
    } else {
        Progress::Asks(effect)
    }
}

/// One procedure, and then another with what the first returned.
pub open spec fn and_then<T, U, E>(
    first: Progress<T, E>,
    next: spec_fn(T, int) -> Progress<U, E>,
) -> Progress<U, E> {
    match first {
        Progress::Asks(effect) => Progress::Asks(effect),
        Progress::Returns(t, at) => next(t, at),
        Progress::Fails(e, at) => Progress::Fails(e, at),
        Progress::Panics(message) => Progress::Panics(message),
    }
}

/// Takes the next outcome off the record, or asks for the effect if there is
/// none.
pub fn perform<'a, E: DeepView>(
    effect: Effect,
    outcomes: &'a Vec<Outcome>,
    at: &mut usize,
) -> (r: Result<&'a Outcome, Stop<E>>)
    ensures
        progress(r, *final(at)) == ask::<E::V>(
            effect.deep_view(),
            outcomes.deep_view(),
            *old(at) as int,
        ),
{
    if *at < outcomes.len() {
        let outcome = &outcomes[*at];
        *at = *at + 1;
        Ok(outcome)
    } else {
        Err(Stop::Perform(effect))
    }
}

/// Performs one effect for its own sake; where it is not done, `fault` makes the error
/// of the reason.
pub open spec fn doing<E>(
    effect: EffectView,
    fault: spec_fn(Seq<char>) -> E,
    outcomes: Seq<OutcomeView>,
    at: int,
) -> Progress<(), E> {
    and_then(
        ask(effect, outcomes, at),
        |outcome: OutcomeView, i: int|
            match undone(outcome) {
                Some(reason) => Progress::Fails(fault(reason), i),
                None => Progress::Returns((), i),
            },
    )
}

/// The procedure with its failure passed over.
pub open spec fn regardless<T, E>(procedure: Progress<T, E>) -> Progress<(), E> {
    match procedure {
        Progress::Asks(effect) => Progress::Asks(effect),
        Progress::Returns(_, at) => Progress::Returns((), at),
        Progress::Fails(_, at) => Progress::Returns((), at),
        Progress::Panics(message) => Progress::Panics(message),
    }
}

/// The procedure with `f` applied to the error that it fails with.
pub open spec fn with_fault<T, E, F>(
    procedure: Progress<T, E>,
    f: spec_fn(E) -> F,
) -> Progress<T, F> {
    match procedure {
        Progress::Asks(effect) => Progress::Asks(effect),
        Progress::Returns(t, at) => Progress::Returns(t, at),
        Progress::Fails(e, at) => Progress::Fails(f(e), at),
        Progress::Panics(message) => Progress::Panics(message),
    }
}

/// Whether a procedure that is over with `n` outcomes on record is over in the same way
/// with more of them, and has used none before position `at` and none behind the `n`th.
pub open spec fn stays_over<T, E>(
    short: Progress<T, E>,
    long: Progress<T, E>,
    at: int,
    n: int,
) -> bool {
    match short {
        Progress::Asks(_) => true,
        Progress::Returns(_, i) => long == short && at <= i <= n,
        Progress::Fails(_, i) => long == short && at <= i <= n,
        Progress::Panics(_) => long == short,
    }
}

/// Whether a procedure that started at `at` is just where a list of effects leads to. It
/// asks for them one after another, as long as their outcomes are fine by `fine`; it
/// returns when all are; and at the first that is not, it fails with what `fault` makes of
/// that outcome. Both are told which effect it was, counted from zero.
pub open spec fn follows<T, E>(
    procedure: Progress<T, E>,
    effects: Seq<EffectView>,
    fine: spec_fn(int, OutcomeView) -> bool,
    fault: spec_fn(int, OutcomeView) -> E,
    outcomes: Seq<OutcomeView>,
    at: int,
) -> bool {
    match procedure {
        Progress::Asks(effect) => {
            let k = outcomes.len() - at;
            &&& 0 <= k < effects.len()
            &&& effect == effects[k]
            &&& forall|i: int| 0 <= i < k ==> #[trigger] fine(i, outcomes[at + i])
        },
        Progress::Returns(_, end) => {
            &&& end == at + effects.len()
            &&& end <= outcomes.len()
            &&& forall|i: int| 0 <= i < effects.len() ==> #[trigger] fine(i, outcomes[at + i])
        },
        Progress::Fails(e, end) => {
            let k = end - at - 1;
            &&& 0 <= k < effects.len()
            &&& end <= outcomes.len()
            &&& forall|i: int| 0 <= i < k ==> #[trigger] fine(i, outcomes[at + i])
            &&& !fine(k, outcomes[at + k])
            &&& e == fault(k, outcomes[at + k])
        },
        Progress::Panics(_) => false,
    }
}

// ---------------------------------------------------------------------------
// What outcomes say
// ---------------------------------------------------------------------------

/// The reason given for an outcome of another kind than its effect brings.
pub const UNEXPECTED: &'static str = "unexpected outcome";

/// Whether the answer was yes.
pub open spec fn says_yes(outcome: OutcomeView) -> bool {
    outcome == OutcomeView::Flag(true)
}

/// Tells whether the answer was yes.
pub fn is_yes(outcome: &Outcome) -> (r: bool)
    ensures
        r == says_yes(outcome.deep_view()),
{
    match outcome {
        Outcome::Flag(yes) => *yes,
        _ => false,
    }
}

/// The reason why an effect brought no answer.
pub open spec fn reason_of(outcome: OutcomeView) -> Seq<char> {
    match outcome {
        OutcomeView::Failed(reason) => reason,
        _ => UNEXPECTED@,
    }
}

/// Tells why an effect brought no answer.
pub fn reason(outcome: &Outcome) -> (r: String)
    ensures
        r@ == reason_of(outcome.deep_view()),
{
    match outcome {
        Outcome::Failed(reason) => reason.clone(),
        _ => UNEXPECTED.to_owned(),
    }
}

/// Why an effect was not done; `None` if it was.
pub open spec fn undone(outcome: OutcomeView) -> Option<Seq<char>> {
    match outcome {
        OutcomeView::Done => None,
        other => Some(reason_of(other)),
    }
}

/// Tells why an effect was not done, if it was not.
pub fn why_undone(outcome: &Outcome) -> (r: Option<String>)
    ensures
        r.deep_view() == undone(outcome.deep_view()),
{
    match outcome {
        Outcome::Done => None,
        other => Some(reason(other)),
    }
}

/// Reads a file's text.
pub open spec fn reading<E>(
    path: Seq<char>,
    fault: spec_fn(Seq<char>) -> E,
    outcomes: Seq<OutcomeView>,
    at: int,
) -> Progress<Seq<char>, E> {
    and_then(
        ask(EffectView::ReadText { path }, outcomes, at),
        |outcome: OutcomeView, i: int|
            match outcome {
                OutcomeView::Text(text) => Progress::Returns(text, i),
                other => Progress::Fails(fault(reason_of(other)), i),
            },
    )
}

/// The value that a bootloader variable was found to have; none where it is not
/// set or could not be read.
pub open spec fn value_of(outcome: OutcomeView) -> Option<Seq<char>> {
    match outcome {
        OutcomeView::Value(value) => value,
        _ => None,
    }
}

/// Tells the value that a bootloader variable was found to have.
pub fn value(outcome: &Outcome) -> (r: Option<String>)
    ensures
        r.deep_view() == value_of(outcome.deep_view()),
{
    match outcome {
        Outcome::Value(Some(value)) => Some(value.clone()),
        _ => None,
    }
}

/// Whether a program ran and exited with code zero.
pub open spec fn ran_well(outcome: OutcomeView) -> bool {
    outcome is Output && outcome->Output_0.success
}

/// What went wrong with the program `name`, in words; `None` if it ran and exited
/// with code zero.
pub open spec fn run_fault(name: Seq<char>, outcome: OutcomeView) -> Option<Seq<char>> {
    match outcome {
        OutcomeView::Output(output) => if output.success {
            None
        } else {
            Some(name + " failed ("@ + output.status + "): "@ + lossy_text(output.stderr))
        },
        other => Some("Failed to run "@ + name + ": "@ + reason_of(other)),
    }
}

/// Tells what went wrong with the program `name`, if anything did.
pub fn fault_of_run(name: &str, outcome: &Outcome) -> (r: Option<String>)
    ensures
        r.deep_view() == run_fault(name@, outcome.deep_view()),
        r is None == ran_well(outcome.deep_view()),
{
    match outcome {
        Outcome::Output(output) => {
            if output.success {
                None
            } else {
                let stderr = decode_lossy(&output.stderr);
                Some(
                    concat5(name, " failed (", output.status.as_str(), "): ", stderr.as_str()),
                )
            }
        },
        other => Some(concat4("Failed to run ", name, ": ", reason(other).as_str())),
    }
}

/// Runs a program; where it does not exit with code zero, `fault` makes the error
/// of what went wrong with `name`.
pub open spec fn running<E>(
    name: Seq<char>,
    program: Seq<char>,
    args: Seq<Seq<char>>,
    directory: Option<Seq<char>>,
    fault: spec_fn(Seq<char>) -> E,
    outcomes: Seq<OutcomeView>,
    at: int,
) -> Progress<(), E> {
    and_then(
        ask(EffectView::Run { program, args, directory }, outcomes, at),
        |outcome: OutcomeView, i: int|
            match run_fault(name, outcome) {
                Some(what) => Progress::Fails(fault(what), i),
                None => Progress::Returns((), i),
            },
    )
}

/// A list of arguments.
pub fn arguments(args: &[&str]) -> (r: Vec<String>)
    ensures
        r.deep_view() == args.deep_view(),
{
    let mut out: Vec<String> = Vec::new();
    let mut i: usize = 0;
    while i < args.len()
        invariant
            i <= args@.len(),
            out@.len() == i,
            forall|k: int| 0 <= k < i ==> (#[trigger] out@[k])@ == args@[k]@,
        decreases args@.len() - i,
    {
        out.push(args[i].to_owned());
        i = i + 1;
    }
    assert(out.deep_view() =~= args.deep_view());
    out
}

// ---------------------------------------------------------------------------
// Laws
// ---------------------------------------------------------------------------

/// A question is answered with yes by that answer alone.
pub proof fn law_only_yes_is_yes(outcome: OutcomeView)
    ensures
        says_yes(outcome) <==> (outcome is Flag && outcome->Flag_0),
{
}

/// An effect is done if that is its outcome. Otherwise the reason is what the outcome
/// says, or that the outcome is of another kind.
pub proof fn law_done_is_done(outcome: OutcomeView)
    ensures
        undone(outcome) is None <==> outcome is Done,
        outcome is Failed ==> undone(outcome) == Some(outcome->Failed_0),
        outcome is Failed ==> reason_of(outcome) == outcome->Failed_0,
        !(outcome is Failed) ==> reason_of(outcome) == "unexpected outcome"@,
        !(outcome is Failed) && !(outcome is Done) ==> undone(outcome) == Some(
            "unexpected outcome"@,
        ),
{
}

/// A variable has the value that was read, and none if it could not be read.
pub proof fn law_value_is_what_was_read(outcome: OutcomeView)
    ensures
        outcome is Value ==> value_of(outcome) == outcome->Value_0,
        !(outcome is Value) ==> value_of(outcome) is None,
{
}

/// A program ran well just if it was run and exited with code zero. Otherwise the words
/// tell its name, how it ended and what it printed of errors, or why it could not be run.
pub proof fn law_run_fault_tells_what_went_wrong(name: Seq<char>, outcome: OutcomeView)
    ensures
        ran_well(outcome) <==> (outcome is Output && outcome->Output_0.success),
        run_fault(name, outcome) is None <==> ran_well(outcome),
        outcome is Output && !ran_well(outcome) ==> run_fault(name, outcome) == Some(
            name + " failed ("@ + outcome->Output_0.status + "): "@ + lossy_text(
                outcome->Output_0.stderr,
            ),
        ),
        outcome is Failed ==> run_fault(name, outcome) == Some(
            "Failed to run "@ + name + ": "@ + outcome->Failed_0,
        ),
{
}

/// A file's text is read by one effect, and is what came back.
pub proof fn law_reading_gives_the_text<E>(
    path: Seq<char>,
    fault: spec_fn(Seq<char>) -> E,
    outcomes: Seq<OutcomeView>,
    at: int,
)
    requires
        0 <= at <= outcomes.len(),
    ensures
        follows(
            reading(path, fault, outcomes, at),
            seq![EffectView::ReadText { path }],
            |k: int, o: OutcomeView| o is Text,
            |k: int, o: OutcomeView| fault(reason_of(o)),
            outcomes,
            at,
        ),
        reading(path, fault, outcomes, at) matches Progress::Returns(text, end) ==> text
            == outcomes[at]->Text_0,
{
}

}
