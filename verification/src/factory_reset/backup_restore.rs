//! Backup of the paths to preserve, and their restore.

use vstd::prelude::*;
use vstd::string::*;

use crate::effect::{
    and_then, arguments, ask, doing, fault_of_run, is_yes, perform, progress, ran_well, reason,
    reason_of, running, says_yes, why_undone, Effect, EffectView, Outcome, OutcomeView, Progress, Stop,
};
use crate::error::{
    FactoryResetError, FactoryResetErrorView, InitramfsError, InitramfsErrorView,
};
use crate::path::{
    ancestor, has_dot, has_root, join, join_text, lemma_ancestor, lemma_join_names,
    lemma_names_around_slash, lemma_names_behind_slash, lemma_parent_is_shorter,
    lemma_parent_names, lemma_path_names, lemma_relative_names, lemma_relative_of_piece,
    lemma_without_leading_slashes, names, parent, parent_text, path_names, relative_text,
    same_parts, same_path, start_of, starts_with_parts, strip_prefix,
};
use crate::text::{
    after_prefix, concat2, join_with, joined, strip_text_prefix, trim_leading_slashes,
    without_leading_slashes,
};

verus! {

pub const CP_CMD: &'static str = "/bin/cp";

pub const SYNC_CMD: &'static str = "/bin/sync";

pub const MOUNTPOINT_CMD: &'static str = "mountpoint";

// ---------------------------------------------------------------------------
// Single commands
// ---------------------------------------------------------------------------

/// Runs `sync`, whatever code it exits with.
pub open spec fn sync_progress(outcomes: Seq<OutcomeView>, at: int) -> Progress<
    (),
    InitramfsErrorView,
> {
    and_then(
        ask(
            EffectView::Run { program: SYNC_CMD@, args: seq![], directory: None },
            outcomes,
            at,
        ),
        |outcome: OutcomeView, i: int|
            match outcome {
                OutcomeView::Output(_) => Progress::Returns((), i),
                other => Progress::Fails(
                    InitramfsErrorView::FactoryReset(
                        FactoryResetErrorView::Io("sync failed: "@ + reason_of(other)),
                    ),
                    i,
                ),
            },
    )
}

/// Flushes all file systems.
pub fn run_sync(outcomes: &Vec<Outcome>, at: &mut usize) -> (r: Result<(), Stop<InitramfsError>>)
    ensures
        progress(r, *final(at)) == sync_progress(outcomes.deep_view(), *old(at) as int),
{
    let args: Vec<String> = Vec::new();
    assert(args.deep_view() =~= seq![]);
    let effect = Effect::Run { program: SYNC_CMD.to_owned(), args, directory: None };
    match perform(effect, outcomes, at)? {
        Outcome::Output(_) => Ok(()),
        other => Err(
            Stop::Fail(
                InitramfsError::FactoryReset(
                    FactoryResetError::Io(concat2("sync failed: ", reason(other).as_str())),
                ),
            ),
        ),
    }
}

/// The question whether `path` is a mountpoint.
pub open spec fn mountpoint_query(path: Seq<char>) -> EffectView {
    EffectView::Run { program: MOUNTPOINT_CMD@, args: seq!["-q"@, path], directory: None }
}

/// Asks whether `path` is a mountpoint; it is not if that cannot be told.
pub open spec fn mountpoint_progress(
    path: Seq<char>,
    outcomes: Seq<OutcomeView>,
    at: int,
) -> Progress<bool, InitramfsErrorView> {
    and_then(
        ask(mountpoint_query(path), outcomes, at),
        |outcome: OutcomeView, i: int| Progress::Returns(ran_well(outcome), i),
    )
}

/// Asks whether `path` is a mountpoint; it is not if that cannot be told.
pub fn is_mountpoint(path: &str, outcomes: &Vec<Outcome>, at: &mut usize) -> (r: Result<
    bool,
    Stop<InitramfsError>,
>)
    ensures
        progress(r, *final(at)) == mountpoint_progress(
            path@,
            outcomes.deep_view(),
            *old(at) as int,
        ),
{
    let args = arguments(&["-q", path]);
    assert(args.deep_view() =~= seq!["-q"@, path@]);
    let effect = Effect::Run { program: MOUNTPOINT_CMD.to_owned(), args, directory: None };
    match perform(effect, outcomes, at)? {
        Outcome::Output(output) => Ok(output.success),
        _ => Ok(false),
    }
}

// ---------------------------------------------------------------------------
// Backup
// ---------------------------------------------------------------------------

/// Where a path to preserve lies below `rootfs`.
pub open spec fn path_below(rootfs: Seq<char>, path: Seq<char>) -> Seq<char> {
    join_text(rootfs, without_leading_slashes(path))
}

/// Copies one path into the backup directory, under its full name, and flushes.
/// Nothing is done where it does not exist.
pub open spec fn backup_path_progress(
    rootfs: Seq<char>,
    path: Seq<char>,
    backup_dir: Seq<char>,
    outcomes: Seq<OutcomeView>,
    at: int,
) -> Progress<(), InitramfsErrorView> {
    let source = path_below(rootfs, path);
    and_then(
        ask(EffectView::Exists { path: source }, outcomes, at),
        |outcome: OutcomeView, i: int|
            if says_yes(outcome) {
                and_then(
                    running(
                        "cp"@,
                        CP_CMD@,
                        seq!["--parents"@, "-a"@, source, backup_dir],
                        None,
                        |what: Seq<char>|
                            InitramfsErrorView::FactoryReset(
                                FactoryResetErrorView::BackupFailed { path, reason: what },
                            ),
                        outcomes,
                        i,
                    ),
                    |_copied: (), j: int| sync_progress(outcomes, j),
                )
            } else {
                Progress::Returns((), i)
            },
    )
}

/// Copies one path into the backup directory, under its full name, if it exists.
pub fn backup_path(
    rootfs: &str,
    path: &str,
    backup_dir: &str,
    outcomes: &Vec<Outcome>,
    at: &mut usize,
) -> (r: Result<(), Stop<InitramfsError>>)
    ensures
        progress(r, *final(at)) == backup_path_progress(
            rootfs@,
            path@,
            backup_dir@,
            outcomes.deep_view(),
            *old(at) as int,
        ),
{
    let source = join(rootfs, trim_leading_slashes(path).as_str());
    if !is_yes(perform(Effect::Exists { path: source.clone() }, outcomes, at)?) {
        return Ok(());
    }
    let args = arguments(&["--parents", "-a", source.as_str(), backup_dir]);
    assert(args.deep_view() =~= seq!["--parents"@, "-a"@, source@, backup_dir@]);
    let copy = Effect::Run { program: CP_CMD.to_owned(), args, directory: None };
    if let Some(what) = fault_of_run("cp", perform(copy, outcomes, at)?) {
        return Err(
            Stop::Fail(
                InitramfsError::FactoryReset(
                    FactoryResetError::BackupFailed { path: path.to_owned(), reason: what },
                ),
            ),
        );
    }
    run_sync(outcomes, at)
}

/// Backs up the first `count` paths, one after another; the first failure ends it.
pub open spec fn backup_each(
    rootfs: Seq<char>,
    list: Seq<Seq<char>>,
    count: int,
    backup_dir: Seq<char>,
    outcomes: Seq<OutcomeView>,
    at: int,
) -> Progress<(), InitramfsErrorView>
    decreases count,
{
    if count <= 0 {
        Progress::Returns((), at)
    } else {
        match backup_each(rootfs, list, count - 1, backup_dir, outcomes, at) {
            Progress::Returns(_, i) => {
                backup_path_progress(rootfs, list[count - 1], backup_dir, outcomes, i)
            },
            stopped => stopped,
        }
    }
}

/// Creates the backup directory and backs up every path of the list.
pub open spec fn backup_progress(
    rootfs: Seq<char>,
    list: Seq<Seq<char>>,
    backup_dir: Seq<char>,
    outcomes: Seq<OutcomeView>,
    at: int,
) -> Progress<(), InitramfsErrorView> {
    and_then(
        doing(
            EffectView::CreateDirectories { path: backup_dir },
            |e: Seq<char>| InitramfsErrorView::FactoryReset(FactoryResetErrorView::Io(e)),
            outcomes,
            at,
        ),
        |_created: (), i: int|
            backup_each(rootfs, list, list.len() as int, backup_dir, outcomes, i),
    )
}

/// A backup that has stopped goes no further with more paths.
pub proof fn lemma_backup_stops(
    rootfs: Seq<char>,
    list: Seq<Seq<char>>,
    count: int,
    more: int,
    backup_dir: Seq<char>,
    outcomes: Seq<OutcomeView>,
    at: int,
)
    requires
        0 <= count <= more,
        !(backup_each(rootfs, list, count, backup_dir, outcomes, at) is Returns),
    ensures
        backup_each(rootfs, list, more, backup_dir, outcomes, at) == backup_each(
            rootfs,
            list,
            count,
            backup_dir,
            outcomes,
            at,
        ),
    decreases more,
{
    if count < more {
        lemma_backup_stops(rootfs, list, count, more - 1, backup_dir, outcomes, at);
    }
}

/// Backs up every path of the list; the first failure ends it.
pub fn backup_all(
    rootfs: &str,
    preserve_list: &Vec<String>,
    backup_dir: &str,
    outcomes: &Vec<Outcome>,
    at: &mut usize,
) -> (r: Result<(), Stop<InitramfsError>>)
    ensures
        progress(r, *final(at)) == backup_progress(
            rootfs@,
            preserve_list.deep_view(),
            backup_dir@,
            outcomes.deep_view(),
            *old(at) as int,
        ),
{
    let create = Effect::CreateDirectories { path: backup_dir.to_owned() };
    if let Some(e) = why_undone(perform(create, outcomes, at)?) {
        return Err(
            Stop::Fail(InitramfsError::FactoryReset(FactoryResetError::Io(e))),
        );
    }
    let ghost start = *at as int;
    let ghost list = preserve_list.deep_view();
    let mut k: usize = 0;
    while k < preserve_list.len()
        invariant
            k <= preserve_list@.len(),
            list == preserve_list.deep_view(),
            backup_each(rootfs@, list, k as int, backup_dir@, outcomes.deep_view(), start)
                == Progress::<(), InitramfsErrorView>::Returns((), *at as int),
            backup_progress(
                rootfs@,
                list,
                backup_dir@,
                outcomes.deep_view(),
                *old(at) as int,
            ) == backup_each(
                rootfs@,
                list,
                list.len() as int,
                backup_dir@,
                outcomes.deep_view(),
                start,
            ),
        decreases preserve_list@.len() - k,
    {
        let one = backup_path(rootfs, preserve_list[k].as_str(), backup_dir, outcomes, at);
        k = k + 1;
        proof {
            assert(backup_each(rootfs@, list, k as int, backup_dir@, outcomes.deep_view(), start)
                == progress(one, *at));
            if one is Err {
                lemma_backup_stops(
                    rootfs@,
                    list,
                    k as int,
                    list.len() as int,
                    backup_dir@,
                    outcomes.deep_view(),
                    start,
                );
            }
        }
        one?;
    }
    Ok(())
}

// ---------------------------------------------------------------------------
// Restore
// ---------------------------------------------------------------------------

/// How a mountpoint below `rootfs` is named: by its path from there.
pub open spec fn mount_name(rootfs: Seq<char>, mount: Seq<char>) -> Seq<char> {
    match relative_text(mount, rootfs) {
        Some(relative) => "/"@ + relative,
        None => mount,
    }
}

/// Goes up from `current`, as far as `rootfs`, to the first mountpoint.
pub open spec fn climb(
    rootfs: Seq<char>,
    current: Seq<char>,
    outcomes: Seq<OutcomeView>,
    at: int,
) -> Progress<Option<Seq<char>>, InitramfsErrorView>
    decreases current.len(),
{
    if same_parts(current, rootfs) {
        Progress::Returns(None, at)
    } else if !(0 <= at < outcomes.len()) {
        Progress::Asks(mountpoint_query(current))
    } else if ran_well(outcomes[at]) {
        Progress::Returns(Some(mount_name(rootfs, current)), at + 1)
    } else {
        match parent_text(current) {
            Some(up) => {
                proof {
                    lemma_parent_is_shorter(current);
                }
                climb(rootfs, up, outcomes, at + 1)
            },
            None => Progress::Returns(None, at + 1),
        }
    }
}

/// Where the search for a mountpoint above `dest` starts.
pub open spec fn climb_start(dest: Seq<char>) -> Seq<char> {
    match parent_text(dest) {
        Some(up) => up,
        None => dest,
    }
}

/// Goes up from `dest`, as far as `rootfs`, to the first mountpoint above it. Where `dest`
/// names `rootfs` itself there is nothing to go through.
pub open spec fn search_progress(
    rootfs: Seq<char>,
    dest: Seq<char>,
    outcomes: Seq<OutcomeView>,
    at: int,
) -> Progress<Option<Seq<char>>, InitramfsErrorView> {
    if same_parts(dest, rootfs) {
        Progress::Returns(None, at)
    } else {
        climb(rootfs, climb_start(dest), outcomes, at)
    }
}

/// Finds the deepest mountpoint above `dest` and below `rootfs`, by its path from
/// `rootfs`.
pub fn find_nested_mountpoint(
    rootfs: &str,
    dest: &str,
    outcomes: &Vec<Outcome>,
    at: &mut usize,
) -> (r: Result<Option<String>, Stop<InitramfsError>>)
    ensures
        progress(r, *final(at)) == search_progress(
            rootfs@,
            dest@,
            outcomes.deep_view(),
            *old(at) as int,
        ),
{
    if same_path(dest, rootfs) {
        return Ok(None);
    }
    let mut current = match parent(dest) {
        Some(up) => up,
        None => dest.to_owned(),
    };
    loop
        invariant
            climb(rootfs@, current@, outcomes.deep_view(), *at as int) == search_progress(
                rootfs@,
                dest@,
                outcomes.deep_view(),
                *old(at) as int,
            ),
        decreases current@.len(),
    {
        if same_path(current.as_str(), rootfs) {
            return Ok(None);
        }
        if is_mountpoint(current.as_str(), outcomes, at)? {
            let name = match strip_prefix(current.as_str(), rootfs) {
                Some(relative) => concat2("/", relative.as_str()),
                None => current,
            };
            return Ok(Some(name));
        }
        match parent(current.as_str()) {
            Some(up) => {
                proof {
                    lemma_parent_is_shorter(current@);
                }
                current = up;
            },
            None => {
                return Ok(None);
            },
        }
    }
}

/// What the backup directory holds `rootfs` under.
pub open spec fn backup_of_root(rootfs: Seq<char>, backup_dir: Seq<char>) -> Seq<char> {
    join_text(
        backup_dir,
        match relative_text(rootfs, "/"@) {
            Some(relative) => relative,
            None => rootfs,
        },
    )
}

/// The path, as it is named from the mountpoint `mount` on.
pub open spec fn path_from_mount(path: Seq<char>, mount: Seq<char>) -> Seq<char> {
    let stripped = without_leading_slashes(path);
    without_leading_slashes(
        match after_prefix(stripped, mount) {
            Some(rest) => rest,
            None => stripped,
        },
    )
}

/// The error for a path that could not be restored.
pub open spec fn restore_error(path: Seq<char>, reason: Seq<char>) -> InitramfsErrorView {
    InitramfsErrorView::FactoryReset(FactoryResetErrorView::RestoreFailed { path, reason })
}

/// Copies one path from the backup back into the mountpoint that it lies on, and
/// flushes. Nothing is done where the backup does not hold it.
pub open spec fn restore_path_progress(
    rootfs: Seq<char>,
    path: Seq<char>,
    backup_dir: Seq<char>,
    outcomes: Seq<OutcomeView>,
    at: int,
) -> Progress<(), InitramfsErrorView> {
    let base = backup_of_root(rootfs, backup_dir);
    let dest = path_below(rootfs, path);
    and_then(
        ask(EffectView::Exists { path: path_below(base, path) }, outcomes, at),
        |outcome: OutcomeView, i: int|
            if says_yes(outcome) {
                and_then(
                    search_progress(rootfs, dest, outcomes, i),
                    |found: Option<Seq<char>>, j: int|
                        match found {
                            Some(name) => copy_back_progress(
                                rootfs,
                                path,
                                base,
                                without_leading_slashes(name),
                                outcomes,
                                j,
                            ),
                            None => Progress::Fails(
                                restore_error(
                                    path,
                                    "no mountpoint found in destination path (error 66): "@ + dest,
                                ),
                                j,
                            ),
                        },
                )
            } else {
                Progress::Returns((), i)
            },
    )
}

/// Copies one path from the backup at `base` back into the mountpoint `mount`,
/// from the directory that stands for the mountpoint there.
pub open spec fn copy_back_progress(
    rootfs: Seq<char>,
    path: Seq<char>,
    base: Seq<char>,
    mount: Seq<char>,
    outcomes: Seq<OutcomeView>,
    at: int,
) -> Progress<(), InitramfsErrorView> {
    and_then(
        running(
            "cp"@,
            CP_CMD@,
            seq!["--parents"@, "-a"@, path_from_mount(path, mount), join_text(rootfs, mount)],
            Some(join_text(base, mount)),
            |what: Seq<char>| restore_error(path, what),
            outcomes,
            at,
        ),
        |_copied: (), i: int| sync_progress(outcomes, i),
    )
}

/// Copies one path from the backup back into the mountpoint that it lies on, if the
/// backup holds it.
pub fn restore_path(
    rootfs: &str,
    path: &str,
    backup_dir: &str,
    outcomes: &Vec<Outcome>,
    at: &mut usize,
) -> (r: Result<(), Stop<InitramfsError>>)
    ensures
        progress(r, *final(at)) == restore_path_progress(
            rootfs@,
            path@,
            backup_dir@,
            outcomes.deep_view(),
            *old(at) as int,
        ),
{
    let stripped = trim_leading_slashes(path);
    let base = match strip_prefix(rootfs, "/") {
        Some(relative) => join(backup_dir, relative.as_str()),
        None => join(backup_dir, rootfs),
    };
    let kept = Effect::Exists { path: join(base.as_str(), stripped.as_str()) };
    if !is_yes(perform(kept, outcomes, at)?) {
        return Ok(());
    }
    let dest = join(rootfs, stripped.as_str());
    let name = match find_nested_mountpoint(rootfs, dest.as_str(), outcomes, at)? {
        Some(name) => name,
        None => {
            let reason = concat2(
                "no mountpoint found in destination path (error 66): ",
                dest.as_str(),
            );
            return Err(
                Stop::Fail(
                    InitramfsError::FactoryReset(
                        FactoryResetError::RestoreFailed { path: path.to_owned(), reason },
                    ),
                ),
            );
        },
    };
    let mount = trim_leading_slashes(name.as_str());
    let behind = match strip_text_prefix(stripped.as_str(), mount.as_str()) {
        Some(rest) => rest,
        None => stripped,
    };
    let relative = trim_leading_slashes(behind.as_str());
    let target = join(rootfs, mount.as_str());
    let args = arguments(&["--parents", "-a", relative.as_str(), target.as_str()]);
    assert(args.deep_view() =~= seq!["--parents"@, "-a"@, relative@, target@]);
    let copy = Effect::Run {
        program: CP_CMD.to_owned(),
        args,
        directory: Some(join(base.as_str(), mount.as_str())),
    };
    if let Some(what) = fault_of_run("cp", perform(copy, outcomes, at)?) {
        return Err(
            Stop::Fail(
                InitramfsError::FactoryReset(
                    FactoryResetError::RestoreFailed { path: path.to_owned(), reason: what },
                ),
            ),
        );
    }
    run_sync(outcomes, at)
}

/// What came of the restore of a list of paths.
#[derive(Debug)]
pub enum RestoreResult {
    Success,
    PartialFailure { context: String, error: String },
}

/// A restore result as mathematical text.
#[verifier::ext_equal]
pub enum RestoreResultView {
    Success,
    PartialFailure { context: Seq<char>, error: Seq<char> },
}

impl DeepView for RestoreResult {
    type V = RestoreResultView;

    open spec fn deep_view(&self) -> RestoreResultView {
        match self {
            RestoreResult::Success => RestoreResultView::Success,
            RestoreResult::PartialFailure { context, error } => RestoreResultView::PartialFailure {
                context: context@,
                error: error@,
            },
        }
    }
}

/// Restores the first `count` paths, one after another, whatever fails: for each,
/// the error that it failed with, if it did.
pub open spec fn restore_each(
    rootfs: Seq<char>,
    list: Seq<Seq<char>>,
    count: int,
    backup_dir: Seq<char>,
    outcomes: Seq<OutcomeView>,
    at: int,
) -> Progress<Seq<Option<InitramfsErrorView>>, InitramfsErrorView>
    decreases count,
{
    if count <= 0 {
        Progress::Returns(Seq::empty(), at)
    } else {
        match restore_each(rootfs, list, count - 1, backup_dir, outcomes, at) {
            Progress::Returns(before, i) => {
                match restore_path_progress(rootfs, list[count - 1], backup_dir, outcomes, i) {
                    Progress::Asks(effect) => Progress::Asks(effect),
                    Progress::Returns(_, j) => Progress::Returns(before.push(None), j),
                    Progress::Fails(e, j) => Progress::Returns(before.push(Some(e)), j),
                    Progress::Panics(message) => Progress::Panics(message),
                }
            },
            stopped => stopped,
        }
    }
}

/// The paths that have an error, in order.
pub open spec fn failed_paths(
    list: Seq<Seq<char>>,
    errors: Seq<Option<InitramfsErrorView>>,
) -> Seq<Seq<char>>
    decreases errors.len(),
{
    if errors.len() == 0 {
        Seq::empty()
    } else {
        let before = failed_paths(list, errors.drop_last());
        if errors.last() is Some {
            before.push(list[errors.len() - 1])
        } else {
            before
        }
    }
}

/// The last of the errors, in words.
pub open spec fn last_error(errors: Seq<Option<InitramfsErrorView>>) -> Seq<char>
    decreases errors.len(),
{
    if errors.len() == 0 {
        Seq::empty()
    } else {
        match errors.last() {
            Some(e) => e.text(),
            None => last_error(errors.drop_last()),
        }
    }
}

/// What the errors of a list of paths amount to.
pub open spec fn restore_summary(
    list: Seq<Seq<char>>,
    errors: Seq<Option<InitramfsErrorView>>,
) -> RestoreResultView {
    let failed = failed_paths(list, errors);
    if failed.len() == 0 {
        RestoreResultView::Success
    } else {
        RestoreResultView::PartialFailure {
            context: joined(";"@, failed) + ":restore"@,
            error: last_error(errors),
        }
    }
}

/// Restores every path of the list and sums up what failed.
pub open spec fn restore_progress(
    rootfs: Seq<char>,
    list: Seq<Seq<char>>,
    backup_dir: Seq<char>,
    outcomes: Seq<OutcomeView>,
    at: int,
) -> Progress<RestoreResultView, InitramfsErrorView> {
    and_then(
        restore_each(rootfs, list, list.len() as int, backup_dir, outcomes, at),
        |errors: Seq<Option<InitramfsErrorView>>, i: int|
            Progress::Returns(restore_summary(list, errors), i),
    )
}

proof fn lemma_restore_stops(
    rootfs: Seq<char>,
    list: Seq<Seq<char>>,
    count: int,
    more: int,
    backup_dir: Seq<char>,
    outcomes: Seq<OutcomeView>,
    at: int,
)
    requires
        0 <= count <= more,
        !(restore_each(rootfs, list, count, backup_dir, outcomes, at) is Returns),
    ensures
        restore_each(rootfs, list, more, backup_dir, outcomes, at) == restore_each(
            rootfs,
            list,
            count,
            backup_dir,
            outcomes,
            at,
        ),
    decreases more,
{
    if count < more {
        lemma_restore_stops(rootfs, list, count, more - 1, backup_dir, outcomes, at);
    }
}

/// Restores every path of the list. A path that fails is noted and the next one is
/// tried.
pub fn restore_all(
    rootfs: &str,
    preserve_list: &Vec<String>,
    backup_dir: &str,
    outcomes: &Vec<Outcome>,
    at: &mut usize,
) -> (r: Result<RestoreResult, Stop<InitramfsError>>)
    ensures
        progress(r, *final(at)) == restore_progress(
            rootfs@,
            preserve_list.deep_view(),
            backup_dir@,
            outcomes.deep_view(),
            *old(at) as int,
        ),
{
    let ghost start = *at as int;
    let ghost list = preserve_list.deep_view();
    let ghost mut errors: Seq<Option<InitramfsErrorView>> = Seq::empty();
    let mut failed: Vec<String> = Vec::new();
    let mut last: String = String::new();
    let mut k: usize = 0;
    assert(failed.deep_view() =~= Seq::empty());
    while k < preserve_list.len()
        invariant
            k <= preserve_list@.len(),
            list == preserve_list.deep_view(),
            start == *old(at),
            errors.len() == k,
            restore_each(rootfs@, list, k as int, backup_dir@, outcomes.deep_view(), start)
                == Progress::<_, InitramfsErrorView>::Returns(errors, *at as int),
            failed.deep_view() == failed_paths(list, errors),
            last@ == last_error(errors),
        decreases preserve_list@.len() - k,
    {
        let one = restore_path(rootfs, preserve_list[k].as_str(), backup_dir, outcomes, at);
        let ghost before = errors;
        let ghost failed_before = failed.deep_view();
        match one {
            Ok(()) => {
                proof {
                    errors = before.push(None);
                    assert(errors.drop_last() =~= before);
                }
            },
            Err(Stop::Fail(e)) => {
                failed.push(preserve_list[k].clone());
                last = e.message();
                proof {
                    errors = before.push(Some(e.deep_view()));
                    assert(errors.drop_last() =~= before);
                    assert(failed.deep_view() =~= failed_before.push(list[k as int]));
                }
            },
            Err(stop) => {
                proof {
                    lemma_restore_stops(
                        rootfs@,
                        list,
                        k + 1,
                        list.len() as int,
                        backup_dir@,
                        outcomes.deep_view(),
                        start,
                    );
                }
                return Err(stop);
            },
        }
        k = k + 1;
    }
    if failed.len() == 0 {
        assert(failed.deep_view().len() == 0);
        Ok(RestoreResult::Success)
    } else {
        assert(failed.deep_view().len() > 0);
        let context = concat2(join_with(";", &failed).as_str(), ":restore");
        Ok(RestoreResult::PartialFailure { context, error: last })
    }
}

// ---------------------------------------------------------------------------
// Laws
// ---------------------------------------------------------------------------

/// What is backed up lies below `rootfs`, whatever slashes the path starts with.
pub proof fn law_paths_stay_below_root(rootfs: Seq<char>, path: Seq<char>)
    ensures
        path_below(rootfs, path).len() >= rootfs.len(),
        path_below(rootfs, path).take(rootfs.len() as int) == rootfs,
        names(path_below(rootfs, path)) == names(rootfs) + names(path),
{
    let rest = without_leading_slashes(path);
    lemma_without_leading_slashes(path);
    lemma_join_names(rootfs, rest);
    assert(path_below(rootfs, path).take(rootfs.len() as int) =~= rootfs);
}

/// What the backup directory holds `rootfs` under lies below it, by the names of `rootfs`.
pub proof fn lemma_backup_of_root(rootfs: Seq<char>, backup_dir: Seq<char>)
    ensures
        names(backup_of_root(rootfs, backup_dir)) == names(backup_dir) + names(rootfs),
        has_root(backup_of_root(rootfs, backup_dir)) == has_root(backup_dir),
        backup_dir.len() > 0 ==> has_dot(backup_of_root(rootfs, backup_dir)) == has_dot(
            backup_dir,
        ),
        backup_dir.len() > 0 ==> backup_of_root(rootfs, backup_dir).len() > 0,
{
    reveal_strlit("/");
    assert("/"@ =~= seq!['/'] + Seq::<char>::empty());
    lemma_names_behind_slash(Seq::empty());
    lemma_path_names("/"@);
    lemma_path_names(rootfs);
    assert(path_names(rootfs).take(0) =~= Seq::empty());
    if starts_with_parts(rootfs, "/"@) {
        lemma_relative_names(rootfs, "/"@);
        assert(names(rootfs).skip(0) =~= names(rootfs));
        lemma_join_names(backup_dir, relative_text(rootfs, "/"@)->0);
    } else {
        lemma_join_names(backup_dir, rootfs);
    }
}

/// A restore looks for a path just where the backup has put it: `cp --parents` copies
/// a file to its full name below the backup directory.
pub proof fn law_backup_is_found_where_it_was_put(
    rootfs: Seq<char>,
    path: Seq<char>,
    backup_dir: Seq<char>,
)
    requires
        backup_dir.len() > 0,
    ensures
        same_parts(
            path_below(backup_of_root(rootfs, backup_dir), path),
            backup_dir + seq!['/'] + path_below(rootfs, path),
        ),
{
    let rest = without_leading_slashes(path);
    let base = backup_of_root(rootfs, backup_dir);
    lemma_backup_of_root(rootfs, backup_dir);
    lemma_without_leading_slashes(path);
    lemma_join_names(base, rest);
    law_paths_stay_below_root(rootfs, path);
    let put = backup_dir + seq!['/'] + path_below(rootfs, path);
    lemma_names_around_slash(backup_dir, path_below(rootfs, path));
    assert((names(backup_dir) + names(rootfs)) + names(rest) =~= names(backup_dir) + (names(rootfs)
        + names(rest)));
    lemma_path_names(path_below(base, path));
    lemma_path_names(put);
    assert(has_root(put) == has_root(backup_dir));
    assert(has_dot(put) == has_dot(backup_dir));
}

/// Whether a list of names begins with another.
pub open spec fn starts_with(list: Seq<Seq<char>>, head: Seq<Seq<char>>) -> bool {
    head.len() <= list.len() && list.take(head.len() as int) == head
}

/// Whether `path` lies strictly below `top` and strictly above `dest`, by their names.
pub open spec fn lies_between(top: Seq<char>, path: Seq<char>, dest: Seq<char>) -> bool {
    &&& names(top).len() < names(path).len() < names(dest).len()
    &&& starts_with(names(path), names(top))
    &&& starts_with(names(dest), names(path))
}

/// The search for a mountpoint asks about one ancestor after another. It ends at the
/// first that is a mountpoint, so at the deepest; or without one, at `rootfs` or where
/// there is nothing further up.
pub proof fn law_climb_finds_the_deepest(
    rootfs: Seq<char>,
    current: Seq<char>,
    outcomes: Seq<OutcomeView>,
    at: int,
)
    requires
        0 <= at <= outcomes.len(),
    ensures
        match climb(rootfs, current, outcomes, at) {
            Progress::Asks(effect) => {
                let n = (outcomes.len() - at) as nat;
                &&& ancestor(current, n) is Some
                &&& effect == mountpoint_query(ancestor(current, n)->0)
                &&& forall|i: int| at <= i < outcomes.len() ==> !ran_well(#[trigger] outcomes[i])
                &&& forall|k: nat|
                    k <= n ==> (#[trigger] ancestor(current, k)) is Some && !same_parts(
                        ancestor(current, k)->0,
                        rootfs,
                    )
            },
            Progress::Returns(Some(name), end) => {
                let n = (end - 1 - at) as nat;
                &&& at < end <= outcomes.len()
                &&& ran_well(outcomes[end - 1])
                &&& forall|i: int| at <= i < end - 1 ==> !ran_well(#[trigger] outcomes[i])
                &&& name == mount_name(rootfs, ancestor(current, n)->0)
                &&& forall|k: nat|
                    k <= n ==> (#[trigger] ancestor(current, k)) is Some && !same_parts(
                        ancestor(current, k)->0,
                        rootfs,
                    )
            },
            Progress::Returns(None, end) => {
                let n = (end - at) as nat;
                &&& at <= end <= outcomes.len()
                &&& forall|i: int| at <= i < end ==> !ran_well(#[trigger] outcomes[i])
                &&& ancestor(current, n) is Some ==> same_parts(ancestor(current, n)->0, rootfs)
            },
            _ => false,
        },
    decreases current.len(),
{
    assert(ancestor(current, 0) == Some(current));
    if !same_parts(current, rootfs) && at < outcomes.len() && !ran_well(outcomes[at]) {
        assert(ancestor(current, 1) == (match parent_text(current) {
            Some(up) => ancestor(up, 0),
            None => None,
        }));
        if let Some(up) = parent_text(current) {
            lemma_parent_is_shorter(current);
            law_climb_finds_the_deepest(rootfs, up, outcomes, at + 1);
            assert forall|k: nat| k > 0 implies #[trigger] ancestor(current, k) == ancestor(
                up,
                (k - 1) as nat,
            ) by {}
        }
    }
}

/// For a destination below the root, the search asks about directories strictly below the
/// root alone, and a mountpoint that it finds is one of them, above the destination.
pub proof fn law_mountpoint_lies_below_root(
    rootfs: Seq<char>,
    dest: Seq<char>,
    outcomes: Seq<OutcomeView>,
    at: int,
)
    requires
        has_root(dest) == has_root(rootfs),
        has_dot(dest) == has_dot(rootfs),
        starts_with(names(dest), names(rootfs)),
        0 <= at <= outcomes.len(),
    ensures
        match search_progress(rootfs, dest, outcomes, at) {
            Progress::Asks(effect) => {
                let n = (outcomes.len() - at) as nat;
                &&& effect == mountpoint_query(ancestor(dest, n + 1)->0)
                &&& lies_between(rootfs, ancestor(dest, n + 1)->0, dest)
            },
            Progress::Returns(Some(name), end) => {
                let n = (end - 1 - at) as nat;
                &&& at < end <= outcomes.len()
                &&& name == mount_name(rootfs, ancestor(dest, n + 1)->0)
                &&& lies_between(rootfs, ancestor(dest, n + 1)->0, dest)
                &&& n + 1 < names(dest).len()
            },
            _ => true,
        },
{
    lemma_path_names(dest);
    lemma_path_names(rootfs);
    let depth = (names(dest).len() - names(rootfs).len()) as nat;
    if depth == 0 {
        assert(names(dest) =~= names(rootfs));
    } else {
        lemma_parent_names(dest);
        let start = climb_start(dest);
        law_climb_finds_the_deepest(rootfs, start, outcomes, at);
        lemma_ancestor(dest, depth);
        let top = ancestor(dest, depth)->0;
        assert(ancestor(dest, depth) == ancestor(start, (depth - 1) as nat));
        assert(names(top) =~= names(rootfs));
        lemma_path_names(top);
        assert(same_parts(top, rootfs));
        let n = match search_progress(rootfs, dest, outcomes, at) {
            Progress::Returns(_, end) => (end - 1 - at) as nat,
            _ => (outcomes.len() - at) as nat,
        };
        if search_progress(rootfs, dest, outcomes, at) is Asks || search_progress(
            rootfs,
            dest,
            outcomes,
            at,
        )->Returns_0 is Some {
            assert(n + 1 < depth);
            lemma_ancestor(dest, n + 1);
            assert(ancestor(dest, n + 1) == ancestor(start, n));
            let found = ancestor(dest, n + 1)->0;
            assert(names(found).take(names(rootfs).len() as int) =~= names(dest).take(
                names(rootfs).len() as int,
            ));
        }
    }
}

/// The copy that restores a path goes from where the backup holds the path to where the
/// path was: both are named by the mountpoint that was found and the rest of the path.
pub proof fn law_restore_puts_a_path_back(
    rootfs: Seq<char>,
    path: Seq<char>,
    base: Seq<char>,
    name: Seq<char>,
    outcomes: Seq<OutcomeView>,
    at: int,
    end: int,
)
    requires
        !has_dot(without_leading_slashes(path)),
        0 <= at <= outcomes.len(),
        search_progress(rootfs, path_below(rootfs, path), outcomes, at) == Progress::<
            Option<Seq<char>>,
            InitramfsErrorView,
        >::Returns(Some(name), end),
    ensures
        ({
            let mount = without_leading_slashes(name);
            let rest = path_from_mount(path, mount);
            &&& same_parts(join_text(join_text(base, mount), rest), path_below(base, path))
            &&& same_parts(join_text(join_text(rootfs, mount), rest), path_below(rootfs, path))
            &&& names(mount).len() > 0
            &&& names(rest).len() > 0
            &&& names(path) == names(mount) + names(rest)
        }),
{
    let stripped = without_leading_slashes(path);
    let dest = path_below(rootfs, path);
    law_paths_stay_below_root(rootfs, path);
    lemma_without_leading_slashes(path);
    lemma_join_names(rootfs, stripped);
    assert(names(dest).take(names(rootfs).len() as int) =~= names(rootfs));
    law_mountpoint_lies_below_root(rootfs, dest, outcomes, at);
    let n = (end - 1 - at) as nat;
    lemma_ancestor(dest, n + 1);
    let found = ancestor(dest, n + 1)->0;
    if found.len() <= start_of(dest) {
        lemma_path_names(found);
        assert(found.skip(start_of(found)) =~= Seq::empty());
    }
    let j = lemma_relative_of_piece(rootfs, stripped, found);
    let mount = stripped.take(j);
    lemma_join_names(rootfs, mount);
    reveal_strlit("/");
    assert(name =~= seq!['/'] + mount);
    assert(name.skip(1) =~= mount);
    assert(without_leading_slashes(name) == without_leading_slashes(mount));
    assert(without_leading_slashes(mount) == mount);
    let behind = stripped.skip(j);
    let rest = without_leading_slashes(behind);
    assert(after_prefix(stripped, mount) == Some(behind));
    lemma_without_leading_slashes(behind);
    if j < stripped.len() {
        assert(stripped =~= mount + seq!['/'] + stripped.skip(j + 1));
        lemma_names_around_slash(mount, stripped.skip(j + 1));
        assert(behind =~= seq!['/'] + stripped.skip(j + 1));
        lemma_names_behind_slash(stripped.skip(j + 1));
    } else {
        assert(stripped =~= mount);
        assert(behind =~= Seq::empty());
        assert(names(mount) + names(behind) =~= names(mount));
    }
    lemma_restored_names(base, mount, rest, stripped);
    lemma_restored_names(rootfs, mount, rest, stripped);
}

proof fn lemma_restored_names(
    base: Seq<char>,
    mount: Seq<char>,
    rest: Seq<char>,
    whole: Seq<char>,
)
    requires
        mount.len() > 0,
        whole.len() >= mount.len(),
        mount == whole.take(mount.len() as int),
        mount.len() == whole.len() || whole[mount.len() as int] == '/',
        !has_root(whole),
        !has_dot(whole),
        !has_root(rest),
        names(whole) == names(mount) + names(rest),
    ensures
        same_parts(join_text(join_text(base, mount), rest), join_text(base, whole)),
{
    let inner = join_text(base, mount);
    assert(mount[0] == whole[0]);
    if mount.len() > 1 {
        assert(mount[1] == whole[1]);
    }
    lemma_join_names(base, mount);
    lemma_join_names(inner, rest);
    lemma_join_names(base, whole);
    assert((names(base) + names(mount)) + names(rest) =~= names(base) + (names(mount) + names(
        rest,
    )));
    lemma_path_names(join_text(inner, rest));
    lemma_path_names(join_text(base, whole));
}

/// A backup that fails does so at the first path that fails: those before it are backed
/// up, those behind it are not tried.
pub proof fn law_backup_stops_at_the_first_failure(
    rootfs: Seq<char>,
    list: Seq<Seq<char>>,
    count: int,
    backup_dir: Seq<char>,
    outcomes: Seq<OutcomeView>,
    at: int,
) -> (k: int)
    requires
        backup_each(rootfs, list, count, backup_dir, outcomes, at) is Fails,
    ensures
        0 <= k < count,
        backup_each(rootfs, list, k, backup_dir, outcomes, at) is Returns,
        backup_each(rootfs, list, count, backup_dir, outcomes, at) == backup_path_progress(
            rootfs,
            list[k],
            backup_dir,
            outcomes,
            backup_each(rootfs, list, k, backup_dir, outcomes, at)->Returns_1,
        ),
    decreases count,
{
    if backup_each(rootfs, list, count - 1, backup_dir, outcomes, at) is Returns {
        count - 1
    } else {
        law_backup_stops_at_the_first_failure(
            rootfs,
            list,
            count - 1,
            backup_dir,
            outcomes,
            at,
        )
    }
}

proof fn lemma_restore_each(
    rootfs: Seq<char>,
    list: Seq<Seq<char>>,
    count: int,
    backup_dir: Seq<char>,
    outcomes: Seq<OutcomeView>,
    at: int,
)
    requires
        0 <= count,
    ensures
        !(restore_each(rootfs, list, count, backup_dir, outcomes, at) is Fails),
        match restore_each(rootfs, list, count, backup_dir, outcomes, at) {
            Progress::Returns(errors, _) => errors.len() == count,
            _ => true,
        },
    decreases count,
{
    if count > 0 {
        lemma_restore_each(rootfs, list, count - 1, backup_dir, outcomes, at);
    }
}

proof fn lemma_failed_paths(list: Seq<Seq<char>>, errors: Seq<Option<InitramfsErrorView>>)
    ensures
        failed_paths(list, errors).len() == 0 <==> forall|k: int|
            0 <= k < errors.len() ==> (#[trigger] errors[k]) is None,
    decreases errors.len(),
{
    if errors.len() > 0 {
        let before = errors.drop_last();
        lemma_failed_paths(list, before);
        assert(forall|k: int| 0 <= k < before.len() ==> before[k] == #[trigger] errors[k]);
        assert(errors.last() == errors[errors.len() - 1]);
        if forall|k: int| 0 <= k < errors.len() ==> (#[trigger] errors[k]) is None {
            assert(forall|k: int| 0 <= k < before.len() ==> (#[trigger] before[k]) is None);
        }
        if failed_paths(list, errors).len() == 0 {
            assert forall|k: int| 0 <= k < errors.len() implies (#[trigger] errors[k]) is None by {
                if k < before.len() {
                    assert(before[k] is None);
                }
            }
        }
    }
}

/// A restore tries every path of the list, whatever fails, and does not fail itself. It
/// is a success just if no path failed.
pub proof fn law_restore_tries_every_path(
    rootfs: Seq<char>,
    list: Seq<Seq<char>>,
    backup_dir: Seq<char>,
    outcomes: Seq<OutcomeView>,
    at: int,
)
    ensures
        !(restore_progress(rootfs, list, backup_dir, outcomes, at) is Fails),
        match restore_each(rootfs, list, list.len() as int, backup_dir, outcomes, at) {
            Progress::Returns(errors, end) => {
                &&& errors.len() == list.len()
                &&& restore_progress(rootfs, list, backup_dir, outcomes, at) == Progress::<
                    RestoreResultView,
                    InitramfsErrorView,
                >::Returns(restore_summary(list, errors), end)
                &&& restore_summary(list, errors) is Success <==> forall|k: int|
                    0 <= k < errors.len() ==> (#[trigger] errors[k]) is None
            },
            _ => true,
        },
{
    lemma_restore_each(rootfs, list, list.len() as int, backup_dir, outcomes, at);
    if let Progress::Returns(errors, _) = restore_each(
        rootfs,
        list,
        list.len() as int,
        backup_dir,
        outcomes,
        at,
    ) {
        lemma_failed_paths(list, errors);
    }
}

/// Whether two procedures are at the same point, but for what they fail with.
pub open spec fn alike<T, E>(one: Progress<T, E>, other: Progress<T, E>) -> bool {
    match one {
        Progress::Fails(_, at) => other is Fails && other->Fails_1 == at,
        _ => one == other,
    }
}

/// The slashes that a path starts with make no difference to its backup and its restore,
/// but for how an error names the path.
pub proof fn law_leading_slashes_make_no_difference(
    rootfs: Seq<char>,
    path: Seq<char>,
    other: Seq<char>,
    backup_dir: Seq<char>,
    outcomes: Seq<OutcomeView>,
    at: int,
)
    requires
        without_leading_slashes(path) == without_leading_slashes(other),
    ensures
        alike(
            backup_path_progress(rootfs, path, backup_dir, outcomes, at),
            backup_path_progress(rootfs, other, backup_dir, outcomes, at),
        ),
        alike(
            restore_path_progress(rootfs, path, backup_dir, outcomes, at),
            restore_path_progress(rootfs, other, backup_dir, outcomes, at),
        ),
{
}

}
