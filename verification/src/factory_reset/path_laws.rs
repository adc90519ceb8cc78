//! What backup and restore do with single paths, and with lists of them.

use vstd::prelude::*;
use vstd::string::*;

use crate::effect::{
    follows, ran_well, reason_of, run_fault, EffectView, OutcomeView, Progress,
};
use crate::error::{FactoryResetErrorView, InitramfsErrorView};
use crate::factory_reset::backup_restore::{
    backup_each, backup_path_progress, backup_progress, climb, failed_paths, last_error,
    law_climb_finds_the_deepest, lemma_backup_stops, mount_name, mountpoint_progress,
    mountpoint_query, restore_each, restore_path_progress, restore_summary, search_progress,
    RestoreResultView,
};
use crate::factory_reset::laws::lemma_backup_stays_over;
use crate::path::{join_text, parent_text, relative_text, same_parts};
use crate::text::{after_prefix, joined, without_leading_slashes};

verus! {

// ---------------------------------------------------------------------------
// Backup
// ---------------------------------------------------------------------------

/// A path that exists is copied into the backup directory, and then file systems are
/// flushed; the backup of the path returns only when the copy ran well and the flush ran.
/// A path that does not exist is passed over.
pub proof fn law_path_that_exists_is_copied(
    rootfs: Seq<char>,
    path: Seq<char>,
    backup_dir: Seq<char>,
    outcomes: Seq<OutcomeView>,
    at: int,
)
    requires
        0 <= at <= outcomes.len(),
    ensures
        ({
            let source = join_text(rootfs, without_leading_slashes(path));
            let backup = backup_path_progress(rootfs, path, backup_dir, outcomes, at);
            if at == outcomes.len() {
                backup == Progress::<(), InitramfsErrorView>::Asks(
                    EffectView::Exists { path: source },
                )
            } else if outcomes[at] == OutcomeView::Flag(true) {
                follows(
                    backup,
                    seq![
                        EffectView::Run {
                            program: "/bin/cp"@,
                            args: seq!["--parents"@, "-a"@, source, backup_dir],
                            directory: None,
                        },
                        EffectView::Run { program: "/bin/sync"@, args: seq![], directory: None },
                    ],
                    |k: int, o: OutcomeView|
                        if k == 0 {
                            ran_well(o)
                        } else {
                            o is Output
                        },
                    |k: int, o: OutcomeView|
                        InitramfsErrorView::FactoryReset(
                            if k == 0 {
                                FactoryResetErrorView::BackupFailed {
                                    path,
                                    reason: run_fault("cp"@, o)->Some_0,
                                }
                            } else {
                                FactoryResetErrorView::Io("sync failed: "@ + reason_of(o))
                            },
                        ),
                    outcomes,
                    at + 1,
                )
            } else {
                backup == Progress::<(), InitramfsErrorView>::Returns((), at + 1)
            }
        }),
{
}

proof fn lemma_backup_of_prefix(
    rootfs: Seq<char>,
    list: Seq<Seq<char>>,
    longer: Seq<Seq<char>>,
    count: int,
    backup_dir: Seq<char>,
    outcomes: Seq<OutcomeView>,
    at: int,
)
    requires
        count <= list.len() <= longer.len(),
        list == longer.take(list.len() as int),
    ensures
        backup_each(rootfs, longer, count, backup_dir, outcomes, at) == backup_each(
            rootfs,
            list,
            count,
            backup_dir,
            outcomes,
            at,
        ),
    decreases count,
{
    if count > 0 {
        lemma_backup_of_prefix(rootfs, list, longer, count - 1, backup_dir, outcomes, at);
        assert(list[count - 1] == longer[count - 1]);
    }
}

/// A list with one path more is backed up as the list, and then as that path. Without any
/// path there is just the backup directory to create.
pub proof fn law_backup_takes_one_path_after_another(
    rootfs: Seq<char>,
    list: Seq<Seq<char>>,
    path: Seq<char>,
    backup_dir: Seq<char>,
    outcomes: Seq<OutcomeView>,
    at: int,
)
    requires
        0 <= at <= outcomes.len(),
    ensures
        follows(
            backup_progress(rootfs, seq![], backup_dir, outcomes, at),
            seq![EffectView::CreateDirectories { path: backup_dir }],
            |k: int, o: OutcomeView| o is Done,
            |k: int, o: OutcomeView|
                InitramfsErrorView::FactoryReset(FactoryResetErrorView::Io(reason_of(o))),
            outcomes,
            at,
        ),
        backup_progress(rootfs, list.push(path), backup_dir, outcomes, at) == (
        match backup_progress(rootfs, list, backup_dir, outcomes, at) {
            Progress::Returns(_, i) => backup_path_progress(
                rootfs,
                path,
                backup_dir,
                outcomes,
                i,
            ),
            stopped => stopped,
        }),
{
    let longer = list.push(path);
    let n = list.len() as int;
    assert(list =~= longer.take(n));
    lemma_backup_of_prefix(rootfs, list, longer, n, backup_dir, outcomes, at + 1);
}

/// A backup that returns has seen to every path of the list in turn: one that exists was
/// copied by a command that ran well.
pub proof fn law_backup_that_returns_has_copied_every_path(
    rootfs: Seq<char>,
    list: Seq<Seq<char>>,
    backup_dir: Seq<char>,
    outcomes: Seq<OutcomeView>,
    at: int,
    k: int,
)
    requires
        0 <= at <= outcomes.len(),
        backup_progress(rootfs, list, backup_dir, outcomes, at) is Returns,
        0 <= k < list.len(),
    ensures
        match backup_progress(rootfs, list.take(k), backup_dir, outcomes, at) {
            Progress::Returns(_, i) => {
                &&& at < i < outcomes.len()
                &&& outcomes[i] == OutcomeView::Flag(true) ==> {
                    &&& i + 2 < outcomes.len()
                    &&& ran_well(outcomes[i + 1])
                    &&& outcomes[i + 2] is Output
                }
            },
            _ => false,
        },
{
    let n = list.len() as int;
    let some = list.take(k);
    assert(outcomes.take(outcomes.len() as int) =~= outcomes);
    lemma_backup_stays_over(
        rootfs,
        list,
        k,
        backup_dir,
        outcomes,
        outcomes.len() as int,
        at + 1,
    );
    lemma_backup_of_prefix(rootfs, some, list, k, backup_dir, outcomes, at + 1);
    if !(backup_each(rootfs, list, k, backup_dir, outcomes, at + 1) is Returns) {
        lemma_backup_stops(rootfs, list, k, n, backup_dir, outcomes, at + 1);
    }
    if !(backup_each(rootfs, list, k + 1, backup_dir, outcomes, at + 1) is Returns) {
        lemma_backup_stops(rootfs, list, k + 1, n, backup_dir, outcomes, at + 1);
    }
}

// ---------------------------------------------------------------------------
// The search for a mountpoint
// ---------------------------------------------------------------------------

/// Whether a path is a mountpoint is asked of `mountpoint -q`; a mountpoint is what that
/// exits with code zero for.
pub proof fn law_mountpoint_is_told_by_its_command(
    path: Seq<char>,
    outcomes: Seq<OutcomeView>,
    at: int,
)
    requires
        0 <= at <= outcomes.len(),
    ensures
        mountpoint_query(path) == (EffectView::Run {
            program: "mountpoint"@,
            args: seq!["-q"@, path],
            directory: None,
        }),
        follows(
            mountpoint_progress(path, outcomes, at),
            seq![
                EffectView::Run {
                    program: "mountpoint"@,
                    args: seq!["-q"@, path],
                    directory: None,
                },
            ],
            |k: int, o: OutcomeView| true,
            |k: int, o: OutcomeView| InitramfsErrorView::Io(seq![]),
            outcomes,
            at,
        ),
        match mountpoint_progress(path, outcomes, at) {
            Progress::Returns(yes, _) => yes == (outcomes[at] is Output
                && outcomes[at]->Output_0.success),
            _ => true,
        },
{
}

/// The search starts above the destination, unless that is the root itself; and a
/// mountpoint is named by its path from the root, behind a slash.
pub proof fn law_search_starts_above_the_destination(
    rootfs: Seq<char>,
    dest: Seq<char>,
    outcomes: Seq<OutcomeView>,
    at: int,
)
    ensures
        same_parts(dest, rootfs) ==> search_progress(rootfs, dest, outcomes, at) == Progress::<
            Option<Seq<char>>,
            InitramfsErrorView,
        >::Returns(None, at),
        !same_parts(dest, rootfs) && parent_text(dest) is Some ==> search_progress(
            rootfs,
            dest,
            outcomes,
            at,
        ) == climb(rootfs, parent_text(dest)->Some_0, outcomes, at),
        !same_parts(dest, rootfs) && parent_text(dest) is None ==> search_progress(
            rootfs,
            dest,
            outcomes,
            at,
        ) == climb(rootfs, dest, outcomes, at),
        relative_text(dest, rootfs) is Some ==> mount_name(rootfs, dest) == seq!['/']
            + relative_text(dest, rootfs)->Some_0,
        relative_text(dest, rootfs) is None ==> mount_name(rootfs, dest) == dest,
{
    reveal_strlit("/");
    assert("/"@ =~= seq!['/']);
}

// ---------------------------------------------------------------------------
// Restore
// ---------------------------------------------------------------------------

/// A path that the backup holds is copied back, from the directory that stands in the
/// backup for the mountpoint that the path lies on, into that mountpoint, by its name from
/// there; and then file systems are flushed. Without a mountpoint the restore fails. A
/// path that the backup does not hold is passed over.
pub proof fn law_path_in_the_backup_is_copied_back(
    rootfs: Seq<char>,
    path: Seq<char>,
    backup_dir: Seq<char>,
    outcomes: Seq<OutcomeView>,
    at: int,
)
    requires
        0 <= at <= outcomes.len(),
    ensures
        ({
            let stripped = without_leading_slashes(path);
            let base = join_text(
                backup_dir,
                if relative_text(rootfs, "/"@) is Some {
                    relative_text(rootfs, "/"@)->Some_0
                } else {
                    rootfs
                },
            );
            let dest = join_text(rootfs, stripped);
            let restore = restore_path_progress(rootfs, path, backup_dir, outcomes, at);
            if at == outcomes.len() {
                restore == Progress::<(), InitramfsErrorView>::Asks(
                    EffectView::Exists { path: join_text(base, stripped) },
                )
            } else if outcomes[at] == OutcomeView::Flag(true) {
                match search_progress(rootfs, dest, outcomes, at + 1) {
                    Progress::Returns(Some(name), end) => {
                        let mount = without_leading_slashes(name);
                        let rest = without_leading_slashes(
                            if after_prefix(stripped, mount) is Some {
                                after_prefix(stripped, mount)->Some_0
                            } else {
                                stripped
                            },
                        );
                        follows(
                            restore,
                            seq![
                                EffectView::Run {
                                    program: "/bin/cp"@,
                                    args: seq![
                                        "--parents"@,
                                        "-a"@,
                                        rest,
                                        join_text(rootfs, mount),
                                    ],
                                    directory: Some(join_text(base, mount)),
                                },
                                EffectView::Run {
                                    program: "/bin/sync"@,
                                    args: seq![],
                                    directory: None,
                                },
                            ],
                            |k: int, o: OutcomeView|
                                if k == 0 {
                                    ran_well(o)
                                } else {
                                    o is Output
                                },
                            |k: int, o: OutcomeView|
                                InitramfsErrorView::FactoryReset(
                                    if k == 0 {
                                        FactoryResetErrorView::RestoreFailed {
                                            path,
                                            reason: run_fault("cp"@, o)->Some_0,
                                        }
                                    } else {
                                        FactoryResetErrorView::Io("sync failed: "@ + reason_of(o))
                                    },
                                ),
                            outcomes,
                            end,
                        )
                    },
                    Progress::Returns(None, end) => restore == Progress::<
                        (),
                        InitramfsErrorView,
                    >::Fails(
                        InitramfsErrorView::FactoryReset(
                            FactoryResetErrorView::RestoreFailed {
                                path,
                                reason: "no mountpoint found in destination path (error 66): "@
                                    + dest,
                            },
                        ),
                        end,
                    ),
                    Progress::Asks(effect) => restore == Progress::<(), InitramfsErrorView>::Asks(
                        effect,
                    ),
                    _ => false,
                }
            } else {
                restore == Progress::<(), InitramfsErrorView>::Returns((), at + 1)
            }
        }),
{
    let dest = join_text(rootfs, without_leading_slashes(path));
    let start = match parent_text(dest) {
        Some(up) => up,
        None => dest,
    };
    if at < outcomes.len() {
        law_climb_finds_the_deepest(rootfs, start, outcomes, at + 1);
    }
}

proof fn lemma_restore_of_prefix(
    rootfs: Seq<char>,
    list: Seq<Seq<char>>,
    longer: Seq<Seq<char>>,
    count: int,
    backup_dir: Seq<char>,
    outcomes: Seq<OutcomeView>,
    at: int,
)
    requires
        count <= list.len() <= longer.len(),
        list == longer.take(list.len() as int),
    ensures
        restore_each(rootfs, longer, count, backup_dir, outcomes, at) == restore_each(
            rootfs,
            list,
            count,
            backup_dir,
            outcomes,
            at,
        ),
    decreases count,
{
    if count > 0 {
        lemma_restore_of_prefix(rootfs, list, longer, count - 1, backup_dir, outcomes, at);
        assert(list[count - 1] == longer[count - 1]);
    }
}

/// A list with one path more is restored as the list, and then as that path; an error of
/// that path is noted for it. Without any path nothing is done.
pub proof fn law_restore_takes_one_path_after_another(
    rootfs: Seq<char>,
    list: Seq<Seq<char>>,
    path: Seq<char>,
    backup_dir: Seq<char>,
    outcomes: Seq<OutcomeView>,
    at: int,
)
    ensures
        restore_each(rootfs, seq![], 0, backup_dir, outcomes, at) == Progress::<
            Seq<Option<InitramfsErrorView>>,
            InitramfsErrorView,
        >::Returns(seq![], at),
        ({
            let whole = restore_each(
                rootfs,
                list.push(path),
                list.len() as int + 1,
                backup_dir,
                outcomes,
                at,
            );
            match restore_each(rootfs, list, list.len() as int, backup_dir, outcomes, at) {
                Progress::Returns(errors, i) => match restore_path_progress(
                    rootfs,
                    path,
                    backup_dir,
                    outcomes,
                    i,
                ) {
                    Progress::Returns(_, end) => whole == Progress::<
                        Seq<Option<InitramfsErrorView>>,
                        InitramfsErrorView,
                    >::Returns(errors.push(None), end),
                    Progress::Fails(e, end) => whole == Progress::<
                        Seq<Option<InitramfsErrorView>>,
                        InitramfsErrorView,
                    >::Returns(errors.push(Some(e)), end),
                    Progress::Asks(effect) => whole == Progress::<
                        Seq<Option<InitramfsErrorView>>,
                        InitramfsErrorView,
                    >::Asks(effect),
                    Progress::Panics(_) => whole is Panics,
                },
                stopped => whole == stopped,
            }
        }),
{
    let longer = list.push(path);
    let n = list.len() as int;
    assert(list =~= longer.take(n));
    lemma_restore_of_prefix(rootfs, list, longer, n, backup_dir, outcomes, at);
}

/// A path that failed is named behind those that failed before it, and its error is the one
/// that is told. A path that did not fail changes nothing.
pub proof fn law_summary_names_the_paths_that_failed(
    list: Seq<Seq<char>>,
    errors: Seq<Option<InitramfsErrorView>>,
    e: InitramfsErrorView,
)
    ensures
        failed_paths(list, seq![]) == Seq::<Seq<char>>::empty(),
        restore_summary(list, seq![]) == RestoreResultView::Success,
        failed_paths(list, errors.push(None)) == failed_paths(list, errors),
        restore_summary(list, errors.push(None)) == restore_summary(list, errors),
        failed_paths(list, errors.push(Some(e))) == failed_paths(list, errors).push(
            list[errors.len() as int],
        ),
        restore_summary(list, errors.push(Some(e))) == (RestoreResultView::PartialFailure {
            context: joined(";"@, failed_paths(list, errors).push(list[errors.len() as int]))
                + ":restore"@,
            error: e.text(),
        }),
{
    let fine = errors.push(None);
    let failed = errors.push(Some(e));
    assert(fine.drop_last() =~= errors);
    assert(failed.drop_last() =~= errors);
    assert(last_error(fine) == last_error(errors));
}

}
