//! What becomes of files when paths are backed up and restored.
//!
//! Files are known by the names of their paths, from the root on. A path without a root is
//! read from the working directory, which has names from the root on too. Links are not
//! followed, and no path is taken to go up by `..`.

use vstd::prelude::*;
use vstd::string::*;

use crate::effect::{ran_well, EffectView, OutcomeView, Progress};
use crate::error::InitramfsErrorView;
use crate::factory_reset::backup_restore::{
    backup_of_root, backup_path_progress, climb_start, law_climb_finds_the_deepest,
    law_paths_stay_below_root, law_restore_puts_a_path_back, lemma_backup_of_root, path_below,
    path_from_mount, restore_path_progress, search_progress, starts_with, CP_CMD,
};
use crate::factory_reset::laws::{lemma_climb_stays_over, lemma_commands};
use crate::path::{
    has_dot, has_root, join_text, lemma_join_names, lemma_without_leading_slashes, names,
};
use crate::text::{after_prefix, without_leading_slashes};

verus! {

/// What there is at a path.
pub open spec fn entry<A>(files: Map<Seq<Seq<char>>, A>, path: Seq<Seq<char>>) -> Option<A> {
    if files.contains_key(path) {
        Some(files[path])
    } else {
        None
    }
}

/// All that there is at a path and below it, by its path from there.
pub open spec fn tree<A>(files: Map<Seq<Seq<char>>, A>, top: Seq<Seq<char>>) -> Map<
    Seq<Seq<char>>,
    A,
> {
    Map::new(
        |rest: Seq<Seq<char>>| files.contains_key(top + rest),
        |rest: Seq<Seq<char>>| files[top + rest],
    )
}

/// Whether the files changed as they do when what is at `from` is copied to `to`, with the
/// directories on the way from `dir` to `to`. What was at `to` stays where nothing comes
/// to lie over it. What becomes of the directories on the way is left open.
pub open spec fn is_copy<A>(
    before: Map<Seq<Seq<char>>, A>,
    after: Map<Seq<Seq<char>>, A>,
    from: Seq<Seq<char>>,
    dir: Seq<Seq<char>>,
    to: Seq<Seq<char>>,
) -> bool {
    &&& forall|rest: Seq<Seq<char>>| #[trigger]
        entry(after, to + rest) == if before.contains_key(from + rest) {
            Some(before[from + rest])
        } else {
            entry(before, to + rest)
        }
    &&& forall|path: Seq<Seq<char>>|
        !starts_with(path, to) && !(starts_with(path, dir) && starts_with(to, path))
            ==> #[trigger] entry(after, path) == entry(before, path)
}

/// The names of a path from the root on, as it is read in the directory `current`.
pub open spec fn place(current: Seq<Seq<char>>, path: Seq<char>) -> Seq<Seq<char>> {
    if has_root(path) {
        names(path)
    } else {
        current + names(path)
    }
}

/// The directory that a program runs in, where its caller runs in `current`.
pub open spec fn run_place(
    current: Seq<Seq<char>>,
    directory: Option<Seq<char>>,
) -> Seq<Seq<char>> {
    match directory {
        Some(path) => place(current, path),
        None => current,
    }
}

/// Whether the effect is a copy by `cp --parents -a`, and the files changed as that says:
/// the source is copied to its full name below the target directory. The caller runs in
/// the directory `current`.
pub open spec fn copies<A>(
    effect: EffectView,
    current: Seq<Seq<char>>,
    before: Map<Seq<Seq<char>>, A>,
    after: Map<Seq<Seq<char>>, A>,
) -> bool {
    match effect {
        EffectView::Run { program, args, directory } => {
            let here = run_place(current, directory);
            &&& program == CP_CMD@
            &&& args.len() == 4
            &&& args[0] == "--parents"@
            &&& args[1] == "-a"@
            &&& is_copy(
                before,
                after,
                place(here, args[2]),
                place(here, args[3]),
                place(here, args[3]) + names(args[2]),
            )
        },
        _ => false,
    }
}

/// The directory that a copy goes to.
pub open spec fn target_of(effect: EffectView, current: Seq<Seq<char>>) -> Seq<Seq<char>> {
    place(run_place(current, effect->Run_directory), effect->Run_args[3])
}

proof fn lemma_same_tree<A>(
    one: Map<Seq<Seq<char>>, A>,
    other: Map<Seq<Seq<char>>, A>,
    top: Seq<Seq<char>>,
)
    requires
        forall|rest: Seq<Seq<char>>| #[trigger]
            entry(one, top + rest) == entry(other, top + rest),
    ensures
        tree(one, top) == tree(other, top),
{
    assert forall|rest: Seq<Seq<char>>| #[trigger]
        tree(one, top).contains_key(rest) == tree(other, top).contains_key(rest) by {
        assert(entry(one, top + rest) == entry(other, top + rest));
    }
    assert forall|rest: Seq<Seq<char>>| tree(one, top).contains_key(rest) implies #[trigger] tree(
        one,
        top,
    )[rest] == tree(other, top)[rest] by {
        assert(entry(one, top + rest) == entry(other, top + rest));
    }
    assert(tree(one, top) =~= tree(other, top));
}

/// The copy of a backup goes from the path to its full name below the backup directory.
proof fn lemma_backup_copy<A>(
    rootfs: Seq<char>,
    path: Seq<char>,
    backup_dir: Seq<char>,
    outcomes: Seq<OutcomeView>,
    at: int,
    current: Seq<Seq<char>>,
    before: Map<Seq<Seq<char>>, A>,
    after: Map<Seq<Seq<char>>, A>,
)
    requires
        has_root(rootfs),
        backup_path_progress(rootfs, path, backup_dir, outcomes, at) is Asks,
        copies(
            backup_path_progress(rootfs, path, backup_dir, outcomes, at)->Asks_0,
            current,
            before,
            after,
        ),
    ensures
        is_copy(
            before,
            after,
            names(path_below(rootfs, path)),
            place(current, backup_dir),
            place(current, backup_dir) + names(path_below(rootfs, path)),
        ),
{
    lemma_commands();
    lemma_without_leading_slashes(path);
    lemma_join_names(rootfs, without_leading_slashes(path));
}

/// The copy of a restore goes from where the backup holds the path to the path, into a
/// mountpoint strictly between the root and the path.
proof fn lemma_restore_copy<A>(
    rootfs: Seq<char>,
    path: Seq<char>,
    backup_dir: Seq<char>,
    outcomes: Seq<OutcomeView>,
    at: int,
    current: Seq<Seq<char>>,
    before: Map<Seq<Seq<char>>, A>,
    after: Map<Seq<Seq<char>>, A>,
)
    requires
        has_root(rootfs),
        !has_dot(without_leading_slashes(path)),
        0 <= at <= outcomes.len(),
        restore_path_progress(rootfs, path, backup_dir, outcomes, at) is Asks,
        copies(
            restore_path_progress(rootfs, path, backup_dir, outcomes, at)->Asks_0,
            current,
            before,
            after,
        ),
    ensures
        ({
            let dest = names(path_below(rootfs, path));
            let mount = target_of(
                restore_path_progress(rootfs, path, backup_dir, outcomes, at)->Asks_0,
                current,
            );
            &&& is_copy(before, after, place(current, backup_dir) + dest, mount, dest)
            &&& names(rootfs).len() < mount.len() < dest.len()
            &&& starts_with(mount, names(rootfs))
            &&& starts_with(dest, mount)
        }),
        at < outcomes.len(),
        search_progress(rootfs, path_below(rootfs, path), outcomes, at + 1) is Returns,
        search_progress(rootfs, path_below(rootfs, path), outcomes, at + 1)->Returns_0 is Some,
        search_progress(rootfs, path_below(rootfs, path), outcomes, at + 1)->Returns_1
            == outcomes.len(),
{
    lemma_commands();
    let dest = path_below(rootfs, path);
    let base = backup_of_root(rootfs, backup_dir);
    law_climb_finds_the_deepest(rootfs, climb_start(dest), outcomes, at + 1);
    let found = search_progress(rootfs, dest, outcomes, at + 1);
    let name = found->Returns_0->Some_0;
    let end = found->Returns_1;
    law_restore_puts_a_path_back(rootfs, path, base, name, outcomes, at + 1, end);
    let mount = without_leading_slashes(name);
    let rest = path_from_mount(path, mount);
    lemma_without_leading_slashes(name);
    lemma_join_names(rootfs, mount);
    law_paths_stay_below_root(rootfs, path);
    lemma_backup_of_root(rootfs, backup_dir);
    lemma_join_names(base, mount);
    lemma_rest_has_no_root(path, mount);
    let target = names(rootfs) + names(mount);
    let backup = place(current, backup_dir);
    assert(place(current, join_text(base, mount)) =~= backup + target);
    assert((backup + target) + names(rest) =~= backup + (target + names(rest)));
    assert(target + names(rest) =~= names(dest));
    assert(target.take(names(rootfs).len() as int) =~= names(rootfs));
    assert(names(dest).take(target.len() as int) =~= target);
}

proof fn lemma_rest_has_no_root(path: Seq<char>, mount: Seq<char>)
    ensures
        !has_root(path_from_mount(path, mount)),
{
    let stripped = without_leading_slashes(path);
    match after_prefix(stripped, mount) {
        Some(rest) => lemma_without_leading_slashes(rest),
        None => lemma_without_leading_slashes(stripped),
    }
}

/// What was backed up comes back. A path's files are copied into the backup, which held
/// nothing of that name that the path does not hold too; the file system that the path lies
/// on is emptied, and the backup stays; and the copy of the restore is made. Then the path
/// holds what it held before. Nothing outside that file system has changed by the restore,
/// nor has a backup that lies apart from it. And the restore returns once the copy and the
/// flush behind it have run.
pub proof fn law_restore_gives_back_what_was_backed_up<A>(
    rootfs: Seq<char>,
    path: Seq<char>,
    backup_dir: Seq<char>,
    saving: Seq<OutcomeView>,
    save_at: int,
    restoring: Seq<OutcomeView>,
    restore_at: int,
    current: Seq<Seq<char>>,
    at_first: Map<Seq<Seq<char>>, A>,
    saved: Map<Seq<Seq<char>>, A>,
    emptied: Map<Seq<Seq<char>>, A>,
    restored: Map<Seq<Seq<char>>, A>,
)
    requires
        has_root(rootfs),
        !has_dot(without_leading_slashes(path)),
        0 <= restore_at <= restoring.len(),
        backup_path_progress(rootfs, path, backup_dir, saving, save_at) is Asks,
        restore_path_progress(rootfs, path, backup_dir, restoring, restore_at) is Asks,
        ({
            let dest = names(path_below(rootfs, path));
            let backup = place(current, backup_dir);
            let save = backup_path_progress(rootfs, path, backup_dir, saving, save_at)->Asks_0;
            let restore = restore_path_progress(
                rootfs,
                path,
                backup_dir,
                restoring,
                restore_at,
            )->Asks_0;
            let mount = target_of(restore, current);
            &&& copies(save, current, at_first, saved)
            &&& tree(at_first, backup + dest).dom().subset_of(tree(at_first, dest).dom())
            &&& tree(emptied, backup) == tree(saved, backup)
            &&& forall|p: Seq<Seq<char>>|
                starts_with(p, mount) && p != mount ==> !#[trigger] emptied.contains_key(p)
            &&& copies(restore, current, emptied, restored)
        }),
    ensures
        ({
            let dest = names(path_below(rootfs, path));
            let backup = place(current, backup_dir);
            let mount = target_of(
                restore_path_progress(
                    rootfs,
                    path,
                    backup_dir,
                    restoring,
                    restore_at,
                )->Asks_0,
                current,
            );
            &&& tree(restored, dest) == tree(at_first, dest)
            &&& forall|p: Seq<Seq<char>>|
                !starts_with(p, mount) ==> #[trigger] entry(restored, p) == entry(emptied, p)
            &&& !starts_with(backup, mount) && !starts_with(mount, backup) ==> tree(
                restored,
                backup,
            ) == tree(emptied, backup)
            &&& names(rootfs).len() < mount.len() < dest.len()
            &&& starts_with(mount, names(rootfs))
            &&& starts_with(dest, mount)
        }),
        forall|copied: OutcomeView, flushed: OutcomeView|
            ran_well(copied) && flushed is Output ==> #[trigger] restore_path_progress(
                rootfs,
                path,
                backup_dir,
                restoring.push(copied).push(flushed),
                restore_at,
            ) == Progress::<(), InitramfsErrorView>::Returns((), restoring.len() as int + 2),
{
    let dest = names(path_below(rootfs, path));
    let backup = place(current, backup_dir);
    let restore = restore_path_progress(
        rootfs,
        path,
        backup_dir,
        restoring,
        restore_at,
    )->Asks_0;
    let mount = target_of(restore, current);
    lemma_backup_copy(rootfs, path, backup_dir, saving, save_at, current, at_first, saved);
    lemma_restore_copy(
        rootfs,
        path,
        backup_dir,
        restoring,
        restore_at,
        current,
        emptied,
        restored,
    );
    assert forall|rest: Seq<Seq<char>>|
        #[trigger]
        entry(restored, dest + rest) == entry(at_first, dest + rest) by {
        let kept = (backup + dest) + rest;
        assert(kept =~= backup + (dest + rest));
        assert(entry(saved, kept) == if at_first.contains_key(dest + rest) {
            Some(at_first[dest + rest])
        } else {
            entry(at_first, kept)
        });
        assert(tree(at_first, backup + dest).dom().contains(rest) ==> tree(
            at_first,
            dest,
        ).dom().contains(rest));
        assert(tree(emptied, backup).contains_key(dest + rest) == tree(
            saved,
            backup,
        ).contains_key(dest + rest));
        assert(tree(emptied, backup)[dest + rest] == tree(saved, backup)[dest + rest]);
        assert(entry(emptied, kept) == entry(saved, kept));
        assert((dest + rest).take(mount.len() as int) =~= mount);
        assert(entry(restored, dest + rest) == if emptied.contains_key(kept) {
            Some(emptied[kept])
        } else {
            entry(emptied, dest + rest)
        });
    }
    lemma_same_tree(restored, at_first, dest);
    assert forall|p: Seq<Seq<char>>| !starts_with(p, mount) implies #[trigger] entry(restored, p)
        == entry(emptied, p) by {
        if starts_with(p, dest) {
            assert(p.take(mount.len() as int) =~= dest.take(mount.len() as int));
        }
    }
    if !starts_with(backup, mount) && !starts_with(mount, backup) {
        assert forall|rest: Seq<Seq<char>>| #[trigger]
            entry(restored, backup + rest) == entry(emptied, backup + rest) by {
            let p = backup + rest;
            if starts_with(p, mount) {
                if backup.len() <= mount.len() {
                    assert(mount.take(backup.len() as int) =~= backup);
                } else {
                    assert(backup.take(mount.len() as int) =~= mount);
                }
            }
        }
        lemma_same_tree(restored, emptied, backup);
    }
    let n = restoring.len() as int;
    assert forall|copied: OutcomeView, flushed: OutcomeView|
        ran_well(copied) && flushed is Output implies #[trigger] restore_path_progress(
        rootfs,
        path,
        backup_dir,
        restoring.push(copied).push(flushed),
        restore_at,
    ) == Progress::<(), InitramfsErrorView>::Returns((), n + 2) by {
        let long = restoring.push(copied).push(flushed);
        assert(long.take(n) =~= restoring);
        let start = climb_start(path_below(rootfs, path));
        lemma_climb_stays_over(rootfs, start, long, n, restore_at + 1);
    }
}

}
