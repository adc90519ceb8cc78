//! What holds of a factory reset as a whole, at every point where it can be cut short.

use vstd::prelude::*;
use vstd::string::*;

use crate::bootloader::FACTORY_RESET;
use crate::effect::{stays_over, EffectView, OutcomeView, Progress};
use crate::error::InitramfsErrorView;
use crate::factory_reset::backup_restore::{
    backup_each, climb, climb_start, path_below, restore_each, restore_path_progress,
    restore_progress, CP_CMD, MOUNTPOINT_CMD, SYNC_CMD,
};
use crate::factory_reset::config::{applications_each, paths_for_key, preserve_each};
use crate::factory_reset::reformat::{MKFS_EXT4_CMD, TUNE2FS_CMD};
use crate::factory_reset::status::{status_progress, FACTORY_RESET_STATUS_TMP};
use crate::factory_reset::{
    final_status, finish_progress, plan_progress, renew_progress, reset_progress, save_progress,
    saved_progress, start_progress, umount_progress, DATA_DEVICE, ETC_DEVICE, FACTORY_DEVICE,
    FACTORY_RESET_BACKUP_DIR,
};
use crate::path::{join_text, lemma_parent_is_shorter, parent_text};

verus! {

/// Whether the effect empties a partition.
pub open spec fn erases(effect: EffectView) -> bool {
    match effect {
        EffectView::Run { program, .. } => program == MKFS_EXT4_CMD@ || program == TUNE2FS_CMD@,
        _ => false,
    }
}

/// Whether the effect makes one of the two fresh file systems.
pub open spec fn renews(effect: EffectView) -> bool {
    ||| is_renewal(effect, DATA_DEVICE@, "data"@)
    ||| is_renewal(effect, ETC_DEVICE@, "etc"@)
}

/// Whether the effect makes a fresh file system on the device, or labels it.
pub open spec fn is_renewal(effect: EffectView, device: Seq<char>, label: Seq<char>) -> bool {
    ||| effect == EffectView::Run {
        program: MKFS_EXT4_CMD@,
        args: seq!["-F"@, "-q"@, device],
        directory: None,
    }
    ||| effect == EffectView::Run {
        program: TUNE2FS_CMD@,
        args: seq![device, "-c"@, "-1"@, "-i"@, "0"@, "-L"@, label],
        directory: None,
    }
}

/// Whether the effect mounts the factory partition for writing.
pub open spec fn opens_factory(effect: EffectView) -> bool {
    match effect {
        EffectView::Mount { device, read_only, .. } => device == FACTORY_DEVICE@ && !read_only,
        _ => false,
    }
}

/// Whether the effect neither empties a partition, nor writes a file by itself, nor sets
/// a bootloader variable, nor mounts anything.
pub open spec fn is_careful(effect: EffectView) -> bool {
    !(effect is WriteText) && !(effect is SetEnv) && !erases(effect) && !(effect is Mount)
}

/// Whether the effect mounts one of the three partitions of a reset where it belongs, and
/// factory read-only, the others read-write.
pub open spec fn mounts_as_it_should(rootfs: Seq<char>, effect: EffectView) -> bool {
    match effect {
        EffectView::Mount { device, target, fs_type, read_only } => {
            &&& fs_type == "ext4"@
            &&& {
                ||| device == FACTORY_DEVICE@ && target == join_text(rootfs, "mnt/factory"@)
                    && read_only
                ||| device == ETC_DEVICE@ && target == join_text(rootfs, "mnt/etc"@)
                    && !read_only
                ||| device == DATA_DEVICE@ && target == join_text(rootfs, "mnt/data"@)
                    && !read_only
            }
        },
        _ => false,
    }
}

/// Whether the procedure asks for nothing now that is not careful.
pub open spec fn careful<T, E>(procedure: Progress<T, E>) -> bool {
    match procedure {
        Progress::Asks(effect) => is_careful(effect),
        _ => true,
    }
}

/// The commands that a reset runs differ.
pub proof fn lemma_commands()
    ensures
        CP_CMD@ != SYNC_CMD@,
        CP_CMD@ != MOUNTPOINT_CMD@,
        CP_CMD@ != MKFS_EXT4_CMD@,
        CP_CMD@ != TUNE2FS_CMD@,
        SYNC_CMD@ != MKFS_EXT4_CMD@,
        SYNC_CMD@ != TUNE2FS_CMD@,
        MOUNTPOINT_CMD@ != MKFS_EXT4_CMD@,
        MOUNTPOINT_CMD@ != TUNE2FS_CMD@,
{
    reveal_strlit("/bin/cp");
    reveal_strlit("/bin/sync");
    reveal_strlit("mountpoint");
    reveal_strlit("/sbin/mkfs.ext4");
    reveal_strlit("/sbin/tune2fs");
    assert(CP_CMD@.len() == 7);
    assert(SYNC_CMD@.len() == 9);
    assert(MOUNTPOINT_CMD@.len() == 10);
    assert(MKFS_EXT4_CMD@.len() == 15);
    assert(TUNE2FS_CMD@.len() == 13);
}

proof fn lemma_devices()
    ensures
        ETC_DEVICE@ != FACTORY_DEVICE@,
        DATA_DEVICE@ != FACTORY_DEVICE@,
{
    reveal_strlit("/dev/omnect/factory");
    reveal_strlit("/dev/omnect/etc");
    reveal_strlit("/dev/omnect/data");
    assert(FACTORY_DEVICE@.len() == 19);
    assert(ETC_DEVICE@.len() == 15);
    assert(DATA_DEVICE@.len() == 16);
}

proof fn lemma_backup_is_careful(
    rootfs: Seq<char>,
    list: Seq<Seq<char>>,
    count: int,
    backup_dir: Seq<char>,
    outcomes: Seq<OutcomeView>,
    at: int,
)
    ensures
        careful(backup_each(rootfs, list, count, backup_dir, outcomes, at)),
    decreases count,
{
    lemma_commands();
    if count > 0 {
        lemma_backup_is_careful(rootfs, list, count - 1, backup_dir, outcomes, at);
    }
}

proof fn lemma_climb_is_careful(
    rootfs: Seq<char>,
    current: Seq<char>,
    outcomes: Seq<OutcomeView>,
    at: int,
)
    ensures
        careful(climb(rootfs, current, outcomes, at)),
    decreases current.len(),
{
    lemma_commands();
    if let Some(up) = parent_text(current) {
        lemma_parent_is_shorter(current);
        lemma_climb_is_careful(rootfs, up, outcomes, at + 1);
    }
}

proof fn lemma_restore_is_careful(
    rootfs: Seq<char>,
    list: Seq<Seq<char>>,
    count: int,
    backup_dir: Seq<char>,
    outcomes: Seq<OutcomeView>,
    at: int,
)
    ensures
        careful(restore_each(rootfs, list, count, backup_dir, outcomes, at)),
    decreases count,
{
    lemma_commands();
    if count > 0 {
        lemma_restore_is_careful(rootfs, list, count - 1, backup_dir, outcomes, at);
        if let Progress::Returns(_, i) = restore_each(
            rootfs,
            list,
            count - 1,
            backup_dir,
            outcomes,
            at,
        ) {
            let dest = path_below(rootfs, list[count - 1]);
            lemma_climb_is_careful(rootfs, climb_start(dest), outcomes, i + 1);
        }
    }
}

proof fn lemma_applications_are_careful(
    files: Seq<Seq<char>>,
    count: int,
    outcomes: Seq<OutcomeView>,
    at: int,
)
    ensures
        careful(applications_each(files, count, outcomes, at)),
    decreases count,
{
    if count > 0 {
        lemma_applications_are_careful(files, count - 1, outcomes, at);
    }
}

proof fn lemma_preserve_is_careful(
    keys: Seq<Seq<char>>,
    count: int,
    rootfs: Seq<char>,
    outcomes: Seq<OutcomeView>,
    at: int,
)
    ensures
        careful(preserve_each(keys, count, rootfs, outcomes, at)),
    decreases count,
{
    if count > 0 {
        lemma_preserve_is_careful(keys, count - 1, rootfs, outcomes, at);
        if let Progress::Returns(_, i) = preserve_each(keys, count - 1, rootfs, outcomes, at) {
            if 0 <= i < outcomes.len() - 1 {
                if let OutcomeView::Paths(files) = outcomes[i + 1] {
                    lemma_applications_are_careful(files, files.len() as int, outcomes, i + 2);
                }
            }
        }
    }
}

// ---------------------------------------------------------------------------
// Records that grow
// ---------------------------------------------------------------------------

/// A backup that is over stays over.
pub proof fn lemma_backup_stays_over(
    rootfs: Seq<char>,
    list: Seq<Seq<char>>,
    count: int,
    backup_dir: Seq<char>,
    outcomes: Seq<OutcomeView>,
    n: int,
    at: int,
)
    requires
        0 <= at <= n <= outcomes.len(),
    ensures
        stays_over(
            backup_each(rootfs, list, count, backup_dir, outcomes.take(n), at),
            backup_each(rootfs, list, count, backup_dir, outcomes, at),
            at,
            n,
        ),
    decreases count,
{
    if count > 0 {
        lemma_backup_stays_over(rootfs, list, count - 1, backup_dir, outcomes, n, at);
    }
}

/// A search for a mountpoint that is over stays over.
pub proof fn lemma_climb_stays_over(
    rootfs: Seq<char>,
    current: Seq<char>,
    outcomes: Seq<OutcomeView>,
    n: int,
    at: int,
)
    requires
        0 <= at <= n <= outcomes.len(),
    ensures
        stays_over(
            climb(rootfs, current, outcomes.take(n), at),
            climb(rootfs, current, outcomes, at),
            at,
            n,
        ),
    decreases current.len(),
{
    if at < n {
        if let Some(up) = parent_text(current) {
            lemma_parent_is_shorter(current);
            lemma_climb_stays_over(rootfs, up, outcomes, n, at + 1);
        }
    }
}

proof fn lemma_restore_path_stays_over(
    rootfs: Seq<char>,
    path: Seq<char>,
    backup_dir: Seq<char>,
    outcomes: Seq<OutcomeView>,
    n: int,
    at: int,
)
    requires
        0 <= at <= n <= outcomes.len(),
    ensures
        stays_over(
            restore_path_progress(rootfs, path, backup_dir, outcomes.take(n), at),
            restore_path_progress(rootfs, path, backup_dir, outcomes, at),
            at,
            n,
        ),
{
    if at < n {
        let start = climb_start(path_below(rootfs, path));
        lemma_climb_stays_over(rootfs, start, outcomes, n, at + 1);
    }
}

/// A restore that is over stays over.
pub proof fn lemma_restore_stays_over(
    rootfs: Seq<char>,
    list: Seq<Seq<char>>,
    count: int,
    backup_dir: Seq<char>,
    outcomes: Seq<OutcomeView>,
    n: int,
    at: int,
)
    requires
        0 <= at <= n <= outcomes.len(),
    ensures
        stays_over(
            restore_each(rootfs, list, count, backup_dir, outcomes.take(n), at),
            restore_each(rootfs, list, count, backup_dir, outcomes, at),
            at,
            n,
        ),
    decreases count,
{
    if count > 0 {
        lemma_restore_stays_over(rootfs, list, count - 1, backup_dir, outcomes, n, at);
        if let Progress::Returns(_, i) = restore_each(
            rootfs,
            list,
            count - 1,
            backup_dir,
            outcomes.take(n),
            at,
        ) {
            lemma_restore_path_stays_over(rootfs, list[count - 1], backup_dir, outcomes, n, i);
        }
    }
}

proof fn lemma_applications_stay_over(
    files: Seq<Seq<char>>,
    count: int,
    outcomes: Seq<OutcomeView>,
    n: int,
    at: int,
)
    requires
        0 <= at <= n <= outcomes.len(),
    ensures
        stays_over(
            applications_each(files, count, outcomes.take(n), at),
            applications_each(files, count, outcomes, at),
            at,
            n,
        ),
    decreases count,
{
    if count > 0 {
        lemma_applications_stay_over(files, count - 1, outcomes, n, at);
    }
}

proof fn lemma_key_stays_over(
    key: Seq<char>,
    rootfs: Seq<char>,
    outcomes: Seq<OutcomeView>,
    n: int,
    at: int,
)
    requires
        0 <= at <= n <= outcomes.len(),
    ensures
        stays_over(
            paths_for_key(key, rootfs, outcomes.take(n), at),
            paths_for_key(key, rootfs, outcomes, at),
            at,
            n,
        ),
{
    if at + 1 < n {
        if let OutcomeView::Paths(files) = outcomes[at + 1] {
            lemma_applications_stay_over(files, files.len() as int, outcomes, n, at + 2);
        }
    }
}

proof fn lemma_preserve_stays_over(
    keys: Seq<Seq<char>>,
    count: int,
    rootfs: Seq<char>,
    outcomes: Seq<OutcomeView>,
    n: int,
    at: int,
)
    requires
        0 <= at <= n <= outcomes.len(),
    ensures
        stays_over(
            preserve_each(keys, count, rootfs, outcomes.take(n), at),
            preserve_each(keys, count, rootfs, outcomes, at),
            at,
            n,
        ),
    decreases count,
{
    if count > 0 {
        lemma_preserve_stays_over(keys, count - 1, rootfs, outcomes, n, at);
        if let Progress::Returns(_, i) = preserve_each(
            keys,
            count - 1,
            rootfs,
            outcomes.take(n),
            at,
        ) {
            lemma_key_stays_over(keys[count - 1], rootfs, outcomes, n, i);
        }
    }
}

proof fn lemma_start_stays_over(
    rootfs: Seq<char>,
    is_grub: bool,
    outcomes: Seq<OutcomeView>,
    n: int,
)
    requires
        0 <= n <= outcomes.len(),
    ensures
        stays_over(
            start_progress(rootfs, is_grub, outcomes.take(n), 0),
            start_progress(rootfs, is_grub, outcomes, 0),
            0,
            n,
        ),
{
}

proof fn lemma_plan_stays_over(
    json: Seq<char>,
    rootfs: Seq<char>,
    outcomes: Seq<OutcomeView>,
    n: int,
    at: int,
)
    requires
        0 <= at <= n <= outcomes.len(),
    ensures
        stays_over(
            plan_progress(json, rootfs, outcomes.take(n), at),
            plan_progress(json, rootfs, outcomes, at),
            at,
            n,
        ),
{
    if at < n {
        if let OutcomeView::Request(_, keys) = outcomes[at] {
            lemma_preserve_stays_over(keys, keys.len() as int, rootfs, outcomes, n, at + 1);
        }
    }
}

proof fn lemma_save_stays_over(
    rootfs: Seq<char>,
    list: Seq<Seq<char>>,
    outcomes: Seq<OutcomeView>,
    n: int,
    at: int,
)
    requires
        0 <= at <= n <= outcomes.len(),
    ensures
        stays_over(
            save_progress(rootfs, list, outcomes.take(n), at),
            save_progress(rootfs, list, outcomes, at),
            at,
            n,
        ),
{
    if at < n {
        lemma_backup_stays_over(
            rootfs,
            list,
            list.len() as int,
            FACTORY_RESET_BACKUP_DIR@,
            outcomes,
            n,
            at + 1,
        );
    }
}

proof fn lemma_saved_stays_over(
    json: Seq<char>,
    rootfs: Seq<char>,
    is_grub: bool,
    outcomes: Seq<OutcomeView>,
    n: int,
)
    requires
        0 <= n <= outcomes.len(),
    ensures
        stays_over(
            saved_progress(json, rootfs, is_grub, outcomes.take(n), 0),
            saved_progress(json, rootfs, is_grub, outcomes, 0),
            0,
            n,
        ),
{
    lemma_start_stays_over(rootfs, is_grub, outcomes, n);
    if let Progress::Returns(_, i) = start_progress(rootfs, is_grub, outcomes.take(n), 0) {
        lemma_plan_stays_over(json, rootfs, outcomes, n, i);
        if let Progress::Returns(plan, j) = plan_progress(json, rootfs, outcomes.take(n), i) {
            lemma_save_stays_over(rootfs, plan.1, outcomes, n, j);
        }
    }
}

proof fn lemma_renew_stays_over(
    rootfs: Seq<char>,
    outcomes: Seq<OutcomeView>,
    n: int,
    at: int,
)
    requires
        0 <= at <= n <= outcomes.len(),
    ensures
        stays_over(
            renew_progress(rootfs, outcomes.take(n), at),
            renew_progress(rootfs, outcomes, at),
            at,
            n,
        ),
{
}

proof fn lemma_finish_stays_over(
    rootfs: Seq<char>,
    mode: u32,
    list: Seq<Seq<char>>,
    outcomes: Seq<OutcomeView>,
    n: int,
    at: int,
)
    requires
        0 <= at <= n <= outcomes.len(),
    ensures
        stays_over(
            finish_progress(rootfs, mode, list, outcomes.take(n), at),
            finish_progress(rootfs, mode, list, outcomes, at),
            at,
            n,
        ),
{
    lemma_restore_stays_over(
        rootfs,
        list,
        list.len() as int,
        FACTORY_RESET_BACKUP_DIR@,
        outcomes,
        n,
        at,
    );
}

/// A reset that is over stays over: outcomes added to the record change nothing of how
/// it ended.
pub proof fn law_reset_stays_over(
    json: Seq<char>,
    rootfs: Seq<char>,
    is_grub: bool,
    outcomes: Seq<OutcomeView>,
    n: int,
)
    requires
        0 <= n <= outcomes.len(),
    ensures
        stays_over(
            reset_progress(json, rootfs, is_grub, outcomes.take(n), 0),
            reset_progress(json, rootfs, is_grub, outcomes, 0),
            0,
            n,
        ),
{
    let short = outcomes.take(n);
    lemma_saved_stays_over(json, rootfs, is_grub, outcomes, n);
    if let Progress::Returns(plan, i) = saved_progress(json, rootfs, is_grub, short, 0) {
        lemma_renew_stays_over(rootfs, outcomes, n, i);
        if let Progress::Returns(_, j) = renew_progress(rootfs, short, i) {
            lemma_finish_stays_over(rootfs, plan.0, plan.1, outcomes, n, j);
        }
    }
}

/// The start of a reset: the marker, the request taken back, and then nothing but
/// careful effects.
proof fn lemma_start(rootfs: Seq<char>, is_grub: bool, outcomes: Seq<OutcomeView>)
    ensures
        match start_progress(rootfs, is_grub, outcomes, 0) {
            Progress::Asks(effect) => if outcomes.len() == 0 {
                effect == EffectView::WriteText {
                    path: FACTORY_RESET_STATUS_TMP@,
                    text: "null"@,
                }
            } else if outcomes.len() == 1 {
                effect == EffectView::SetEnv { name: FACTORY_RESET@, value: None }
            } else {
                is_careful(effect) || mounts_as_it_should(rootfs, effect)
            },
            Progress::Returns(_, i) => i >= 2,
            _ => true,
        },
{
    lemma_commands();
    lemma_devices();
}

/// The plan of a reset asks for careful effects alone, unless it failed and reports that.
proof fn lemma_plan(json: Seq<char>, rootfs: Seq<char>, outcomes: Seq<OutcomeView>, at: int)
    requires
        0 <= at <= outcomes.len(),
    ensures
        match plan_progress(json, rootfs, outcomes, at) {
            Progress::Asks(effect) => is_careful(effect) || {
                &&& effect is WriteText
                &&& effect->WriteText_path == FACTORY_RESET_STATUS_TMP@
                &&& forall|o: OutcomeView|
                    (#[trigger] plan_progress(json, rootfs, outcomes.push(o), at)) is Fails
            },
            _ => true,
        },
{
    let n = outcomes.len() as int;
    if at < n {
        if let OutcomeView::Request(_, keys) = outcomes[at] {
            lemma_preserve_is_careful(keys, keys.len() as int, rootfs, outcomes, at + 1);
            assert(outcomes.take(n) =~= outcomes);
            lemma_preserve_stays_over(keys, keys.len() as int, rootfs, outcomes, n, at + 1);
            assert forall|o: OutcomeView|
                preserve_each(keys, keys.len() as int, rootfs, outcomes, at + 1)
                    is Fails implies (#[trigger] plan_progress(
                json,
                rootfs,
                outcomes.push(o),
                at,
            )) is Fails || !(plan_progress(json, rootfs, outcomes, at) is Asks) by {
                let long = outcomes.push(o);
                assert(long.take(n) =~= outcomes);
                lemma_preserve_stays_over(keys, keys.len() as int, rootfs, long, n, at + 1);
            }
        }
    }
}

/// Saving asks for careful effects alone, unless the backup failed and that is reported.
proof fn lemma_save(
    rootfs: Seq<char>,
    list: Seq<Seq<char>>,
    outcomes: Seq<OutcomeView>,
    at: int,
)
    requires
        0 <= at <= outcomes.len(),
    ensures
        match save_progress(rootfs, list, outcomes, at) {
            Progress::Asks(effect) => is_careful(effect) || {
                &&& effect is WriteText
                &&& effect->WriteText_path == FACTORY_RESET_STATUS_TMP@
                &&& forall|o: OutcomeView|
                    (#[trigger] save_progress(rootfs, list, outcomes.push(o), at)) is Fails
            },
            _ => true,
        },
{
    let n = outcomes.len() as int;
    let dir = FACTORY_RESET_BACKUP_DIR@;
    let all = list.len() as int;
    if at < n {
        lemma_backup_is_careful(rootfs, list, all, dir, outcomes, at + 1);
        assert(outcomes.take(n) =~= outcomes);
        lemma_backup_stays_over(rootfs, list, all, dir, outcomes, n, at + 1);
        assert forall|o: OutcomeView|
            backup_each(rootfs, list, all, dir, outcomes, at + 1) is Fails implies (
        #[trigger] save_progress(rootfs, list, outcomes.push(o), at)) is Fails || !(save_progress(
            rootfs,
            list,
            outcomes,
            at,
        ) is Asks) by {
            let long = outcomes.push(o);
            assert(long.take(n) =~= outcomes);
            lemma_backup_stays_over(rootfs, list, all, dir, long, n, at + 1);
        }
    }
}

/// The end of a reset asks for careful effects alone, but for the final status, which is
/// the last.
proof fn lemma_finish(
    rootfs: Seq<char>,
    mode: u32,
    list: Seq<Seq<char>>,
    outcomes: Seq<OutcomeView>,
    at: int,
)
    requires
        0 <= at <= outcomes.len(),
    ensures
        match finish_progress(rootfs, mode, list, outcomes, at) {
            Progress::Asks(effect) => is_careful(effect) || {
                &&& effect is WriteText
                &&& effect->WriteText_path == FACTORY_RESET_STATUS_TMP@
                &&& forall|o: OutcomeView|
                    !((#[trigger] finish_progress(rootfs, mode, list, outcomes.push(o), at))
                        is Asks)
            },
            _ => true,
        },
{
    let n = outcomes.len() as int;
    let dir = FACTORY_RESET_BACKUP_DIR@;
    let all = list.len() as int;
    lemma_restore_is_careful(rootfs, list, all, dir, outcomes, at);
    assert(outcomes.take(n) =~= outcomes);
    lemma_restore_stays_over(rootfs, list, all, dir, outcomes, n, at);
    assert forall|o: OutcomeView|
        restore_each(rootfs, list, all, dir, outcomes, at) is Returns && restore_each(
            rootfs,
            list,
            all,
            dir,
            outcomes,
            at,
        )->Returns_1 + 1 == n implies !((#[trigger] finish_progress(
        rootfs,
        mode,
        list,
        outcomes.push(o),
        at,
    )) is Asks) by {
        let long = outcomes.push(o);
        assert(long.take(n) =~= outcomes);
        lemma_restore_stays_over(rootfs, list, all, dir, long, n, at);
    }
}

/// Whether one more outcome, whatever it is, ends the reset.
pub open spec fn ends_next(
    json: Seq<char>,
    rootfs: Seq<char>,
    is_grub: bool,
    outcomes: Seq<OutcomeView>,
) -> bool {
    forall|o: OutcomeView|
        !((#[trigger] reset_progress(json, rootfs, is_grub, outcomes.push(o), 0)) is Asks)
}

/// What a reset can ask for up to the point where nothing has been lost yet.
proof fn lemma_saved(
    json: Seq<char>,
    rootfs: Seq<char>,
    is_grub: bool,
    outcomes: Seq<OutcomeView>,
)
    ensures
        match saved_progress(json, rootfs, is_grub, outcomes, 0) {
            Progress::Asks(effect) => {
                ||| is_careful(effect)
                ||| mounts_as_it_should(rootfs, effect)
                ||| outcomes.len() == 0 && effect == (EffectView::WriteText {
                    path: FACTORY_RESET_STATUS_TMP@,
                    text: "null"@,
                })
                ||| outcomes.len() == 1 && effect == (EffectView::SetEnv {
                    name: FACTORY_RESET@,
                    value: None,
                })
                ||| {
                    &&& effect is WriteText
                    &&& effect->WriteText_path == FACTORY_RESET_STATUS_TMP@
                    &&& forall|o: OutcomeView|
                        (#[trigger] saved_progress(json, rootfs, is_grub, outcomes.push(o), 0))
                            is Fails
                }
            },
            _ => true,
        },
{
    let n = outcomes.len() as int;
    assert(outcomes.take(n) =~= outcomes);
    lemma_start(rootfs, is_grub, outcomes);
    lemma_start_stays_over(rootfs, is_grub, outcomes, n);
    if let Progress::Returns(_, i) = start_progress(rootfs, is_grub, outcomes, 0) {
        lemma_plan(json, rootfs, outcomes, i);
        lemma_plan_stays_over(json, rootfs, outcomes, n, i);
        if let Progress::Returns(plan, j) = plan_progress(json, rootfs, outcomes, i) {
            lemma_save(rootfs, plan.1, outcomes, j);
        }
        assert forall|o: OutcomeView|
            saved_progress(json, rootfs, is_grub, outcomes, 0) is Asks && !is_careful(
                saved_progress(json, rootfs, is_grub, outcomes, 0)->Asks_0,
            ) implies (#[trigger] saved_progress(json, rootfs, is_grub, outcomes.push(o), 0))
            is Fails by {
            let long = outcomes.push(o);
            assert(long.take(n) =~= outcomes);
            lemma_start_stays_over(rootfs, is_grub, long, n);
            lemma_plan_stays_over(json, rootfs, long, n, i);
            assert(plan_progress(json, rootfs, outcomes, i) is Asks ==> plan_progress(
                json,
                rootfs,
                long,
                i,
            ) is Fails);
        }
    }
}

/// What a reset can ask for while it makes fresh file systems.
proof fn lemma_renew(rootfs: Seq<char>, outcomes: Seq<OutcomeView>, at: int)
    requires
        0 <= at <= outcomes.len(),
    ensures
        match renew_progress(rootfs, outcomes, at) {
            Progress::Asks(effect) => {
                ||| is_careful(effect)
                ||| mounts_as_it_should(rootfs, effect)
                ||| renews(effect)
            },
            _ => true,
        },
{
    lemma_devices();
}

/// What a reset can ask for.
proof fn lemma_reset(
    json: Seq<char>,
    rootfs: Seq<char>,
    is_grub: bool,
    outcomes: Seq<OutcomeView>,
)
    ensures
        match reset_progress(json, rootfs, is_grub, outcomes, 0) {
            Progress::Asks(effect) => {
                ||| is_careful(effect)
                ||| mounts_as_it_should(rootfs, effect)
                ||| outcomes.len() == 0 && effect == (EffectView::WriteText {
                    path: FACTORY_RESET_STATUS_TMP@,
                    text: "null"@,
                })
                ||| outcomes.len() == 1 && effect == (EffectView::SetEnv {
                    name: FACTORY_RESET@,
                    value: None,
                })
                ||| renews(effect) && saved_progress(json, rootfs, is_grub, outcomes, 0) is Returns
                ||| effect is WriteText && effect->WriteText_path == FACTORY_RESET_STATUS_TMP@
                    && ends_next(json, rootfs, is_grub, outcomes)
            },
            _ => true,
        },
{
    let n = outcomes.len() as int;
    assert(outcomes.take(n) =~= outcomes);
    lemma_saved(json, rootfs, is_grub, outcomes);
    lemma_saved_stays_over(json, rootfs, is_grub, outcomes, n);
    match saved_progress(json, rootfs, is_grub, outcomes, 0) {
        Progress::Returns(plan, j) => {
            lemma_renew(rootfs, outcomes, j);
            lemma_renew_stays_over(rootfs, outcomes, n, j);
            if let Progress::Returns(_, k) = renew_progress(rootfs, outcomes, j) {
                lemma_finish(rootfs, plan.0, plan.1, outcomes, k);
                if finish_progress(rootfs, plan.0, plan.1, outcomes, k) is Asks && !is_careful(
                    finish_progress(rootfs, plan.0, plan.1, outcomes, k)->Asks_0,
                ) {
                    assert forall|o: OutcomeView|
                        !((#[trigger] reset_progress(
                            json,
                            rootfs,
                            is_grub,
                            outcomes.push(o),
                            0,
                        )) is Asks) by {
                        let long = outcomes.push(o);
                        assert(long.take(n) =~= outcomes);
                        lemma_saved_stays_over(json, rootfs, is_grub, long, n);
                        lemma_renew_stays_over(rootfs, long, n, j);
                        assert(!(finish_progress(rootfs, plan.0, plan.1, long, k) is Asks));
                    }
                }
            }
        },
        Progress::Asks(effect) => {
            if effect is WriteText && outcomes.len() > 0 {
                assert forall|o: OutcomeView|
                    !((#[trigger] reset_progress(json, rootfs, is_grub, outcomes.push(o), 0))
                        is Asks) by {
                    assert(saved_progress(json, rootfs, is_grub, outcomes.push(o), 0) is Fails);
                }
            }
        },
        _ => {},
    }
}

/// A reset starts with its marker in the status file, and then takes back its request.
/// Unless both are done, it fails and does nothing else.
pub proof fn law_request_is_taken_back_first(
    json: Seq<char>,
    rootfs: Seq<char>,
    is_grub: bool,
    outcomes: Seq<OutcomeView>,
)
    ensures
        outcomes.len() == 0 ==> reset_progress(json, rootfs, is_grub, outcomes, 0)
            == Progress::<(), InitramfsErrorView>::Asks(
            EffectView::WriteText { path: FACTORY_RESET_STATUS_TMP@, text: "null"@ },
        ),
        outcomes.len() == 1 && outcomes[0] is Done ==> reset_progress(
            json,
            rootfs,
            is_grub,
            outcomes,
            0,
        ) == Progress::<(), InitramfsErrorView>::Asks(
            EffectView::SetEnv { name: FACTORY_RESET@, value: None },
        ),
        outcomes.len() >= 1 && !(outcomes[0] is Done) ==> reset_progress(
            json,
            rootfs,
            is_grub,
            outcomes,
            0,
        ) is Fails,
        outcomes.len() >= 2 && !(outcomes[1] is Done) ==> reset_progress(
            json,
            rootfs,
            is_grub,
            outcomes,
            0,
        ) is Fails,
{
}

/// A reset sets no bootloader variable but that of its request, and that only as its
/// second effect.
pub proof fn law_reset_sets_one_variable(
    json: Seq<char>,
    rootfs: Seq<char>,
    is_grub: bool,
    outcomes: Seq<OutcomeView>,
)
    ensures
        match reset_progress(json, rootfs, is_grub, outcomes, 0) {
            Progress::Asks(effect) => effect is SetEnv ==> outcomes.len() == 1 && effect
                == (EffectView::SetEnv { name: FACTORY_RESET@, value: None }),
            _ => true,
        },
{
    lemma_reset(json, rootfs, is_grub, outcomes);
}

/// No partition is emptied but data and etc, and these only when every path to preserve is
/// backed up and the partitions are unmounted.
pub proof fn law_nothing_is_erased_before_it_is_saved(
    json: Seq<char>,
    rootfs: Seq<char>,
    is_grub: bool,
    outcomes: Seq<OutcomeView>,
)
    ensures
        match reset_progress(json, rootfs, is_grub, outcomes, 0) {
            Progress::Asks(effect) => erases(effect) ==> {
                &&& renews(effect)
                &&& saved_progress(json, rootfs, is_grub, outcomes, 0) is Returns
            },
            _ => true,
        },
{
    lemma_reset(json, rootfs, is_grub, outcomes);
}

/// Whatever a reset mounts, it mounts where it belongs: factory read-only, etc and data so
/// that they can be written.
pub proof fn law_reset_mounts_as_it_should(
    json: Seq<char>,
    rootfs: Seq<char>,
    is_grub: bool,
    outcomes: Seq<OutcomeView>,
)
    ensures
        match reset_progress(json, rootfs, is_grub, outcomes, 0) {
            Progress::Asks(EffectView::Mount { device, target, fs_type, read_only }) => {
                &&& fs_type == "ext4"@
                &&& {
                    ||| device == "/dev/omnect/factory"@ && target == join_text(
                        rootfs,
                        "mnt/factory"@,
                    ) && read_only
                    ||| device == "/dev/omnect/etc"@ && target == join_text(rootfs, "mnt/etc"@)
                        && !read_only
                    ||| device == "/dev/omnect/data"@ && target == join_text(rootfs, "mnt/data"@)
                        && !read_only
                }
            },
            _ => true,
        },
{
    lemma_reset(json, rootfs, is_grub, outcomes);
}

/// A reset never mounts the factory partition for writing.
pub proof fn law_factory_is_mounted_read_only(
    json: Seq<char>,
    rootfs: Seq<char>,
    is_grub: bool,
    outcomes: Seq<OutcomeView>,
)
    ensures
        match reset_progress(json, rootfs, is_grub, outcomes, 0) {
            Progress::Asks(effect) => !opens_factory(effect),
            _ => true,
        },
{
    lemma_devices();
    lemma_reset(json, rootfs, is_grub, outcomes);
}

/// The only file that a reset writes itself is that of its status. The marker comes
/// first; any other status comes last, so that a reset which is cut short leaves the
/// marker behind.
pub proof fn law_status_is_written_last(
    json: Seq<char>,
    rootfs: Seq<char>,
    is_grub: bool,
    outcomes: Seq<OutcomeView>,
)
    ensures
        match reset_progress(json, rootfs, is_grub, outcomes, 0) {
            Progress::Asks(EffectView::WriteText { path, text }) => {
                &&& path == FACTORY_RESET_STATUS_TMP@
                &&& if outcomes.len() == 0 {
                    text == "null"@
                } else {
                    ends_next(json, rootfs, is_grub, outcomes)
                }
            },
            _ => true,
        },
{
    lemma_reset(json, rootfs, is_grub, outcomes);
}

/// A reset that returns has saved its paths, renewed both partitions, tried to restore
/// every path, unmounted, and written the status that the restore came to.
pub proof fn law_reset_that_returns_is_complete(
    json: Seq<char>,
    rootfs: Seq<char>,
    is_grub: bool,
    outcomes: Seq<OutcomeView>,
)
    requires
        reset_progress(json, rootfs, is_grub, outcomes, 0) is Returns,
    ensures
        match saved_progress(json, rootfs, is_grub, outcomes, 0) {
            Progress::Returns(plan, i) => match renew_progress(rootfs, outcomes, i) {
                Progress::Returns(_, j) => match restore_progress(
                    rootfs,
                    plan.1,
                    FACTORY_RESET_BACKUP_DIR@,
                    outcomes,
                    j,
                ) {
                    Progress::Returns(result, k) => {
                        &&& umount_progress(outcomes, k) == Progress::<
                            (),
                            InitramfsErrorView,
                        >::Returns((), k + 1)
                        &&& status_progress(final_status(plan.0, plan.1, result), outcomes, k + 1)
                            == reset_progress(json, rootfs, is_grub, outcomes, 0)
                    },
                    _ => false,
                },
                _ => false,
            },
            _ => false,
        },
{
}

}
