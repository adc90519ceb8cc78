//! Factory reset.
//!
//! A reset saves the paths to preserve, makes fresh file systems on the data and
//! etc partitions, and puts the saved paths back. It runs before the late
//! partitions are mounted, when the bootloader variable for it is set.

use vstd::prelude::*;
use vstd::string::*;

use crate::bootloader::FACTORY_RESET;
use crate::effect::{
    and_then, ask, doing, perform, progress, regardless, value, value_of, why_undone, Effect,
    EffectView, Outcome, OutcomeView, Progress, Stop,
};
use crate::error::{
    FactoryResetError, FactoryResetErrorView, InitramfsError, InitramfsErrorView,
};
use crate::factory_reset::backup_restore::{
    backup_all, backup_progress, restore_all, restore_progress, RestoreResult, RestoreResultView,
    SYNC_CMD,
};
use crate::factory_reset::config::{
    build_preserve_list, parse_progress, preserve_progress, FactoryResetConfig,
    FactoryResetConfigView,
};
use crate::factory_reset::reformat::{reformat_ext4, reformat_progress};
use crate::factory_reset::status::{
    null_status_progress, status_code, status_progress, write_null_status, write_status,
    FactoryResetStatus, FactoryResetStatusView,
};
use crate::number::{decimal, decimal_text};
use crate::path::{join, join_text};
use crate::text::{concat2, concat3, copy_of, debug_list, debug_text, join_with, joined};

pub mod backup_restore;
pub mod config;
pub mod files;
pub mod laws;
pub mod path_laws;
pub mod reformat;
pub mod status;
pub mod steps;

verus! {

/// Where the paths to preserve are kept meanwhile.
pub const FACTORY_RESET_BACKUP_DIR: &'static str = "/tmp/factory_reset/backup";

pub const FACTORY_DEVICE: &'static str = "/dev/omnect/factory";

pub const ETC_DEVICE: &'static str = "/dev/omnect/etc";

pub const DATA_DEVICE: &'static str = "/dev/omnect/data";

// ---------------------------------------------------------------------------
// The request
// ---------------------------------------------------------------------------

/// The request that a bootloader variable's value stands for: none if it is empty.
pub open spec fn request_in(value: Option<Seq<char>>) -> Option<Seq<char>> {
    match value {
        Some(text) => if text.len() == 0 {
            None
        } else {
            Some(text)
        },
        None => None,
    }
}

/// Reads the bootloader variable for a factory reset.
pub open spec fn requested_progress(outcomes: Seq<OutcomeView>, at: int) -> Progress<
    Option<Seq<char>>,
    InitramfsErrorView,
> {
    and_then(
        ask(EffectView::GetEnv { name: FACTORY_RESET@ }, outcomes, at),
        |outcome: OutcomeView, i: int| Progress::Returns(request_in(value_of(outcome)), i),
    )
}

/// Tells whether a factory reset is to be run: the JSON text of its request if so.
/// There is none where the variable is empty, not set or cannot be read.
pub fn factory_reset_requested(outcomes: &Vec<Outcome>, at: &mut usize) -> (r: Result<
    Option<String>,
    Stop<InitramfsError>,
>)
    ensures
        progress(r, *final(at)) == requested_progress(outcomes.deep_view(), *old(at) as int),
{
    let effect = Effect::GetEnv { name: FACTORY_RESET.to_owned() };
    match value(perform(effect, outcomes, at)?) {
        Some(text) => {
            if text.as_str().is_empty() {
                Ok(None)
            } else {
                Ok(Some(text))
            }
        },
        None => Ok(None),
    }
}

// ---------------------------------------------------------------------------
// Mounts
// ---------------------------------------------------------------------------

pub open spec fn mount_error(text: Seq<char>) -> InitramfsErrorView {
    InitramfsErrorView::FactoryReset(FactoryResetErrorView::MountError(text))
}

/// Mounts one ext4 partition on a directory, which is created first.
pub open spec fn mount_one(
    name: Seq<char>,
    device: Seq<char>,
    target: Seq<char>,
    read_only: bool,
    outcomes: Seq<OutcomeView>,
    at: int,
) -> Progress<(), InitramfsErrorView> {
    and_then(
        doing(
            EffectView::CreateDirectories { path: target },
            |e: Seq<char>| InitramfsErrorView::Io(e),
            outcomes,
            at,
        ),
        |_created: (), i: int|
            doing(
                EffectView::Mount { device, target, fs_type: "ext4"@, read_only },
                |e: Seq<char>| mount_error(name + ": "@ + e),
                outcomes,
                i,
            ),
    )
}

fn mount_partition(
    name: &str,
    device: &str,
    target: &str,
    read_only: bool,
    outcomes: &Vec<Outcome>,
    at: &mut usize,
) -> (r: Result<(), Stop<InitramfsError>>)
    ensures
        progress(r, *final(at)) == mount_one(
            name@,
            device@,
            target@,
            read_only,
            outcomes.deep_view(),
            *old(at) as int,
        ),
{
    let create = Effect::CreateDirectories { path: target.to_owned() };
    if let Some(e) = why_undone(perform(create, outcomes, at)?) {
        return Err(Stop::Fail(InitramfsError::Io(e)));
    }
    let mount = Effect::Mount {
        device: device.to_owned(),
        target: target.to_owned(),
        fs_type: "ext4".to_owned(),
        read_only,
    };
    if let Some(e) = why_undone(perform(mount, outcomes, at)?) {
        return Err(
            Stop::Fail(
                InitramfsError::FactoryReset(
                    FactoryResetError::MountError(concat3(name, ": ", e.as_str())),
                ),
            ),
        );
    }
    Ok(())
}

/// Mounts factory read-only, and then etc and data read-write.
pub open spec fn mount_progress(
    rootfs: Seq<char>,
    outcomes: Seq<OutcomeView>,
    at: int,
) -> Progress<(), InitramfsErrorView> {
    and_then(
        mount_one(
            "factory"@,
            FACTORY_DEVICE@,
            join_text(rootfs, "mnt/factory"@),
            true,
            outcomes,
            at,
        ),
        |_factory: (), i: int|
            and_then(
                mount_one(
                    "etc"@,
                    ETC_DEVICE@,
                    join_text(rootfs, "mnt/etc"@),
                    false,
                    outcomes,
                    i,
                ),
                |_etc: (), j: int|
                    mount_one(
                        "data"@,
                        DATA_DEVICE@,
                        join_text(rootfs, "mnt/data"@),
                        false,
                        outcomes,
                        j,
                    ),
            ),
    )
}

/// Mounts the partitions that a reset works on. The root partition is mounted
/// already.
pub fn factory_reset_mount(
    rootfs: &str,
    _persistent_var_log: bool,
    outcomes: &Vec<Outcome>,
    at: &mut usize,
) -> (r: Result<(), Stop<InitramfsError>>)
    ensures
        progress(r, *final(at)) == mount_progress(
            rootfs@,
            outcomes.deep_view(),
            *old(at) as int,
        ),
{
    let factory = join(rootfs, "mnt/factory");
    mount_partition("factory", FACTORY_DEVICE, factory.as_str(), true, outcomes, at)?;
    let etc = join(rootfs, "mnt/etc");
    mount_partition("etc", ETC_DEVICE, etc.as_str(), false, outcomes, at)?;
    let data = join(rootfs, "mnt/data");
    mount_partition("data", DATA_DEVICE, data.as_str(), false, outcomes, at)
}

/// Unmounts what the reset has mounted.
pub open spec fn umount_progress(outcomes: Seq<OutcomeView>, at: int) -> Progress<
    (),
    InitramfsErrorView,
> {
    doing(
        EffectView::UnmountAll,
        |e: Seq<char>| mount_error("umount: "@ + e),
        outcomes,
        at,
    )
}

/// Unmounts what the reset has mounted.
pub fn factory_reset_umount(outcomes: &Vec<Outcome>, at: &mut usize) -> (r: Result<
    (),
    Stop<InitramfsError>,
>)
    ensures
        progress(r, *final(at)) == umount_progress(outcomes.deep_view(), *old(at) as int),
{
    if let Some(e) = why_undone(perform(Effect::UnmountAll, outcomes, at)?) {
        return Err(
            Stop::Fail(
                InitramfsError::FactoryReset(
                    FactoryResetError::MountError(concat2("umount: ", e.as_str())),
                ),
            ),
        );
    }
    Ok(())
}

/// Unmounts the boot partition.
pub open spec fn unmount_boot_progress(
    rootfs: Seq<char>,
    outcomes: Seq<OutcomeView>,
    at: int,
) -> Progress<(), InitramfsErrorView> {
    doing(
        EffectView::Unmount { target: join_text(rootfs, "boot"@) },
        |e: Seq<char>| mount_error("umount boot: "@ + e),
        outcomes,
        at,
    )
}

/// Unmounts the boot partition.
pub fn unmount_boot(rootfs: &str, outcomes: &Vec<Outcome>, at: &mut usize) -> (r: Result<
    (),
    Stop<InitramfsError>,
>)
    ensures
        progress(r, *final(at)) == unmount_boot_progress(
            rootfs@,
            outcomes.deep_view(),
            *old(at) as int,
        ),
{
    let effect = Effect::Unmount { target: join(rootfs, "boot") };
    if let Some(e) = why_undone(perform(effect, outcomes, at)?) {
        return Err(
            Stop::Fail(
                InitramfsError::FactoryReset(
                    FactoryResetError::MountError(concat2("umount boot: ", e.as_str())),
                ),
            ),
        );
    }
    Ok(())
}

/// Runs `sync`, whatever comes of it.
pub open spec fn sync_system_progress(outcomes: Seq<OutcomeView>, at: int) -> Progress<
    (),
    InitramfsErrorView,
> {
    regardless(
        ask::<InitramfsErrorView>(
            EffectView::Run { program: SYNC_CMD@, args: seq![], directory: None },
            outcomes,
            at,
        ),
    )
}

/// Flushes all file systems, whatever comes of it.
pub fn sync_system(outcomes: &Vec<Outcome>, at: &mut usize) -> (r: Result<
    (),
    Stop<InitramfsError>,
>)
    ensures
        progress(r, *final(at)) == sync_system_progress(outcomes.deep_view(), *old(at) as int),
{
    let args: Vec<String> = Vec::new();
    assert(args.deep_view() =~= seq![]);
    perform(Effect::Run { program: SYNC_CMD.to_owned(), args, directory: None }, outcomes, at)?;
    Ok(())
}

// ---------------------------------------------------------------------------
// Warnings and the final status
// ---------------------------------------------------------------------------

/// The context of a status with warnings behind it, all separated by semicolons.
pub open spec fn context_with_warnings(
    context: Option<Seq<char>>,
    warnings: Seq<Seq<char>>,
) -> Option<Seq<char>> {
    if warnings.len() == 0 {
        context
    } else if context is Some && context->0.len() > 0 {
        Some(context->0 + ";"@ + joined(";"@, warnings))
    } else {
        Some(joined(";"@, warnings))
    }
}

/// Puts warnings behind the context of a status.
pub fn build_warnings_context(context: Option<String>, warnings: &Vec<String>) -> (r: Option<
    String,
>)
    ensures
        r.deep_view() == context_with_warnings(context.deep_view(), warnings.deep_view()),
{
    if warnings.len() == 0 {
        return context;
    }
    let all = join_with(";", warnings);
    match context {
        Some(text) => {
            if text.as_str().is_empty() {
                Some(all)
            } else {
                Some(concat3(text.as_str(), ";", all.as_str()))
            }
        },
        None => Some(all),
    }
}

/// What there is to warn of in a mode: any mode but the first asks for a wipe, which
/// is not done.
pub open spec fn mode_warnings(mode: u32) -> Seq<Seq<char>> {
    if mode == 1 {
        Seq::empty()
    } else {
        seq![
            "warning: factory reset mode \""@ + decimal(mode as nat)
                + "\" not supported; skipping wipe"@,
        ]
    }
}

fn warnings_for(mode: u32) -> (r: Vec<String>)
    ensures
        r.deep_view() == mode_warnings(mode),
{
    let mut warnings: Vec<String> = Vec::new();
    if mode != 1 {
        warnings.push(
            concat3(
                "warning: factory reset mode \"",
                decimal_text(mode).as_str(),
                "\" not supported; skipping wipe",
            ),
        );
    }
    assert(warnings.deep_view() =~= mode_warnings(mode));
    warnings
}

/// The status that a reset which came to its end leaves behind.
pub open spec fn final_status(
    mode: u32,
    list: Seq<Seq<char>>,
    result: RestoreResultView,
) -> FactoryResetStatusView {
    match result {
        RestoreResultView::Success => FactoryResetStatusView {
            status: status_code::SUCCESS,
            error: Some("0"@),
            context: context_with_warnings(None, mode_warnings(mode)),
            paths: list,
        },
        RestoreResultView::PartialFailure { context, error } => FactoryResetStatusView::of_error(
            status_code::BACKUP_RESTORE_ERROR,
            error,
            context_with_warnings(Some(context), mode_warnings(mode)),
            list,
        ),
    }
}

/// Makes the status that a reset which came to its end leaves behind.
pub fn status_at_end(mode: u32, preserve_list: Vec<String>, result: RestoreResult) -> (r:
    FactoryResetStatus)
    ensures
        r.deep_view() == final_status(mode, preserve_list.deep_view(), result.deep_view()),
{
    let warnings = warnings_for(mode);
    match result {
        RestoreResult::Success => FactoryResetStatus {
            status: status_code::SUCCESS,
            error: Some("0".to_owned()),
            context: build_warnings_context(None, &warnings),
            paths: preserve_list,
        },
        RestoreResult::PartialFailure { context, error } => FactoryResetStatus::error(
            status_code::BACKUP_RESTORE_ERROR,
            error.as_str(),
            build_warnings_context(Some(context), &warnings),
            preserve_list,
        ),
    }
}

// ---------------------------------------------------------------------------
// The stages of a reset
// ---------------------------------------------------------------------------

/// Marks the start of the reset, takes back the request, and mounts what the reset
/// works on. With GRUB the boot partition is mounted by now: it is unmounted first.
pub open spec fn start_progress(
    rootfs: Seq<char>,
    is_grub: bool,
    outcomes: Seq<OutcomeView>,
    at: int,
) -> Progress<(), InitramfsErrorView> {
    and_then(
        null_status_progress(outcomes, at),
        |_marked: (), i: int|
            and_then(
                doing(
                    EffectView::SetEnv { name: FACTORY_RESET@, value: None },
                    |e: Seq<char>|
                        InitramfsErrorView::Io(
                            "Failed to clear factory-reset bootloader var: "@ + e,
                        ),
                    outcomes,
                    i,
                ),
                |_cleared: (), j: int|
                    and_then(
                        release_boot_progress(rootfs, is_grub, outcomes, j),
                        |_released: (), k: int| mount_progress(rootfs, outcomes, k),
                    ),
            ),
    )
}

/// Unmounts the boot partition if the bootloader is GRUB.
pub open spec fn release_boot_progress(
    rootfs: Seq<char>,
    is_grub: bool,
    outcomes: Seq<OutcomeView>,
    at: int,
) -> Progress<(), InitramfsErrorView> {
    if is_grub {
        and_then(
            sync_system_progress(outcomes, at),
            |_synced: (), i: int| unmount_boot_progress(rootfs, outcomes, i),
        )
    } else {
        Progress::Returns((), at)
    }
}

fn start_reset(
    rootfs: &str,
    is_grub: bool,
    persistent_var_log: bool,
    outcomes: &Vec<Outcome>,
    at: &mut usize,
) -> (r: Result<(), Stop<InitramfsError>>)
    ensures
        progress(r, *final(at)) == start_progress(
            rootfs@,
            is_grub,
            outcomes.deep_view(),
            *old(at) as int,
        ),
{
    write_null_status(outcomes, at)?;
    let clear = Effect::SetEnv { name: FACTORY_RESET.to_owned(), value: None };
    if let Some(e) = why_undone(perform(clear, outcomes, at)?) {
        return Err(
            Stop::Fail(
                InitramfsError::Io(
                    concat2("Failed to clear factory-reset bootloader var: ", e.as_str()),
                ),
            ),
        );
    }
    if is_grub {
        sync_system(outcomes, at)?;
        unmount_boot(rootfs, outcomes, at)?;
    }
    factory_reset_mount(rootfs, persistent_var_log, outcomes, at)
}

/// The procedure with its failure reported: the status is written, whatever comes of
/// that, and the procedure's own error stands.
pub open spec fn reporting<T>(
    procedure: Progress<T, InitramfsErrorView>,
    status: spec_fn(InitramfsErrorView) -> FactoryResetStatusView,
    outcomes: Seq<OutcomeView>,
) -> Progress<T, InitramfsErrorView> {
    match procedure {
        Progress::Fails(e, at) => and_then(
            regardless(status_progress(status(e), outcomes, at)),
            |_written: (), i: int| Progress::Fails(e, i),
        ),
        other => other,
    }
}

/// Writes the status of a reset that fails with `error`, whatever comes of that, and
/// gives the error back.
fn report(
    status: &FactoryResetStatus,
    error: InitramfsError,
    outcomes: &Vec<Outcome>,
    at: &mut usize,
) -> (r: Stop<InitramfsError>)
    ensures
        progress(Err::<(), _>(r), *final(at)) == and_then(
            regardless(
                status_progress(status.deep_view(), outcomes.deep_view(), *old(at) as int),
            ),
            |_written: (), i: int|
                Progress::<(), InitramfsErrorView>::Fails(error.deep_view(), i),
        ),
{
    match write_status(status, outcomes, at) {
        Err(Stop::Perform(effect)) => Stop::Perform(effect),
        Err(Stop::Panic(message)) => Stop::Panic(message),
        _ => Stop::Fail(error),
    }
}

/// Reads the request and builds the list of paths to preserve. Either failing is
/// reported.
pub open spec fn plan_progress(
    json: Seq<char>,
    rootfs: Seq<char>,
    outcomes: Seq<OutcomeView>,
    at: int,
) -> Progress<(u32, Seq<Seq<char>>), InitramfsErrorView> {
    and_then(
        reporting(
            parse_progress(json, outcomes, at),
            |e: InitramfsErrorView|
                FactoryResetStatusView::of_error(
                    status_code::INVALID_MODE,
                    "-"@,
                    Some("mode not set: "@ + e.text()),
                    Seq::empty(),
                ),
            outcomes,
        ),
        |config: FactoryResetConfigView, i: int|
            and_then(
                reporting(
                    preserve_progress(config, rootfs, outcomes, i),
                    |e: InitramfsErrorView|
                        FactoryResetStatusView::of_error(
                            status_code::CONFIG_ERROR,
                            "-"@,
                            Some("preserve object not set: "@ + e.text()),
                            Seq::empty(),
                        ),
                    outcomes,
                ),
                |list: Seq<Seq<char>>, j: int| Progress::Returns((config.mode, list), j),
            ),
    )
}

fn plan_reset(json: &str, rootfs: &str, outcomes: &Vec<Outcome>, at: &mut usize) -> (r: Result<
    (u32, Vec<String>),
    Stop<InitramfsError>,
>)
    ensures
        progress(r, *final(at)) == plan_progress(
            json@,
            rootfs@,
            outcomes.deep_view(),
            *old(at) as int,
        ),
{
    let none: Vec<String> = Vec::new();
    assert(none.deep_view() =~= Seq::empty());
    let config = match FactoryResetConfig::parse(json, outcomes, at) {
        Ok(config) => config,
        Err(Stop::Fail(e)) => {
            let context = concat2("mode not set: ", e.message().as_str());
            let status = FactoryResetStatus::error(
                status_code::INVALID_MODE,
                "-",
                Some(context),
                none,
            );
            return Err(report(&status, e, outcomes, at));
        },
        Err(stop) => {
            return Err(stop);
        },
    };
    match build_preserve_list(&config, rootfs, outcomes, at) {
        Ok(list) => Ok((config.mode, list)),
        Err(Stop::Fail(e)) => {
            let context = concat2("preserve object not set: ", e.message().as_str());
            let status = FactoryResetStatus::error(
                status_code::CONFIG_ERROR,
                "-",
                Some(context),
                none,
            );
            Err(report(&status, e, outcomes, at))
        },
        Err(stop) => Err(stop),
    }
}

/// Backs up the list and unmounts. A backup that fails is reported.
pub open spec fn save_progress(
    rootfs: Seq<char>,
    list: Seq<Seq<char>>,
    outcomes: Seq<OutcomeView>,
    at: int,
) -> Progress<(), InitramfsErrorView> {
    and_then(
        reporting(
            backup_progress(rootfs, list, FACTORY_RESET_BACKUP_DIR@, outcomes, at),
            |e: InitramfsErrorView|
                FactoryResetStatusView::of_error(
                    status_code::BACKUP_RESTORE_ERROR,
                    e.text(),
                    Some(debug_list(list) + ":backup"@),
                    list,
                ),
            outcomes,
        ),
        |_saved: (), i: int| umount_progress(outcomes, i),
    )
}

fn save_paths(rootfs: &str, list: &Vec<String>, outcomes: &Vec<Outcome>, at: &mut usize) -> (r:
    Result<(), Stop<InitramfsError>>)
    ensures
        progress(r, *final(at)) == save_progress(
            rootfs@,
            list.deep_view(),
            outcomes.deep_view(),
            *old(at) as int,
        ),
{
    match backup_all(rootfs, list, FACTORY_RESET_BACKUP_DIR, outcomes, at) {
        Ok(()) => factory_reset_umount(outcomes, at),
        Err(Stop::Fail(e)) => {
            let context = concat2(debug_text(list).as_str(), ":backup");
            let status = FactoryResetStatus::error(
                status_code::BACKUP_RESTORE_ERROR,
                e.message().as_str(),
                Some(context),
                copy_of(list),
            );
            Err(report(&status, e, outcomes, at))
        },
        Err(stop) => Err(stop),
    }
}

/// Makes fresh file systems on the data and etc partitions and mounts again.
pub open spec fn renew_progress(
    rootfs: Seq<char>,
    outcomes: Seq<OutcomeView>,
    at: int,
) -> Progress<(), InitramfsErrorView> {
    and_then(
        reformat_progress(DATA_DEVICE@, "data"@, outcomes, at),
        |_data: (), i: int|
            and_then(
                reformat_progress(ETC_DEVICE@, "etc"@, outcomes, i),
                |_etc: (), j: int| mount_progress(rootfs, outcomes, j),
            ),
    )
}

fn renew_partitions(
    rootfs: &str,
    persistent_var_log: bool,
    outcomes: &Vec<Outcome>,
    at: &mut usize,
) -> (r: Result<(), Stop<InitramfsError>>)
    ensures
        progress(r, *final(at)) == renew_progress(
            rootfs@,
            outcomes.deep_view(),
            *old(at) as int,
        ),
{
    reformat_ext4(DATA_DEVICE, "data", outcomes, at)?;
    reformat_ext4(ETC_DEVICE, "etc", outcomes, at)?;
    factory_reset_mount(rootfs, persistent_var_log, outcomes, at)
}

/// Puts the saved paths back, unmounts, and writes the status.
pub open spec fn finish_progress(
    rootfs: Seq<char>,
    mode: u32,
    list: Seq<Seq<char>>,
    outcomes: Seq<OutcomeView>,
    at: int,
) -> Progress<(), InitramfsErrorView> {
    and_then(
        restore_progress(rootfs, list, FACTORY_RESET_BACKUP_DIR@, outcomes, at),
        |result: RestoreResultView, i: int|
            and_then(
                umount_progress(outcomes, i),
                |_unmounted: (), j: int|
                    status_progress(final_status(mode, list, result), outcomes, j),
            ),
    )
}

fn finish_reset(
    rootfs: &str,
    mode: u32,
    list: Vec<String>,
    outcomes: &Vec<Outcome>,
    at: &mut usize,
) -> (r: Result<(), Stop<InitramfsError>>)
    ensures
        progress(r, *final(at)) == finish_progress(
            rootfs@,
            mode,
            list.deep_view(),
            outcomes.deep_view(),
            *old(at) as int,
        ),
{
    let result = restore_all(rootfs, &list, FACTORY_RESET_BACKUP_DIR, outcomes, at)?;
    factory_reset_umount(outcomes, at)?;
    let status = status_at_end(mode, list, result);
    write_status(&status, outcomes, at)
}

/// A factory reset up to the point where nothing has been lost yet: the paths to
/// preserve are saved and the partitions are unmounted.
pub open spec fn saved_progress(
    json: Seq<char>,
    rootfs: Seq<char>,
    is_grub: bool,
    outcomes: Seq<OutcomeView>,
    at: int,
) -> Progress<(u32, Seq<Seq<char>>), InitramfsErrorView> {
    and_then(
        start_progress(rootfs, is_grub, outcomes, at),
        |_started: (), i: int|
            and_then(
                plan_progress(json, rootfs, outcomes, i),
                |plan: (u32, Seq<Seq<char>>), j: int|
                    and_then(
                        save_progress(rootfs, plan.1, outcomes, j),
                        |_saved: (), k: int| Progress::Returns(plan, k),
                    ),
            ),
    )
}

/// A factory reset: its paths saved, its partitions renewed, its paths put back.
pub open spec fn reset_progress(
    json: Seq<char>,
    rootfs: Seq<char>,
    is_grub: bool,
    outcomes: Seq<OutcomeView>,
    at: int,
) -> Progress<(), InitramfsErrorView> {
    and_then(
        saved_progress(json, rootfs, is_grub, outcomes, at),
        |plan: (u32, Seq<Seq<char>>), i: int|
            and_then(
                renew_progress(rootfs, outcomes, i),
                |_renewed: (), j: int| finish_progress(rootfs, plan.0, plan.1, outcomes, j),
            ),
    )
}

/// Runs a factory reset:
///
/// 1. mark its start in the status file;
/// 2. clear the bootloader variable that asks for it;
/// 3. with GRUB, flush and unmount the boot partition;
/// 4. mount factory, etc and data;
/// 5. read the request and build the list of paths to preserve;
/// 6. back up the list, and unmount;
/// 7. make fresh file systems on data and etc, and mount again;
/// 8. restore the list, and unmount;
/// 9. write the final status.
pub fn run_factory_reset(
    factory_reset_json: &str,
    rootfs: &str,
    is_grub: bool,
    persistent_var_log: bool,
    outcomes: &Vec<Outcome>,
    at: &mut usize,
) -> (r: Result<(), Stop<InitramfsError>>)
    ensures
        progress(r, *final(at)) == reset_progress(
            factory_reset_json@,
            rootfs@,
            is_grub,
            outcomes.deep_view(),
            *old(at) as int,
        ),
{
    start_reset(rootfs, is_grub, persistent_var_log, outcomes, at)?;
    let (mode, list) = plan_reset(factory_reset_json, rootfs, outcomes, at)?;
    save_paths(rootfs, &list, outcomes, at)?;
    renew_partitions(rootfs, persistent_var_log, outcomes, at)?;
    finish_reset(rootfs, mode, list, outcomes, at)
}

}
