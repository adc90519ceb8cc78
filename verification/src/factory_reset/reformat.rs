//! Fresh ext4 file systems for the partitions that a factory reset empties.

use vstd::prelude::*;

use crate::effect::{
    and_then, arguments, fault_of_run, perform, progress, running, Effect, Outcome, OutcomeView,
    Progress, Stop,
};
use crate::error::{
    FactoryResetError, FactoryResetErrorView, InitramfsError, InitramfsErrorView,
};

verus! {

pub const MKFS_EXT4_CMD: &'static str = "/sbin/mkfs.ext4";

pub const TUNE2FS_CMD: &'static str = "/sbin/tune2fs";

/// The error for a device that could not be reformatted.
pub open spec fn reformat_error(device: Seq<char>, what: Seq<char>) -> InitramfsErrorView {
    InitramfsErrorView::FactoryReset(
        FactoryResetErrorView::ReformatFailed { device, reason: what },
    )
}

/// `mkfs.ext4 -F -q device`, and then `tune2fs device -c -1 -i 0 -L label`.
pub open spec fn reformat_progress(
    device: Seq<char>,
    label: Seq<char>,
    outcomes: Seq<OutcomeView>,
    at: int,
) -> Progress<(), InitramfsErrorView> {
    and_then(
        running(
            "mkfs.ext4"@,
            MKFS_EXT4_CMD@,
            seq!["-F"@, "-q"@, device],
            None,
            |what: Seq<char>| reformat_error(device, what),
            outcomes,
            at,
        ),
        |_done: (), i: int|
            running(
                "tune2fs"@,
                TUNE2FS_CMD@,
                seq![device, "-c"@, "-1"@, "-i"@, "0"@, "-L"@, label],
                None,
                |what: Seq<char>| reformat_error(device, what),
                outcomes,
                i,
            ),
    )
}

/// Makes a fresh ext4 file system on `device`, without checks by mount count or
/// by time, and labels it.
pub fn reformat_ext4(device: &str, label: &str, outcomes: &Vec<Outcome>, at: &mut usize) -> (r:
    Result<(), Stop<InitramfsError>>)
    ensures
        progress(r, *final(at)) == reformat_progress(
            device@,
            label@,
            outcomes.deep_view(),
            *old(at) as int,
        ),
{
    let mkfs_args = arguments(&["-F", "-q", device]);
    assert(mkfs_args.deep_view() =~= seq!["-F"@, "-q"@, device@]);
    let mkfs = Effect::Run { program: MKFS_EXT4_CMD.to_owned(), args: mkfs_args, directory: None };
    if let Some(what) = fault_of_run("mkfs.ext4", perform(mkfs, outcomes, at)?) {
        return Err(
            Stop::Fail(
                InitramfsError::FactoryReset(
                    FactoryResetError::ReformatFailed { device: device.to_owned(), reason: what },
                ),
            ),
        );
    }
    let tune_args = arguments(&[device, "-c", "-1", "-i", "0", "-L", label]);
    assert(tune_args.deep_view() =~= seq![
        device@,
        "-c"@,
        "-1"@,
        "-i"@,
        "0"@,
        "-L"@,
        label@,
    ]);
    let tune = Effect::Run { program: TUNE2FS_CMD.to_owned(), args: tune_args, directory: None };
    if let Some(what) = fault_of_run("tune2fs", perform(tune, outcomes, at)?) {
        return Err(
            Stop::Fail(
                InitramfsError::FactoryReset(
                    FactoryResetError::ReformatFailed { device: device.to_owned(), reason: what },
                ),
            ),
        );
    }
    Ok(())
}

}
