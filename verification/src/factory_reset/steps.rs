//! What the single stages of a factory reset ask for, one effect after another.

use vstd::prelude::*;
use vstd::string::*;

use crate::effect::{
    follows, ran_well, reason_of, run_fault, EffectView, OutcomeView, Progress,
};
use crate::error::{FactoryResetErrorView, InitramfsErrorView};
use crate::factory_reset::backup_restore::{
    backup_progress, restore_progress, sync_progress, RestoreResultView,
};
use crate::factory_reset::config::{parse_progress, preserve_progress, FactoryResetConfigView};
use crate::factory_reset::laws::lemma_restore_stays_over;
use crate::factory_reset::reformat::reformat_progress;
use crate::factory_reset::status::FactoryResetStatusView;
use crate::factory_reset::{
    context_with_warnings, finish_progress, mode_warnings, mount_progress, plan_progress,
    renew_progress, requested_progress, reset_progress, save_progress, start_progress,
    sync_system_progress, umount_progress, unmount_boot_progress,
};
use crate::number::decimal;
use crate::path::join_text;
use crate::text::{debug_list, each_behind, joined};

verus! {

/// The error of a mount stage at its `k`th effect.
pub open spec fn mount_fault(k: int, o: OutcomeView) -> InitramfsErrorView {
    if k % 2 == 0 {
        InitramfsErrorView::Io(reason_of(o))
    } else {
        InitramfsErrorView::FactoryReset(
            FactoryResetErrorView::MountError(
                (if k == 1 {
                    "factory"@
                } else if k == 3 {
                    "etc"@
                } else {
                    "data"@
                }) + ": "@ + reason_of(o),
            ),
        )
    }
}

/// The mount stage mounts factory read-only, and etc and data read-write, each on its
/// directory below `mnt`, which is created first.
pub proof fn law_mounts_are_made_in_order(
    rootfs: Seq<char>,
    outcomes: Seq<OutcomeView>,
    at: int,
)
    requires
        0 <= at <= outcomes.len(),
    ensures
        follows(
            mount_progress(rootfs, outcomes, at),
            seq![
                EffectView::CreateDirectories { path: join_text(rootfs, "mnt/factory"@) },
                EffectView::Mount {
                    device: "/dev/omnect/factory"@,
                    target: join_text(rootfs, "mnt/factory"@),
                    fs_type: "ext4"@,
                    read_only: true,
                },
                EffectView::CreateDirectories { path: join_text(rootfs, "mnt/etc"@) },
                EffectView::Mount {
                    device: "/dev/omnect/etc"@,
                    target: join_text(rootfs, "mnt/etc"@),
                    fs_type: "ext4"@,
                    read_only: false,
                },
                EffectView::CreateDirectories { path: join_text(rootfs, "mnt/data"@) },
                EffectView::Mount {
                    device: "/dev/omnect/data"@,
                    target: join_text(rootfs, "mnt/data"@),
                    fs_type: "ext4"@,
                    read_only: false,
                },
            ],
            |k: int, o: OutcomeView| o is Done,
            |k: int, o: OutcomeView| mount_fault(k, o),
            outcomes,
            at,
        ),
{
}

/// What the reset has mounted is unmounted by one effect.
pub proof fn law_unmounting_is_one_effect(outcomes: Seq<OutcomeView>, at: int)
    requires
        0 <= at <= outcomes.len(),
    ensures
        follows(
            umount_progress(outcomes, at),
            seq![EffectView::UnmountAll],
            |k: int, o: OutcomeView| o is Done,
            |k: int, o: OutcomeView|
                InitramfsErrorView::FactoryReset(
                    FactoryResetErrorView::MountError("umount: "@ + reason_of(o)),
                ),
            outcomes,
            at,
        ),
{
}

/// The boot partition is unmounted by one effect.
pub proof fn law_boot_is_unmounted(rootfs: Seq<char>, outcomes: Seq<OutcomeView>, at: int)
    requires
        0 <= at <= outcomes.len(),
    ensures
        follows(
            unmount_boot_progress(rootfs, outcomes, at),
            seq![EffectView::Unmount { target: join_text(rootfs, "boot"@) }],
            |k: int, o: OutcomeView| o is Done,
            |k: int, o: OutcomeView|
                InitramfsErrorView::FactoryReset(
                    FactoryResetErrorView::MountError("umount boot: "@ + reason_of(o)),
                ),
            outcomes,
            at,
        ),
{
}

/// File systems are flushed by one run of `sync`. For the system as a whole it matters not
/// what comes of it; behind a copy it must at least have run.
pub proof fn law_flushing_is_one_run(outcomes: Seq<OutcomeView>, at: int)
    requires
        0 <= at <= outcomes.len(),
    ensures
        follows(
            sync_system_progress(outcomes, at),
            seq![EffectView::Run { program: "/bin/sync"@, args: seq![], directory: None }],
            |k: int, o: OutcomeView| true,
            |k: int, o: OutcomeView| InitramfsErrorView::Io(seq![]),
            outcomes,
            at,
        ),
        follows(
            sync_progress(outcomes, at),
            seq![EffectView::Run { program: "/bin/sync"@, args: seq![], directory: None }],
            |k: int, o: OutcomeView| o is Output,
            |k: int, o: OutcomeView|
                InitramfsErrorView::FactoryReset(
                    FactoryResetErrorView::Io("sync failed: "@ + reason_of(o)),
                ),
            outcomes,
            at,
        ),
{
}

/// The start of a reset: the marker, the request taken back, with GRUB a flush and the boot
/// partition unmounted, and then the mounts.
pub proof fn law_start_goes_step_by_step(
    rootfs: Seq<char>,
    is_grub: bool,
    outcomes: Seq<OutcomeView>,
    at: int,
)
    requires
        0 <= at <= outcomes.len(),
    ensures
        ({
            let marker = EffectView::WriteText { path: "/tmp/factory-reset.json"@, text: "null"@ };
            let clear = EffectView::SetEnv { name: "factory-reset"@, value: None };
            match start_progress(rootfs, is_grub, outcomes, at) {
                Progress::Asks(effect) => {
                    let k = outcomes.len() - at;
                    if k == 0 {
                        effect == marker
                    } else if k == 1 {
                        effect == clear && outcomes[at] is Done
                    } else {
                        &&& outcomes[at] is Done
                        &&& outcomes[at + 1] is Done
                        &&& if is_grub && k == 2 {
                            effect == (EffectView::Run {
                                program: "/bin/sync"@,
                                args: seq![],
                                directory: None,
                            })
                        } else if is_grub && k == 3 {
                            effect == (EffectView::Unmount { target: join_text(rootfs, "boot"@) })
                        } else if is_grub {
                            outcomes[at + 3] is Done && mount_progress(rootfs, outcomes, at + 4)
                                == Progress::<(), InitramfsErrorView>::Asks(effect)
                        } else {
                            mount_progress(rootfs, outcomes, at + 2) == Progress::<
                                (),
                                InitramfsErrorView,
                            >::Asks(effect)
                        }
                    }
                },
                Progress::Returns(_, end) => {
                    &&& outcomes[at] is Done
                    &&& outcomes[at + 1] is Done
                    &&& if is_grub {
                        &&& outcomes[at + 3] is Done
                        &&& end == at + 10
                        &&& mount_progress(rootfs, outcomes, at + 4) == Progress::<
                            (),
                            InitramfsErrorView,
                        >::Returns((), end)
                    } else {
                        &&& end == at + 8
                        &&& mount_progress(rootfs, outcomes, at + 2) == Progress::<
                            (),
                            InitramfsErrorView,
                        >::Returns((), end)
                    }
                },
                Progress::Fails(e, end) => if end == at + 1 {
                    &&& !(outcomes[at] is Done)
                    &&& e == InitramfsErrorView::Io(
                        "Failed to write null status to /tmp/factory-reset.json: "@ + reason_of(
                            outcomes[at],
                        ),
                    )
                } else if end == at + 2 {
                    &&& !(outcomes[at + 1] is Done)
                    &&& e == InitramfsErrorView::Io(
                        "Failed to clear factory-reset bootloader var: "@ + reason_of(
                            outcomes[at + 1],
                        ),
                    )
                } else if is_grub && end == at + 4 {
                    &&& !(outcomes[at + 3] is Done)
                    &&& e == InitramfsErrorView::FactoryReset(
                        FactoryResetErrorView::MountError(
                            "umount boot: "@ + reason_of(outcomes[at + 3]),
                        ),
                    )
                } else {
                    mount_progress(
                        rootfs,
                        outcomes,
                        if is_grub {
                            at + 4
                        } else {
                            at + 2
                        },
                    ) == Progress::<(), InitramfsErrorView>::Fails(e, end)
                },
                Progress::Panics(_) => false,
            }
        }),
{
    assert("Failed to write null status to /tmp/factory-reset.json: "@
        =~= "Failed to write null status to "@ + "/tmp/factory-reset.json"@ + ": "@) by {
        reveal_strlit("Failed to write null status to /tmp/factory-reset.json: ");
        reveal_strlit("Failed to write null status to ");
        reveal_strlit("/tmp/factory-reset.json");
        reveal_strlit(": ");
    }
}

/// A request is read by one effect, and is what came back.
pub proof fn law_request_is_what_was_read(
    json: Seq<char>,
    outcomes: Seq<OutcomeView>,
    at: int,
)
    requires
        0 <= at <= outcomes.len(),
    ensures
        follows(
            parse_progress(json, outcomes, at),
            seq![EffectView::ReadRequest { json }],
            |k: int, o: OutcomeView| o is Request,
            |k: int, o: OutcomeView|
                InitramfsErrorView::FactoryReset(
                    FactoryResetErrorView::InvalidConfig(
                        "Failed to parse factory-reset JSON: "@ + reason_of(o),
                    ),
                ),
            outcomes,
            at,
        ),
        match parse_progress(json, outcomes, at) {
            Progress::Returns(config, _) => {
                &&& config.mode == outcomes[at]->Request_0
                &&& config.preserve == outcomes[at]->Request_1
            },
            _ => true,
        },
{
}

/// A reset is requested by the text that the bootloader variable holds, unless that is
/// empty; a variable that cannot be read requests none.
pub proof fn law_request_is_the_value_of_the_variable(outcomes: Seq<OutcomeView>, at: int)
    requires
        0 <= at <= outcomes.len(),
    ensures
        follows(
            requested_progress(outcomes, at),
            seq![EffectView::GetEnv { name: "factory-reset"@ }],
            |k: int, o: OutcomeView| true,
            |k: int, o: OutcomeView| InitramfsErrorView::Io(seq![]),
            outcomes,
            at,
        ),
        match requested_progress(outcomes, at) {
            Progress::Returns(Some(text), _) => {
                &&& outcomes[at] == OutcomeView::Value(Some(text))
                &&& text.len() > 0
            },
            Progress::Returns(None, _) => {
                ||| !(outcomes[at] is Value)
                ||| outcomes[at]->Value_0 is None
                ||| outcomes[at]->Value_0->Some_0.len() == 0
            },
            _ => true,
        },
{
}

/// A stage that failed with `e` at `at` writes this status, whatever comes of that, and
/// fails with the same error.
pub open spec fn reports<T>(
    procedure: Progress<T, InitramfsErrorView>,
    status: FactoryResetStatusView,
    e: InitramfsErrorView,
    outcomes: Seq<OutcomeView>,
    at: int,
) -> bool {
    procedure == if 0 <= at < outcomes.len() {
        Progress::<T, InitramfsErrorView>::Fails(e, at + 1)
    } else {
        Progress::Asks(
            EffectView::WriteText { path: "/tmp/factory-reset.json"@, text: status.json() },
        )
    }
}

/// The plan of a reset is the mode that was read and the list for the keys that were read.
/// A request that cannot be read and a list that cannot be built are reported, each with
/// its own status.
pub proof fn law_plan_is_mode_and_list(
    json: Seq<char>,
    rootfs: Seq<char>,
    outcomes: Seq<OutcomeView>,
    at: int,
)
    requires
        0 <= at <= outcomes.len(),
    ensures
        ({
            let plan = plan_progress(json, rootfs, outcomes, at);
            if at == outcomes.len() {
                plan == Progress::<(u32, Seq<Seq<char>>), InitramfsErrorView>::Asks(
                    EffectView::ReadRequest { json },
                )
            } else if let OutcomeView::Request(mode, preserve) = outcomes[at] {
                match preserve_progress(
                    FactoryResetConfigView { mode, preserve },
                    rootfs,
                    outcomes,
                    at + 1,
                ) {
                    Progress::Returns(list, end) => plan == Progress::<
                        (u32, Seq<Seq<char>>),
                        InitramfsErrorView,
                    >::Returns((mode, list), end),
                    Progress::Asks(effect) => plan == Progress::<
                        (u32, Seq<Seq<char>>),
                        InitramfsErrorView,
                    >::Asks(effect),
                    Progress::Fails(e, end) => reports(
                        plan,
                        FactoryResetStatusView {
                            status: 3u32,
                            error: Some("-"@),
                            context: Some("preserve object not set: "@ + e.text()),
                            paths: seq![],
                        },
                        e,
                        outcomes,
                        end,
                    ),
                    Progress::Panics(_) => plan is Panics,
                }
            } else {
                let e = InitramfsErrorView::FactoryReset(
                    FactoryResetErrorView::InvalidConfig(
                        "Failed to parse factory-reset JSON: "@ + reason_of(outcomes[at]),
                    ),
                );
                reports(
                    plan,
                    FactoryResetStatusView {
                        status: 1u32,
                        error: Some("-"@),
                        context: Some("mode not set: "@ + e.text()),
                        paths: seq![],
                    },
                    e,
                    outcomes,
                    at + 1,
                )
            }
        }),
{
}

/// Saving is the backup of the whole list, and then the unmount. A backup that fails is
/// reported with the list.
pub proof fn law_saving_is_backup_and_unmount(
    rootfs: Seq<char>,
    list: Seq<Seq<char>>,
    outcomes: Seq<OutcomeView>,
    at: int,
)
    requires
        0 <= at <= outcomes.len(),
    ensures
        ({
            let save = save_progress(rootfs, list, outcomes, at);
            match backup_progress(rootfs, list, "/tmp/factory_reset/backup"@, outcomes, at) {
                Progress::Returns(_, end) => save == umount_progress(outcomes, end),
                Progress::Fails(e, end) => reports(
                    save,
                    FactoryResetStatusView {
                        status: 2u32,
                        error: Some(e.text()),
                        context: Some(debug_list(list) + ":backup"@),
                        paths: list,
                    },
                    e,
                    outcomes,
                    end,
                ),
                stopped => save == stopped,
            }
        }),
{
}

/// The partitions are renewed one after the other: data, and then etc, each by `mkfs.ext4`
/// and `tune2fs` with its label. Then the mounts are made again.
pub proof fn law_renewal_goes_step_by_step(
    rootfs: Seq<char>,
    outcomes: Seq<OutcomeView>,
    at: int,
)
    requires
        0 <= at <= outcomes.len(),
    ensures
        match renew_progress(rootfs, outcomes, at) {
            Progress::Asks(effect) => {
                let k = outcomes.len() - at;
                &&& forall|i: int| 0 <= i < k && i < 4 ==> #[trigger] ran_well(outcomes[at + i])
                &&& if k == 0 {
                    effect == (EffectView::Run {
                        program: "/sbin/mkfs.ext4"@,
                        args: seq!["-F"@, "-q"@, "/dev/omnect/data"@],
                        directory: None,
                    })
                } else if k == 1 {
                    effect == (EffectView::Run {
                        program: "/sbin/tune2fs"@,
                        args: seq![
                            "/dev/omnect/data"@,
                            "-c"@,
                            "-1"@,
                            "-i"@,
                            "0"@,
                            "-L"@,
                            "data"@,
                        ],
                        directory: None,
                    })
                } else if k == 2 {
                    effect == (EffectView::Run {
                        program: "/sbin/mkfs.ext4"@,
                        args: seq!["-F"@, "-q"@, "/dev/omnect/etc"@],
                        directory: None,
                    })
                } else if k == 3 {
                    effect == (EffectView::Run {
                        program: "/sbin/tune2fs"@,
                        args: seq![
                            "/dev/omnect/etc"@,
                            "-c"@,
                            "-1"@,
                            "-i"@,
                            "0"@,
                            "-L"@,
                            "etc"@,
                        ],
                        directory: None,
                    })
                } else {
                    mount_progress(rootfs, outcomes, at + 4) == Progress::<
                        (),
                        InitramfsErrorView,
                    >::Asks(effect)
                }
            },
            Progress::Returns(_, end) => {
                &&& forall|i: int| 0 <= i < 4 ==> #[trigger] ran_well(outcomes[at + i])
                &&& mount_progress(rootfs, outcomes, at + 4) == Progress::<
                    (),
                    InitramfsErrorView,
                >::Returns((), end)
                &&& end == at + 10
            },
            Progress::Fails(e, end) => if end <= at + 4 {
                &&& at < end
                &&& !ran_well(outcomes[end - 1])
                &&& e == InitramfsErrorView::FactoryReset(
                    FactoryResetErrorView::ReformatFailed {
                        device: if end <= at + 2 {
                            "/dev/omnect/data"@
                        } else {
                            "/dev/omnect/etc"@
                        },
                        reason: run_fault(
                            if (end - at) % 2 == 1 {
                                "mkfs.ext4"@
                            } else {
                                "tune2fs"@
                            },
                            outcomes[end - 1],
                        )->Some_0,
                    },
                )
            } else {
                mount_progress(rootfs, outcomes, at + 4) == Progress::<
                    (),
                    InitramfsErrorView,
                >::Fails(e, end)
            },
            Progress::Panics(_) => false,
        },
{
}

/// A device gets a fresh file system by two commands, the second of which labels it.
pub proof fn law_reformat_is_two_commands(
    device: Seq<char>,
    label: Seq<char>,
    outcomes: Seq<OutcomeView>,
    at: int,
)
    requires
        0 <= at <= outcomes.len(),
    ensures
        follows(
            reformat_progress(device, label, outcomes, at),
            seq![
                EffectView::Run {
                    program: "/sbin/mkfs.ext4"@,
                    args: seq!["-F"@, "-q"@, device],
                    directory: None,
                },
                EffectView::Run {
                    program: "/sbin/tune2fs"@,
                    args: seq![device, "-c"@, "-1"@, "-i"@, "0"@, "-L"@, label],
                    directory: None,
                },
            ],
            |k: int, o: OutcomeView| ran_well(o),
            |k: int, o: OutcomeView|
                InitramfsErrorView::FactoryReset(
                    FactoryResetErrorView::ReformatFailed {
                        device,
                        reason: run_fault(
                            if k == 0 {
                                "mkfs.ext4"@
                            } else {
                                "tune2fs"@
                            },
                            o,
                        )->Some_0,
                    },
                ),
            outcomes,
            at,
        ),
{
}

/// The end of a reset is the restore of the whole list, the unmount, and the status: the
/// code, the error and the context tell what the restore came to and warn of a mode that
/// is not supported, and the paths are the list.
pub proof fn law_end_is_restore_unmount_and_status(
    rootfs: Seq<char>,
    mode: u32,
    list: Seq<Seq<char>>,
    outcomes: Seq<OutcomeView>,
    at: int,
)
    requires
        0 <= at <= outcomes.len(),
    ensures
        ({
            let finish = finish_progress(rootfs, mode, list, outcomes, at);
            let warning = "warning: factory reset mode \""@ + decimal(mode as nat)
                + "\" not supported; skipping wipe"@;
            match restore_progress(rootfs, list, "/tmp/factory_reset/backup"@, outcomes, at) {
                Progress::Returns(result, end) => follows(
                    finish,
                    seq![
                        EffectView::UnmountAll,
                        EffectView::WriteText {
                            path: "/tmp/factory-reset.json"@,
                            text: match result {
                                RestoreResultView::Success => FactoryResetStatusView {
                                    status: 0u32,
                                    error: Some("0"@),
                                    context: if mode == 1 {
                                        None
                                    } else {
                                        Some(warning)
                                    },
                                    paths: list,
                                },
                                RestoreResultView::PartialFailure { context, error } =>
                                    FactoryResetStatusView {
                                    status: 2u32,
                                    error: Some(error),
                                    context: if mode == 1 {
                                        Some(context)
                                    } else if context.len() == 0 {
                                        Some(warning)
                                    } else {
                                        Some(context + ";"@ + warning)
                                    },
                                    paths: list,
                                },
                            }.json(),
                        },
                    ],
                    |k: int, o: OutcomeView| o is Done,
                    |k: int, o: OutcomeView|
                        if k == 0 {
                            InitramfsErrorView::FactoryReset(
                                FactoryResetErrorView::MountError("umount: "@ + reason_of(o)),
                            )
                        } else {
                            InitramfsErrorView::Io(
                                "Failed to write status to "@ + "/tmp/factory-reset.json"@ + ": "@
                                    + reason_of(o),
                            )
                        },
                    outcomes,
                    end,
                ),
                Progress::Asks(effect) => finish == Progress::<(), InitramfsErrorView>::Asks(
                    effect,
                ),
                _ => true,
            }
        }),
{
    lemma_joined_one(";"@, mode_warnings(mode));
    let n = outcomes.len() as int;
    let dir = "/tmp/factory_reset/backup"@;
    assert(outcomes.take(n) =~= outcomes);
    lemma_restore_stays_over(rootfs, list, list.len() as int, dir, outcomes, n, at);
}

proof fn lemma_joined_one(separator: Seq<char>, parts: Seq<Seq<char>>)
    ensures
        parts.len() == 1 ==> joined(separator, parts) == parts[0],
{
    if parts.len() == 1 {
        assert(parts.skip(1) =~= Seq::empty());
        assert(each_behind(separator, parts.skip(1)) =~= Seq::empty());
        assert(parts[0] + Seq::<char>::empty() =~= parts[0]);
    }
}

/// A reset is its stages, each with what those before it came to: start, plan, saving,
/// renewal, end.
pub proof fn law_reset_is_its_stages(
    json: Seq<char>,
    rootfs: Seq<char>,
    is_grub: bool,
    outcomes: Seq<OutcomeView>,
    at: int,
)
    ensures
        ({
            let reset = reset_progress(json, rootfs, is_grub, outcomes, at);
            match start_progress(rootfs, is_grub, outcomes, at) {
                Progress::Returns(_, i) => match plan_progress(json, rootfs, outcomes, i) {
                    Progress::Returns(plan, j) => match save_progress(
                        rootfs,
                        plan.1,
                        outcomes,
                        j,
                    ) {
                        Progress::Returns(_, k) => match renew_progress(rootfs, outcomes, k) {
                            Progress::Returns(_, l) => reset == finish_progress(
                                rootfs,
                                plan.0,
                                plan.1,
                                outcomes,
                                l,
                            ),
                            stopped => reset == stopped,
                        },
                        stopped => reset == stopped,
                    },
                    Progress::Asks(effect) => reset == Progress::<(), InitramfsErrorView>::Asks(
                        effect,
                    ),
                    Progress::Fails(e, end) => reset == Progress::<(), InitramfsErrorView>::Fails(
                        e,
                        end,
                    ),
                    Progress::Panics(_) => reset is Panics,
                },
                stopped => reset == stopped,
            }
        }),
{
}

/// Warnings go behind a context that is not empty, and stand alone otherwise. Without
/// warnings the context stays as it is.
pub proof fn law_warnings_go_behind_the_context(
    context: Option<Seq<char>>,
    warnings: Seq<Seq<char>>,
)
    ensures
        warnings.len() == 0 ==> context_with_warnings(context, warnings) == context,
        warnings.len() > 0 ==> context_with_warnings(context, warnings) == Some(
            if context is Some && context->Some_0.len() > 0 {
                context->Some_0 + ";"@ + joined(";"@, warnings)
            } else {
                joined(";"@, warnings)
            },
        ),
{
}

}
