//! What the creation of the files for omnect-device-service asks for, one effect after
//! another.

use vstd::prelude::*;
use vstd::string::*;

use crate::effect::{follows, reason_of, value_of, EffectView, OutcomeView, Progress};
use crate::error::InitramfsErrorView;
use crate::json::{parsed_json, pretty_json, with_member};
use crate::number::{number, NumberFault};
use crate::omnect_device_service::{
    access_progress, entry_index, gid_progress, id_in_lines, lemma_entry_index,
    marker_progress, merge_progress, mode_progress, ods_json, ownership_progress, result_for,
    runtime_progress, status_file_progress, status_ready_progress, uid_progress,
    updated_progress, validation_progress, with_result, FsckStatusView,
};
use crate::path::join_text;
use crate::text::{field, lines, lower_case};

verus! {

// ---------------------------------------------------------------------------
// Results on record
// ---------------------------------------------------------------------------

/// A partition's result on record is that of an entry for it, and there is one just if
/// there is such an entry.
pub proof fn law_result_is_that_of_an_entry(
    entries: Seq<(Seq<char>, FsckStatusView)>,
    partition: Seq<char>,
)
    ensures
        match result_for(entries, partition) {
            Some(status) => entries.contains((partition, status)),
            None => forall|i: int| 0 <= i < entries.len() ==> (#[trigger] entries[i]).0 != partition,
        },
{
    lemma_entry_index(entries, partition, 0);
    let i = entry_index(entries, partition, 0);
    if i < entries.len() {
        assert(entries[i] == (partition, entries[i].1));
    }
}

/// A result that is added replaces that of its partition in place, or comes last; all other
/// entries stay as they are and where they are.
pub proof fn law_added_result_moves_no_entry(
    entries: Seq<(Seq<char>, FsckStatusView)>,
    partition: Seq<char>,
    status: FsckStatusView,
)
    ensures
        ({
            let new = with_result(entries, partition, status);
            &&& result_for(entries, partition) is None ==> new == entries.push((partition, status))
            &&& result_for(entries, partition) is Some ==> new.len() == entries.len()
            &&& forall|i: int|
                0 <= i < entries.len() && entries[i].0 != partition ==> #[trigger] new[i]
                    == entries[i]
        }),
{
    lemma_entry_index(entries, partition, 0);
}

// ---------------------------------------------------------------------------
// Owners, modes and numbers
// ---------------------------------------------------------------------------

/// A path gets its owner and its mode by one effect each, the owner first.
pub proof fn law_owner_and_mode_are_one_effect_each(
    path: Seq<char>,
    uid: u32,
    gid: u32,
    mode: u32,
    outcomes: Seq<OutcomeView>,
    at: int,
)
    requires
        0 <= at <= outcomes.len(),
    ensures
        follows(
            ownership_progress(path, uid, gid, outcomes, at),
            seq![EffectView::SetOwner { path, uid, gid }],
            |k: int, o: OutcomeView| o is Done,
            |k: int, o: OutcomeView|
                InitramfsErrorView::Io("Failed to chown "@ + path + ": "@ + reason_of(o)),
            outcomes,
            at,
        ),
        follows(
            mode_progress(path, mode, outcomes, at),
            seq![EffectView::SetMode { path, mode }],
            |k: int, o: OutcomeView| o is Done,
            |k: int, o: OutcomeView|
                InitramfsErrorView::Io("Failed to chmod "@ + path + ": "@ + reason_of(o)),
            outcomes,
            at,
        ),
        follows(
            access_progress(path, uid, gid, mode, outcomes, at),
            seq![EffectView::SetOwner { path, uid, gid }, EffectView::SetMode { path, mode }],
            |k: int, o: OutcomeView| o is Done,
            |k: int, o: OutcomeView|
                InitramfsErrorView::Io(
                    (if k == 0 {
                        "Failed to chown "@
                    } else {
                        "Failed to chmod "@
                    }) + path + ": "@ + reason_of(o),
                ),
            outcomes,
            at,
        ),
{
}

/// The number for a name stands in the third field of the first line that has the name in
/// its first field and has a third field; there is none without such a line.
pub proof fn law_number_is_in_the_first_line_of_the_name(
    all: Seq<Seq<char>>,
    name: Seq<char>,
    from: int,
) -> (i: int)
    requires
        0 <= from <= all.len(),
    ensures
        from <= i <= all.len(),
        forall|k: int|
            from <= k < i ==> !(field(#[trigger] all[k], ':', 0) == Some(name) && field(
                all[k],
                ':',
                2,
            ) is Some),
        match id_in_lines(all, name, from) {
            Some(id) => {
                &&& i < all.len()
                &&& field(all[i], ':', 0) == Some(name)
                &&& field(all[i], ':', 2) is Some
                &&& id == number(field(all[i], ':', 2)->Some_0)
            },
            None => i == all.len(),
        },
    decreases all.len() - from,
{
    if from >= all.len() {
        from
    } else if field(all[from], ':', 0) == Some(name) && field(all[from], ':', 2) is Some {
        from
    } else {
        law_number_is_in_the_first_line_of_the_name(all, name, from + 1)
    }
}

/// Whether a table was read, and gives a number for the name.
pub open spec fn gives_number(o: OutcomeView, name: Seq<char>) -> bool {
    o is Text && (id_in_lines(lines(o->Text_0), name, 0) matches Some(Ok(_)))
}

/// The error for a table that gives no number for the name.
pub open spec fn number_error(
    o: OutcomeView,
    table: Seq<char>,
    kind: Seq<char>,
    id: Seq<char>,
    name: Seq<char>,
) -> InitramfsErrorView {
    InitramfsErrorView::Io(
        if !(o is Text) {
            "Failed to read "@ + table + ": "@ + reason_of(o)
        } else {
            match id_in_lines(lines(o->Text_0), name, 0) {
                Some(Err(fault)) => "Invalid "@ + id + " for "@ + name + ": "@ + fault.text(),
                _ => kind + " "@ + name + " not found in "@ + table,
            }
        },
    )
}

/// A user's number is what the root file system's `etc/passwd` gives for the name, a
/// group's what its `etc/group` gives.
pub proof fn law_numbers_are_those_of_the_tables(
    rootfs: Seq<char>,
    name: Seq<char>,
    outcomes: Seq<OutcomeView>,
    at: int,
)
    requires
        0 <= at <= outcomes.len(),
    ensures
        follows(
            uid_progress(rootfs, name, outcomes, at),
            seq![EffectView::ReadText { path: join_text(rootfs, "etc/passwd"@) }],
            |k: int, o: OutcomeView| gives_number(o, name),
            |k: int, o: OutcomeView|
                number_error(o, join_text(rootfs, "etc/passwd"@), "user"@, "UID"@, name),
            outcomes,
            at,
        ),
        uid_progress(rootfs, name, outcomes, at) matches Progress::Returns(n, _) ==> id_in_lines(
            lines(outcomes[at]->Text_0),
            name,
            0,
        ) == Some(Ok::<u32, NumberFault>(n)),
        follows(
            gid_progress(rootfs, name, outcomes, at),
            seq![EffectView::ReadText { path: join_text(rootfs, "etc/group"@) }],
            |k: int, o: OutcomeView| gives_number(o, name),
            |k: int, o: OutcomeView|
                number_error(o, join_text(rootfs, "etc/group"@), "group"@, "GID"@, name),
            outcomes,
            at,
        ),
        gid_progress(rootfs, name, outcomes, at) matches Progress::Returns(n, _) ==> id_in_lines(
            lines(outcomes[at]->Text_0),
            name,
            0,
        ) == Some(Ok::<u32, NumberFault>(n)),
{
}

// ---------------------------------------------------------------------------
// The files
// ---------------------------------------------------------------------------

/// The status file is written by one effect, with the text of what is on record.
pub proof fn law_status_file_holds_what_is_on_record(
    ods_dir: Seq<char>,
    entries: Seq<(Seq<char>, FsckStatusView)>,
    outcomes: Seq<OutcomeView>,
    at: int,
)
    requires
        0 <= at <= outcomes.len(),
    ensures
        ({
            let path = join_text(ods_dir, "omnect-os-initramfs.json"@);
            follows(
                status_file_progress(ods_dir, entries, outcomes, at),
                seq![EffectView::WriteText { path, text: ods_json(entries) }],
                |k: int, o: OutcomeView| o is Done,
                |k: int, o: OutcomeView|
                    InitramfsErrorView::Io(
                        "Failed to write ODS status to "@ + path + ": "@ + reason_of(o),
                    ),
                outcomes,
                at,
            )
        }),
{
}

/// The directory is created, owned and opened for its group, and then the status file is
/// written, owned and closed to all others.
pub proof fn law_directory_and_status_file_step_by_step(
    entries: Seq<(Seq<char>, FsckStatusView)>,
    uid: u32,
    gid: u32,
    outcomes: Seq<OutcomeView>,
    at: int,
)
    requires
        0 <= at <= outcomes.len(),
    ensures
        ({
            let dir = "/run/omnect-device-service"@;
            let file = join_text(dir, "omnect-os-initramfs.json"@);
            follows(
                status_ready_progress(entries, uid, gid, outcomes, at),
                seq![
                    EffectView::CreateDirectories { path: dir },
                    EffectView::SetOwner { path: dir, uid, gid },
                    EffectView::SetMode { path: dir, mode: 0o775u32 },
                    EffectView::WriteText { path: file, text: ods_json(entries) },
                    EffectView::SetOwner { path: file, uid, gid },
                    EffectView::SetMode { path: file, mode: 0o600u32 },
                ],
                |k: int, o: OutcomeView| o is Done,
                |k: int, o: OutcomeView|
                    InitramfsErrorView::Io(
                        (if k == 0 {
                            "Failed to create ODS runtime dir: "@
                        } else if k == 1 {
                            "Failed to chown "@ + dir + ": "@
                        } else if k == 2 {
                            "Failed to chmod "@ + dir + ": "@
                        } else if k == 3 {
                            "Failed to write ODS status to "@ + file + ": "@
                        } else if k == 4 {
                            "Failed to chown "@ + file + ": "@
                        } else {
                            "Failed to chmod "@ + file + ": "@
                        }) + reason_of(o),
                    ),
                outcomes,
                at,
            )
        }),
{
}

/// The error of a marker at its `k`th effect.
pub open spec fn marker_error(path: Seq<char>, k: int, o: OutcomeView) -> InitramfsErrorView {
    InitramfsErrorView::Io(
        (if k == 0 {
            "Failed to write "@
        } else if k == 1 {
            "Failed to chown "@
        } else {
            "Failed to chmod "@
        }) + path + ": "@ + reason_of(o),
    )
}

/// A marker is a file that holds `1`; it is written, owned, and gets its mode.
pub proof fn law_marker_step_by_step(
    path: Seq<char>,
    uid: u32,
    gid: u32,
    mode: u32,
    outcomes: Seq<OutcomeView>,
    at: int,
)
    requires
        0 <= at <= outcomes.len(),
    ensures
        follows(
            marker_progress(path, uid, gid, mode, outcomes, at),
            seq![
                EffectView::WriteText { path, text: "1"@ },
                EffectView::SetOwner { path, uid, gid },
                EffectView::SetMode { path, mode },
            ],
            |k: int, o: OutcomeView| o is Done,
            |k: int, o: OutcomeView| marker_error(path, k, o),
            outcomes,
            at,
        ),
{
}

/// Update validation is asked for by the value 1, or by true in any case; a failed
/// validation is told by the value failed. Each has its own marker, which others can read.
/// Any other value, and none, has no marker. What the variable for a replaced bootloader
/// calls for follows in every case.
pub proof fn law_validation_has_its_marker(
    ods_dir: Seq<char>,
    uid: u32,
    gid: u32,
    outcomes: Seq<OutcomeView>,
    at: int,
)
    requires
        0 <= at <= outcomes.len(),
    ensures
        ({
            let validation = validation_progress(ods_dir, uid, gid, outcomes, at);
            if at == outcomes.len() {
                validation == Progress::<(), InitramfsErrorView>::Asks(
                    EffectView::GetEnv { name: "omnect_validate_update"@ },
                )
            } else {
                let value = value_of(outcomes[at]);
                let wanted = value is Some && (value->Some_0 == "1"@ || lower_case(value->Some_0)
                    == "true"@);
                let failed = value is Some && value->Some_0 == "failed"@;
                if wanted || failed {
                    match marker_progress(
                        join_text(
                            ods_dir,
                            if wanted {
                                "omnect_validate_update"@
                            } else {
                                "omnect_validate_update_failed"@
                            },
                        ),
                        uid,
                        gid,
                        0o644u32,
                        outcomes,
                        at + 1,
                    ) {
                        Progress::Returns(_, i) => validation == updated_progress(
                            ods_dir,
                            uid,
                            gid,
                            outcomes,
                            i,
                        ),
                        stopped => validation == stopped,
                    }
                } else {
                    validation == updated_progress(ods_dir, uid, gid, outcomes, at + 1)
                }
            }
        }),
{
}

/// A replaced bootloader is told by any value but the empty one. Its marker is closed to
/// all others, and the variable is cleared behind it.
pub proof fn law_replaced_bootloader_has_its_marker(
    ods_dir: Seq<char>,
    uid: u32,
    gid: u32,
    outcomes: Seq<OutcomeView>,
    at: int,
)
    requires
        0 <= at <= outcomes.len(),
    ensures
        ({
            let updated = updated_progress(ods_dir, uid, gid, outcomes, at);
            let path = join_text(ods_dir, "omnect_bootloader_updated"@);
            if at == outcomes.len() {
                updated == Progress::<(), InitramfsErrorView>::Asks(
                    EffectView::GetEnv { name: "omnect_bootloader_updated"@ },
                )
            } else if value_of(outcomes[at]) is Some && value_of(outcomes[at])->Some_0.len() > 0 {
                follows(
                    updated,
                    seq![
                        EffectView::WriteText { path, text: "1"@ },
                        EffectView::SetOwner { path, uid, gid },
                        EffectView::SetMode { path, mode: 0o600u32 },
                        EffectView::SetEnv { name: "omnect_bootloader_updated"@, value: None },
                    ],
                    |k: int, o: OutcomeView| o is Done,
                    |k: int, o: OutcomeView|
                        if k < 3 {
                            marker_error(path, k, o)
                        } else {
                            InitramfsErrorView::Io(
                                "Failed to clear omnect_bootloader_updated: "@ + reason_of(o),
                            )
                        },
                    outcomes,
                    at + 1,
                )
            } else {
                updated == Progress::<(), InitramfsErrorView>::Returns((), at + 1)
            }
        }),
{
}

/// Where there is a factory-reset status, it is read behind the status file, set in its
/// document under `factory-reset`, and the document is written back; and then the file of
/// the factory-reset status is removed. A text that is no document is an error, and a
/// document that can hold no members is where the caller panics.
pub proof fn law_merge_goes_step_by_step(
    ods_dir: Seq<char>,
    outcomes: Seq<OutcomeView>,
    at: int,
)
    requires
        0 <= at <= outcomes.len(),
    ensures
        ({
            let merge = merge_progress(ods_dir, outcomes, at);
            let path = join_text(ods_dir, "omnect-os-initramfs.json"@);
            let tmp = "/tmp/factory-reset.json"@;
            if at == outcomes.len() {
                merge == Progress::<(), InitramfsErrorView>::Asks(
                    EffectView::Exists { path: tmp },
                )
            } else if outcomes[at] != OutcomeView::Flag(true) {
                merge == Progress::<(), InitramfsErrorView>::Returns((), at + 1)
            } else if outcomes.len() < at + 3 || !(outcomes[at + 1] is Text) || !(outcomes[at + 2]
                is Text) {
                follows(
                    merge,
                    seq![EffectView::ReadText { path }, EffectView::ReadText { path: tmp }],
                    |k: int, o: OutcomeView| o is Text,
                    |k: int, o: OutcomeView|
                        InitramfsErrorView::Io(
                            "Failed to read "@ + (if k == 0 {
                                path
                            } else {
                                tmp
                            }) + ": "@ + reason_of(o),
                        ),
                    outcomes,
                    at + 1,
                )
            } else {
                let ods = parsed_json(outcomes[at + 1]->Text_0);
                let reset = parsed_json(outcomes[at + 2]->Text_0);
                if ods is Err {
                    merge == Progress::<(), InitramfsErrorView>::Fails(
                        InitramfsErrorView::Io("Failed to parse ODS status JSON: "@ + ods->Err_0),
                        at + 3,
                    )
                } else if reset is Err {
                    merge == Progress::<(), InitramfsErrorView>::Fails(
                        InitramfsErrorView::Io(
                            "Failed to parse factory-reset status JSON: "@ + reset->Err_0,
                        ),
                        at + 3,
                    )
                } else if !(ods->Ok_0 is Object) && !(ods->Ok_0 is Null) {
                    merge == Progress::<(), InitramfsErrorView>::Panics(
                        "cannot access key \"factory-reset\" in the ODS status JSON"@,
                    )
                } else {
                    follows(
                        merge,
                        seq![
                            EffectView::WriteText {
                                path,
                                text: pretty_json(
                                    with_member(ods->Ok_0, "factory-reset"@, reset->Ok_0),
                                ),
                            },
                            EffectView::RemoveFile { path: tmp },
                        ],
                        |k: int, o: OutcomeView| o is Done,
                        |k: int, o: OutcomeView|
                            InitramfsErrorView::Io(
                                (if k == 0 {
                                    "Failed to write merged ODS status to "@ + path
                                } else {
                                    "Failed to remove "@ + tmp
                                }) + ": "@ + reason_of(o),
                            ),
                        outcomes,
                        at + 3,
                    )
                }
            }
        }),
{
}

/// All runtime files are made one after another: the numbers of the service's user and
/// group are looked up, the directory and the status file are made for them, with a
/// bootloader the markers, and then the factory-reset status is merged.
pub proof fn law_runtime_files_step_by_step(
    entries: Seq<(Seq<char>, FsckStatusView)>,
    has_bootloader: bool,
    rootfs: Seq<char>,
    outcomes: Seq<OutcomeView>,
    at: int,
)
    ensures
        ({
            let name = "omnect_device_service"@;
            let dir = "/run/omnect-device-service"@;
            let all = runtime_progress(entries, has_bootloader, rootfs, outcomes, at);
            match uid_progress(rootfs, name, outcomes, at) {
                Progress::Returns(uid, i) => match gid_progress(rootfs, name, outcomes, i) {
                    Progress::Returns(gid, j) => match status_ready_progress(
                        entries,
                        uid,
                        gid,
                        outcomes,
                        j,
                    ) {
                        Progress::Returns(_, k) => if has_bootloader {
                            match validation_progress(dir, uid, gid, outcomes, k) {
                                Progress::Returns(_, l) => all == merge_progress(
                                    dir,
                                    outcomes,
                                    l,
                                ),
                                stopped => all == stopped,
                            }
                        } else {
                            all == merge_progress(dir, outcomes, k)
                        },
                        stopped => all == stopped,
                    },
                    Progress::Asks(effect) => all == Progress::<(), InitramfsErrorView>::Asks(
                        effect,
                    ),
                    Progress::Fails(e, end) => all == Progress::<(), InitramfsErrorView>::Fails(
                        e,
                        end,
                    ),
                    Progress::Panics(_) => all is Panics,
                },
                Progress::Asks(effect) => all == Progress::<(), InitramfsErrorView>::Asks(effect),
                Progress::Fails(e, end) => all == Progress::<(), InitramfsErrorView>::Fails(
                    e,
                    end,
                ),
                Progress::Panics(_) => all is Panics,
            }
        }),
{
}

}
