//! Resizing of the data partition.
//!
//! On the first boot the data partition and its ext4 file system are grown to fill
//! the disk. A bootloader variable keeps it from being done again.

use vstd::prelude::*;
use vstd::string::*;

use crate::bootloader::RESIZED_DATA;
use crate::effect::{
    and_then, arguments, ask, doing, follows, is_yes, perform, progress, reason, reason_of,
    says_yes, stays_over, why_undone, with_fault, CommandOutputView, Effect, EffectView, Outcome,
    OutcomeView, Progress, Stop,
};
use crate::error::{InitramfsError, InitramfsErrorView, ResizeDataError, ResizeDataErrorView};
use crate::number::{
    decimal, decimal_text, is_digit, law_decimal_reads_back, law_trailing_number, lemma_decimal,
    number, parse_number, trailing_digits, trailing_digits_of, NumberFault,
};
use crate::path::{
    file_name, file_name_text, last_name, last_slash, lemma_last_slash, start_of,
};
use crate::text::{
    concat2, concat3, contains_text, copy_of, decode_lossy, first_word, first_word_of, has_text,
    join_with, joined, lines, lines_of, lossy_text, lower_case, to_lower_case,
};

verus! {

pub const SGDISK_CMD: &'static str = "/usr/sbin/sgdisk";

pub const PARTED_CMD: &'static str = "/usr/sbin/parted";

pub const E2FSCK_CMD: &'static str = "/sbin/e2fsck";

pub const RESIZE2FS_CMD: &'static str = "/sbin/resize2fs";

pub const SYNC_CMD: &'static str = "/bin/sync";

pub const MTAB_PATH: &'static str = "/etc/mtab";

pub const PROC_MOUNTS_PATH: &'static str = "/proc/self/mounts";

/// The kind of a disk's partition table.
#[derive(Debug, Clone, Copy, PartialEq, Eq, Structural)]
pub enum PartitionTableType {
    Gpt,
    Dos,
}

// ---------------------------------------------------------------------------
// Partition numbers
// ---------------------------------------------------------------------------

/// The number that a device's name ends with, if it fits in 32 bits.
pub open spec fn partition_number_of(dev: Seq<char>) -> Option<u32> {
    match file_name_text(dev) {
        Some(name) => {
            let digits = trailing_digits(name);
            if digits.len() == 0 {
                None
            } else {
                match number(digits) {
                    Ok(n) => Some(n),
                    Err(_) => None,
                }
            }
        },
        None => None,
    }
}

/// The number of the partition that a device path names: 8 for `/dev/sda8` and for
/// `/dev/mmcblk0p8`.
pub fn partition_number(dev: &str) -> (r: Option<u32>)
    ensures
        r == partition_number_of(dev@),
{
    let name = match file_name(dev) {
        Some(name) => name,
        None => {
            return None;
        },
    };
    let digits = trailing_digits_of(name.as_str());
    if digits.as_str().is_empty() {
        return None;
    }
    match parse_number(digits.as_str()) {
        Ok(n) => Some(n),
        Err(_) => None,
    }
}

/// The partition number that a line of `parted`'s listing starts with, if the line's
/// lower-case form tells of an extended partition.
pub open spec fn extended_by_case(line: Seq<char>, lower: Seq<char>) -> Option<u32> {
    if contains_text(lower, "extended"@) {
        match first_word(line) {
            Some(word) => match number(word) {
                Ok(n) => Some(n),
                Err(_) => None,
            },
            None => None,
        }
    } else {
        None
    }
}

/// The partition number that a line of `parted`'s listing starts with, if it is the
/// line of an extended partition.
pub open spec fn extended_in_line(line: Seq<char>) -> Option<u32> {
    extended_by_case(line, lower_case(line))
}

/// The first partition number that one of the lines gives for an extended partition.
pub open spec fn first_extended(all: Seq<Seq<char>>, from: int) -> Option<u32>
    decreases all.len() - from,
{
    if from >= all.len() {
        None
    } else if extended_in_line(all[from]) is Some {
        extended_in_line(all[from])
    } else {
        first_extended(all, from + 1)
    }
}

/// Reads the partition number that a line starts with, if the line's lower-case form tells
/// of an extended partition.
pub fn extended_partition_in_line(line: &str, lower: &str) -> (r: Option<u32>)
    ensures
        r == extended_by_case(line@, lower@),
{
    if !has_text(lower, "extended") {
        return None;
    }
    match first_word_of(line) {
        Some(word) => match parse_number(word.as_str()) {
            Ok(n) => Some(n),
            Err(_) => None,
        },
        None => None,
    }
}

/// Looks for the extended partition in what `parted` prints of a disk.
pub fn extended_partition_in(listing: &str) -> (r: Option<u32>)
    ensures
        r == first_extended(lines(listing@), 0),
{
    let all = lines_of(listing);
    let mut i: usize = 0;
    while i < all.len()
        invariant
            i <= all@.len(),
            all.deep_view() == lines(listing@),
            first_extended(lines(listing@), 0) == first_extended(lines(listing@), i as int),
        decreases all@.len() - i,
    {
        assert(lines(listing@)[i as int] == all@[i as int]@);
        let line = all[i].as_str();
        let lower = to_lower_case(line);
        if let Some(n) = extended_partition_in_line(line, lower.as_str()) {
            return Some(n);
        }
        i = i + 1;
    }
    None
}

/// Asks `parted` for the partitions of a disk and looks for the extended one.
pub open spec fn extended_progress(
    rootblk: Seq<char>,
    outcomes: Seq<OutcomeView>,
    at: int,
) -> Progress<u32, ResizeDataErrorView> {
    and_then(
        ask(
            EffectView::Run {
                program: PARTED_CMD@,
                args: seq![rootblk, "print"@],
                directory: None,
            },
            outcomes,
            at,
        ),
        |outcome: OutcomeView, i: int|
            match outcome {
                OutcomeView::Output(output) => match first_extended(
                    lines(lossy_text(output.stdout)),
                    0,
                ) {
                    Some(n) => Progress::Returns(n, i),
                    None => Progress::Fails(
                        ResizeDataErrorView::ExtendedPartitionNotFound(rootblk),
                        i,
                    ),
                },
                other => Progress::Fails(ResizeDataErrorView::Io(reason_of(other)), i),
            },
    )
}

/// Finds the number of the disk's extended partition.
pub fn find_extended_partition(rootblk: &str, outcomes: &Vec<Outcome>, at: &mut usize) -> (r:
    Result<u32, Stop<ResizeDataError>>)
    ensures
        progress(r, *final(at)) == extended_progress(
            rootblk@,
            outcomes.deep_view(),
            *old(at) as int,
        ),
{
    let args = arguments(&[rootblk, "print"]);
    assert(args.deep_view() =~= seq![rootblk@, "print"@]);
    let print = Effect::Run { program: PARTED_CMD.to_owned(), args, directory: None };
    match perform(print, outcomes, at)? {
        Outcome::Output(output) => {
            let listing = decode_lossy(&output.stdout);
            match extended_partition_in(listing.as_str()) {
                Some(n) => Ok(n),
                None => Err(
                    Stop::Fail(ResizeDataError::ExtendedPartitionNotFound(rootblk.to_owned())),
                ),
            }
        },
        other => Err(Stop::Fail(ResizeDataError::Io(reason(other)))),
    }
}

// ---------------------------------------------------------------------------
// Commands
// ---------------------------------------------------------------------------

/// The error for a command that ended as it should not.
pub open spec fn command_failed(
    command: Seq<char>,
    output: CommandOutputView,
) -> ResizeDataErrorView {
    ResizeDataErrorView::CommandFailed {
        command,
        code: exit_code(output),
        output: lossy_text(output.stdout) + lossy_text(output.stderr),
    }
}

/// The exit code of a command; -1 if a signal ended it.
pub open spec fn exit_code(output: CommandOutputView) -> i32 {
    match output.code {
        Some(code) => code,
        None => -1i32,
    }
}

/// Runs a command that must exit with code zero.
pub open spec fn command_progress(
    program: Seq<char>,
    args: Seq<Seq<char>>,
    outcomes: Seq<OutcomeView>,
    at: int,
) -> Progress<(), ResizeDataErrorView> {
    and_then(
        ask(EffectView::Run { program, args, directory: None }, outcomes, at),
        |outcome: OutcomeView, i: int|
            match outcome {
                OutcomeView::Output(output) => if output.success {
                    Progress::Returns((), i)
                } else {
                    Progress::Fails(
                        command_failed(program + " "@ + joined(" "@, args), output),
                        i,
                    )
                },
                other => Progress::Fails(ResizeDataErrorView::Io(reason_of(other)), i),
            },
    )
}

/// Runs a command that must exit with code zero.
pub fn run_cmd(program: &str, args: &Vec<String>, outcomes: &Vec<Outcome>, at: &mut usize) -> (r:
    Result<(), Stop<ResizeDataError>>)
    ensures
        progress(r, *final(at)) == command_progress(
            program@,
            args.deep_view(),
            outcomes.deep_view(),
            *old(at) as int,
        ),
{
    let run = Effect::Run { program: program.to_owned(), args: copy_of(args), directory: None };
    match perform(run, outcomes, at)? {
        Outcome::Output(output) => {
            if output.success {
                return Ok(());
            }
            let code: i32 = match output.code {
                Some(code) => code,
                None => -1,
            };
            let stdout = decode_lossy(&output.stdout);
            let stderr = decode_lossy(&output.stderr);
            Err(
                Stop::Fail(
                    ResizeDataError::CommandFailed {
                        command: concat3(program, " ", join_with(" ", args).as_str()),
                        code,
                        output: concat2(stdout.as_str(), stderr.as_str()),
                    },
                ),
            )
        },
        other => Err(Stop::Fail(ResizeDataError::Io(reason(other)))),
    }
}

/// Runs `e2fsck`. Code zero says that the file system is clean, code one that errors
/// were corrected. Any other end is a failure, by a signal too.
pub open spec fn fsck_progress(
    dev: Seq<char>,
    outcomes: Seq<OutcomeView>,
    at: int,
) -> Progress<(), ResizeDataErrorView> {
    and_then(
        ask(
            EffectView::Run { program: E2FSCK_CMD@, args: seq!["-y"@, dev], directory: None },
            outcomes,
            at,
        ),
        |outcome: OutcomeView, i: int|
            match outcome {
                OutcomeView::Output(output) => if output.code == Some(0i32) || output.code
                    == Some(1i32) {
                    Progress::Returns((), i)
                } else {
                    Progress::Fails(
                        command_failed(E2FSCK_CMD@ + " -y "@ + dev, output),
                        i,
                    )
                },
                other => Progress::Fails(ResizeDataErrorView::Io(reason_of(other)), i),
            },
    )
}

/// Checks the file system on `dev` and lets errors be corrected.
pub fn run_e2fsck(dev: &str, outcomes: &Vec<Outcome>, at: &mut usize) -> (r: Result<
    (),
    Stop<ResizeDataError>,
>)
    ensures
        progress(r, *final(at)) == fsck_progress(dev@, outcomes.deep_view(), *old(at) as int),
{
    let args = arguments(&["-y", dev]);
    assert(args.deep_view() =~= seq!["-y"@, dev@]);
    let run = Effect::Run { program: E2FSCK_CMD.to_owned(), args, directory: None };
    match perform(run, outcomes, at)? {
        Outcome::Output(output) => {
            let code: i32 = match output.code {
                Some(code) => code,
                None => -1,
            };
            if code == 0 || code == 1 {
                return Ok(());
            }
            let stdout = decode_lossy(&output.stdout);
            let stderr = decode_lossy(&output.stderr);
            Err(
                Stop::Fail(
                    ResizeDataError::CommandFailed {
                        command: concat3(E2FSCK_CMD, " -y ", dev),
                        code,
                        output: concat2(stdout.as_str(), stderr.as_str()),
                    },
                ),
            )
        },
        other => Err(Stop::Fail(ResizeDataError::Io(reason(other)))),
    }
}

// ---------------------------------------------------------------------------
// The mount table
// ---------------------------------------------------------------------------

/// Sees to it that `/etc/mtab` exists. A file is left alone; a link is replaced by one
/// to the live mount table.
pub open spec fn mtab_progress(outcomes: Seq<OutcomeView>, at: int) -> Progress<
    (),
    ResizeDataErrorView,
> {
    and_then(
        ask(EffectView::Exists { path: MTAB_PATH@ }, outcomes, at),
        |exists: OutcomeView, i: int|
            if says_yes(exists) {
                and_then(
                    ask(EffectView::IsSymlink { path: MTAB_PATH@ }, outcomes, i),
                    |link: OutcomeView, j: int|
                        if says_yes(link) {
                            mtab_link_progress(outcomes, j)
                        } else {
                            Progress::Returns((), j)
                        },
                )
            } else {
                mtab_link_progress(outcomes, i)
            },
    )
}

/// Replaces the link `/etc/mtab`, if there is one, by one to the live mount table.
pub open spec fn mtab_link_progress(outcomes: Seq<OutcomeView>, at: int) -> Progress<
    (),
    ResizeDataErrorView,
> {
    and_then(
        ask(EffectView::IsSymlink { path: MTAB_PATH@ }, outcomes, at),
        |link: OutcomeView, i: int|
            and_then(
                if says_yes(link) {
                    doing(
                        EffectView::RemoveFile { path: MTAB_PATH@ },
                        |e: Seq<char>| ResizeDataErrorView::Io(e),
                        outcomes,
                        i,
                    )
                } else {
                    Progress::Returns((), i)
                },
                |_removed: (), j: int|
                    doing(
                        EffectView::Symlink { target: PROC_MOUNTS_PATH@, link: MTAB_PATH@ },
                        |e: Seq<char>| ResizeDataErrorView::Io(e),
                        outcomes,
                        j,
                    ),
            ),
    )
}

/// Sees to it that `/etc/mtab` exists, which `resize2fs` needs.
pub fn ensure_mtab(outcomes: &Vec<Outcome>, at: &mut usize) -> (r: Result<
    (),
    Stop<ResizeDataError>,
>)
    ensures
        progress(r, *final(at)) == mtab_progress(outcomes.deep_view(), *old(at) as int),
{
    let exists = Effect::Exists { path: MTAB_PATH.to_owned() };
    if is_yes(perform(exists, outcomes, at)?) {
        let link = Effect::IsSymlink { path: MTAB_PATH.to_owned() };
        if !is_yes(perform(link, outcomes, at)?) {
            return Ok(());
        }
    }
    let link = Effect::IsSymlink { path: MTAB_PATH.to_owned() };
    if is_yes(perform(link, outcomes, at)?) {
        let remove = Effect::RemoveFile { path: MTAB_PATH.to_owned() };
        if let Some(e) = why_undone(perform(remove, outcomes, at)?) {
            return Err(Stop::Fail(ResizeDataError::Io(e)));
        }
    }
    let create = Effect::Symlink {
        target: PROC_MOUNTS_PATH.to_owned(),
        link: MTAB_PATH.to_owned(),
    };
    if let Some(e) = why_undone(perform(create, outcomes, at)?) {
        return Err(Stop::Fail(ResizeDataError::Io(e)));
    }
    Ok(())
}

// ---------------------------------------------------------------------------
// The resize
// ---------------------------------------------------------------------------

/// Grows one partition to the end of the disk.
pub open spec fn resizepart_progress(
    rootblk: Seq<char>,
    part: u32,
    outcomes: Seq<OutcomeView>,
    at: int,
) -> Progress<(), ResizeDataErrorView> {
    command_progress(
        PARTED_CMD@,
        seq![rootblk, "resizepart"@, decimal(part as nat), "100%"@],
        outcomes,
        at,
    )
}

fn resize_partition(rootblk: &str, part: u32, outcomes: &Vec<Outcome>, at: &mut usize) -> (r:
    Result<(), Stop<ResizeDataError>>)
    ensures
        progress(r, *final(at)) == resizepart_progress(
            rootblk@,
            part,
            outcomes.deep_view(),
            *old(at) as int,
        ),
{
    let n = decimal_text(part);
    let args = arguments(&[rootblk, "resizepart", n.as_str(), "100%"]);
    assert(args.deep_view() =~= seq![rootblk@, "resizepart"@, n@, "100%"@]);
    run_cmd(PARTED_CMD, &args, outcomes, at)
}

/// Makes room for the data partition to grow: the backup header of a GPT goes to the
/// end of the disk; of a DOS table the extended partition is grown, which the data
/// partition lies in.
pub open spec fn make_room_progress(
    rootblk: Seq<char>,
    table_type: PartitionTableType,
    outcomes: Seq<OutcomeView>,
    at: int,
) -> Progress<(), ResizeDataErrorView> {
    match table_type {
        PartitionTableType::Gpt => command_progress(
            SGDISK_CMD@,
            seq![rootblk, "-e"@],
            outcomes,
            at,
        ),
        PartitionTableType::Dos => and_then(
            extended_progress(rootblk, outcomes, at),
            |extended: u32, i: int| resizepart_progress(rootblk, extended, outcomes, i),
        ),
    }
}

/// Grows the data partition, and then its file system.
pub open spec fn grow_progress(
    data_dev: Seq<char>,
    rootblk: Seq<char>,
    part: u32,
    table_type: PartitionTableType,
    outcomes: Seq<OutcomeView>,
    at: int,
) -> Progress<(), ResizeDataErrorView> {
    and_then(
        make_room_progress(rootblk, table_type, outcomes, at),
        |_room: (), i: int|
            and_then(
                resizepart_progress(rootblk, part, outcomes, i),
                |_grown: (), j: int|
                    and_then(
                        mtab_progress(outcomes, j),
                        |_mtab: (), k: int|
                            and_then(
                                fsck_progress(data_dev, outcomes, k),
                                |_checked: (), l: int|
                                    and_then(
                                        command_progress(
                                            RESIZE2FS_CMD@,
                                            seq!["-f"@, data_dev],
                                            outcomes,
                                            l,
                                        ),
                                        |_resized: (), m: int|
                                            command_progress(SYNC_CMD@, seq![], outcomes, m),
                                    ),
                            ),
                    ),
            ),
    )
}

fn grow_data(
    data_dev: &str,
    rootblk: &str,
    part: u32,
    table_type: PartitionTableType,
    outcomes: &Vec<Outcome>,
    at: &mut usize,
) -> (r: Result<(), Stop<ResizeDataError>>)
    ensures
        progress(r, *final(at)) == grow_progress(
            data_dev@,
            rootblk@,
            part,
            table_type,
            outcomes.deep_view(),
            *old(at) as int,
        ),
{
    match table_type {
        PartitionTableType::Gpt => {
            let args = arguments(&[rootblk, "-e"]);
            assert(args.deep_view() =~= seq![rootblk@, "-e"@]);
            run_cmd(SGDISK_CMD, &args, outcomes, at)?;
        },
        PartitionTableType::Dos => {
            let extended = find_extended_partition(rootblk, outcomes, at)?;
            resize_partition(rootblk, extended, outcomes, at)?;
        },
    }
    resize_partition(rootblk, part, outcomes, at)?;
    ensure_mtab(outcomes, at)?;
    run_e2fsck(data_dev, outcomes, at)?;
    let args = arguments(&["-f", data_dev]);
    assert(args.deep_view() =~= seq!["-f"@, data_dev@]);
    run_cmd(RESIZE2FS_CMD, &args, outcomes, at)?;
    let none: Vec<String> = Vec::new();
    assert(none.deep_view() =~= seq![]);
    run_cmd(SYNC_CMD, &none, outcomes, at)
}

/// Grows the data partition and its file system, unless the bootloader variable says
/// that this was done; and sets the variable.
pub open spec fn resize_progress(
    data_dev: Seq<char>,
    rootblk: Seq<char>,
    table_type: PartitionTableType,
    outcomes: Seq<OutcomeView>,
    at: int,
) -> Progress<(), InitramfsErrorView> {
    and_then(
        ask(EffectView::GetEnv { name: RESIZED_DATA@ }, outcomes, at),
        |outcome: OutcomeView, i: int|
            match outcome {
                OutcomeView::Value(Some(_)) => Progress::Returns((), i),
                OutcomeView::Value(None) => match partition_number_of(data_dev) {
                    Some(part) => and_then(
                        with_fault(
                            grow_progress(data_dev, rootblk, part, table_type, outcomes, i),
                            |e: ResizeDataErrorView| InitramfsErrorView::ResizeData(e),
                        ),
                        |_grown: (), j: int| mark_resized_progress(outcomes, j),
                    ),
                    None => Progress::Fails(
                        InitramfsErrorView::ResizeData(
                            ResizeDataErrorView::InvalidDevicePath(data_dev),
                        ),
                        i,
                    ),
                },
                other => Progress::Fails(InitramfsErrorView::Bootloader(reason_of(other)), i),
            },
    )
}

/// Sets the bootloader variable that says that the data partition was resized.
pub open spec fn mark_resized_progress(outcomes: Seq<OutcomeView>, at: int) -> Progress<
    (),
    InitramfsErrorView,
> {
    doing(
        EffectView::SetEnv { name: RESIZED_DATA@, value: Some("1"@) },
        |e: Seq<char>| InitramfsErrorView::Bootloader(e),
        outcomes,
        at,
    )
}

/// Grows the data partition and its file system to fill the disk, unless that was done
/// on an earlier boot. The data partition must not be mounted yet.
pub fn resize_data_if_needed(
    data_dev: &str,
    rootblk: &str,
    table_type: PartitionTableType,
    outcomes: &Vec<Outcome>,
    at: &mut usize,
) -> (r: Result<(), Stop<InitramfsError>>)
    ensures
        progress(r, *final(at)) == resize_progress(
            data_dev@,
            rootblk@,
            table_type,
            outcomes.deep_view(),
            *old(at) as int,
        ),
{
    let read = Effect::GetEnv { name: RESIZED_DATA.to_owned() };
    match perform(read, outcomes, at)? {
        Outcome::Value(Some(_)) => {
            return Ok(());
        },
        Outcome::Value(None) => {},
        other => {
            return Err(Stop::Fail(InitramfsError::Bootloader(reason(other))));
        },
    }
    let part = match partition_number(data_dev) {
        Some(part) => part,
        None => {
            return Err(
                Stop::Fail(
                    InitramfsError::ResizeData(
                        ResizeDataError::InvalidDevicePath(data_dev.to_owned()),
                    ),
                ),
            );
        },
    };
    match grow_data(data_dev, rootblk, part, table_type, outcomes, at) {
        Ok(()) => {},
        Err(Stop::Perform(effect)) => {
            return Err(Stop::Perform(effect));
        },
        Err(Stop::Fail(e)) => {
            return Err(Stop::Fail(InitramfsError::ResizeData(e)));
        },
        Err(Stop::Panic(message)) => {
            return Err(Stop::Panic(message));
        },
    }
    let mark = Effect::SetEnv { name: RESIZED_DATA.to_owned(), value: Some("1".to_owned()) };
    if let Some(e) = why_undone(perform(mark, outcomes, at)?) {
        return Err(Stop::Fail(InitramfsError::Bootloader(e)));
    }
    Ok(())
}

// ---------------------------------------------------------------------------
// Laws
// ---------------------------------------------------------------------------

/// A device path that ends with a number names the partition of that number.
pub proof fn law_partition_number_is_what_the_path_ends_with(base: Seq<char>, n: u32)
    requires
        base.len() == 0 || !is_digit(base.last()),
    ensures
        partition_number_of(base + decimal(n as nat)) == Some(n),
{
    let digits = decimal(n as nat);
    let dev = base + digits;
    let from = start_of(dev);
    law_decimal_reads_back(n);
    lemma_decimal(n as nat);
    lemma_last_slash(dev, from);
    let start = last_slash(dev, from) + 1;
    let name = last_name(dev, from);
    assert(is_digit(digits[digits.len() - 1]));
    assert(dev.last() == digits.last());
    assert(name.last() == dev.last());
    if start > base.len() {
        // No digit is a slash, nor a root or a dot in front.
        assert(is_digit(digits[0]));
        assert(start > from);
        assert(is_digit(digits[start - 1 - base.len()]));
    }
    let stem = base.skip(start);
    assert(name =~= stem + digits);
    law_trailing_number(stem, n as nat);
    if name == seq!['.', '.'] {
        assert(name.last() == '.');
    }
}

/// Where the variable says that the data partition was resized, nothing is done.
pub proof fn law_resize_is_done_once(
    data_dev: Seq<char>,
    rootblk: Seq<char>,
    table_type: PartitionTableType,
    outcomes: Seq<OutcomeView>,
    at: int,
)
    requires
        0 <= at < outcomes.len(),
        outcomes[at] is Value,
        outcomes[at]->Value_0 is Some,
    ensures
        resize_progress(data_dev, rootblk, table_type, outcomes, at) == Progress::<
            (),
            InitramfsErrorView,
        >::Returns((), at + 1),
{
}

/// Growing sets no bootloader variable.
proof fn lemma_growing_sets_nothing(
    data_dev: Seq<char>,
    rootblk: Seq<char>,
    part: u32,
    table_type: PartitionTableType,
    outcomes: Seq<OutcomeView>,
    at: int,
)
    ensures
        match grow_progress(data_dev, rootblk, part, table_type, outcomes, at) {
            Progress::Asks(effect) => !(effect is SetEnv),
            _ => true,
        },
{
}

/// The variable is set only when the partition and its file system have been grown, and
/// then no other variable is.
pub proof fn law_variable_is_set_last(
    data_dev: Seq<char>,
    rootblk: Seq<char>,
    table_type: PartitionTableType,
    outcomes: Seq<OutcomeView>,
    at: int,
)
    requires
        0 <= at,
    ensures
        match resize_progress(data_dev, rootblk, table_type, outcomes, at) {
            Progress::Asks(effect) => effect is SetEnv ==> {
                &&& effect == EffectView::SetEnv { name: RESIZED_DATA@, value: Some("1"@) }
                &&& partition_number_of(data_dev) is Some
                &&& grow_progress(
                    data_dev,
                    rootblk,
                    partition_number_of(data_dev)->Some_0,
                    table_type,
                    outcomes,
                    at + 1,
                ) is Returns
            },
            _ => true,
        },
{
    if let Some(part) = partition_number_of(data_dev) {
        lemma_growing_sets_nothing(data_dev, rootblk, part, table_type, outcomes, at + 1);
    }
}

/// A resize that returns has found the variable set, or has grown the partition and set
/// it.
pub proof fn law_variable_is_set_in_the_end(
    data_dev: Seq<char>,
    rootblk: Seq<char>,
    table_type: PartitionTableType,
    outcomes: Seq<OutcomeView>,
    at: int,
)
    requires
        0 <= at,
        resize_progress(data_dev, rootblk, table_type, outcomes, at) is Returns,
    ensures
        at < outcomes.len(),
        outcomes[at] is Value,
        outcomes[at]->Value_0 is Some || {
            &&& partition_number_of(data_dev) is Some
            &&& match grow_progress(
                data_dev,
                rootblk,
                partition_number_of(data_dev)->Some_0,
                table_type,
                outcomes,
                at + 1,
            ) {
                Progress::Returns(_, i) => mark_resized_progress(outcomes, i) is Returns,
                _ => false,
            }
        },
{
}

/// The file system is grown only when its check has just ended with code zero or one.
pub proof fn law_file_system_is_checked_before_it_grows(
    data_dev: Seq<char>,
    rootblk: Seq<char>,
    part: u32,
    table_type: PartitionTableType,
    outcomes: Seq<OutcomeView>,
    at: int,
)
    requires
        0 <= at <= outcomes.len(),
    ensures
        match grow_progress(data_dev, rootblk, part, table_type, outcomes, at) {
            Progress::Asks(EffectView::Run { program, .. }) => program == RESIZE2FS_CMD@ ==> {
                &&& outcomes.len() > 0
                &&& outcomes.last() is Output
                &&& outcomes.last()->Output_0.code == Some(0i32) || outcomes.last()->Output_0.code
                    == Some(1i32)
            },
            _ => true,
        },
{
    reveal_strlit("/sbin/resize2fs");
    reveal_strlit("/usr/sbin/sgdisk");
    reveal_strlit("/usr/sbin/parted");
    reveal_strlit("/sbin/e2fsck");
    reveal_strlit("/bin/sync");
    assert(RESIZE2FS_CMD@.len() == 15);
    assert(SGDISK_CMD@.len() == 16);
    assert(PARTED_CMD@.len() == 16);
    assert(E2FSCK_CMD@.len() == 12);
    assert(SYNC_CMD@.len() == 9);
}

/// A resize that is over stays over: outcomes added to the record change nothing of how
/// it ended.
pub proof fn law_resize_stays_over(
    data_dev: Seq<char>,
    rootblk: Seq<char>,
    table_type: PartitionTableType,
    outcomes: Seq<OutcomeView>,
    n: int,
    at: int,
)
    requires
        0 <= at <= n <= outcomes.len(),
    ensures
        stays_over(
            resize_progress(data_dev, rootblk, table_type, outcomes.take(n), at),
            resize_progress(data_dev, rootblk, table_type, outcomes, at),
            at,
            n,
        ),
{
    if let Some(part) = partition_number_of(data_dev) {
        if at < n {
            lemma_growing_stays_over(data_dev, rootblk, part, table_type, outcomes, n, at + 1);
        }
    }
}

proof fn lemma_growing_stays_over(
    data_dev: Seq<char>,
    rootblk: Seq<char>,
    part: u32,
    table_type: PartitionTableType,
    outcomes: Seq<OutcomeView>,
    n: int,
    at: int,
)
    requires
        0 <= at <= n <= outcomes.len(),
    ensures
        stays_over(
            grow_progress(data_dev, rootblk, part, table_type, outcomes.take(n), at),
            grow_progress(data_dev, rootblk, part, table_type, outcomes, at),
            at,
            n,
        ),
{
}

/// A partition's number is what the digits at the end of its file name spell; there is none
/// without a file name, without digits at its end, or where they spell too large a number.
pub proof fn law_partition_number_is_in_the_file_name(dev: Seq<char>)
    ensures
        partition_number_of(dev) matches Some(n) ==> {
            &&& file_name_text(dev) is Some
            &&& trailing_digits(file_name_text(dev)->Some_0).len() > 0
            &&& number(trailing_digits(file_name_text(dev)->Some_0)) == Ok::<u32, NumberFault>(n)
        },
        partition_number_of(dev) is None ==> {
            ||| file_name_text(dev) is None
            ||| trailing_digits(file_name_text(dev)->Some_0).len() == 0
            ||| number(trailing_digits(file_name_text(dev)->Some_0)) is Err
        },
{
}

/// Whether a line tells of an extended partition and starts with this number.
pub open spec fn tells_of_extended(line: Seq<char>, n: u32) -> bool {
    &&& contains_text(lower_case(line), "extended"@)
    &&& first_word(line) is Some
    &&& number(first_word(line)->Some_0) == Ok::<u32, NumberFault>(n)
}

/// The extended partition is that of the first line that tells of one; there is none where
/// no line does.
pub proof fn law_extended_partition_is_the_first_told_of(all: Seq<Seq<char>>, from: int) -> (i: int)
    requires
        0 <= from <= all.len(),
    ensures
        from <= i <= all.len(),
        forall|k: int, n: u32| from <= k < i ==> !#[trigger] tells_of_extended(all[k], n),
        match first_extended(all, from) {
            Some(n) => i < all.len() && tells_of_extended(all[i], n),
            None => i == all.len(),
        },
    decreases all.len() - from,
{
    if from >= all.len() {
        from
    } else if extended_in_line(all[from]) is Some {
        from
    } else {
        let i = law_extended_partition_is_the_first_told_of(all, from + 1);
        assert forall|k: int, n: u32| from <= k < i implies !#[trigger] tells_of_extended(
            all[k],
            n,
        ) by {
            if k == from {
            }
        }
        i
    }
}

/// The error for a command that did not end as it should.
pub open spec fn command_error(command: Seq<char>, o: OutcomeView) -> ResizeDataErrorView {
    match o {
        OutcomeView::Output(output) => ResizeDataErrorView::CommandFailed {
            command,
            code: if output.code is Some {
                output.code->Some_0
            } else {
                -1i32
            },
            output: lossy_text(output.stdout) + lossy_text(output.stderr),
        },
        other => ResizeDataErrorView::Io(reason_of(other)),
    }
}

/// A command is one run, which must exit with code zero. A check is one run too, which may
/// also exit with code one. The listing of a disk is one run, whatever its code, which must
/// tell of an extended partition.
pub proof fn law_commands_are_single_runs(
    program: Seq<char>,
    args: Seq<Seq<char>>,
    dev: Seq<char>,
    outcomes: Seq<OutcomeView>,
    at: int,
)
    requires
        0 <= at <= outcomes.len(),
    ensures
        follows(
            command_progress(program, args, outcomes, at),
            seq![EffectView::Run { program, args, directory: None }],
            |k: int, o: OutcomeView| o is Output && o->Output_0.success,
            |k: int, o: OutcomeView| command_error(program + " "@ + joined(" "@, args), o),
            outcomes,
            at,
        ),
        follows(
            fsck_progress(dev, outcomes, at),
            seq![
                EffectView::Run {
                    program: "/sbin/e2fsck"@,
                    args: seq!["-y"@, dev],
                    directory: None,
                },
            ],
            |k: int, o: OutcomeView|
                o is Output && (o->Output_0.code == Some(0i32) || o->Output_0.code == Some(1i32)),
            |k: int, o: OutcomeView| command_error("/sbin/e2fsck"@ + " -y "@ + dev, o),
            outcomes,
            at,
        ),
        follows(
            extended_progress(dev, outcomes, at),
            seq![
                EffectView::Run {
                    program: "/usr/sbin/parted"@,
                    args: seq![dev, "print"@],
                    directory: None,
                },
            ],
            |k: int, o: OutcomeView|
                o is Output && first_extended(lines(lossy_text(o->Output_0.stdout)), 0) is Some,
            |k: int, o: OutcomeView|
                if o is Output {
                    ResizeDataErrorView::ExtendedPartitionNotFound(dev)
                } else {
                    ResizeDataErrorView::Io(reason_of(o))
                },
            outcomes,
            at,
        ),
        extended_progress(dev, outcomes, at) matches Progress::Returns(n, _) ==> first_extended(
            lines(lossy_text(outcomes[at]->Output_0.stdout)),
            0,
        ) == Some(n),
{
}

/// The mount table is left alone where it is a file. Otherwise a link that is there is
/// removed, and a link to the live mount table is made.
pub proof fn law_mount_table_is_a_file_or_the_link(outcomes: Seq<OutcomeView>, at: int)
    requires
        0 <= at <= outcomes.len(),
    ensures
        ({
            let mtab = mtab_progress(outcomes, at);
            let is_link = EffectView::IsSymlink { path: "/etc/mtab"@ };
            let yes = OutcomeView::Flag(true);
            let n = outcomes.len();
            if n == at {
                mtab == Progress::<(), ResizeDataErrorView>::Asks(
                    EffectView::Exists { path: "/etc/mtab"@ },
                )
            } else if n == at + 1 || (outcomes[at] == yes && outcomes[at + 1] == yes && n == at
                + 2) {
                mtab == Progress::<(), ResizeDataErrorView>::Asks(is_link)
            } else if outcomes[at] == yes && outcomes[at + 1] != yes {
                mtab == Progress::<(), ResizeDataErrorView>::Returns((), at + 2)
            } else {
                // Where the question whether it is a link was asked last.
                let last = if outcomes[at] == yes {
                    at + 2
                } else {
                    at + 1
                };
                if outcomes[last] == yes {
                    follows(
                        mtab,
                        seq![
                            EffectView::RemoveFile { path: "/etc/mtab"@ },
                            EffectView::Symlink {
                                target: "/proc/self/mounts"@,
                                link: "/etc/mtab"@,
                            },
                        ],
                        |k: int, o: OutcomeView| o is Done,
                        |k: int, o: OutcomeView| ResizeDataErrorView::Io(reason_of(o)),
                        outcomes,
                        last + 1,
                    )
                } else {
                    follows(
                        mtab,
                        seq![
                            EffectView::Symlink {
                                target: "/proc/self/mounts"@,
                                link: "/etc/mtab"@,
                            },
                        ],
                        |k: int, o: OutcomeView| o is Done,
                        |k: int, o: OutcomeView| ResizeDataErrorView::Io(reason_of(o)),
                        outcomes,
                        last + 1,
                    )
                }
            }
        }),
{
}

/// Room is made on a GPT disk by moving the backup header, on a DOS disk by growing the
/// extended partition that was found.
pub proof fn law_room_is_made_as_the_table_needs(
    rootblk: Seq<char>,
    outcomes: Seq<OutcomeView>,
    at: int,
)
    requires
        0 <= at <= outcomes.len(),
    ensures
        make_room_progress(rootblk, PartitionTableType::Gpt, outcomes, at) == command_progress(
            "/usr/sbin/sgdisk"@,
            seq![rootblk, "-e"@],
            outcomes,
            at,
        ),
        make_room_progress(rootblk, PartitionTableType::Dos, outcomes, at) == (
        match extended_progress(rootblk, outcomes, at) {
            Progress::Returns(n, i) => command_progress(
                "/usr/sbin/parted"@,
                seq![rootblk, "resizepart"@, decimal(n as nat), "100%"@],
                outcomes,
                i,
            ),
            Progress::Asks(effect) => Progress::Asks(effect),
            Progress::Fails(e, end) => Progress::Fails(e, end),
            Progress::Panics(message) => Progress::Panics(message),
        }),
{
}

/// When there is room, the data partition is grown to the end of the disk, the mount table
/// is seen to, and then the file system is checked, grown, and flushed: for either kind of
/// table.
pub proof fn law_growth_goes_step_by_step(
    data_dev: Seq<char>,
    rootblk: Seq<char>,
    part: u32,
    table_type: PartitionTableType,
    outcomes: Seq<OutcomeView>,
    at: int,
)
    requires
        0 <= at <= outcomes.len(),
    ensures
        ({
            let grow = grow_progress(data_dev, rootblk, part, table_type, outcomes, at);
            match make_room_progress(rootblk, table_type, outcomes, at) {
                Progress::Returns(_, i) => match command_progress(
                    "/usr/sbin/parted"@,
                    seq![rootblk, "resizepart"@, decimal(part as nat), "100%"@],
                    outcomes,
                    i,
                ) {
                    Progress::Returns(_, j) => match mtab_progress(outcomes, j) {
                        Progress::Returns(_, k) => follows(
                            grow,
                            seq![
                                EffectView::Run {
                                    program: "/sbin/e2fsck"@,
                                    args: seq!["-y"@, data_dev],
                                    directory: None,
                                },
                                EffectView::Run {
                                    program: "/sbin/resize2fs"@,
                                    args: seq!["-f"@, data_dev],
                                    directory: None,
                                },
                                EffectView::Run {
                                    program: "/bin/sync"@,
                                    args: seq![],
                                    directory: None,
                                },
                            ],
                            |n: int, o: OutcomeView|
                                o is Output && (o->Output_0.success && n > 0 || n == 0 && (
                                o->Output_0.code == Some(0i32) || o->Output_0.code == Some(1i32))),
                            |n: int, o: OutcomeView|
                                command_error(
                                    if n == 0 {
                                        "/sbin/e2fsck"@ + " -y "@ + data_dev
                                    } else if n == 1 {
                                        "/sbin/resize2fs"@ + " "@ + joined(
                                            " "@,
                                            seq!["-f"@, data_dev],
                                        )
                                    } else {
                                        "/bin/sync"@ + " "@ + joined(" "@, seq![])
                                    },
                                    o,
                                ),
                            outcomes,
                            k,
                        ),
                        stopped => grow == stopped,
                    },
                    stopped => grow == stopped,
                },
                stopped => grow == stopped,
            }
        }),
{
}

/// A growth that returns has, for either kind of table, asked for these in this order, each
/// with a good end: the data partition grown, the file system checked, the file system
/// grown, file systems flushed.
pub proof fn law_growth_that_returns_has_grown_all(
    data_dev: Seq<char>,
    rootblk: Seq<char>,
    part: u32,
    table_type: PartitionTableType,
    outcomes: Seq<OutcomeView>,
    at: int,
)
    requires
        0 <= at <= outcomes.len(),
        grow_progress(data_dev, rootblk, part, table_type, outcomes, at) is Returns,
    ensures
        ({
            let end = grow_progress(
                data_dev,
                rootblk,
                part,
                table_type,
                outcomes,
                at,
            )->Returns_1;
            let p = if table_type == PartitionTableType::Gpt {
                at + 1
            } else {
                at + 2
            };
            &&& p < end - 3
            &&& end <= outcomes.len()
            &&& grow_progress(data_dev, rootblk, part, table_type, outcomes.take(p), at)
                == Progress::<(), ResizeDataErrorView>::Asks(
                EffectView::Run {
                    program: "/usr/sbin/parted"@,
                    args: seq![rootblk, "resizepart"@, decimal(part as nat), "100%"@],
                    directory: None,
                },
            )
            &&& outcomes[p] is Output && outcomes[p]->Output_0.success
            &&& grow_progress(data_dev, rootblk, part, table_type, outcomes.take(end - 3), at)
                == Progress::<(), ResizeDataErrorView>::Asks(
                EffectView::Run {
                    program: "/sbin/e2fsck"@,
                    args: seq!["-y"@, data_dev],
                    directory: None,
                },
            )
            &&& outcomes[end - 3] is Output
            &&& outcomes[end - 3]->Output_0.code == Some(0i32)
                || outcomes[end - 3]->Output_0.code == Some(1i32)
            &&& grow_progress(data_dev, rootblk, part, table_type, outcomes.take(end - 2), at)
                == Progress::<(), ResizeDataErrorView>::Asks(
                EffectView::Run {
                    program: "/sbin/resize2fs"@,
                    args: seq!["-f"@, data_dev],
                    directory: None,
                },
            )
            &&& outcomes[end - 2] is Output && outcomes[end - 2]->Output_0.success
            &&& grow_progress(data_dev, rootblk, part, table_type, outcomes.take(end - 1), at)
                == Progress::<(), ResizeDataErrorView>::Asks(
                EffectView::Run { program: "/bin/sync"@, args: seq![], directory: None },
            )
            &&& outcomes[end - 1] is Output && outcomes[end - 1]->Output_0.success
        }),
{
}

/// A resize asks whether it was done; and if it was not, grows the partition that the
/// device path names, and then sets the variable.
pub proof fn law_resize_goes_step_by_step(
    data_dev: Seq<char>,
    rootblk: Seq<char>,
    table_type: PartitionTableType,
    outcomes: Seq<OutcomeView>,
    at: int,
)
    requires
        0 <= at <= outcomes.len(),
    ensures
        ({
            let resize = resize_progress(data_dev, rootblk, table_type, outcomes, at);
            if at == outcomes.len() {
                resize == Progress::<(), InitramfsErrorView>::Asks(
                    EffectView::GetEnv { name: "resized-data"@ },
                )
            } else if !(outcomes[at] is Value) {
                resize == Progress::<(), InitramfsErrorView>::Fails(
                    InitramfsErrorView::Bootloader(reason_of(outcomes[at])),
                    at + 1,
                )
            } else if outcomes[at]->Value_0 is Some {
                resize == Progress::<(), InitramfsErrorView>::Returns((), at + 1)
            } else if partition_number_of(data_dev) is None {
                resize == Progress::<(), InitramfsErrorView>::Fails(
                    InitramfsErrorView::ResizeData(
                        ResizeDataErrorView::InvalidDevicePath(data_dev),
                    ),
                    at + 1,
                )
            } else {
                match grow_progress(
                    data_dev,
                    rootblk,
                    partition_number_of(data_dev)->Some_0,
                    table_type,
                    outcomes,
                    at + 1,
                ) {
                    Progress::Returns(_, end) => follows(
                        resize,
                        seq![
                            EffectView::SetEnv { name: "resized-data"@, value: Some("1"@) },
                        ],
                        |k: int, o: OutcomeView| o is Done,
                        |k: int, o: OutcomeView| InitramfsErrorView::Bootloader(reason_of(o)),
                        outcomes,
                        end,
                    ),
                    Progress::Fails(e, end) => resize == Progress::<
                        (),
                        InitramfsErrorView,
                    >::Fails(InitramfsErrorView::ResizeData(e), end),
                    Progress::Asks(effect) => resize == Progress::<(), InitramfsErrorView>::Asks(
                        effect,
                    ),
                    Progress::Panics(_) => false,
                }
            }
        }),
{
    if at < outcomes.len() && partition_number_of(data_dev) is Some {
        assert(outcomes.take(outcomes.len() as int) =~= outcomes);
        lemma_growing_stays_over(
            data_dev,
            rootblk,
            partition_number_of(data_dev)->Some_0,
            table_type,
            outcomes,
            outcomes.len() as int,
            at + 1,
        );
        lemma_growing_does_not_panic(
            data_dev,
            rootblk,
            partition_number_of(data_dev)->Some_0,
            table_type,
            outcomes,
            at + 1,
        );
    }
}

proof fn lemma_growing_does_not_panic(
    data_dev: Seq<char>,
    rootblk: Seq<char>,
    part: u32,
    table_type: PartitionTableType,
    outcomes: Seq<OutcomeView>,
    at: int,
)
    ensures
        !(grow_progress(data_dev, rootblk, part, table_type, outcomes, at) is Panics),
{
}

}
