//! Files for omnect-device-service, which it reads when it starts.

use vstd::prelude::*;
use vstd::string::*;

use crate::bootloader::{OMNECT_BOOTLOADER_UPDATED, OMNECT_VALIDATE_UPDATE};
use crate::effect::{
    and_then, ask, doing, is_yes, perform, progress, reading, reason, says_yes, stays_over,
    value, value_of, why_undone, Effect, EffectView, Outcome, OutcomeView, Progress, Stop,
};
use crate::error::{InitramfsError, InitramfsErrorView};
use crate::factory_reset::status::FACTORY_RESET_STATUS_TMP;
use crate::json::{
    document_of, is_null, is_object, json_contents, parse_json, parsed_json, pretty_json,
    print_pretty, quote, quoted, set_member, takes_members, with_member, JsonTree,
};
use crate::number::{
    decimal, is_digit, law_decimal_reads_back, lemma_decimal, number, parse_number,
    signed_decimal, signed_decimal_text, NumberFault,
};
use crate::path::{join, join_text};
use crate::text::{
    concat2, concat3, concat4, concat5, field, field_of, first_index, join_with, joined,
    lemma_first_index, lines, lines_of, lower_case, same_text, to_lower_case,
};

verus! {

/// The directory of the runtime files. It lies on the `/run` file system, which is
/// handed over to the booted system.
pub const ODS_RUNTIME_DIR: &'static str = "/run/omnect-device-service";

/// The main status file.
pub const ODS_STATUS_FILE: &'static str = "omnect-os-initramfs.json";

/// Tells the service to validate an update.
pub const UPDATE_VALIDATE_FILE: &'static str = "omnect_validate_update";

/// Tells the service that an update failed to validate.
pub const UPDATE_VALIDATE_FAILED_FILE: &'static str = "omnect_validate_update_failed";

/// Tells the service that an update replaced the bootloader.
pub const BOOTLOADER_UPDATED_FILE: &'static str = "omnect_bootloader_updated";

pub const ODS_USER: &'static str = "omnect_device_service";

pub const ODS_GROUP: &'static str = "omnect_device_service";

/// rwxrwxr-x
pub const DIR_MODE: u32 = 0o775;

/// rw-------
pub const FILE_MODE_RESTRICTED: u32 = 0o600;

/// rw-r--r--
pub const FILE_MODE_READABLE: u32 = 0o644;

// ---------------------------------------------------------------------------
// Status
// ---------------------------------------------------------------------------

/// What the check of one partition came to.
#[derive(Debug)]
pub struct FsckStatus {
    /// The exit code of fsck.
    pub code: i32,
    /// What fsck printed.
    pub output: String,
}

/// The check of one partition as mathematical text.
#[verifier::ext_equal]
pub struct FsckStatusView {
    pub code: i32,
    pub output: Seq<char>,
}

impl DeepView for FsckStatus {
    type V = FsckStatusView;

    open spec fn deep_view(&self) -> FsckStatusView {
        FsckStatusView { code: self.code, output: self.output@ }
    }
}

impl Clone for FsckStatus {
    fn clone(&self) -> (r: FsckStatus)
        ensures
            r.deep_view() == self.deep_view(),
    {
        FsckStatus { code: self.code, output: self.output.clone() }
    }
}

/// Check results by partition, in the order in which partitions were first added.
/// No partition occurs twice.
#[derive(Debug)]
pub struct FsckResults {
    entries: Vec<(String, FsckStatus)>,
}

/// Whether no partition occurs twice.
pub open spec fn distinct_partitions(entries: Seq<(Seq<char>, FsckStatusView)>) -> bool {
    forall|i: int, j: int|
        0 <= i < j < entries.len() ==> (#[trigger] entries[i]).0 != (#[trigger] entries[j]).0
}

/// The index of the first entry for a partition, or the number of entries.
pub open spec fn entry_index(
    entries: Seq<(Seq<char>, FsckStatusView)>,
    partition: Seq<char>,
    from: int,
) -> int
    decreases entries.len() - from,
{
    if from >= entries.len() {
        entries.len() as int
    } else if entries[from].0 == partition {
        from
    } else {
        entry_index(entries, partition, from + 1)
    }
}

/// The result on record for a partition.
pub open spec fn result_for(
    entries: Seq<(Seq<char>, FsckStatusView)>,
    partition: Seq<char>,
) -> Option<FsckStatusView> {
    let i = entry_index(entries, partition, 0);
    if i < entries.len() {
        Some(entries[i].1)
    } else {
        None
    }
}

/// The entries with one result added: in the place of the partition's former result,
/// or at the end.
pub open spec fn with_result(
    entries: Seq<(Seq<char>, FsckStatusView)>,
    partition: Seq<char>,
    status: FsckStatusView,
) -> Seq<(Seq<char>, FsckStatusView)> {
    let i = entry_index(entries, partition, 0);
    if i < entries.len() {
        entries.update(i, (partition, status))
    } else {
        entries.push((partition, status))
    }
}

/// Where the first entry for a partition stands.
pub proof fn lemma_entry_index(
    entries: Seq<(Seq<char>, FsckStatusView)>,
    partition: Seq<char>,
    from: int,
)
    requires
        0 <= from <= entries.len(),
    ensures
        from <= entry_index(entries, partition, from) <= entries.len(),
        entry_index(entries, partition, from) < entries.len() ==> entries[entry_index(
            entries,
            partition,
            from,
        )].0 == partition,
        forall|i: int|
            from <= i < entry_index(entries, partition, from) ==> (#[trigger] entries[i]).0
                != partition,
    decreases entries.len() - from,
{
    if from < entries.len() && entries[from].0 != partition {
        lemma_entry_index(entries, partition, from + 1);
    }
}

/// A result that was added is the one on record for its partition, and no other
/// partition's result is changed by that.
pub proof fn law_added_result_is_on_record(
    entries: Seq<(Seq<char>, FsckStatusView)>,
    partition: Seq<char>,
    status: FsckStatusView,
    other: Seq<char>,
)
    ensures
        result_for(with_result(entries, partition, status), partition) == Some(status),
        other != partition ==> result_for(with_result(entries, partition, status), other)
            == result_for(entries, other),
{
    let new = with_result(entries, partition, status);
    lemma_entry_index(entries, partition, 0);
    lemma_entry_index(new, partition, 0);
    lemma_entry_index(entries, other, 0);
    lemma_entry_index(new, other, 0);
    let at = entry_index(entries, partition, 0);
    assert(new[at] == (partition, status));
    assert forall|i: int| 0 <= i < entries.len() && i != at implies new[i] == entries[i] by {}
    let p = entry_index(new, partition, 0);
    assert(p <= at);
    if p < at {
        assert(new[p] == entries[p]);
    }
    if other != partition {
        let a = entry_index(entries, other, 0);
        let b = entry_index(new, other, 0);
        if a < entries.len() {
            assert(new[a] == entries[a]);
            assert(b <= a);
        }
        if b < new.len() {
            assert(b != at);
            assert(new[b] == entries[b]);
            assert(a <= b);
        }
    }
}

/// Adding a result keeps partitions from occurring twice.
pub proof fn law_partitions_stay_distinct(
    entries: Seq<(Seq<char>, FsckStatusView)>,
    partition: Seq<char>,
    status: FsckStatusView,
)
    requires
        distinct_partitions(entries),
    ensures
        distinct_partitions(with_result(entries, partition, status)),
{
    lemma_entry_index(entries, partition, 0);
}

impl DeepView for FsckResults {
    type V = Seq<(Seq<char>, FsckStatusView)>;

    closed spec fn deep_view(&self) -> Seq<(Seq<char>, FsckStatusView)> {
        self.entries.deep_view()
    }
}

impl FsckResults {
    #[verifier::type_invariant]
    spec fn partitions_are_distinct(self) -> bool {
        distinct_partitions(self.entries.deep_view())
    }

    /// No results.
    pub fn new() -> (r: FsckResults)
        ensures
            r.deep_view() == Seq::<(Seq<char>, FsckStatusView)>::empty(),
    {
        let r = FsckResults { entries: Vec::new() };
        assert(r.deep_view() =~= Seq::empty());
        r
    }

    /// The number of partitions with a result.
    pub fn len(&self) -> (r: usize)
        ensures
            r == self.deep_view().len(),
            distinct_partitions(self.deep_view()),
    {
        proof {
            use_type_invariant(self);
        }
        self.entries.len()
    }

    /// Whether there is no result.
    pub fn is_empty(&self) -> (r: bool)
        ensures
            r == (self.deep_view().len() == 0),
    {
        self.entries.len() == 0
    }

    fn index_of(&self, partition: &str) -> (r: usize)
        ensures
            r == entry_index(self.deep_view(), partition@, 0),
            r <= self.entries@.len(),
    {
        let mut i: usize = 0;
        while i < self.entries.len()
            invariant
                i <= self.entries@.len(),
                entry_index(self.deep_view(), partition@, 0) == entry_index(
                    self.deep_view(),
                    partition@,
                    i as int,
                ),
            decreases self.entries@.len() - i,
        {
            assert(self.deep_view()[i as int].0 == self.entries@[i as int].0@);
            if same_text(self.entries[i].0.as_str(), partition) {
                return i;
            }
            i = i + 1;
        }
        i
    }

    /// The result on record for a partition.
    pub fn get(&self, partition: &str) -> (r: Option<&FsckStatus>)
        ensures
            r.deep_view() == result_for(self.deep_view(), partition@),
    {
        let i = self.index_of(partition);
        if i < self.entries.len() {
            assert(self.deep_view()[i as int].1 == self.entries@[i as int].1.deep_view());
            Some(&self.entries[i].1)
        } else {
            None
        }
    }

    /// These results and one more; it takes the place of the partition's former result.
    fn with(self, partition: &str, status: FsckStatus) -> (r: FsckResults)
        ensures
            r.deep_view() == with_result(self.deep_view(), partition@, status.deep_view()),
    {
        proof {
            use_type_invariant(&self);
            law_partitions_stay_distinct(self.deep_view(), partition@, status.deep_view());
        }
        let ghost before = self.deep_view();
        let ghost added = (partition@, status.deep_view());
        let i = self.index_of(partition);
        let mut entries = self.entries;
        if i < entries.len() {
            entries.set(i, (partition.to_owned(), status));
            assert(entries.deep_view() =~= before.update(i as int, added));
        } else {
            entries.push((partition.to_owned(), status));
            assert(entries.deep_view() =~= before.push(added));
        }
        FsckResults { entries }
    }
}

impl Clone for FsckResults {
    fn clone(&self) -> (r: FsckResults)
        ensures
            r.deep_view() == self.deep_view(),
    {
        proof {
            use_type_invariant(self);
        }
        let mut entries: Vec<(String, FsckStatus)> = Vec::new();
        let mut i: usize = 0;
        while i < self.entries.len()
            invariant
                i <= self.entries@.len(),
                entries@.len() == i,
                forall|k: int|
                    0 <= k < i ==> (#[trigger] entries@[k]).deep_view()
                        == self.entries@[k].deep_view(),
            decreases self.entries@.len() - i,
        {
            let entry = &self.entries[i];
            entries.push((entry.0.clone(), entry.1.clone()));
            i = i + 1;
        }
        assert(entries.deep_view() =~= self.entries.deep_view());
        FsckResults { entries }
    }
}

/// What omnect-device-service is told of the boot.
#[derive(Debug)]
pub struct OdsStatus {
    /// The check results by partition.
    pub fsck: FsckResults,
}

impl DeepView for OdsStatus {
    type V = Seq<(Seq<char>, FsckStatusView)>;

    open spec fn deep_view(&self) -> Seq<(Seq<char>, FsckStatusView)> {
        self.fsck.deep_view()
    }
}

impl Default for OdsStatus {
    fn default() -> (r: OdsStatus)
        ensures
            r.deep_view() == Seq::<(Seq<char>, FsckStatusView)>::empty(),
    {
        OdsStatus { fsck: FsckResults::new() }
    }
}

impl Clone for OdsStatus {
    fn clone(&self) -> (r: OdsStatus)
        ensures
            r.deep_view() == self.deep_view(),
    {
        OdsStatus { fsck: self.fsck.clone() }
    }
}

/// One check result as a member of a JSON object, indented.
pub open spec fn fsck_entry_json(entry: (Seq<char>, FsckStatusView)) -> Seq<char> {
    "\n    "@ + quoted(entry.0) + ": {\n      \"code\": "@ + signed_decimal(entry.1.code as int)
        + ",\n      \"output\": "@ + quoted(entry.1.output) + "\n    }"@
}

/// The status as a JSON object with line breaks and indentation. Without results the
/// object is empty.
pub open spec fn ods_json(entries: Seq<(Seq<char>, FsckStatusView)>) -> Seq<char> {
    if entries.len() == 0 {
        "{}"@
    } else {
        "{\n  \"fsck\": {"@ + joined(
            ","@,
            entries.map_values(|entry: (Seq<char>, FsckStatusView)| fsck_entry_json(entry)),
        ) + "\n  }\n}"@
    }
}

impl OdsStatus {
    /// A status without results.
    pub fn new() -> (r: OdsStatus)
        ensures
            r.deep_view() == Seq::<(Seq<char>, FsckStatusView)>::empty(),
    {
        OdsStatus { fsck: FsckResults::new() }
    }

    /// Adds the check result of a partition.
    pub fn add_fsck_result(&mut self, partition: &str, code: i32, output: String)
        ensures
            final(self).deep_view() == with_result(
                old(self).deep_view(),
                partition@,
                (FsckStatusView { code, output: output@ }),
            ),
    {
        let mut results = FsckResults::new();
        std::mem::swap(&mut results, &mut self.fsck);
        self.fsck = results.with(partition, FsckStatus { code, output });
    }

    /// Writes the status as a JSON object with line breaks and indentation.
    pub fn to_json_pretty(&self) -> (r: String)
        ensures
            r@ == ods_json(self.deep_view()),
    {
        let n = self.fsck.entries.len();
        if n == 0 {
            return "{}".to_owned();
        }
        let ghost entries = self.deep_view();
        let ghost f = |entry: (Seq<char>, FsckStatusView)| fsck_entry_json(entry);
        let mut members: Vec<String> = Vec::new();
        let mut i: usize = 0;
        while i < n
            invariant
                i <= n == self.fsck.entries@.len(),
                entries == self.fsck.entries.deep_view(),
                members@.len() == i,
                forall|k: int|
                    0 <= k < i ==> (#[trigger] members@[k])@ == fsck_entry_json(entries[k]),
            decreases n - i,
        {
            let entry = &self.fsck.entries[i];
            assert(entries[i as int] == (entry.0@, entry.1.deep_view()));
            let name = quote(entry.0.as_str()).unwrap();
            let output = quote(entry.1.output.as_str()).unwrap();
            let mut member = concat4(
                "\n    ",
                name.as_str(),
                ": {\n      \"code\": ",
                signed_decimal_text(entry.1.code).as_str(),
            );
            member.append(",\n      \"output\": ");
            member.append(output.as_str());
            member.append("\n    }");
            members.push(member);
            i = i + 1;
        }
        assert(members.deep_view() =~= entries.map_values(f));
        let mut out = concat2("{\n  \"fsck\": {", join_with(",", &members).as_str());
        out.append("\n  }\n}");
        out
    }
}

// ---------------------------------------------------------------------------
// Owners and modes
// ---------------------------------------------------------------------------

/// An I/O error made of a text, a path and a reason: "what path: reason".
pub open spec fn io_fault(what: Seq<char>, path: Seq<char>) -> spec_fn(
    Seq<char>,
) -> InitramfsErrorView {
    |e: Seq<char>| InitramfsErrorView::Io(what + path + ": "@ + e)
}

fn io_failure(what: &str, path: &str, e: &str) -> (r: InitramfsError)
    ensures
        r.deep_view() == io_fault(what@, path@)(e@),
{
    InitramfsError::Io(concat4(what, path, ": ", e))
}

/// Sets the owner and the group of a path.
pub open spec fn ownership_progress(
    path: Seq<char>,
    uid: u32,
    gid: u32,
    outcomes: Seq<OutcomeView>,
    at: int,
) -> Progress<(), InitramfsErrorView> {
    doing(
        EffectView::SetOwner { path, uid, gid },
        io_fault("Failed to chown "@, path),
        outcomes,
        at,
    )
}

/// Sets the owner and the group of a path.
pub fn set_ownership(path: &str, uid: u32, gid: u32, outcomes: &Vec<Outcome>, at: &mut usize) -> (r:
    Result<(), Stop<InitramfsError>>)
    ensures
        progress(r, *final(at)) == ownership_progress(
            path@,
            uid,
            gid,
            outcomes.deep_view(),
            *old(at) as int,
        ),
{
    let own = Effect::SetOwner { path: path.to_owned(), uid, gid };
    if let Some(e) = why_undone(perform(own, outcomes, at)?) {
        return Err(Stop::Fail(io_failure("Failed to chown ", path, e.as_str())));
    }
    Ok(())
}

/// Sets the permission bits of a path.
pub open spec fn mode_progress(
    path: Seq<char>,
    mode: u32,
    outcomes: Seq<OutcomeView>,
    at: int,
) -> Progress<(), InitramfsErrorView> {
    doing(
        EffectView::SetMode { path, mode },
        io_fault("Failed to chmod "@, path),
        outcomes,
        at,
    )
}

/// Sets the permission bits of a path.
pub fn set_mode(path: &str, mode: u32, outcomes: &Vec<Outcome>, at: &mut usize) -> (r: Result<
    (),
    Stop<InitramfsError>,
>)
    ensures
        progress(r, *final(at)) == mode_progress(
            path@,
            mode,
            outcomes.deep_view(),
            *old(at) as int,
        ),
{
    let chmod = Effect::SetMode { path: path.to_owned(), mode };
    if let Some(e) = why_undone(perform(chmod, outcomes, at)?) {
        return Err(Stop::Fail(io_failure("Failed to chmod ", path, e.as_str())));
    }
    Ok(())
}

/// Sets owner and group, and then the permission bits.
pub open spec fn access_progress(
    path: Seq<char>,
    uid: u32,
    gid: u32,
    mode: u32,
    outcomes: Seq<OutcomeView>,
    at: int,
) -> Progress<(), InitramfsErrorView> {
    and_then(
        ownership_progress(path, uid, gid, outcomes, at),
        |_owned: (), i: int| mode_progress(path, mode, outcomes, i),
    )
}

/// The number in the first line for `name` of a colon-separated table that has a third
/// field: that field, read as a number. `None` if there is no such line.
pub open spec fn id_in_lines(all: Seq<Seq<char>>, name: Seq<char>, from: int) -> Option<
    Result<u32, NumberFault>,
>
    decreases all.len() - from,
{
    if from >= all.len() {
        None
    } else if field(all[from], ':', 0) == Some(name) && field(all[from], ':', 2) is Some {
        Some(number(field(all[from], ':', 2)->Some_0))
    } else {
        id_in_lines(all, name, from + 1)
    }
}

/// Looks up the number for `name` in the text of a table such as `/etc/passwd`.
pub fn id_in_table(table: &str, name: &str) -> (r: Option<Result<u32, NumberFault>>)
    ensures
        r == id_in_lines(lines(table@), name@, 0),
{
    let all = lines_of(table);
    let mut i: usize = 0;
    while i < all.len()
        invariant
            i <= all@.len(),
            all.deep_view() == lines(table@),
            id_in_lines(lines(table@), name@, 0) == id_in_lines(lines(table@), name@, i as int),
        decreases all@.len() - i,
    {
        assert(lines(table@)[i as int] == all@[i as int]@);
        let line = all[i].as_str();
        if let Some(first) = field_of(line, ':', 0) {
            if same_text(first.as_str(), name) {
                if let Some(id) = field_of(line, ':', 2) {
                    return Some(parse_number(id.as_str()));
                }
            }
        }
        i = i + 1;
    }
    None
}

/// Reads a table and looks up the number for `name` in it.
pub open spec fn id_progress(
    table: Seq<char>,
    kind: Seq<char>,
    id: Seq<char>,
    name: Seq<char>,
    outcomes: Seq<OutcomeView>,
    at: int,
) -> Progress<u32, InitramfsErrorView> {
    and_then(
        reading(table, io_fault("Failed to read "@, table), outcomes, at),
        |text: Seq<char>, i: int|
            match id_in_lines(lines(text), name, 0) {
                Some(Ok(n)) => Progress::Returns(n, i),
                Some(Err(fault)) => Progress::Fails(
                    InitramfsErrorView::Io(
                        "Invalid "@ + id + " for "@ + name + ": "@ + fault.text(),
                    ),
                    i,
                ),
                None => Progress::Fails(
                    InitramfsErrorView::Io(kind + " "@ + name + " not found in "@ + table),
                    i,
                ),
            },
    )
}

fn lookup_id(
    table: &str,
    kind: &str,
    id: &str,
    name: &str,
    outcomes: &Vec<Outcome>,
    at: &mut usize,
) -> (r: Result<u32, Stop<InitramfsError>>)
    ensures
        progress(r, *final(at)) == id_progress(
            table@,
            kind@,
            id@,
            name@,
            outcomes.deep_view(),
            *old(at) as int,
        ),
{
    let text = match perform(Effect::ReadText { path: table.to_owned() }, outcomes, at)? {
        Outcome::Text(text) => text,
        other => {
            return Err(
                Stop::Fail(io_failure("Failed to read ", table, reason(other).as_str())),
            );
        },
    };
    match id_in_table(text.as_str(), name) {
        Some(Ok(n)) => Ok(n),
        Some(Err(fault)) => {
            let start = concat4("Invalid ", id, " for ", name);
            Err(
                Stop::Fail(
                    InitramfsError::Io(
                        concat3(start.as_str(), ": ", fault.message().as_str()),
                    ),
                ),
            )
        },
        None => {
            Err(Stop::Fail(InitramfsError::Io(concat5(kind, " ", name, " not found in ", table))))
        },
    }
}

/// Looks up a user's number in `etc/passwd` under `rootfs`.
pub open spec fn uid_progress(
    rootfs: Seq<char>,
    username: Seq<char>,
    outcomes: Seq<OutcomeView>,
    at: int,
) -> Progress<u32, InitramfsErrorView> {
    id_progress(join_text(rootfs, "etc/passwd"@), "user"@, "UID"@, username, outcomes, at)
}

/// Looks up the number of a user in the root file system's `/etc/passwd`.
pub fn lookup_uid(rootfs_dir: &str, username: &str, outcomes: &Vec<Outcome>, at: &mut usize) -> (r:
    Result<u32, Stop<InitramfsError>>)
    ensures
        progress(r, *final(at)) == uid_progress(
            rootfs_dir@,
            username@,
            outcomes.deep_view(),
            *old(at) as int,
        ),
{
    let table = join(rootfs_dir, "etc/passwd");
    lookup_id(table.as_str(), "user", "UID", username, outcomes, at)
}

/// Looks up a group's number in `etc/group` under `rootfs`.
pub open spec fn gid_progress(
    rootfs: Seq<char>,
    groupname: Seq<char>,
    outcomes: Seq<OutcomeView>,
    at: int,
) -> Progress<u32, InitramfsErrorView> {
    id_progress(join_text(rootfs, "etc/group"@), "group"@, "GID"@, groupname, outcomes, at)
}

/// Looks up the number of a group in the root file system's `/etc/group`.
pub fn lookup_gid(rootfs_dir: &str, groupname: &str, outcomes: &Vec<Outcome>, at: &mut usize) -> (r:
    Result<u32, Stop<InitramfsError>>)
    ensures
        progress(r, *final(at)) == gid_progress(
            rootfs_dir@,
            groupname@,
            outcomes.deep_view(),
            *old(at) as int,
        ),
{
    let table = join(rootfs_dir, "etc/group");
    lookup_id(table.as_str(), "group", "GID", groupname, outcomes, at)
}

// ---------------------------------------------------------------------------
// The status file
// ---------------------------------------------------------------------------

/// Writes the status file.
pub open spec fn status_file_progress(
    ods_dir: Seq<char>,
    entries: Seq<(Seq<char>, FsckStatusView)>,
    outcomes: Seq<OutcomeView>,
    at: int,
) -> Progress<(), InitramfsErrorView> {
    let path = join_text(ods_dir, ODS_STATUS_FILE@);
    doing(
        EffectView::WriteText { path, text: ods_json(entries) },
        io_fault("Failed to write ODS status to "@, path),
        outcomes,
        at,
    )
}

/// Writes the main status file.
pub fn write_status_file(
    ods_dir: &str,
    status: &OdsStatus,
    outcomes: &Vec<Outcome>,
    at: &mut usize,
) -> (r: Result<(), Stop<InitramfsError>>)
    ensures
        progress(r, *final(at)) == status_file_progress(
            ods_dir@,
            status.deep_view(),
            outcomes.deep_view(),
            *old(at) as int,
        ),
{
    let path = join(ods_dir, ODS_STATUS_FILE);
    let write = Effect::WriteText { path: path.clone(), text: status.to_json_pretty() };
    if let Some(e) = why_undone(perform(write, outcomes, at)?) {
        return Err(
            Stop::Fail(io_failure("Failed to write ODS status to ", path.as_str(), e.as_str())),
        );
    }
    Ok(())
}

// ---------------------------------------------------------------------------
// The factory-reset status
// ---------------------------------------------------------------------------

/// The member of the status file that holds the factory-reset status.
pub const FACTORY_RESET_KEY: &'static str = "factory-reset";

/// What the panic over a status file says that can hold no members.
pub const NO_OBJECT: &'static str = "cannot access key \"factory-reset\" in the ODS status JSON";

/// Puts the factory-reset status into the status document; `None` where that can hold
/// no members.
pub fn merged_document(ods: serde_json::Value, factory_reset: serde_json::Value) -> (r: Option<
    serde_json::Value,
>)
    ensures
        r is Some == takes_members(json_contents(ods)),
        r is Some ==> json_contents(r->Some_0) == with_member(
            json_contents(ods),
            FACTORY_RESET_KEY@,
            json_contents(factory_reset),
        ),
{
    if !is_object(&ods) && !is_null(&ods) {
        return None;
    }
    let mut ods = ods;
    set_member(&mut ods, FACTORY_RESET_KEY, factory_reset);
    Some(ods)
}

/// The text of the status document with the factory-reset status in it, at a position
/// of the record; or how the merge fails.
pub open spec fn merged_text(
    ods: Result<JsonTree, Seq<char>>,
    factory_reset: Result<JsonTree, Seq<char>>,
    at: int,
) -> Progress<Seq<char>, InitramfsErrorView> {
    match ods {
        Err(e) => Progress::Fails(
            InitramfsErrorView::Io("Failed to parse ODS status JSON: "@ + e),
            at,
        ),
        Ok(tree) => match factory_reset {
            Err(e) => Progress::Fails(
                InitramfsErrorView::Io("Failed to parse factory-reset status JSON: "@ + e),
                at,
            ),
            Ok(status) => if takes_members(tree) {
                Progress::Returns(
                    pretty_json(with_member(tree, FACTORY_RESET_KEY@, status)),
                    at,
                )
            } else {
                Progress::Panics(NO_OBJECT@)
            },
        },
    }
}

/// Prints the status document with the factory-reset status in it, by what the two texts
/// read as.
pub fn merge_documents(
    ods: Result<serde_json::Value, String>,
    factory_reset: Result<serde_json::Value, String>,
    at: usize,
) -> (r: Result<String, Stop<InitramfsError>>)
    ensures
        progress(r, at) == merged_text(
            document_of(ods),
            document_of(factory_reset),
            at as int,
        ),
{
    let ods = match ods {
        Ok(ods) => ods,
        Err(e) => {
            return Err(
                Stop::Fail(
                    InitramfsError::Io(concat2("Failed to parse ODS status JSON: ", e.as_str())),
                ),
            );
        },
    };
    let factory_reset = match factory_reset {
        Ok(factory_reset) => factory_reset,
        Err(e) => {
            return Err(
                Stop::Fail(
                    InitramfsError::Io(
                        concat2("Failed to parse factory-reset status JSON: ", e.as_str()),
                    ),
                ),
            );
        },
    };
    match merged_document(ods, factory_reset) {
        Some(merged) => Ok(print_pretty(&merged).unwrap()),
        None => Err(Stop::Panic(NO_OBJECT.to_owned())),
    }
}

/// Moves the factory-reset status, if there is one, from its own file into the status
/// file.
pub open spec fn merge_progress(
    ods_dir: Seq<char>,
    outcomes: Seq<OutcomeView>,
    at: int,
) -> Progress<(), InitramfsErrorView> {
    and_then(
        ask(EffectView::Exists { path: FACTORY_RESET_STATUS_TMP@ }, outcomes, at),
        |exists: OutcomeView, i: int|
            if says_yes(exists) {
                merge_files_progress(join_text(ods_dir, ODS_STATUS_FILE@), outcomes, i)
            } else {
                Progress::Returns((), i)
            },
    )
}

/// Moves the factory-reset status from its own file into the status file at `path`.
pub open spec fn merge_files_progress(
    path: Seq<char>,
    outcomes: Seq<OutcomeView>,
    at: int,
) -> Progress<(), InitramfsErrorView> {
    and_then(
        reading(path, io_fault("Failed to read "@, path), outcomes, at),
        |ods_raw: Seq<char>, i: int|
            and_then(
                reading(
                    FACTORY_RESET_STATUS_TMP@,
                    io_fault("Failed to read "@, FACTORY_RESET_STATUS_TMP@),
                    outcomes,
                    i,
                ),
                |factory_reset_raw: Seq<char>, j: int|
                    and_then(
                        merged_text(parsed_json(ods_raw), parsed_json(factory_reset_raw), j),
                        |merged: Seq<char>, k: int|
                            and_then(
                                doing(
                                    EffectView::WriteText { path, text: merged },
                                    io_fault("Failed to write merged ODS status to "@, path),
                                    outcomes,
                                    k,
                                ),
                                |_written: (), l: int|
                                    doing(
                                        EffectView::RemoveFile { path: FACTORY_RESET_STATUS_TMP@ },
                                        io_fault("Failed to remove "@, FACTORY_RESET_STATUS_TMP@),
                                        outcomes,
                                        l,
                                    ),
                            ),
                    ),
            ),
    )
}

/// Merges the factory-reset status, if there is one, into the status file under the key
/// "factory-reset", and removes the file that it was left in.
pub fn merge_factory_reset_into_ods(ods_dir: &str, outcomes: &Vec<Outcome>, at: &mut usize) -> (r:
    Result<(), Stop<InitramfsError>>)
    ensures
        progress(r, *final(at)) == merge_progress(
            ods_dir@,
            outcomes.deep_view(),
            *old(at) as int,
        ),
{
    let exists = Effect::Exists { path: FACTORY_RESET_STATUS_TMP.to_owned() };
    if !is_yes(perform(exists, outcomes, at)?) {
        return Ok(());
    }
    let path = join(ods_dir, ODS_STATUS_FILE);
    let ods_raw = match perform(Effect::ReadText { path: path.clone() }, outcomes, at)? {
        Outcome::Text(text) => text,
        other => {
            return Err(
                Stop::Fail(io_failure("Failed to read ", path.as_str(), reason(other).as_str())),
            );
        },
    };
    let read = Effect::ReadText { path: FACTORY_RESET_STATUS_TMP.to_owned() };
    let factory_reset_raw = match perform(read, outcomes, at)? {
        Outcome::Text(text) => text,
        other => {
            return Err(
                Stop::Fail(
                    io_failure(
                        "Failed to read ",
                        FACTORY_RESET_STATUS_TMP,
                        reason(other).as_str(),
                    ),
                ),
            );
        },
    };
    let merged = merge_documents(
        parse_json(ods_raw.as_str()),
        parse_json(factory_reset_raw.as_str()),
        *at,
    )?;
    let write = Effect::WriteText { path: path.clone(), text: merged };
    if let Some(e) = why_undone(perform(write, outcomes, at)?) {
        return Err(
            Stop::Fail(
                io_failure("Failed to write merged ODS status to ", path.as_str(), e.as_str()),
            ),
        );
    }
    let remove = Effect::RemoveFile { path: FACTORY_RESET_STATUS_TMP.to_owned() };
    if let Some(e) = why_undone(perform(remove, outcomes, at)?) {
        return Err(
            Stop::Fail(io_failure("Failed to remove ", FACTORY_RESET_STATUS_TMP, e.as_str())),
        );
    }
    Ok(())
}

// ---------------------------------------------------------------------------
// Update validation
// ---------------------------------------------------------------------------

/// The marker file for a value, by the value's lower-case form.
pub open spec fn marker_by_case(value: Seq<char>, lower: Seq<char>) -> Option<Seq<char>> {
    if value == "1"@ || lower == "true"@ {
        Some(UPDATE_VALIDATE_FILE@)
    } else if value == "failed"@ {
        Some(UPDATE_VALIDATE_FAILED_FILE@)
    } else {
        None
    }
}

/// The marker file that the variable for update validation calls for.
pub open spec fn validation_marker(value: Option<Seq<char>>) -> Option<Seq<char>> {
    match value {
        Some(v) => marker_by_case(v, lower_case(v)),
        None => None,
    }
}

/// Tells the marker file for a value, by the value's lower-case form.
pub fn marker_for(value: &str, lower: &str) -> (r: Option<String>)
    ensures
        r.deep_view() == marker_by_case(value@, lower@),
{
    if same_text(value, "1") || same_text(lower, "true") {
        Some(UPDATE_VALIDATE_FILE.to_owned())
    } else if same_text(value, "failed") {
        Some(UPDATE_VALIDATE_FAILED_FILE.to_owned())
    } else {
        None
    }
}

/// Writes a marker file and sets its owner and mode.
pub open spec fn marker_progress(
    path: Seq<char>,
    uid: u32,
    gid: u32,
    mode: u32,
    outcomes: Seq<OutcomeView>,
    at: int,
) -> Progress<(), InitramfsErrorView> {
    and_then(
        doing(
            EffectView::WriteText { path, text: "1"@ },
            io_fault("Failed to write "@, path),
            outcomes,
            at,
        ),
        |_written: (), i: int| access_progress(path, uid, gid, mode, outcomes, i),
    )
}

fn place_marker(
    path: &str,
    uid: u32,
    gid: u32,
    mode: u32,
    outcomes: &Vec<Outcome>,
    at: &mut usize,
) -> (r: Result<(), Stop<InitramfsError>>)
    ensures
        progress(r, *final(at)) == marker_progress(
            path@,
            uid,
            gid,
            mode,
            outcomes.deep_view(),
            *old(at) as int,
        ),
{
    let write = Effect::WriteText { path: path.to_owned(), text: "1".to_owned() };
    if let Some(e) = why_undone(perform(write, outcomes, at)?) {
        return Err(Stop::Fail(io_failure("Failed to write ", path, e.as_str())));
    }
    set_ownership(path, uid, gid, outcomes, at)?;
    set_mode(path, mode, outcomes, at)
}

/// Places the markers that two bootloader variables call for.
pub open spec fn validation_progress(
    ods_dir: Seq<char>,
    uid: u32,
    gid: u32,
    outcomes: Seq<OutcomeView>,
    at: int,
) -> Progress<(), InitramfsErrorView> {
    and_then(
        ask(EffectView::GetEnv { name: OMNECT_VALIDATE_UPDATE@ }, outcomes, at),
        |validate: OutcomeView, i: int|
            and_then(
                match validation_marker(value_of(validate)) {
                    Some(file) => marker_progress(
                        join_text(ods_dir, file),
                        uid,
                        gid,
                        FILE_MODE_READABLE,
                        outcomes,
                        i,
                    ),
                    None => Progress::Returns((), i),
                },
                |_marked: (), j: int| updated_progress(ods_dir, uid, gid, outcomes, j),
            ),
    )
}

/// Places the marker of a replaced bootloader if the variable for it is set to anything
/// but the empty text, and clears the variable.
pub open spec fn updated_progress(
    ods_dir: Seq<char>,
    uid: u32,
    gid: u32,
    outcomes: Seq<OutcomeView>,
    at: int,
) -> Progress<(), InitramfsErrorView> {
    and_then(
        ask(EffectView::GetEnv { name: OMNECT_BOOTLOADER_UPDATED@ }, outcomes, at),
        |updated: OutcomeView, i: int|
            if value_of(updated) is Some && value_of(updated)->Some_0.len() > 0 {
                and_then(
                    marker_progress(
                        join_text(ods_dir, BOOTLOADER_UPDATED_FILE@),
                        uid,
                        gid,
                        FILE_MODE_RESTRICTED,
                        outcomes,
                        i,
                    ),
                    |_marked: (), j: int|
                        doing(
                            EffectView::SetEnv { name: OMNECT_BOOTLOADER_UPDATED@, value: None },
                            |e: Seq<char>|
                                InitramfsErrorView::Io(
                                    "Failed to clear omnect_bootloader_updated: "@ + e,
                                ),
                            outcomes,
                            j,
                        ),
                )
            } else {
                Progress::Returns((), i)
            },
    )
}

/// Places the marker files for update validation and for a replaced bootloader, with
/// owner and mode. A variable that cannot be read counts as not set.
pub fn handle_update_validation(
    ods_dir: &str,
    uid: u32,
    gid: u32,
    outcomes: &Vec<Outcome>,
    at: &mut usize,
) -> (r: Result<(), Stop<InitramfsError>>)
    ensures
        progress(r, *final(at)) == validation_progress(
            ods_dir@,
            uid,
            gid,
            outcomes.deep_view(),
            *old(at) as int,
        ),
{
    let read = Effect::GetEnv { name: OMNECT_VALIDATE_UPDATE.to_owned() };
    let validate = value(perform(read, outcomes, at)?);
    if let Some(v) = validate {
        let lower = to_lower_case(v.as_str());
        if let Some(file) = marker_for(v.as_str(), lower.as_str()) {
            let path = join(ods_dir, file.as_str());
            place_marker(path.as_str(), uid, gid, FILE_MODE_READABLE, outcomes, at)?;
        }
    }
    let read = Effect::GetEnv { name: OMNECT_BOOTLOADER_UPDATED.to_owned() };
    let updated = match value(perform(read, outcomes, at)?) {
        Some(v) => !v.as_str().is_empty(),
        None => false,
    };
    if updated {
        let path = join(ods_dir, BOOTLOADER_UPDATED_FILE);
        place_marker(path.as_str(), uid, gid, FILE_MODE_RESTRICTED, outcomes, at)?;
        let clear = Effect::SetEnv { name: OMNECT_BOOTLOADER_UPDATED.to_owned(), value: None };
        if let Some(e) = why_undone(perform(clear, outcomes, at)?) {
            return Err(
                Stop::Fail(
                    InitramfsError::Io(
                        concat2("Failed to clear omnect_bootloader_updated: ", e.as_str()),
                    ),
                ),
            );
        }
    }
    Ok(())
}

// ---------------------------------------------------------------------------
// All files
// ---------------------------------------------------------------------------

/// Creates the directory of the runtime files.
pub open spec fn directory_progress(
    uid: u32,
    gid: u32,
    outcomes: Seq<OutcomeView>,
    at: int,
) -> Progress<(), InitramfsErrorView> {
    and_then(
        doing(
            EffectView::CreateDirectories { path: ODS_RUNTIME_DIR@ },
            |e: Seq<char>| InitramfsErrorView::Io("Failed to create ODS runtime dir: "@ + e),
            outcomes,
            at,
        ),
        |_created: (), i: int|
            access_progress(ODS_RUNTIME_DIR@, uid, gid, DIR_MODE, outcomes, i),
    )
}

/// Creates the directory and the status file, with owners and modes.
pub open spec fn status_ready_progress(
    entries: Seq<(Seq<char>, FsckStatusView)>,
    uid: u32,
    gid: u32,
    outcomes: Seq<OutcomeView>,
    at: int,
) -> Progress<(), InitramfsErrorView> {
    and_then(
        directory_progress(uid, gid, outcomes, at),
        |_created: (), i: int|
            and_then(
                status_file_progress(ODS_RUNTIME_DIR@, entries, outcomes, i),
                |_written: (), j: int|
                    access_progress(
                        join_text(ODS_RUNTIME_DIR@, ODS_STATUS_FILE@),
                        uid,
                        gid,
                        FILE_MODE_RESTRICTED,
                        outcomes,
                        j,
                    ),
            ),
    )
}

/// Creates the runtime files for a service with these numbers.
pub open spec fn files_progress(
    entries: Seq<(Seq<char>, FsckStatusView)>,
    has_bootloader: bool,
    uid: u32,
    gid: u32,
    outcomes: Seq<OutcomeView>,
    at: int,
) -> Progress<(), InitramfsErrorView> {
    and_then(
        status_ready_progress(entries, uid, gid, outcomes, at),
        |_ready: (), i: int|
            and_then(
                if has_bootloader {
                    validation_progress(ODS_RUNTIME_DIR@, uid, gid, outcomes, i)
                } else {
                    Progress::Returns((), i)
                },
                |_validated: (), j: int| merge_progress(ODS_RUNTIME_DIR@, outcomes, j),
            ),
    )
}

/// Creates all runtime files.
pub open spec fn runtime_progress(
    entries: Seq<(Seq<char>, FsckStatusView)>,
    has_bootloader: bool,
    rootfs: Seq<char>,
    outcomes: Seq<OutcomeView>,
    at: int,
) -> Progress<(), InitramfsErrorView> {
    and_then(
        uid_progress(rootfs, ODS_USER@, outcomes, at),
        |uid: u32, i: int|
            and_then(
                gid_progress(rootfs, ODS_GROUP@, outcomes, i),
                |gid: u32, j: int|
                    files_progress(entries, has_bootloader, uid, gid, outcomes, j),
            ),
    )
}

/// Creates all runtime files for omnect-device-service. The directory gets mode 775, the
/// status file and the marker of a replaced bootloader 600, the markers for update
/// validation 644. Without a bootloader there are no markers.
pub fn create_ods_runtime_files(
    status: &OdsStatus,
    has_bootloader: bool,
    rootfs_dir: &str,
    outcomes: &Vec<Outcome>,
    at: &mut usize,
) -> (r: Result<(), Stop<InitramfsError>>)
    ensures
        progress(r, *final(at)) == runtime_progress(
            status.deep_view(),
            has_bootloader,
            rootfs_dir@,
            outcomes.deep_view(),
            *old(at) as int,
        ),
{
    let uid = lookup_uid(rootfs_dir, ODS_USER, outcomes, at)?;
    let gid = lookup_gid(rootfs_dir, ODS_GROUP, outcomes, at)?;
    let create = Effect::CreateDirectories { path: ODS_RUNTIME_DIR.to_owned() };
    if let Some(e) = why_undone(perform(create, outcomes, at)?) {
        return Err(
            Stop::Fail(
                InitramfsError::Io(concat2("Failed to create ODS runtime dir: ", e.as_str())),
            ),
        );
    }
    set_ownership(ODS_RUNTIME_DIR, uid, gid, outcomes, at)?;
    set_mode(ODS_RUNTIME_DIR, DIR_MODE, outcomes, at)?;
    write_status_file(ODS_RUNTIME_DIR, status, outcomes, at)?;
    let status_path = join(ODS_RUNTIME_DIR, ODS_STATUS_FILE);
    set_ownership(status_path.as_str(), uid, gid, outcomes, at)?;
    set_mode(status_path.as_str(), FILE_MODE_RESTRICTED, outcomes, at)?;
    if has_bootloader {
        handle_update_validation(ODS_RUNTIME_DIR, uid, gid, outcomes, at)?;
    }
    merge_factory_reset_into_ods(ODS_RUNTIME_DIR, outcomes, at)
}

// ---------------------------------------------------------------------------
// Laws
// ---------------------------------------------------------------------------

proof fn lemma_field_before(piece: Seq<char>, rest: Seq<char>, separator: char)
    requires
        forall|i: int| 0 <= i < piece.len() ==> piece[i] != separator,
        rest.len() == 0 || rest[0] == separator,
    ensures
        field(piece + rest, separator, 0) == Some(piece),
        forall|k: nat|
            rest.len() > 0 ==> #[trigger] field(piece + rest, separator, k + 1) == field(
                rest.skip(1),
                separator,
                k,
            ),
{
    let s = piece + rest;
    lemma_first_index(s, separator, 0);
    let end = first_index(s, separator, 0);
    if end < piece.len() {
        assert(s[end] == piece[end]);
    }
    if rest.len() > 0 {
        assert(s[piece.len() as int] == rest[0]);
        assert(s.skip(end + 1) =~= rest.skip(1));
    }
    assert(s.take(end) =~= piece);
}

/// The first line of a table for a name gives the number that stands in its third field.
pub proof fn law_number_is_in_the_third_field(
    all: Seq<Seq<char>>,
    from: int,
    name: Seq<char>,
    password: Seq<char>,
    id: u32,
    rest: Seq<char>,
)
    requires
        0 <= from < all.len(),
        forall|i: int| 0 <= i < name.len() ==> name[i] != ':',
        forall|i: int| 0 <= i < password.len() ==> password[i] != ':',
        rest.len() == 0 || rest[0] == ':',
        all[from] == name + (seq![':'] + (password + (seq![':'] + (decimal(id as nat) + rest)))),
        forall|i: int| 0 <= i < from ==> field(#[trigger] all[i], ':', 0) != Some(name),
    ensures
        id_in_lines(all, name, 0) == Some(Ok::<u32, NumberFault>(id)),
{
    let digits = decimal(id as nat);
    let third = digits + rest;
    let second = password + (seq![':'] + third);
    lemma_decimal(id as nat);
    law_decimal_reads_back(id);
    assert forall|i: int| 0 <= i < digits.len() implies digits[i] != ':' by {
        assert(is_digit(digits[i]));
    }
    lemma_field_before(digits, rest, ':');
    lemma_field_before(password, seq![':'] + third, ':');
    lemma_field_before(name, seq![':'] + second, ':');
    assert((seq![':'] + third).skip(1) =~= third);
    assert((seq![':'] + second).skip(1) =~= second);
    assert(field(all[from], ':', 1 + 1) == field(second, ':', 0 + 1));
    assert(field(second, ':', 0 + 1) == field(third, ':', 0));
    lemma_lines_before(all, name, 0, from);
}

proof fn lemma_lines_before(all: Seq<Seq<char>>, name: Seq<char>, from: int, to: int)
    requires
        0 <= from <= to <= all.len(),
        forall|i: int| from <= i < to ==> field(#[trigger] all[i], ':', 0) != Some(name),
    ensures
        id_in_lines(all, name, from) == id_in_lines(all, name, to),
    decreases to - from,
{
    if from < to {
        lemma_lines_before(all, name, from + 1, to);
    }
}

/// The directory gets its owner and mode before anything is written into it, and so does
/// the status file before anything else is done; both are ready only when all is done.
pub proof fn law_status_file_gets_owner_and_mode(
    entries: Seq<(Seq<char>, FsckStatusView)>,
    uid: u32,
    gid: u32,
    outcomes: Seq<OutcomeView>,
    at: int,
)
    requires
        0 <= at <= outcomes.len(),
    ensures
        ({
            let dir = ODS_RUNTIME_DIR@;
            let file = join_text(dir, ODS_STATUS_FILE@);
            let done = outcomes.len() - at;
            match status_ready_progress(entries, uid, gid, outcomes, at) {
                Progress::Asks(effect) => effect == if done == 0 {
                    EffectView::CreateDirectories { path: dir }
                } else if done == 1 {
                    EffectView::SetOwner { path: dir, uid, gid }
                } else if done == 2 {
                    EffectView::SetMode { path: dir, mode: DIR_MODE }
                } else if done == 3 {
                    EffectView::WriteText { path: file, text: ods_json(entries) }
                } else if done == 4 {
                    EffectView::SetOwner { path: file, uid, gid }
                } else {
                    EffectView::SetMode { path: file, mode: FILE_MODE_RESTRICTED }
                },
                Progress::Returns(_, end) => {
                    &&& end == at + 6
                    &&& end <= outcomes.len()
                    &&& forall|i: int| at <= i < end ==> (#[trigger] outcomes[i]) is Done
                },
                _ => true,
            }
        }),
{
}

/// A marker file, once written, gets its owner and then its mode; it is in place only
/// when all three are done.
pub proof fn law_marker_gets_owner_and_mode(
    path: Seq<char>,
    uid: u32,
    gid: u32,
    mode: u32,
    outcomes: Seq<OutcomeView>,
    at: int,
)
    requires
        0 <= at <= outcomes.len(),
    ensures
        match marker_progress(path, uid, gid, mode, outcomes, at) {
            Progress::Asks(effect) => effect == if outcomes.len() == at {
                EffectView::WriteText { path, text: "1"@ }
            } else if outcomes.len() == at + 1 {
                EffectView::SetOwner { path, uid, gid }
            } else {
                EffectView::SetMode { path, mode }
            },
            Progress::Returns(_, end) => {
                &&& end == at + 3
                &&& end <= outcomes.len()
                &&& forall|i: int| at <= i < end ==> (#[trigger] outcomes[i]) is Done
            },
            _ => true,
        },
{
}

/// The variable of a replaced bootloader is cleared only when the marker for it is in
/// place.
pub proof fn law_variable_is_cleared_behind_its_marker(
    ods_dir: Seq<char>,
    uid: u32,
    gid: u32,
    outcomes: Seq<OutcomeView>,
    at: int,
)
    requires
        0 <= at <= outcomes.len(),
    ensures
        match updated_progress(ods_dir, uid, gid, outcomes, at) {
            Progress::Asks(EffectView::SetEnv { name, value }) => {
                &&& name == OMNECT_BOOTLOADER_UPDATED@
                &&& value is None
                &&& marker_progress(
                    join_text(ods_dir, BOOTLOADER_UPDATED_FILE@),
                    uid,
                    gid,
                    FILE_MODE_RESTRICTED,
                    outcomes,
                    at + 1,
                ) is Returns
            },
            _ => true,
        },
{
}

/// The file of the factory-reset status is removed only when the status stands in the
/// status file: that was just written, with what both files held.
pub proof fn law_status_is_removed_only_when_merged(
    path: Seq<char>,
    outcomes: Seq<OutcomeView>,
    at: int,
)
    requires
        0 <= at <= outcomes.len(),
    ensures
        merge_files_progress(path, outcomes, at) is Asks && merge_files_progress(
            path,
            outcomes,
            at,
        )->Asks_0 is RemoveFile ==> {
            &&& outcomes.len() == at + 3
            &&& outcomes[at] is Text
            &&& outcomes[at + 1] is Text
            &&& outcomes[at + 2] is Done
            &&& match merged_text(
                parsed_json(outcomes[at]->Text_0),
                parsed_json(outcomes[at + 1]->Text_0),
                at + 2,
            ) {
                Progress::Returns(text, _) => merge_files_progress(path, outcomes.drop_last(), at)
                    == Progress::<(), InitramfsErrorView>::Asks(
                    EffectView::WriteText { path, text },
                ),
                _ => false,
            }
        },
{
}

proof fn lemma_validation_stays_over(
    ods_dir: Seq<char>,
    uid: u32,
    gid: u32,
    outcomes: Seq<OutcomeView>,
    n: int,
    at: int,
)
    requires
        0 <= at <= n <= outcomes.len(),
    ensures
        stays_over(
            validation_progress(ods_dir, uid, gid, outcomes.take(n), at),
            validation_progress(ods_dir, uid, gid, outcomes, at),
            at,
            n,
        ),
{
}

proof fn lemma_merge_stays_over(
    ods_dir: Seq<char>,
    outcomes: Seq<OutcomeView>,
    n: int,
    at: int,
)
    requires
        0 <= at <= n <= outcomes.len(),
    ensures
        stays_over(
            merge_progress(ods_dir, outcomes.take(n), at),
            merge_progress(ods_dir, outcomes, at),
            at,
            n,
        ),
{
}

proof fn lemma_status_ready_stays_over(
    entries: Seq<(Seq<char>, FsckStatusView)>,
    uid: u32,
    gid: u32,
    outcomes: Seq<OutcomeView>,
    n: int,
    at: int,
)
    requires
        0 <= at <= n <= outcomes.len(),
    ensures
        stays_over(
            status_ready_progress(entries, uid, gid, outcomes.take(n), at),
            status_ready_progress(entries, uid, gid, outcomes, at),
            at,
            n,
        ),
{
}

proof fn lemma_files_stay_over(
    entries: Seq<(Seq<char>, FsckStatusView)>,
    has_bootloader: bool,
    uid: u32,
    gid: u32,
    outcomes: Seq<OutcomeView>,
    n: int,
    at: int,
)
    requires
        0 <= at <= n <= outcomes.len(),
    ensures
        stays_over(
            files_progress(entries, has_bootloader, uid, gid, outcomes.take(n), at),
            files_progress(entries, has_bootloader, uid, gid, outcomes, at),
            at,
            n,
        ),
{
    let short = outcomes.take(n);
    lemma_status_ready_stays_over(entries, uid, gid, outcomes, n, at);
    if let Progress::Returns(_, k) = status_ready_progress(entries, uid, gid, short, at) {
        let dir = ODS_RUNTIME_DIR@;
        if has_bootloader {
            lemma_validation_stays_over(dir, uid, gid, outcomes, n, k);
            if let Progress::Returns(_, l) = validation_progress(dir, uid, gid, short, k) {
                lemma_merge_stays_over(dir, outcomes, n, l);
            }
        } else {
            lemma_merge_stays_over(dir, outcomes, n, k);
        }
    }
}

/// Creating the runtime files, once over, stays over: outcomes added to the record change
/// nothing of how it ended.
pub proof fn law_runtime_files_stay_over(
    entries: Seq<(Seq<char>, FsckStatusView)>,
    has_bootloader: bool,
    rootfs: Seq<char>,
    outcomes: Seq<OutcomeView>,
    n: int,
)
    requires
        0 <= n <= outcomes.len(),
    ensures
        stays_over(
            runtime_progress(entries, has_bootloader, rootfs, outcomes.take(n), 0),
            runtime_progress(entries, has_bootloader, rootfs, outcomes, 0),
            0,
            n,
        ),
{
    let short = outcomes.take(n);
    if let Progress::Returns(uid, i) = uid_progress(rootfs, ODS_USER@, short, 0) {
        if let Progress::Returns(gid, j) = gid_progress(rootfs, ODS_GROUP@, short, i) {
            lemma_files_stay_over(entries, has_bootloader, uid, gid, outcomes, n, j);
        }
    }
}

}
