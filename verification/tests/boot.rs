use std::collections::BTreeMap;

use serde_json::Value;

use omnect_os_init::effect::{CommandOutput, Effect, Outcome, Stop};
use omnect_os_init::error::{InitramfsError, ResizeDataError};
use omnect_os_init::factory_reset::status::FACTORY_RESET_STATUS_TMP;
use omnect_os_init::number::NumberFault;
use omnect_os_init::omnect_device_service::{
    create_ods_runtime_files, handle_update_validation, id_in_table, lookup_gid, lookup_uid,
    marker_for, merge_documents, merge_factory_reset_into_ods, merged_document, write_status_file,
    OdsStatus, BOOTLOADER_UPDATED_FILE, DIR_MODE, FILE_MODE_READABLE, FILE_MODE_RESTRICTED,
    ODS_GROUP, ODS_RUNTIME_DIR, ODS_STATUS_FILE, ODS_USER, UPDATE_VALIDATE_FAILED_FILE,
    UPDATE_VALIDATE_FILE,
};
use omnect_os_init::resize_data::{
    ensure_mtab, extended_partition_in, extended_partition_in_line, find_extended_partition,
    partition_number, resize_data_if_needed, run_cmd, run_e2fsck, PartitionTableType,
};

/// A system in memory.
struct World {
    files: BTreeMap<String, String>,
    links: BTreeMap<String, String>,
    access: BTreeMap<String, (u32, u32, u32)>,
    variables: BTreeMap<String, String>,
    /// What a program prints and exits with; none if a signal ends it.
    programs: BTreeMap<String, (Option<i32>, String)>,
    /// What goes wrong: a piece of an effect's debug text, and the reason.
    faults: Vec<(String, String)>,
    asked: Vec<String>,
}

impl World {
    fn new() -> World {
        World {
            files: BTreeMap::new(),
            links: BTreeMap::new(),
            access: BTreeMap::new(),
            variables: BTreeMap::new(),
            programs: BTreeMap::new(),
            faults: Vec::new(),
            asked: Vec::new(),
        }
    }

    fn with_file(mut self, path: &str, text: &str) -> World {
        self.files.insert(path.to_string(), text.to_string());
        self
    }

    fn with_variable(mut self, name: &str, value: &str) -> World {
        self.variables.insert(name.to_string(), value.to_string());
        self
    }

    fn with_program(mut self, program: &str, code: Option<i32>, stdout: &str) -> World {
        self.programs.insert(program.to_string(), (code, stdout.to_string()));
        self
    }

    fn with_fault(mut self, piece: &str, reason: &str) -> World {
        self.faults.push((piece.to_string(), reason.to_string()));
        self
    }

    fn perform(&mut self, effect: Effect) -> Outcome {
        let text = format!("{effect:?}");
        self.asked.push(text.clone());
        for (piece, reason) in &self.faults {
            if text.contains(piece.as_str()) {
                return Outcome::Failed(reason.clone());
            }
        }
        match effect {
            Effect::Exists { path } => Outcome::Flag(self.files.contains_key(&path)),
            Effect::IsSymlink { path } => Outcome::Flag(self.links.contains_key(&path)),
            Effect::ReadText { path } => match self.files.get(&path) {
                Some(text) => Outcome::Text(text.clone()),
                None => Outcome::Failed("No such file".to_string()),
            },
            Effect::WriteText { path, text } => {
                self.files.insert(path, text);
                Outcome::Done
            }
            Effect::RemoveFile { path } => {
                self.files.remove(&path);
                self.links.remove(&path);
                Outcome::Done
            }
            Effect::CreateDirectories { .. } => Outcome::Done,
            Effect::Symlink { target, link } => {
                self.links.insert(link, target);
                Outcome::Done
            }
            Effect::SetOwner { path, uid, gid } => {
                let mode = self.access.get(&path).map(|a| a.2).unwrap_or(0);
                self.access.insert(path, (uid, gid, mode));
                Outcome::Done
            }
            Effect::SetMode { path, mode } => {
                let (uid, gid, _) = self.access.get(&path).copied().unwrap_or((0, 0, 0));
                self.access.insert(path, (uid, gid, mode));
                Outcome::Done
            }
            Effect::Run { program, .. } => {
                let (code, stdout) =
                    self.programs.get(&program).cloned().unwrap_or((Some(0), String::new()));
                Outcome::Output(CommandOutput {
                    success: code == Some(0),
                    code,
                    status: "as told".to_string(),
                    stdout: stdout.into_bytes(),
                    stderr: b"err \xff".to_vec(),
                })
            }
            Effect::GetEnv { name } => Outcome::Value(self.variables.get(&name).cloned()),
            Effect::SetEnv { name, value } => {
                match value {
                    Some(value) => self.variables.insert(name, value),
                    None => self.variables.remove(&name),
                };
                Outcome::Done
            }
            other => panic!("not expected here: {other:?}"),
        }
    }

    fn drive<T, E>(
        &mut self,
        procedure: impl Fn(&Vec<Outcome>, &mut usize) -> Result<T, Stop<E>>,
    ) -> Result<T, E> {
        let mut record: Vec<Outcome> = Vec::new();
        loop {
            let mut at: usize = 0;
            match procedure(&record, &mut at) {
                Ok(value) => return Ok(value),
                Err(Stop::Fail(e)) => return Err(e),
                Err(Stop::Panic(message)) => panic!("{message}"),
                Err(Stop::Perform(effect)) => {
                    let outcome = self.perform(effect);
                    record.push(outcome);
                }
            }
        }
    }
}

fn in_dir(file: &str) -> String {
    format!("{ODS_RUNTIME_DIR}/{file}")
}

// --- the status ---

#[test]
fn test_ods_status_default() {
    let status = OdsStatus::default();
    assert!(status.fsck.is_empty());
}

#[test]
fn test_ods_status_add_fsck() {
    let mut status = OdsStatus::new();
    status.add_fsck_result("boot", 0, "clean".to_string());
    status.add_fsck_result("data", 1, "errors corrected".to_string());

    assert_eq!(status.fsck.len(), 2);
    assert_eq!(status.fsck.get("boot").unwrap().code, 0);
    assert_eq!(status.fsck.get("data").unwrap().code, 1);
}

#[test]
fn test_ods_status_serialization() {
    let mut status = OdsStatus::new();
    status.add_fsck_result("boot", 0, "clean".to_string());

    let value: Value = serde_json::from_str(&status.to_json_pretty()).unwrap();
    let json = serde_json::to_string(&value).unwrap();
    assert!(json.contains("\"boot\""));
    assert!(json.contains("\"code\":0"));
}

#[test]
fn a_later_result_replaces_the_former_of_its_partition_alone() {
    let mut status = OdsStatus::new();
    status.add_fsck_result("boot", 0, "clean".to_string());
    status.add_fsck_result("data", 1, "corrected".to_string());
    status.add_fsck_result("boot", 4, "broken".to_string());
    assert_eq!(status.fsck.len(), 2);
    assert_eq!(status.fsck.get("boot").unwrap().code, 4);
    assert_eq!(status.fsck.get("boot").unwrap().output, "broken");
    assert_eq!(status.fsck.get("data").unwrap().output, "corrected");
    assert!(status.fsck.get("etc").is_none());
    let copy = status.clone();
    assert_eq!(copy.to_json_pretty(), status.to_json_pretty());
}

#[test]
fn the_status_is_printed_with_line_breaks() {
    assert_eq!(OdsStatus::new().to_json_pretty(), "{}");
    let mut status = OdsStatus::new();
    status.add_fsck_result("boot", -1, "a \"b\"\n".to_string());
    status.add_fsck_result("data", 12, String::new());
    let json = status.to_json_pretty();
    assert_eq!(
        json,
        "{\n  \"fsck\": {\n    \"boot\": {\n      \"code\": -1,\n      \"output\": \"a \\\"b\\\"\\n\"\n    },\n    \"data\": {\n      \"code\": 12,\n      \"output\": \"\"\n    }\n  }\n}"
    );
    let value: Value = serde_json::from_str(&json).unwrap();
    assert_eq!(serde_json::to_string_pretty(&value).unwrap(), json);
}

#[test]
fn test_write_status_file() {
    let mut world = World::new();
    let status = OdsStatus::new();
    world.drive(|o, at| write_status_file("/t", &status, o, at)).unwrap();
    let content = &world.files[&format!("/t/{ODS_STATUS_FILE}")];
    assert!(content.contains("{"));
}

// --- update validation ---

fn validate(world: &mut World) -> Result<(), InitramfsError> {
    world.drive(|o, at| handle_update_validation("/t", 7, 8, o, at))
}

fn has(world: &World, file: &str) -> bool {
    world.files.contains_key(&format!("/t/{file}"))
}

#[test]
fn test_handle_update_validation_value_1() {
    let mut world = World::new().with_variable("omnect_validate_update", "1");
    validate(&mut world).unwrap();
    assert!(has(&world, UPDATE_VALIDATE_FILE));
    assert!(!has(&world, UPDATE_VALIDATE_FAILED_FILE));
    assert!(!has(&world, BOOTLOADER_UPDATED_FILE));
}

#[test]
fn test_handle_update_validation_value_true() {
    let mut world = World::new().with_variable("omnect_validate_update", "true");
    validate(&mut world).unwrap();
    assert!(has(&world, UPDATE_VALIDATE_FILE));
}

#[test]
fn test_handle_update_validation_failed() {
    let mut world = World::new().with_variable("omnect_validate_update", "failed");
    validate(&mut world).unwrap();
    assert!(!has(&world, UPDATE_VALIDATE_FILE));
    assert!(has(&world, UPDATE_VALIDATE_FAILED_FILE));
}

#[test]
fn test_handle_update_validation_unexpected_value_creates_nothing() {
    let mut world = World::new().with_variable("omnect_validate_update", "unexpected");
    validate(&mut world).unwrap();
    assert!(!has(&world, UPDATE_VALIDATE_FILE));
    assert!(!has(&world, UPDATE_VALIDATE_FAILED_FILE));
}

#[test]
fn test_handle_update_validation_bootloader_updated() {
    let mut world = World::new().with_variable("omnect_bootloader_updated", "1");
    validate(&mut world).unwrap();
    assert!(has(&world, BOOTLOADER_UPDATED_FILE));
    assert_eq!(world.variables.get("omnect_bootloader_updated"), None);
}

#[test]
fn test_handle_update_validation_bootloader_updated_any_nonempty_value() {
    let mut world = World::new().with_variable("omnect_bootloader_updated", "0");
    validate(&mut world).unwrap();
    assert!(has(&world, BOOTLOADER_UPDATED_FILE));
}

#[test]
fn test_handle_update_validation_no_env_creates_nothing() {
    let mut world = World::new();
    validate(&mut world).unwrap();
    assert!(!has(&world, UPDATE_VALIDATE_FILE));
    assert!(!has(&world, UPDATE_VALIDATE_FAILED_FILE));
    assert!(!has(&world, BOOTLOADER_UPDATED_FILE));
}

#[test]
fn markers_follow_from_the_value_in_any_case() {
    let mut world = World::new().with_variable("omnect_validate_update", "TrUe");
    validate(&mut world).unwrap();
    assert_eq!(world.files[&format!("/t/{UPDATE_VALIDATE_FILE}")], "1");
    let mut world = World::new().with_variable("omnect_validate_update", "FAILED");
    validate(&mut world).unwrap();
    assert!(world.files.is_empty());
    assert_eq!(marker_for("1", "1"), Some(UPDATE_VALIDATE_FILE.to_string()));
    assert_eq!(marker_for("True", "true"), Some(UPDATE_VALIDATE_FILE.to_string()));
    assert_eq!(marker_for("failed", "failed"), Some(UPDATE_VALIDATE_FAILED_FILE.to_string()));
    assert_eq!(marker_for("", ""), None);
}

#[test]
fn variables_that_cannot_be_read_count_as_not_set() {
    let mut world = World::new()
        .with_variable("omnect_validate_update", "1")
        .with_variable("omnect_bootloader_updated", "1")
        .with_fault("GetEnv", "broken");
    validate(&mut world).unwrap();
    assert!(world.files.is_empty());
    let mut world = World::new().with_variable("omnect_bootloader_updated", "");
    validate(&mut world).unwrap();
    assert!(world.files.is_empty());
}

#[test]
fn a_variable_is_cleared_only_behind_its_marker() {
    for (piece, expected) in [
        ("WriteText", "I/O error: Failed to write /t/omnect_bootloader_updated: bad"),
        ("SetOwner", "I/O error: Failed to chown /t/omnect_bootloader_updated: bad"),
        ("SetMode", "I/O error: Failed to chmod /t/omnect_bootloader_updated: bad"),
        ("SetEnv", "I/O error: Failed to clear omnect_bootloader_updated: bad"),
    ] {
        let mut world =
            World::new().with_variable("omnect_bootloader_updated", "1").with_fault(piece, "bad");
        assert_eq!(validate(&mut world).unwrap_err().message(), expected);
        assert!(world.variables.contains_key("omnect_bootloader_updated"));
    }
}

// --- numbers of users and groups ---

fn with_rootfs(uid: u32, gid: u32) -> World {
    World::new()
        .with_file(
            "/r/etc/passwd",
            &format!(
                "root:x:0:0:root:/root:/bin/sh\nomnect_device_service:x:{uid}:{gid}::/:/bin/sh\n"
            ),
        )
        .with_file("/r/etc/group", &format!("root:x:0:\nomnect_device_service:x:{gid}:\n"))
}

#[test]
fn test_lookup_uid_and_gid() {
    let mut world = with_rootfs(1000, 1001);
    assert_eq!(world.drive(|o, at| lookup_uid("/r", ODS_USER, o, at)).unwrap(), 1000);
    assert_eq!(world.drive(|o, at| lookup_gid("/r", ODS_GROUP, o, at)).unwrap(), 1001);
}

#[test]
fn test_lookup_uid_missing_user() {
    let mut world = World::new().with_file("/r/etc/passwd", "root:x:0:0::/root:/bin/sh\n");
    let e = world.drive(|o, at| lookup_uid("/r", ODS_USER, o, at)).unwrap_err();
    assert_eq!(
        e.message(),
        "I/O error: user omnect_device_service not found in /r/etc/passwd"
    );
}

#[test]
fn test_lookup_gid_missing_group() {
    let mut world = World::new().with_file("/r/etc/group", "root:x:0:\n");
    let e = world.drive(|o, at| lookup_gid("/r", ODS_GROUP, o, at)).unwrap_err();
    assert_eq!(
        e.message(),
        "I/O error: group omnect_device_service not found in /r/etc/group"
    );
}

#[test]
fn numbers_stand_in_the_third_field() {
    assert_eq!(id_in_table("a:x:5", "a"), Some(Ok(5)));
    assert_eq!(id_in_table("a\na:x\na:x:6:7\na:x:8", "a"), Some(Ok(6)));
    assert_eq!(id_in_table("aa:x:5\n", "a"), None);
    assert_eq!(id_in_table("a:x:\n", "a"), Some(Err(NumberFault::Empty)));
    assert_eq!(id_in_table("a:x:y:1", "a"), Some(Err(NumberFault::InvalidDigit)));
    assert_eq!(id_in_table("", "a"), None);
}

#[test]
fn tables_that_cannot_be_used_tell_why() {
    let mut world = World::new();
    assert_eq!(
        world.drive(|o, at| lookup_uid("/r", "u", o, at)).unwrap_err().message(),
        "I/O error: Failed to read /r/etc/passwd: No such file"
    );
    assert_eq!(
        world.drive(|o, at| lookup_gid("/r", "g", o, at)).unwrap_err().message(),
        "I/O error: Failed to read /r/etc/group: No such file"
    );
    let mut world = World::new()
        .with_file("/r/etc/passwd", "u:x:many:\n")
        .with_file("/r/etc/group", "g:x:4294967296:\n");
    assert_eq!(
        world.drive(|o, at| lookup_uid("/r", "u", o, at)).unwrap_err().message(),
        "I/O error: Invalid UID for u: invalid digit found in string"
    );
    assert_eq!(
        world.drive(|o, at| lookup_gid("/r", "g", o, at)).unwrap_err().message(),
        "I/O error: Invalid GID for g: number too large to fit in target type"
    );
}

// --- the merge ---

fn merge(world: &mut World) -> Result<(), InitramfsError> {
    world.drive(|o, at| merge_factory_reset_into_ods("/t", o, at))
}

#[test]
fn the_factory_reset_status_moves_into_the_status_file() {
    let mut world = World::new()
        .with_file("/t/omnect-os-initramfs.json", r#"{"fsck":{"boot":{"code":0,"output":""}}}"#)
        .with_file(FACTORY_RESET_STATUS_TMP, r#"{"status":0}"#);
    merge(&mut world).unwrap();
    assert_eq!(
        world.files["/t/omnect-os-initramfs.json"],
        "{\n  \"factory-reset\": {\n    \"status\": 0\n  },\n  \"fsck\": {\n    \"boot\": {\n      \"code\": 0,\n      \"output\": \"\"\n    }\n  }\n}"
    );
    assert!(!world.files.contains_key(FACTORY_RESET_STATUS_TMP));
}

#[test]
fn the_marker_of_a_reset_cut_short_is_merged_too() {
    let mut world = World::new()
        .with_file("/t/omnect-os-initramfs.json", "null")
        .with_file(FACTORY_RESET_STATUS_TMP, "null");
    merge(&mut world).unwrap();
    assert_eq!(world.files["/t/omnect-os-initramfs.json"], "{\n  \"factory-reset\": null\n}");
}

#[test]
fn nothing_is_merged_where_there_was_no_reset() {
    let mut world = World::new();
    merge(&mut world).unwrap();
    assert_eq!(world.asked.len(), 1);
}

#[test]
fn a_merge_that_fails_keeps_the_factory_reset_status() {
    let ods = "/t/omnect-os-initramfs.json";
    let cases = [
        (World::new(), "I/O error: Failed to read /t/omnect-os-initramfs.json: No such file"),
        (
            World::new().with_file(ods, "{}").with_fault("ReadText { path: \"/tmp", "gone"),
            "I/O error: Failed to read /tmp/factory-reset.json: gone",
        ),
        (
            World::new().with_file(ods, "{}").with_fault("WriteText", "full"),
            "I/O error: Failed to write merged ODS status to /t/omnect-os-initramfs.json: full",
        ),
        (
            World::new().with_file(ods, "{}").with_fault("RemoveFile", "busy"),
            "I/O error: Failed to remove /tmp/factory-reset.json: busy",
        ),
    ];
    for (world, expected) in cases {
        let mut world = world.with_file(FACTORY_RESET_STATUS_TMP, "{}");
        assert_eq!(merge(&mut world).unwrap_err().message(), expected);
        assert!(world.files.contains_key(FACTORY_RESET_STATUS_TMP));
    }
    let mut world = World::new().with_file(ods, "{").with_file(FACTORY_RESET_STATUS_TMP, "{}");
    assert!(merge(&mut world)
        .unwrap_err()
        .message()
        .starts_with("I/O error: Failed to parse ODS status JSON: "));
    let mut world = World::new().with_file(ods, "{}").with_file(FACTORY_RESET_STATUS_TMP, "x");
    assert!(merge(&mut world)
        .unwrap_err()
        .message()
        .starts_with("I/O error: Failed to parse factory-reset status JSON: "));
}

#[test]
fn a_status_file_that_is_no_object_is_not_written_to() {
    let record = vec![
        Outcome::Flag(true),
        Outcome::Text("[1]".to_string()),
        Outcome::Text("{}".to_string()),
    ];
    let mut at: usize = 0;
    let r = merge_factory_reset_into_ods("/t", &record, &mut at);
    assert!(matches!(r, Err(Stop::Panic(_))));
}

#[test]
fn a_member_that_is_set_is_there_and_the_others_stay() {
    let ods: Value = serde_json::from_str(r#"{"a":[1,{"b":2.5}],"factory-reset":1}"#).unwrap();
    let status: Value = serde_json::from_str(r#"{"status":2}"#).unwrap();
    let merged = merged_document(ods.clone(), status.clone()).unwrap();
    assert_eq!(merged["factory-reset"], status);
    assert_eq!(merged["a"], ods["a"]);
    assert!(merged_document(Value::Bool(true), status).is_none());
    assert!(matches!(
        merge_documents(Err("e".to_string()), Ok(Value::Null), 3),
        Err(Stop::Fail(InitramfsError::Io(ref text)))
            if text == "Failed to parse ODS status JSON: e"
    ));
    assert_eq!(
        merge_documents(Ok(Value::Null), Ok(Value::Null), 3).unwrap(),
        "{\n  \"factory-reset\": null\n}"
    );
}

// --- all runtime files ---

#[test]
fn all_files_get_their_owner_and_mode() {
    let mut world = with_rootfs(500, 600)
        .with_variable("omnect_validate_update", "1")
        .with_variable("omnect_bootloader_updated", "yes")
        .with_file(FACTORY_RESET_STATUS_TMP, r#"{"status":0}"#);
    let mut status = OdsStatus::new();
    status.add_fsck_result("boot", 0, "clean".to_string());
    world.drive(|o, at| create_ods_runtime_files(&status, true, "/r", o, at)).unwrap();
    assert_eq!(world.access[ODS_RUNTIME_DIR], (500, 600, DIR_MODE));
    assert_eq!(world.access[&in_dir(ODS_STATUS_FILE)], (500, 600, FILE_MODE_RESTRICTED));
    assert_eq!(world.access[&in_dir(UPDATE_VALIDATE_FILE)], (500, 600, FILE_MODE_READABLE));
    assert_eq!(world.access[&in_dir(BOOTLOADER_UPDATED_FILE)], (500, 600, FILE_MODE_RESTRICTED));
    assert_eq!((DIR_MODE, FILE_MODE_RESTRICTED, FILE_MODE_READABLE), (0o775, 0o600, 0o644));
    let json: Value = serde_json::from_str(&world.files[&in_dir(ODS_STATUS_FILE)]).unwrap();
    assert_eq!(json["fsck"]["boot"]["output"], "clean");
    assert_eq!(json["factory-reset"]["status"], 0);
    assert!(!world.files.contains_key(FACTORY_RESET_STATUS_TMP));
}

#[test]
fn without_a_bootloader_there_are_no_markers() {
    let mut world = with_rootfs(1, 2).with_variable("omnect_validate_update", "1");
    world.drive(|o, at| create_ods_runtime_files(&OdsStatus::new(), false, "/r", o, at)).unwrap();
    assert!(!world.files.contains_key(&in_dir(UPDATE_VALIDATE_FILE)));
    assert!(!world.asked.iter().any(|e| e.contains("Env")));
    assert_eq!(world.files[&in_dir(ODS_STATUS_FILE)], "{}");
}

#[test]
fn runtime_files_that_cannot_be_made_tell_why() {
    for (piece, expected) in [
        ("etc/passwd", "Failed to read /r/etc/passwd: bad"),
        ("etc/group", "Failed to read /r/etc/group: bad"),
        ("CreateDirectories", "Failed to create ODS runtime dir: bad"),
        ("SetOwner", "Failed to chown /run/omnect-device-service: bad"),
        ("SetMode", "Failed to chmod /run/omnect-device-service: bad"),
        (
            "WriteText",
            "Failed to write ODS status to /run/omnect-device-service/omnect-os-initramfs.json: bad",
        ),
    ] {
        let mut world = with_rootfs(1, 2).with_fault(piece, "bad");
        let e = world
            .drive(|o, at| create_ods_runtime_files(&OdsStatus::new(), true, "/r", o, at))
            .unwrap_err();
        assert_eq!(e.message(), format!("I/O error: {expected}"));
    }
}

// --- partition numbers ---

#[test]
fn test_partition_number_sata() {
    assert_eq!(partition_number("/dev/sda8"), Some(8));
}

#[test]
fn test_partition_number_nvme() {
    assert_eq!(partition_number("/dev/nvme0n1p7"), Some(7));
}

#[test]
fn test_partition_number_mmc() {
    assert_eq!(partition_number("/dev/mmcblk0p8"), Some(8));
}

#[test]
fn test_partition_number_multi_digit() {
    assert_eq!(partition_number("/dev/sda10"), Some(10));
}

#[test]
fn test_partition_number_no_digits() {
    assert_eq!(partition_number("/dev/sda"), None);
}

#[test]
fn partition_numbers_need_a_name_and_must_fit() {
    assert_eq!(partition_number("/"), None);
    assert_eq!(partition_number(""), None);
    assert_eq!(partition_number("/dev/.."), None);
    assert_eq!(partition_number("/dev/sda4294967295"), Some(4294967295));
    assert_eq!(partition_number("/dev/sda4294967296"), None);
    assert_eq!(partition_number("/dev/sda5/"), Some(5));
    assert_eq!(partition_number("7"), Some(7));
}

const DOS_LISTING: &str = "\
Model: ATA VBOX HARDDISK (scsi)
Disk /dev/sda: 8590MB
Sector size (logical/physical): 512B/512B
Partition Table: msdos
Disk Flags:

Number  Start   End     Size    Type      File system  Flags
 1      1049kB  500MB   499MB   primary   fat32        boot, esp
 2      500MB   1500MB  1000MB  primary   ext4
 3      1500MB  8589MB  7089MB  extended
 8      1501MB  8589MB  7088MB  logical   ext4";

#[test]
fn test_find_extended_partition_parses_output() {
    assert_eq!(extended_partition_in(DOS_LISTING), Some(3));
    let mut world = World::new().with_program("/usr/sbin/parted", Some(0), DOS_LISTING);
    let found = world.drive(|o, at| find_extended_partition("/dev/sda", o, at)).unwrap();
    assert_eq!(found, 3);
    assert_eq!(
        world.asked,
        vec![
            r#"Run { program: "/usr/sbin/parted", args: ["/dev/sda", "print"], directory: None }"#
        ]
    );
}

#[test]
fn test_find_extended_partition_not_found() {
    // GPT disk output has no "extended" line
    let output = "\
Number  Start   End     Size   File system  Name  Flags
 1      1049kB  500MB   499MB  fat32              boot, esp
 7      500MB   8589MB  8089MB ext4";
    assert_eq!(extended_partition_in(output), None);
    let mut world = World::new().with_program("/usr/sbin/parted", Some(0), output);
    let e = world.drive(|o, at| find_extended_partition("/dev/sda", o, at)).unwrap_err();
    assert!(matches!(
        e,
        ResizeDataError::ExtendedPartitionNotFound(ref disk) if disk == "/dev/sda"
    ));
}

#[test]
fn the_extended_partition_is_told_in_any_case() {
    assert_eq!(extended_partition_in("x extended\n 4 EXTENDED\n 5 extended"), Some(4));
    assert_eq!(extended_partition_in_line(" 4 EXTENDED", " 4 extended"), Some(4));
    assert_eq!(extended_partition_in_line(" 4 EXTENDED", " 4 EXTENDED"), None);
    assert_eq!(extended_partition_in_line("extended", "extended"), None);
}

// --- the resize ---

fn resize(world: &mut World, table: PartitionTableType) -> Result<(), InitramfsError> {
    world.drive(|o, at| resize_data_if_needed("/dev/sda8", "/dev/sda", table, o, at))
}

fn run_text(program: &str, args: &[&str]) -> String {
    format!("Run {{ program: {program:?}, args: {args:?}, directory: None }}")
}

#[test]
fn a_gpt_disk_is_grown_step_by_step() {
    let mut world = World::new().with_file("/etc/mtab", "");
    resize(&mut world, PartitionTableType::Gpt).unwrap();
    assert_eq!(
        world.asked,
        vec![
            "GetEnv { name: \"resized-data\" }".to_string(),
            run_text("/usr/sbin/sgdisk", &["/dev/sda", "-e"]),
            run_text("/usr/sbin/parted", &["/dev/sda", "resizepart", "8", "100%"]),
            "Exists { path: \"/etc/mtab\" }".to_string(),
            "IsSymlink { path: \"/etc/mtab\" }".to_string(),
            run_text("/sbin/e2fsck", &["-y", "/dev/sda8"]),
            run_text("/sbin/resize2fs", &["-f", "/dev/sda8"]),
            run_text("/bin/sync", &[]),
            "SetEnv { name: \"resized-data\", value: Some(\"1\") }".to_string(),
        ]
    );
    world.asked.clear();
    resize(&mut world, PartitionTableType::Gpt).unwrap();
    assert_eq!(world.asked.len(), 1);
}

#[test]
fn a_dos_disk_has_its_extended_partition_grown_first() {
    let mut world = World::new().with_program("/usr/sbin/parted", Some(0), DOS_LISTING);
    resize(&mut world, PartitionTableType::Dos).unwrap();
    assert_eq!(world.asked[1], run_text("/usr/sbin/parted", &["/dev/sda", "print"]));
    assert_eq!(
        world.asked[2],
        run_text("/usr/sbin/parted", &["/dev/sda", "resizepart", "3", "100%"])
    );
    assert_eq!(
        world.asked[3],
        run_text("/usr/sbin/parted", &["/dev/sda", "resizepart", "8", "100%"])
    );
    assert_eq!(world.links["/etc/mtab"], "/proc/self/mounts");
}

#[test]
fn the_variable_is_set_only_after_success() {
    for program in
        ["/usr/sbin/sgdisk", "/usr/sbin/parted", "/sbin/e2fsck", "/sbin/resize2fs", "/bin/sync"]
    {
        let mut world = World::new().with_program(program, Some(2), "out");
        let e = resize(&mut world, PartitionTableType::Gpt).unwrap_err();
        match e {
            InitramfsError::ResizeData(ResizeDataError::CommandFailed { command, code, output }) => {
                assert!(command.starts_with(&format!("{program} ")), "{command}");
                assert_eq!(code, 2);
                assert_eq!(output, "outerr \u{fffd}");
            }
            other => panic!("{other:?}"),
        }
        assert!(world.variables.is_empty());
    }
    let mut world = World::new().with_fault("SetEnv", "denied");
    let e = resize(&mut world, PartitionTableType::Gpt).unwrap_err();
    assert!(matches!(e, InitramfsError::Bootloader(ref text) if text == "denied"));
}

#[test]
fn a_resize_needs_the_variable_and_a_partition_number() {
    let mut world = World::new().with_fault("GetEnv", "broken");
    let e = resize(&mut world, PartitionTableType::Gpt).unwrap_err();
    assert_eq!(e.message(), "bootloader error: broken");
    let mut world = World::new();
    let e = world
        .drive(|o, at| {
            resize_data_if_needed("/dev/data", "/dev/sda", PartitionTableType::Gpt, o, at)
        })
        .unwrap_err();
    assert!(matches!(
        e,
        InitramfsError::ResizeData(ResizeDataError::InvalidDevicePath(ref dev)) if dev == "/dev/data"
    ));
    assert_eq!(world.asked.len(), 1);
}

#[test]
fn a_check_may_correct_errors_but_nothing_else() {
    for (code, fine) in
        [(Some(0), true), (Some(1), true), (Some(2), false), (Some(8), false), (None, false)]
    {
        let mut world = World::new().with_program("/sbin/e2fsck", code, "o");
        let r = world.drive(|o, at| run_e2fsck("/dev/x", o, at));
        assert_eq!(r.is_ok(), fine);
        if let Err(ResizeDataError::CommandFailed { command, code: told, .. }) = r {
            assert_eq!(command, "/sbin/e2fsck -y /dev/x");
            assert_eq!(told, code.unwrap_or(-1));
        }
    }
}

#[test]
fn a_command_that_fails_is_told_with_its_arguments() {
    let mut world = World::new().with_program("p", None, "o");
    let args = vec!["a".to_string(), "b c".to_string()];
    let e = world.drive(|o, at| run_cmd("p", &args, o, at)).unwrap_err();
    assert_eq!(e.message(), "p a b c failed with code -1: oerr \u{fffd}");
    let mut world = World::new().with_fault("Run", "no such program");
    let e = world.drive(|o, at| run_cmd("p", &args, o, at)).unwrap_err();
    assert!(matches!(e, ResizeDataError::Io(ref text) if text == "no such program"));
}

#[test]
fn the_mount_table_is_linked_unless_it_is_a_file() {
    let mut world = World::new().with_file("/etc/mtab", "");
    world.drive(|o, at| ensure_mtab(o, at)).unwrap();
    assert!(world.links.is_empty());
    // A link to nothing does not exist, but is a link.
    let mut world = World::new();
    world.links.insert("/etc/mtab".to_string(), "/nowhere".to_string());
    world.drive(|o, at| ensure_mtab(o, at)).unwrap();
    assert_eq!(world.links["/etc/mtab"], "/proc/self/mounts");
    // A link to a file is replaced.
    let mut world = World::new().with_file("/etc/mtab", "");
    world.links.insert("/etc/mtab".to_string(), "/stale".to_string());
    world.drive(|o, at| ensure_mtab(o, at)).unwrap();
    assert_eq!(world.links["/etc/mtab"], "/proc/self/mounts");
    for piece in ["RemoveFile", "Symlink {"] {
        let mut world = World::new().with_fault(piece, "denied");
        world.links.insert("/etc/mtab".to_string(), "/nowhere".to_string());
        let e = world.drive(|o, at| ensure_mtab(o, at)).unwrap_err();
        assert!(matches!(e, ResizeDataError::Io(ref text) if text == "denied"));
    }
}
