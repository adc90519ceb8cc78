use std::collections::{BTreeMap, BTreeSet};
use std::path::Path;

use serde_json::Value;

use omnect_os_init::effect::{CommandOutput, Effect, Outcome, Stop};
use omnect_os_init::error::{FactoryResetError, InitramfsError};
use omnect_os_init::factory_reset::backup_restore::{
    backup_all, backup_path, find_nested_mountpoint, is_mountpoint, restore_all, restore_path,
    run_sync, RestoreResult,
};
use omnect_os_init::factory_reset::config::{
    build_preserve_list, paths_of_application, paths_of_key, FactoryResetConfig,
};
use omnect_os_init::factory_reset::reformat::reformat_ext4;
use omnect_os_init::factory_reset::status::{
    status_code, write_null_status, write_status, FactoryResetStatus, FACTORY_RESET_STATUS_TMP,
};
use omnect_os_init::factory_reset::{
    build_warnings_context, factory_reset_requested, run_factory_reset, status_at_end,
};
use omnect_os_init::json::listed_strings;

/// A system in memory. What is mounted on a path is moved there from its device, and
/// back when it is unmounted.
struct World {
    files: BTreeMap<String, String>,
    directories: BTreeSet<String>,
    devices: BTreeMap<String, BTreeMap<String, String>>,
    mounts: Vec<(String, String)>,
    variables: BTreeMap<String, String>,
    /// What goes wrong: a piece of an effect's debug text, and the reason.
    faults: Vec<(String, String)>,
    /// What has been asked for, in order.
    asked: Vec<String>,
}

fn normal(path: &str) -> String {
    let parts: Vec<String> = Path::new(path)
        .components()
        .filter_map(|c| match c {
            std::path::Component::Normal(n) => Some(n.to_str().unwrap().to_string()),
            _ => None,
        })
        .collect();
    format!("/{}", parts.join("/"))
}

fn output(code: i32, stderr: &[u8]) -> Outcome {
    Outcome::Output(CommandOutput {
        success: code == 0,
        code: Some(code),
        status: format!("exit status: {code}"),
        stdout: Vec::new(),
        stderr: stderr.to_vec(),
    })
}

fn read_request(json: &str) -> Outcome {
    let value: Value = match serde_json::from_str(json) {
        Ok(value) => value,
        Err(e) => return Outcome::Failed(e.to_string()),
    };
    let mode = match value.get("mode").and_then(|m| m.as_u64()) {
        Some(mode) => mode as u32,
        None => return Outcome::Failed("missing field `mode`".to_string()),
    };
    let mut keys: Vec<String> = Vec::new();
    if let Some(items) = value.get("preserve").and_then(|p| p.as_array()) {
        for item in items {
            keys.push(item.as_str().unwrap().to_string());
        }
    }
    Outcome::Request(mode, keys)
}

impl World {
    fn new() -> World {
        World {
            files: BTreeMap::new(),
            directories: BTreeSet::new(),
            devices: BTreeMap::new(),
            mounts: Vec::new(),
            variables: BTreeMap::new(),
            faults: Vec::new(),
            asked: Vec::new(),
        }
    }

    fn with_file(mut self, path: &str, text: &str) -> World {
        self.files.insert(normal(path), text.to_string());
        self
    }

    fn with_fault(mut self, piece: &str, reason: &str) -> World {
        self.faults.push((piece.to_string(), reason.to_string()));
        self
    }

    fn below(&self, path: &str) -> Vec<String> {
        let dir = format!("{}/", normal(path).trim_end_matches('/'));
        self.files.keys().filter(|f| f.starts_with(&dir)).cloned().collect()
    }

    fn is_there(&self, path: &str) -> bool {
        let path = normal(path);
        self.files.contains_key(&path)
            || self.directories.contains(&path)
            || !self.below(&path).is_empty()
    }

    fn copy(&mut self, source: &str, named: &str, target: &str) -> Outcome {
        if !self.is_there(source) {
            return output(1, b"No such file or directory");
        }
        let from = normal(source);
        let to = normal(&format!("{target}/{named}"));
        let mut copies: Vec<(String, String)> = Vec::new();
        for (path, text) in &self.files {
            if *path == from || path.starts_with(&format!("{from}/")) {
                copies.push((format!("{to}{}", &path[from.len()..]), text.clone()));
            }
        }
        self.files.extend(copies);
        output(0, b"")
    }

    fn run(&mut self, program: &str, args: &[String], directory: &Option<String>) -> Outcome {
        match program {
            "/bin/cp" => {
                assert_eq!(args[0], "--parents");
                assert_eq!(args[1], "-a");
                let source = match directory {
                    Some(directory) => format!("{directory}/{}", args[2]),
                    None => args[2].clone(),
                };
                self.copy(&source, &args[2], &args[3])
            }
            "mountpoint" => {
                assert_eq!(args[0], "-q");
                let path = normal(&args[1]);
                let mounted = self.mounts.iter().any(|(_, target)| *target == path);
                output(if mounted { 0 } else { 32 }, b"")
            }
            "/sbin/mkfs.ext4" => {
                assert_eq!(args[0], "-F");
                assert_eq!(args[1], "-q");
                assert!(self.mounts.is_empty());
                self.devices.insert(args[2].clone(), BTreeMap::new());
                output(0, b"")
            }
            _ => output(0, b""),
        }
    }

    fn perform(&mut self, effect: Effect) -> Outcome {
        let text = format!("{effect:?}");
        self.asked.push(text.clone());
        for (piece, reason) in &self.faults {
            if text.contains(piece.as_str()) {
                if reason.starts_with("code ") {
                    return output(reason[5..].parse().unwrap(), b"bad \xff bytes");
                }
                return Outcome::Failed(reason.clone());
            }
        }
        match effect {
            Effect::Exists { path } => Outcome::Flag(self.is_there(&path)),
            Effect::ReadText { path } => match self.files.get(&normal(&path)) {
                Some(text) => Outcome::Text(text.clone()),
                None => Outcome::Failed("No such file".to_string()),
            },
            Effect::ListDirectory { path } => Outcome::Paths(self.below(&path)),
            Effect::WriteText { path, text } => {
                self.files.insert(normal(&path), text);
                Outcome::Done
            }
            Effect::RemoveFile { path } => {
                self.files.remove(&normal(&path));
                Outcome::Done
            }
            Effect::CreateDirectories { path } => {
                self.directories.insert(normal(&path));
                Outcome::Done
            }
            Effect::Run { program, args, directory } => self.run(&program, &args, &directory),
            Effect::GetEnv { name } => Outcome::Value(self.variables.get(&name).cloned()),
            Effect::SetEnv { name, value } => {
                match value {
                    Some(value) => self.variables.insert(name, value),
                    None => self.variables.remove(&name),
                };
                Outcome::Done
            }
            Effect::Mount { device, target, fs_type, .. } => {
                assert_eq!(fs_type, "ext4");
                let target = normal(&target);
                let contents = self.devices.remove(&device).unwrap_or_default();
                for (path, text) in contents {
                    self.files.insert(format!("{target}{path}"), text);
                }
                self.mounts.push((device, target));
                Outcome::Done
            }
            Effect::Unmount { .. } => Outcome::Done,
            Effect::UnmountAll => {
                while let Some((device, target)) = self.mounts.pop() {
                    let mut contents: BTreeMap<String, String> = BTreeMap::new();
                    for path in self.below(&target) {
                        let text = self.files.remove(&path).unwrap();
                        contents.insert(path[target.len()..].to_string(), text);
                    }
                    self.devices.insert(device, contents);
                }
                Outcome::Done
            }
            Effect::ReadRequest { json } => read_request(&json),
            other => panic!("not expected here: {other:?}"),
        }
    }

    /// Runs a procedure to its end.
    fn drive<T>(
        &mut self,
        procedure: impl Fn(&Vec<Outcome>, &mut usize) -> Result<T, Stop<InitramfsError>>,
    ) -> Result<T, InitramfsError> {
        let mut record: Vec<Outcome> = Vec::new();
        loop {
            let mut at: usize = 0;
            match procedure(&record, &mut at) {
                Ok(value) => {
                    assert_eq!(at, record.len());
                    return Ok(value);
                }
                Err(Stop::Fail(e)) => {
                    assert_eq!(at, record.len());
                    return Err(e);
                }
                Err(Stop::Panic(message)) => panic!("{message}"),
                Err(Stop::Perform(effect)) => {
                    let outcome = self.perform(effect);
                    record.push(outcome);
                }
            }
        }
    }
}

fn strings(list: &[&str]) -> Vec<String> {
    list.iter().map(|s| s.to_string()).collect()
}

// --- backup and restore ---

#[test]
fn test_backup_path_nonexistent_source() {
    let mut world = World::new();
    world
        .drive(|o, at| backup_path("/tmp/t/rootfs", "/etc/hostname", "/tmp/t/backup", o, at))
        .unwrap();
    assert_eq!(world.asked.len(), 1);
}

#[test]
fn test_restore_path_nonexistent_backup() {
    let mut world = World::new();
    world
        .drive(|o, at| restore_path("/tmp/t/rootfs", "/etc/hostname", "/tmp/t/backup", o, at))
        .unwrap();
    assert_eq!(world.asked.len(), 1);
}

#[test]
fn test_restore_all_returns_success_on_empty_list() {
    let mut world = World::new();
    let result = world
        .drive(|o, at| restore_all("/tmp/t/rootfs", &vec![], "/tmp/t/backup", o, at))
        .unwrap();
    assert!(matches!(result, RestoreResult::Success));
}

#[test]
fn test_find_nested_mountpoint_none() {
    let mut world = World::new();
    let result = world
        .drive(|o, at| {
            find_nested_mountpoint("/tmp/t/rootfs", "/tmp/t/rootfs/etc/hostname", o, at)
        })
        .unwrap();
    assert!(result.is_none());
}

#[test]
fn a_backup_copies_what_exists_to_its_full_name() {
    let mut world = World::new().with_file("/rootfs/etc/hostname", "box");
    world.drive(|o, at| backup_path("/rootfs", "//etc/hostname", "/b", o, at)).unwrap();
    assert_eq!(world.files["/b/rootfs/etc/hostname"], "box");
    assert_eq!(
        world.asked,
        vec![
            r#"Exists { path: "/rootfs/etc/hostname" }"#.to_string(),
            r#"Run { program: "/bin/cp", args: ["--parents", "-a", "/rootfs/etc/hostname", "/b"], directory: None }"#.to_string(),
            r#"Run { program: "/bin/sync", args: [], directory: None }"#.to_string(),
        ]
    );
}

#[test]
fn a_backup_tells_how_the_copy_failed() {
    let mut world = World::new().with_file("/r/a", "1").with_fault("/bin/cp", "code 1");
    let e = world.drive(|o, at| backup_path("/r", "a", "/b", o, at)).unwrap_err();
    match e {
        InitramfsError::FactoryReset(FactoryResetError::BackupFailed { path, reason }) => {
            assert_eq!(path, "a");
            assert_eq!(reason, "cp failed (exit status: 1): bad \u{fffd} bytes");
        }
        other => panic!("{other:?}"),
    }
    let mut world = World::new().with_file("/r/a", "1").with_fault("/bin/cp", "not found");
    let e = world.drive(|o, at| backup_path("/r", "a", "/b", o, at)).unwrap_err();
    assert_eq!(
        e.message(),
        "factory reset: backup of a failed: Failed to run cp: not found"
    );
}

#[test]
fn a_flush_that_cannot_run_is_an_error() {
    let mut world = World::new().with_fault("/bin/sync", "no sync");
    let e = world.drive(|o, at| run_sync(o, at)).unwrap_err();
    assert!(matches!(
        e,
        InitramfsError::FactoryReset(FactoryResetError::Io(ref text)) if text == "sync failed: no sync"
    ));
    let mut world = World::new().with_fault("/bin/sync", "code 3");
    world.drive(|o, at| run_sync(o, at)).unwrap();
}

#[test]
fn a_backup_stops_at_the_first_failure() {
    let mut world = World::new()
        .with_file("/r/a", "1")
        .with_file("/r/b", "2")
        .with_file("/r/c", "3")
        .with_fault("\"/r/b\", \"/k\"", "code 2");
    let list = strings(&["/a", "/b", "/c"]);
    let e = world.drive(|o, at| backup_all("/r", &list, "/k", o, at)).unwrap_err();
    assert!(matches!(
        e,
        InitramfsError::FactoryReset(FactoryResetError::BackupFailed { ref path, .. }) if path == "/b"
    ));
    assert!(world.is_there("/k/r/a"));
    assert!(!world.is_there("/k/r/c"));
    assert!(!world.asked.iter().any(|e| e.contains("/r/c")));
}

#[test]
fn a_backup_directory_that_cannot_be_made_is_an_error() {
    let mut world = World::new().with_fault("CreateDirectories", "read-only");
    let e = world.drive(|o, at| backup_all("/r", &vec![], "/k", o, at)).unwrap_err();
    assert!(matches!(
        e,
        InitramfsError::FactoryReset(FactoryResetError::Io(ref text)) if text == "read-only"
    ));
}

#[test]
fn a_restore_looks_where_the_backup_was_put() {
    let mut world = World::new().with_file("/rootfs/mnt/etc/a/hostname", "box");
    world.mounts.push(("d".to_string(), "/rootfs/mnt/etc".to_string()));
    let path = "/mnt/etc//a/hostname";
    world.drive(|o, at| backup_path("/rootfs", path, "/b", o, at)).unwrap();
    world.files.remove("/rootfs/mnt/etc/a/hostname");
    world.asked.clear();
    world.drive(|o, at| restore_path("/rootfs", path, "/b", o, at)).unwrap();
    assert_eq!(world.files["/rootfs/mnt/etc/a/hostname"], "box");
    assert_eq!(
        world.asked[3],
        r#"Run { program: "/bin/cp", args: ["--parents", "-a", "a/hostname", "/rootfs/mnt/etc"], directory: Some("/b/rootfs/mnt/etc") }"#
    );
}

#[test]
fn the_search_for_a_mountpoint_goes_up_to_the_root() {
    let mut world = World::new();
    world.mounts.push(("d".to_string(), "/r/x".to_string()));
    world.mounts.push(("e".to_string(), "/r/x/y".to_string()));
    let find = |world: &mut World, dest: &str| {
        world.drive(|o, at| find_nested_mountpoint("/r", dest, o, at)).unwrap()
    };
    assert_eq!(find(&mut world, "/r/x/y/z/file"), Some("/x/y".to_string()));
    assert_eq!(world.asked.len(), 2);
    assert_eq!(find(&mut world, "/r/x/y"), Some("/x".to_string()));
    assert_eq!(find(&mut world, "/r/w/file"), None);
    // For a destination below `/r` nothing above `/r` is asked about.
    assert!(!world.asked.iter().any(|e| e.contains("\"/\"")));
    // A mountpoint that is not below the root keeps its own name.
    world.mounts.push(("f".to_string(), "/elsewhere".to_string()));
    assert_eq!(find(&mut world, "/elsewhere/file"), Some("/elsewhere".to_string()));
}

#[test]
fn nothing_is_searched_above_the_root_for_the_root_itself() {
    let mut world = World::new();
    world.mounts.push(("d".to_string(), "/".to_string()));
    for (root, dest) in [("/r", "/r"), ("/r", "/r/"), ("/r/", "/r/."), ("/", "/"), ("r", "r")] {
        let found = world.drive(|o, at| find_nested_mountpoint(root, dest, o, at)).unwrap();
        assert_eq!(found, None, "{root} {dest}");
    }
    assert!(world.asked.is_empty());
}

#[test]
fn the_root_itself_is_not_restored() {
    for path in ["/", "", "//", "/."] {
        let mut world = World::new().with_file("/b/rootfs/f", "1");
        world.mounts.push(("d".to_string(), "/".to_string()));
        let e = world.drive(|o, at| restore_path("/rootfs", path, "/b", o, at)).unwrap_err();
        match e {
            InitramfsError::FactoryReset(FactoryResetError::RestoreFailed { path: told, reason }) => {
                assert_eq!(told, path);
                assert!(reason.starts_with(
                    "no mountpoint found in destination path (error 66): /rootfs"
                ));
            }
            other => panic!("{other:?}"),
        }
        assert_eq!(world.asked.len(), 1);
    }
}

#[test]
fn leading_slashes_make_no_difference() {
    let mut all: Vec<Vec<String>> = Vec::new();
    for path in ["m/d/f", "/m/d/f", "///m/d/f"] {
        let mut world = World::new().with_file("/r/m/d/f", "1").with_file("/r/m/d/g", "2");
        world.mounts.push(("d".to_string(), "/r/m".to_string()));
        world.drive(|o, at| backup_path("/r", path, "/b", o, at)).unwrap();
        world.files.remove("/r/m/d/f");
        world.drive(|o, at| restore_path("/r", path, "/b", o, at)).unwrap();
        assert_eq!(world.files["/r/m/d/f"], "1");
        all.push(world.asked);
    }
    assert_eq!(all[0], all[1]);
    assert_eq!(all[0], all[2]);
}

#[test]
fn a_tree_that_was_backed_up_comes_back() {
    let mut world = World::new()
        .with_file("/r/m/d/f", "1")
        .with_file("/r/m/d/sub/g", "2")
        .with_file("/r/m/other", "3");
    world.mounts.push(("d".to_string(), "/r/m".to_string()));
    world.drive(|o, at| backup_path("/r", "/m/d", "/b", o, at)).unwrap();
    let backup = world.below("/b");
    for path in world.below("/r/m") {
        world.files.remove(&path);
    }
    world.drive(|o, at| restore_path("/r", "/m/d", "/b", o, at)).unwrap();
    assert_eq!(world.below("/r"), strings(&["/r/m/d/f", "/r/m/d/sub/g"]));
    assert_eq!(world.files["/r/m/d/sub/g"], "2");
    assert_eq!(world.below("/b"), backup);
}

#[test]
fn an_outcome_of_another_kind_is_a_failure() {
    for wrong in [Outcome::Flag(true), output(0, b""), Outcome::Text("t".to_string())] {
        let record = vec![wrong];
        let mut at: usize = 0;
        match write_null_status(&record, &mut at) {
            Err(Stop::Fail(e)) => assert_eq!(
                e.message(),
                "I/O error: Failed to write null status to /tmp/factory-reset.json: \
                 unexpected outcome"
            ),
            other => panic!("{other:?}"),
        }
    }
    let record = vec![Outcome::Done];
    let mut at: usize = 0;
    match run_sync(&record, &mut at) {
        Err(Stop::Fail(e)) => {
            assert_eq!(e.message(), "factory reset: I/O error: sync failed: unexpected outcome")
        }
        other => panic!("{other:?}"),
    }
}

#[test]
fn no_mountpoint_is_assumed_where_none_can_be_told() {
    let mut world = World::new().with_fault("mountpoint", "not installed");
    assert!(!world.drive(|o, at| is_mountpoint("/r", o, at)).unwrap());
}

#[test]
fn a_restore_without_a_mountpoint_fails_with_its_number() {
    let mut world = World::new().with_file("/b/r/a/f", "1");
    let e = world.drive(|o, at| restore_path("/r", "/a/f", "/b", o, at)).unwrap_err();
    match e {
        InitramfsError::FactoryReset(FactoryResetError::RestoreFailed { path, reason }) => {
            assert_eq!(path, "/a/f");
            assert_eq!(reason, "no mountpoint found in destination path (error 66): /r/a/f");
        }
        other => panic!("{other:?}"),
    }
}

#[test]
fn a_restore_tries_every_path() {
    let mut world = World::new()
        .with_file("/b/r/m/one", "1")
        .with_file("/b/r/other/two", "2")
        .with_file("/b/r/m/three", "3")
        .with_file("/b/r/more/four", "4");
    world.mounts.push(("d".to_string(), "/r/m".to_string()));
    let list = strings(&["/m/one", "/other/two", "/m/three", "/m/absent", "/more/four"]);
    let result = world.drive(|o, at| restore_all("/r", &list, "/b", o, at)).unwrap();
    assert_eq!(world.files["/r/m/one"], "1");
    assert_eq!(world.files["/r/m/three"], "3");
    match result {
        RestoreResult::PartialFailure { context, error } => {
            assert_eq!(context, "/other/two;/more/four:restore");
            assert!(error.contains("/r/more/four"), "{error}");
        }
        RestoreResult::Success => panic!("two paths have no mountpoint"),
    }
}

// --- the request and the list ---

fn parse(json: &str) -> Result<FactoryResetConfig, InitramfsError> {
    World::new().drive(|o, at| FactoryResetConfig::parse(json, o, at))
}

#[test]
fn test_parse_mode_and_preserve() {
    let cfg = parse(r#"{"mode":1,"preserve":[]}"#).unwrap();
    assert_eq!(cfg.mode, 1);
    assert!(cfg.preserve.is_empty());
}

#[test]
fn test_parse_with_preserve_keys() {
    let cfg = parse(r#"{"mode":2,"preserve":["applications","network"]}"#).unwrap();
    assert_eq!(cfg.mode, 2);
    assert_eq!(cfg.preserve, vec!["applications", "network"]);
}

#[test]
fn test_parse_invalid_json() {
    let e = parse("not json").unwrap_err();
    assert!(matches!(
        e,
        InitramfsError::FactoryReset(FactoryResetError::InvalidConfig(ref text))
            if text.starts_with("Failed to parse factory-reset JSON: ")
    ));
}

#[test]
fn test_parse_missing_mode() {
    assert!(parse(r#"{"preserve":[]}"#).is_err());
}

#[test]
fn test_build_preserve_list_empty_preserve() {
    let cfg = FactoryResetConfig { mode: 1, preserve: vec![] };
    let list = World::new().drive(|o, at| build_preserve_list(&cfg, "/t", o, at)).unwrap();
    assert_eq!(list, vec!["/etc/omnect/factory-reset.d/"]);
}

#[test]
fn test_build_preserve_list_applications() {
    let mut world = World::new().with_file(
        "/t/etc/omnect/factory-reset.d/app.json",
        r#"{"paths":["/home/user/.config","var/app"]}"#,
    );
    let cfg = FactoryResetConfig { mode: 1, preserve: vec!["applications".into()] };
    let list = world.drive(|o, at| build_preserve_list(&cfg, "/t", o, at)).unwrap();
    assert_eq!(list[0], "/etc/omnect/factory-reset.d/");
    assert!(list.contains(&"/home/user/.config".to_string()));
    assert!(list.contains(&"var/app".to_string()));
}

#[test]
fn test_build_preserve_list_custom_key() {
    let mut world = World::new().with_file(
        "/t/etc/omnect/factory-reset.json",
        r#"{"network":["/etc/network/interfaces","/etc/wpa_supplicant.conf"]}"#,
    );
    let cfg = FactoryResetConfig { mode: 1, preserve: vec!["network".into()] };
    let list = world.drive(|o, at| build_preserve_list(&cfg, "/t", o, at)).unwrap();
    assert!(list.contains(&"/etc/network/interfaces".to_string()));
    assert!(list.contains(&"/etc/wpa_supplicant.conf".to_string()));
}

#[test]
fn the_list_keeps_the_order_of_the_keys() {
    let mut world = World::new()
        .with_file("/t/etc/omnect/factory-reset.json", r#"{"b":["/b"],"a":["/a", 5, "/a2"],"c":7}"#)
        .with_file("/t/etc/omnect/factory-reset.d/x.json", r#"{"paths":["/x"]}"#)
        .with_file("/t/etc/omnect/factory-reset.d/readme.txt", "no json")
        .with_file("/t/etc/omnect/factory-reset.d/y.json", r#"{"paths":null}"#);
    let cfg = FactoryResetConfig {
        mode: 1,
        preserve: strings(&["b", "applications", "a", "c", "b"]),
    };
    let list = world.drive(|o, at| build_preserve_list(&cfg, "/t", o, at)).unwrap();
    assert_eq!(
        list,
        vec!["/etc/omnect/factory-reset.d/", "/b", "/x", "/a", "/a2", "/b"]
    );
}

fn list_error(world: World, key: &str) -> String {
    let mut world = world;
    let cfg = FactoryResetConfig { mode: 1, preserve: strings(&[key]) };
    world.drive(|o, at| build_preserve_list(&cfg, "/t", o, at)).unwrap_err().message()
}

#[test]
fn a_list_that_cannot_be_built_tells_why() {
    assert_eq!(
        list_error(World::new(), "net"),
        "factory reset: invalid factory-reset config: Failed to read \
         /t/etc/omnect/factory-reset.json: No such file"
    );
    let file = "/t/etc/omnect/factory-reset.json";
    assert!(list_error(World::new().with_file(file, "{"), "net")
        .starts_with("factory reset: invalid factory-reset config: Failed to parse /t/etc"));
    assert_eq!(
        list_error(World::new().with_file(file, "{}"), "net"),
        "factory reset: missing field: /t/etc/omnect/factory-reset.json: no net object"
    );
    let app = "/t/etc/omnect/factory-reset.d/a.json";
    assert_eq!(
        list_error(World::new().with_file(app, "[]"), "applications"),
        format!("factory reset: missing field: {app}: no path object")
    );
    assert!(list_error(World::new().with_file(app, "["), "applications")
        .starts_with(&format!("factory reset: missing field: {app}: no path object (")));
    assert_eq!(
        list_error(
            World::new().with_file(app, "{}").with_fault("ReadText", "denied"),
            "applications"
        ),
        format!("factory reset: invalid factory-reset config: Failed to read {app}: denied")
    );
    assert_eq!(
        list_error(
            World::new().with_file(app, "{}").with_fault("ListDirectory", "denied"),
            "applications"
        ),
        "factory reset: invalid factory-reset config: Failed to read \
         /t/etc/omnect/factory-reset.d: denied"
    );
}

#[test]
fn strings_are_taken_out_of_documents() {
    let value: Value = serde_json::from_str(r#"{"k":["a",1,null,"b",["c"]],"s":"t"}"#).unwrap();
    assert_eq!(listed_strings(&value, "k"), Some(strings(&["a", "b"])));
    assert_eq!(listed_strings(&value, "s"), Some(vec![]));
    assert_eq!(listed_strings(&value, "absent"), None);
    assert_eq!(paths_of_key("f", "k", Ok(value.clone())).unwrap(), strings(&["a", "b"]));
    assert_eq!(
        paths_of_application("f", Ok(value)).unwrap_err().message(),
        "factory reset: missing field: f: no path object"
    );
    assert_eq!(
        paths_of_application("f", Err("why".to_string())).unwrap_err().message(),
        "factory reset: missing field: f: no path object (why)"
    );
    assert_eq!(
        paths_of_key("f", "k", Err("why".to_string())).unwrap_err().message(),
        "factory reset: invalid factory-reset config: Failed to parse f: why"
    );
}

// --- the status ---

#[test]
fn test_success_status_serialization() {
    let s = FactoryResetStatus::success(vec!["/etc/omnect/factory-reset.d/".into()]);
    let json: Value = serde_json::from_str(&s.to_json()).unwrap();
    assert_eq!(json["status"], 0);
    assert!(json.get("error").is_none());
    assert!(json.get("context").is_none());
}

#[test]
fn test_error_status_with_context() {
    let s = FactoryResetStatus::error(
        status_code::BACKUP_RESTORE_ERROR,
        "66",
        Some("etc/hostname:restore".into()),
        vec!["/etc/omnect/factory-reset.d/".into()],
    );
    let json: Value = serde_json::from_str(&s.to_json()).unwrap();
    assert_eq!(json["status"], 2);
    assert_eq!(json["error"], "66");
    assert_eq!(json["context"], "etc/hostname:restore");
}

#[test]
fn a_status_is_one_line_of_json() {
    let s = FactoryResetStatus::error(
        3,
        "a \"quoted\" \\ \u{8}\t\n\u{c}\r\u{1}\u{1f}\u{7f} ä",
        None,
        strings(&["/a", "b"]),
    );
    assert_eq!(
        s.to_json(),
        "{\"status\":3,\"error\":\"a \\\"quoted\\\" \\\\ \\b\\t\\n\\f\\r\\u0001\\u001f\u{7f} ä\",\
         \"paths\":[\"/a\",\"b\"]}"
    );
    let json: Value = serde_json::from_str(&s.to_json()).unwrap();
    assert_eq!(json["error"], s.error.clone().unwrap());
    assert_eq!(FactoryResetStatus::success(vec![]).to_json(), "{\"status\":0}");
    let copy = s.clone();
    assert_eq!(copy.to_json(), s.to_json());
}

#[test]
fn a_status_is_written_to_its_file() {
    let mut world = World::new();
    world.drive(|o, at| write_null_status(o, at)).unwrap();
    assert_eq!(world.files[FACTORY_RESET_STATUS_TMP], "null");
    let s = FactoryResetStatus::success(vec![]);
    world.drive(|o, at| write_status(&s, o, at)).unwrap();
    assert_eq!(world.files[FACTORY_RESET_STATUS_TMP], "{\"status\":0}");
    let mut full = World::new().with_fault("WriteText", "disk full");
    assert_eq!(
        full.drive(|o, at| write_null_status(o, at)).unwrap_err().message(),
        "I/O error: Failed to write null status to /tmp/factory-reset.json: disk full"
    );
    assert_eq!(
        full.drive(|o, at| write_status(&s, o, at)).unwrap_err().message(),
        "I/O error: Failed to write status to /tmp/factory-reset.json: disk full"
    );
}

#[test]
fn warnings_go_behind_the_context() {
    let none: Vec<String> = Vec::new();
    let two = strings(&["v", "w"]);
    assert_eq!(build_warnings_context(None, &none), None);
    assert_eq!(build_warnings_context(Some("c".to_string()), &none), Some("c".to_string()));
    assert_eq!(build_warnings_context(None, &two), Some("v;w".to_string()));
    assert_eq!(build_warnings_context(Some(String::new()), &two), Some("v;w".to_string()));
    assert_eq!(build_warnings_context(Some("c".to_string()), &two), Some("c;v;w".to_string()));
}

#[test]
fn the_final_status_follows_from_the_restore() {
    let s = status_at_end(1, strings(&["/a"]), RestoreResult::Success);
    assert_eq!(s.to_json(), "{\"status\":0,\"error\":\"0\",\"paths\":[\"/a\"]}");
    let failure =
        RestoreResult::PartialFailure { context: "x:restore".to_string(), error: "66".to_string() };
    let s = status_at_end(4, vec![], failure);
    assert_eq!(
        s.to_json(),
        "{\"status\":2,\"error\":\"66\",\"context\":\"x:restore;warning: factory reset mode \
         \\\"4\\\" not supported; skipping wipe\"}"
    );
}

// --- the reset ---

#[test]
fn a_reset_is_requested_by_a_value_that_is_not_empty() {
    let mut world = World::new();
    assert_eq!(world.drive(|o, at| factory_reset_requested(o, at)).unwrap(), None);
    world.variables.insert("factory-reset".to_string(), String::new());
    assert_eq!(world.drive(|o, at| factory_reset_requested(o, at)).unwrap(), None);
    world.variables.insert("factory-reset".to_string(), "{}".to_string());
    assert_eq!(
        world.drive(|o, at| factory_reset_requested(o, at)).unwrap(),
        Some("{}".to_string())
    );
    world.faults.push(("GetEnv".to_string(), "broken".to_string()));
    assert_eq!(world.drive(|o, at| factory_reset_requested(o, at)).unwrap(), None);
}

fn device(files: &[(&str, &str)]) -> BTreeMap<String, String> {
    files.iter().map(|(path, text)| (path.to_string(), text.to_string())).collect()
}

const REQUEST: &str = r#"{"mode":1,"preserve":["network"]}"#;

fn reset_world() -> World {
    let mut world = World::new().with_file(
        "/rootfs/etc/omnect/factory-reset.json",
        r#"{"network":["/mnt/etc/net/if","/mnt/data/wpa","/mnt/data/absent"]}"#,
    );
    world.variables.insert("factory-reset".to_string(), REQUEST.to_string());
    world.devices.insert(
        "/dev/omnect/etc".to_string(),
        device(&[("/net/if", "eth0"), ("/junk", "etc junk")]),
    );
    world.devices.insert(
        "/dev/omnect/data".to_string(),
        device(&[("/wpa", "key"), ("/junk", "data junk")]),
    );
    world.devices.insert("/dev/omnect/factory".to_string(), device(&[("/image", "i")]));
    world
}

fn reset(world: &mut World, json: &str, is_grub: bool) -> Result<(), InitramfsError> {
    world.drive(|o, at| run_factory_reset(json, "/rootfs", is_grub, false, o, at))
}

fn status_of(world: &World) -> Value {
    serde_json::from_str(&world.files[FACTORY_RESET_STATUS_TMP]).unwrap()
}

#[test]
fn a_reset_keeps_what_is_to_be_preserved_and_nothing_else() {
    for is_grub in [false, true] {
        let mut world = reset_world();
        reset(&mut world, REQUEST, is_grub).unwrap();
        assert_eq!(world.devices["/dev/omnect/etc"], device(&[("/net/if", "eth0")]));
        assert_eq!(world.devices["/dev/omnect/data"], device(&[("/wpa", "key")]));
        assert_eq!(world.devices["/dev/omnect/factory"], device(&[("/image", "i")]));
        assert!(world.variables.is_empty());
        assert!(world.mounts.is_empty());
        assert_eq!(
            world.files[FACTORY_RESET_STATUS_TMP],
            "{\"status\":0,\"error\":\"0\",\"paths\":[\"/etc/omnect/factory-reset.d/\",\
             \"/mnt/etc/net/if\",\"/mnt/data/wpa\",\"/mnt/data/absent\"]}"
        );
        let boot = world.asked.iter().filter(|e| e.contains("/rootfs/boot")).count();
        assert_eq!(boot, if is_grub { 1 } else { 0 });
    }
}

#[test]
fn a_reset_goes_through_its_stages_in_order() {
    let mut world = reset_world();
    reset(&mut world, REQUEST, true).unwrap();
    assert_eq!(
        world.asked[0],
        r#"WriteText { path: "/tmp/factory-reset.json", text: "null" }"#
    );
    assert_eq!(world.asked[1], r#"SetEnv { name: "factory-reset", value: None }"#);
    assert_eq!(world.asked[2], r#"Run { program: "/bin/sync", args: [], directory: None }"#);
    assert_eq!(world.asked[3], r#"Unmount { target: "/rootfs/boot" }"#);
    assert_eq!(
        world.asked[5],
        r#"Mount { device: "/dev/omnect/factory", target: "/rootfs/mnt/factory", fs_type: "ext4", read_only: true }"#
    );
    let at = |piece: &str| world.asked.iter().position(|e| e.contains(piece)).unwrap();
    let last = |piece: &str| world.asked.iter().rposition(|e| e.contains(piece)).unwrap();
    let mkfs_data = at(r#"mkfs.ext4", args: ["-F", "-q", "/dev/omnect/data"]"#);
    let tune_data =
        at(r#"tune2fs", args: ["/dev/omnect/data", "-c", "-1", "-i", "0", "-L", "data"]"#);
    let mkfs_etc = at(r#"mkfs.ext4", args: ["-F", "-q", "/dev/omnect/etc"]"#);
    let tune_etc = at(r#"tune2fs", args: ["/dev/omnect/etc", "-c", "-1", "-i", "0", "-L", "etc"]"#);
    assert!(last("/tmp/factory_reset/backup\"]") < at("UnmountAll"));
    assert!(at("UnmountAll") < mkfs_data);
    assert!(mkfs_data < tune_data && tune_data < mkfs_etc && mkfs_etc < tune_etc);
    assert!(tune_etc < at("mountpoint"));
    assert!(last("/bin/cp") < last("UnmountAll"));
    assert_eq!(last("WriteText"), world.asked.len() - 1);
    assert_eq!(world.asked.iter().filter(|e| e.contains("SetEnv")).count(), 1);
    assert_eq!(world.asked.iter().filter(|e| e.contains("WriteText")).count(), 2);
}

#[test]
fn a_reset_in_another_mode_warns() {
    let mut world = reset_world();
    reset(&mut world, r#"{"mode":2}"#, false).unwrap();
    let status = status_of(&world);
    assert_eq!(status["status"], 0);
    assert_eq!(
        status["context"],
        "warning: factory reset mode \"2\" not supported; skipping wipe"
    );
    assert!(world.devices["/dev/omnect/data"].is_empty());
}

#[test]
fn a_reset_cut_short_anywhere_leaves_its_marker_or_its_status() {
    let whole = {
        let mut world = reset_world();
        reset(&mut world, REQUEST, true).unwrap();
        world.asked.len()
    };
    for cut in 1..whole {
        let mut world = reset_world();
        let mut record: Vec<Outcome> = Vec::new();
        for _ in 0..cut {
            let mut at: usize = 0;
            match run_factory_reset(REQUEST, "/rootfs", true, false, &record, &mut at) {
                Err(Stop::Perform(effect)) => {
                    let outcome = world.perform(effect);
                    record.push(outcome);
                }
                _ => panic!("over after {}", record.len()),
            }
        }
        assert_eq!(world.files[FACTORY_RESET_STATUS_TMP], "null", "{cut}");
        if !world.asked.iter().any(|e| e.contains("mkfs")) {
            world.perform(Effect::UnmountAll);
            assert_eq!(world.devices["/dev/omnect/data"].len(), 2, "{cut}");
        }
    }
}

#[test]
fn a_reset_that_is_over_stays_over() {
    let mut world = reset_world();
    let mut record: Vec<Outcome> = Vec::new();
    loop {
        let mut at: usize = 0;
        match run_factory_reset(REQUEST, "/rootfs", false, false, &record, &mut at) {
            Err(Stop::Perform(effect)) => {
                let outcome = world.perform(effect);
                record.push(outcome);
            }
            other => {
                assert!(other.is_ok());
                break;
            }
        }
    }
    let used = record.len();
    record.push(Outcome::Failed("late".to_string()));
    let mut at: usize = 0;
    assert!(run_factory_reset(REQUEST, "/rootfs", false, false, &record, &mut at).is_ok());
    assert_eq!(at, used);
}

#[test]
fn a_reset_that_cannot_be_marked_or_taken_back_does_nothing() {
    let mut world = reset_world().with_fault("WriteText", "no space");
    let e = reset(&mut world, REQUEST, false).unwrap_err();
    assert!(matches!(e, InitramfsError::Io(_)));
    assert_eq!(world.asked.len(), 1);
    let mut world = reset_world().with_fault("SetEnv", "no access");
    let e = reset(&mut world, REQUEST, false).unwrap_err();
    assert_eq!(
        e.message(),
        "I/O error: Failed to clear factory-reset bootloader var: no access"
    );
    assert_eq!(world.asked.len(), 2);
}

#[test]
fn a_reset_that_cannot_mount_fails() {
    for (piece, expected) in [
        ("target: \"/rootfs/mnt/factory\", fs", "mount error: factory: busy"),
        ("target: \"/rootfs/mnt/etc\", fs", "mount error: etc: busy"),
        ("target: \"/rootfs/mnt/data\", fs", "mount error: data: busy"),
        ("Unmount {", "mount error: umount boot: busy"),
        ("UnmountAll", "mount error: umount: busy"),
    ] {
        let mut world = reset_world().with_fault(piece, "busy");
        let e = reset(&mut world, REQUEST, true).unwrap_err();
        assert_eq!(e.message(), format!("factory reset: {expected}"));
        assert_eq!(status_of(&world), Value::Null);
        assert!(!world.asked.iter().any(|e| e.contains("mkfs")));
    }
    let mut world = reset_world().with_fault("CreateDirectories", "read-only");
    let e = reset(&mut world, REQUEST, true).unwrap_err();
    assert!(matches!(e, InitramfsError::Io(ref text) if text == "read-only"));
}

#[test]
fn a_request_that_cannot_be_read_is_reported() {
    let mut world = reset_world();
    let e = reset(&mut world, "{", false).unwrap_err();
    let status = status_of(&world);
    assert_eq!(status["status"], 1);
    assert_eq!(status["error"], "-");
    assert_eq!(status["context"], format!("mode not set: {}", e.message()));
    assert!(status.get("paths").is_none());
}

#[test]
fn a_list_that_cannot_be_built_is_reported() {
    let mut world = reset_world();
    let e = reset(&mut world, r#"{"mode":1,"preserve":["absent"]}"#, false).unwrap_err();
    let status = status_of(&world);
    assert_eq!(status["status"], 3);
    assert_eq!(status["error"], "-");
    assert_eq!(status["context"], format!("preserve object not set: {}", e.message()));
    assert!(!world.asked.iter().any(|e| e.contains("mkfs")));
}

#[test]
fn a_backup_that_fails_is_reported_and_nothing_is_erased() {
    let mut world = reset_world().with_fault("/bin/cp", "code 1");
    let e = reset(&mut world, REQUEST, false).unwrap_err();
    assert!(matches!(
        e,
        InitramfsError::FactoryReset(FactoryResetError::BackupFailed { .. })
    ));
    let status = status_of(&world);
    assert_eq!(status["status"], 2);
    assert_eq!(status["error"], e.message());
    assert_eq!(
        status["context"],
        "[\"/etc/omnect/factory-reset.d/\", \"/mnt/etc/net/if\", \"/mnt/data/wpa\", \
         \"/mnt/data/absent\"]:backup"
    );
    assert!(!world.asked.iter().any(|e| e.contains("mkfs")));
    assert!(!world.asked.iter().any(|e| e.contains("UnmountAll")));
}

#[test]
fn a_report_that_cannot_be_written_changes_nothing_of_the_error() {
    let mut world = reset_world().with_fault("\\\"status\\\"", "no space");
    let e = reset(&mut world, "{", false).unwrap_err();
    assert!(matches!(
        e,
        InitramfsError::FactoryReset(FactoryResetError::InvalidConfig(_))
    ));
    assert_eq!(status_of(&world), Value::Null);
}

#[test]
fn a_restore_that_fails_is_told_in_the_status() {
    let mut world = reset_world().with_fault("\"/rootfs/mnt/data\"], directory: Some", "code 1");
    reset(&mut world, REQUEST, false).unwrap();
    let status = status_of(&world);
    assert_eq!(status["status"], 2);
    assert_eq!(status["context"], "/mnt/data/wpa:restore");
    assert_eq!(
        status["error"],
        "factory reset: restore of /mnt/data/wpa failed: cp failed (exit status: 1): bad \u{fffd} bytes"
    );
    assert_eq!(world.devices["/dev/omnect/etc"], device(&[("/net/if", "eth0")]));
}

#[test]
fn a_reformat_that_fails_tells_which_command_did() {
    for (piece, reason, expected) in [
        ("mkfs", "code 1", "mkfs.ext4 failed (exit status: 1): bad \u{fffd} bytes"),
        ("mkfs", "absent", "Failed to run mkfs.ext4: absent"),
        ("tune2fs", "code 2", "tune2fs failed (exit status: 2): bad \u{fffd} bytes"),
        ("tune2fs", "absent", "Failed to run tune2fs: absent"),
    ] {
        let mut world = World::new().with_fault(piece, reason);
        let e = world.drive(|o, at| reformat_ext4("/dev/x", "l", o, at)).unwrap_err();
        match e {
            InitramfsError::FactoryReset(FactoryResetError::ReformatFailed { device, reason }) => {
                assert_eq!(device, "/dev/x");
                assert_eq!(reason, expected);
            }
            other => panic!("{other:?}"),
        }
    }
    let mut world = World::new();
    world.drive(|o, at| reformat_ext4("/dev/x", "l", o, at)).unwrap();
    assert_eq!(world.asked.len(), 2);
}
