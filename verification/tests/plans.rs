use modkit::Action;
use modkit::Entry;
use modkit::LaunchCmd;
use modkit::download_actions;
use modkit::extract_actions;
use modkit::footprint_actions;
use modkit::footprint_targets;
use modkit::install_done_message;
use modkit::is_dir_name;
use modkit::join_path;
use modkit::launch_plan;
use modkit::parent_of;
use modkit::removal_done_message;
use modkit::remove_path_action;
use modkit::runtime_archive_file_name;
use modkit::runtime_archive_url;

#[test]
fn join_path_inserts_separator() {
    assert_eq!(join_path("game", "BepInEx"), "game/BepInEx");
}

#[test]
fn join_path_empty_sides() {
    assert_eq!(join_path("", "x"), "/x");
    assert_eq!(join_path("x", ""), "x/");
}

#[test]
fn parent_of_nested_path() {
    assert_eq!(parent_of("a/b/c.bin"), Some("a/b".to_string()));
}

#[test]
fn parent_of_without_separator() {
    assert_eq!(parent_of("c.bin"), None);
}

#[test]
fn parent_of_trailing_separator() {
    assert_eq!(parent_of("a/b/"), Some("a/b".to_string()));
}

#[test]
fn dir_marker_names() {
    assert!(is_dir_name("BepInEx/config/"));
    assert!(!is_dir_name("BepInEx/core/foo.dll"));
    assert!(!is_dir_name(""));
}

#[test]
fn download_plan_creates_parent_first() {
    let body: Vec<u8> = vec![1, 2, 3];
    let plan = download_actions("downloads/mods/m.zip", &body);
    assert_eq!(
        plan,
        vec![
            Action::MkDirAll("downloads/mods".to_string()),
            Action::WriteFile("downloads/mods/m.zip".to_string(), vec![1, 2, 3]),
        ]
    );
}

#[test]
fn download_plan_without_parent() {
    let body: Vec<u8> = vec![];
    let plan = download_actions("m.zip", &body);
    assert_eq!(plan, vec![Action::WriteFile("m.zip".to_string(), vec![])]);
}

#[test]
fn remove_path_action_carries_path() {
    assert_eq!(
        remove_path_action("mods/old"),
        Action::RemovePath("mods/old".to_string())
    );
}

#[test]
fn launch_missing_executable_is_noop() {
    let r = launch_plan(false, "game/absent.exe", vec!["-console".to_string()]);
    assert_eq!(r, None);
}

#[test]
fn launch_existing_executable_passes_through() {
    let r = launch_plan(true, "game/run.exe", vec!["-console".to_string()]);
    assert_eq!(
        r,
        Some(LaunchCmd {
            exe: "game/run.exe".to_string(),
            args: vec!["-console".to_string()],
        })
    );
}

#[test]
fn footprint_table_is_fixed() {
    let t = footprint_targets();
    assert_eq!(
        t,
        vec![
            ("BepInEx".to_string(), true),
            (".doorstop_version".to_string(), false),
            ("changelog.txt".to_string(), false),
            ("doorstop_config.ini".to_string(), false),
            ("winhttp.dll".to_string(), false),
            ("winhttp.disabled".to_string(), false),
        ]
    );
}

#[test]
fn footprint_plan_resolves_against_root() {
    let plan = footprint_actions("game");
    assert_eq!(
        plan,
        vec![
            Action::RemoveDir("game/BepInEx".to_string()),
            Action::RemoveFile("game/.doorstop_version".to_string()),
            Action::RemoveFile("game/changelog.txt".to_string()),
            Action::RemoveFile("game/doorstop_config.ini".to_string()),
            Action::RemoveFile("game/winhttp.dll".to_string()),
            Action::RemoveFile("game/winhttp.disabled".to_string()),
        ]
    );
}

#[test]
fn fixed_runtime_constants() {
    assert_eq!(
        runtime_archive_url(),
        "https://github.com/BepInEx/BepInEx/releases/download/v5.4.23.3/BepInEx_win_x64_5.4.23.3.zip"
    );
    assert_eq!(runtime_archive_file_name(), "bepinex.zip");
}

#[test]
fn reported_messages() {
    assert_eq!(install_done_message(), "Downloaded and Extracted Bepinex");
    assert_eq!(
        removal_done_message("game"),
        "Cleaned modding files from game"
    );
}

#[test]
fn extract_plan_orders_and_resolves_entries() {
    let entries = vec![
        Entry {
            name: "BepInEx/core/foo.dll".to_string(),
            mangled: "BepInEx/core/foo.dll".to_string(),
            data: b"hello world!".to_vec(),
        },
        Entry {
            name: "BepInEx/config/".to_string(),
            mangled: "BepInEx/config".to_string(),
            data: vec![],
        },
    ];
    let plan = extract_actions("dest", &entries, false, "");
    assert_eq!(
        plan,
        vec![
            Action::MkDirAll("dest/BepInEx/core".to_string()),
            Action::WriteFile("dest/BepInEx/core/foo.dll".to_string(), b"hello world!".to_vec()),
            Action::MkDirAll("dest/BepInEx/config".to_string()),
        ]
    );
}

#[test]
fn colliding_entries_are_both_written_in_order() {
    let entries = vec![
        Entry {
            name: "same.txt".to_string(),
            mangled: "same.txt".to_string(),
            data: vec![1],
        },
        Entry {
            name: "same.txt".to_string(),
            mangled: "same.txt".to_string(),
            data: vec![2],
        },
    ];
    let plan = extract_actions("d", &entries, false, "");
    assert_eq!(
        plan,
        vec![
            Action::MkDirAll("d".to_string()),
            Action::WriteFile("d/same.txt".to_string(), vec![1]),
            Action::MkDirAll("d".to_string()),
            Action::WriteFile("d/same.txt".to_string(), vec![2]),
        ]
    );
}

#[test]
fn extract_plan_with_cleanup_removes_source_last() {
    let entries = vec![Entry {
        name: "a.txt".to_string(),
        mangled: "a.txt".to_string(),
        data: vec![7],
    }];
    let without = extract_actions("dest", &entries, false, "park/a.zip");
    let with = extract_actions("dest", &entries, true, "park/a.zip");
    assert_eq!(with.len(), without.len() + 1);
    assert_eq!(&with[..without.len()], &without[..]);
    assert_eq!(
        with.last(),
        Some(&Action::RemoveFile("park/a.zip".to_string()))
    );
}
