use pacrs::args::PsSortBy;
use pacrs::files::parse_pacman_files_output;
use pacrs::ps::{
    deleted_mapping_path, get_process_command, is_excluded_path, process_has_deleted_files,
    process_owner, processes_with_deleted_files, scan_process, Process, ProcessInfo,
    ScannedProcess, UserRecord,
};
use pacrs::report::{long_listing, order_processes, ps_notice, ps_output, short_listing};

fn strings(items: &[&str]) -> Vec<String> {
    items.iter().map(|s| s.to_string()).collect()
}

fn process(pid: u32, user: &str, command: &str) -> Process {
    Process { pid, user_name: user.to_string(), command: command.to_string() }
}

fn scanned(p: Process, deleted: &[&str]) -> ScannedProcess {
    ScannedProcess { process: p, deleted: strings(deleted) }
}

#[test]
fn process_mapping_installed_file_is_stale() {
    let installed = strings(&["/usr/lib/libfoo.so.1"]);
    let entries =
        vec![scanned(process(42, "root", "app"), &["/usr/lib/libfoo.so.1", "/tmp/deleted.sock"])];
    let stale = processes_with_deleted_files(&installed, &entries);
    assert_eq!(stale, vec![process(42, "root", "app")]);
}

#[test]
fn process_mapping_only_foreign_files_is_not_stale() {
    let installed = strings(&["/usr/lib/libfoo.so.1"]);
    let entries = vec![scanned(process(42, "root", "app"), &["/tmp/deleted.sock"])];
    let stale = processes_with_deleted_files(&installed, &entries);
    assert!(stale.is_empty());
}

#[test]
fn marker_line_yields_path_and_plain_line_yields_nothing() {
    assert_eq!(
        deleted_mapping_path("7f0000-7f1000 r-xp 0 08:01 123 /usr/bin/app (deleted)"),
        Some("/usr/bin/app".to_string())
    );
    assert_eq!(deleted_mapping_path("7f0000-7f1000 r-xp 0 08:01 123 /usr/bin/app"), None);
}

#[test]
fn empty_result_prints_one_informational_line() {
    let out = ps_output(&Vec::new(), None, false, false, false);
    assert_eq!(out, "The processes using removed files were not found.\n");
    assert_eq!(out.lines().count(), 1);
}

#[test]
fn short_mode_prints_shared_command_once() {
    let ps = vec![process(1, "root", "sshd"), process(2, "alice", "sshd")];
    assert_eq!(ps_output(&ps, None, true, false, false), "sshd\n");
    assert_eq!(short_listing(&ps, false), strings(&["sshd"]));
}

#[test]
fn quiet_empty_result_prints_nothing() {
    assert_eq!(ps_output(&Vec::new(), Some(PsSortBy::Pid), false, false, true), "");
}

#[test]
fn marker_inside_path_is_not_a_deletion() {
    assert_eq!(deleted_mapping_path("7f0000-7f1000 r-xp 0 08:01 123 /opt/(deleted)/lib.so"), None);
    assert_eq!(deleted_mapping_path("7f0000-7f1000 rw-p 0 00:00 0"), None);
    assert_eq!(deleted_mapping_path(""), None);
    assert_eq!(
        deleted_mapping_path("7f0000-7f1000\tr--p 00001000 08:01 77   /usr/lib/libc.so.6   (deleted)"),
        Some("/usr/lib/libc.so.6".to_string())
    );
}

#[test]
fn excluded_prefixes_never_reported() {
    for p in ["/dev/zero", "/run/user/1000/x", "/drm mm", "/memfd:foo", "/SYSV00000000", "[heap]"] {
        assert!(is_excluded_path(p), "{p}");
    }
    assert!(!is_excluded_path("/usr/lib/libfoo.so.1"));
    let lines = strings(&[
        "1-2 rw-s 0 00:05 9 /dev/shm/x (deleted)",
        "1-2 rw-s 0 00:05 9 /run/user/1000/a (deleted)",
        "1-2 rw-s 0 00:05 9 /drm (deleted)",
        "1-2 rw-s 0 00:05 9 /memfd:wayland (deleted)",
        "1-2 rw-s 0 00:05 9 /SYSV00000000 (deleted)",
        "1-2 rw-s 0 00:05 9 [heap] (deleted)",
        "1-2 rw-s 0 00:05 9 /dev/shm/x (deleted)",
    ]);
    assert!(process_has_deleted_files(&lines).is_empty());
}

#[test]
fn deleted_files_are_collected_once_each() {
    let lines = strings(&[
        "1-2 r-xp 0 08:01 5 /usr/lib/libfoo.so.1 (deleted)",
        "2-3 r--p 0 08:01 5 /usr/lib/libfoo.so.1 (deleted)",
        "3-4 r--p 0 08:01 6 /usr/lib/libbar.so.2",
        "4-5 r--p 0 08:01 7 /usr/lib/libbaz.so.3 (deleted)",
        "5-6 rw-p 0 00:00 0",
    ]);
    let mut files = process_has_deleted_files(&lines);
    files.sort();
    assert_eq!(files, strings(&["/usr/lib/libbaz.so.3", "/usr/lib/libfoo.so.1"]));
}

#[test]
fn owner_is_looked_up_or_unknown() {
    let users = vec![
        UserRecord { uid: 0, name: "root".to_string() },
        UserRecord { uid: 1000, name: "alice".to_string() },
    ];
    assert_eq!(process_owner(Some(1000), &users), "alice");
    assert_eq!(process_owner(Some(0), &users), "root");
    assert_eq!(process_owner(Some(7), &users), "Unknown");
    assert_eq!(process_owner(None, &users), "Unknown");
}

#[test]
fn command_is_file_name_without_marker() {
    assert_eq!(get_process_command(Some("/usr/bin/sshd"), "sshd-session"), "sshd");
    assert_eq!(get_process_command(Some("/usr/bin/app(deleted)"), "x"), "app");
    assert_eq!(get_process_command(Some("/usr/bin/app (deleted)"), "x"), "app ");
    assert_eq!(get_process_command(None, "kworker/0:1"), "kworker/0:1");
}

#[test]
fn scan_process_builds_row_from_snapshot() {
    let users = vec![UserRecord { uid: 1000, name: "alice".to_string() }];
    let info = ProcessInfo {
        pid: 77,
        uid: Some(1000),
        exe: Some("/usr/bin/firefox".to_string()),
        name: "firefox-bin".to_string(),
    };
    let maps = strings(&["1-2 r-xp 0 08:01 5 /usr/lib/libxul.so (deleted)"]);
    let entry = scan_process(&info, &users, &maps).expect("deleted file");
    assert_eq!(entry.process, process(77, "alice", "firefox"));
    assert_eq!(entry.deleted, strings(&["/usr/lib/libxul.so"]));
    assert!(scan_process(&info, &users, &strings(&["1-2 r-xp 0 08:01 5 /usr/lib/libxul.so"]))
        .is_none());
}

#[test]
fn correlation_keeps_scan_order() {
    let installed = strings(&["/usr/lib/a.so", "/usr/lib/b.so"]);
    let entries = vec![
        scanned(process(3, "root", "c"), &["/usr/lib/b.so"]),
        scanned(process(1, "root", "a"), &["/tmp/x"]),
        scanned(process(2, "bob", "b"), &["/tmp/y", "/usr/lib/a.so"]),
    ];
    let stale = processes_with_deleted_files(&installed, &entries);
    assert_eq!(stale, vec![process(3, "root", "c"), process(2, "bob", "b")]);
}

#[test]
fn short_listing_sorts_dedups_and_reverses() {
    let ps = vec![process(1, "r", "zsh"), process(2, "r", "bash"), process(3, "r", "zsh")];
    assert_eq!(short_listing(&ps, false), strings(&["bash", "zsh"]));
    assert_eq!(short_listing(&ps, true), strings(&["zsh", "bash"]));
    assert_eq!(ps_output(&ps, None, true, true, true), "zsh\nbash\n");
}

#[test]
fn sort_by_user_is_stable_and_reverse_is_its_mirror() {
    let ps = vec![
        process(5, "bob", "e"),
        process(1, "alice", "a"),
        process(3, "bob", "c"),
        process(2, "alice", "b"),
    ];
    let up = order_processes(&ps, Some(PsSortBy::User), false);
    let pids: Vec<u32> = up.iter().map(|p| p.pid).collect();
    assert_eq!(pids, vec![1, 2, 5, 3]);
    let mut down = order_processes(&ps, Some(PsSortBy::User), true);
    down.reverse();
    assert_eq!(down, up);
}

#[test]
fn sort_by_pid_and_command_and_none() {
    let ps = vec![process(10, "u", "b"), process(2, "u", "c"), process(7, "u", "a")];
    let by_pid: Vec<u32> =
        order_processes(&ps, Some(PsSortBy::Pid), false).iter().map(|p| p.pid).collect();
    assert_eq!(by_pid, vec![2, 7, 10]);
    let by_cmd: Vec<u32> =
        order_processes(&ps, Some(PsSortBy::Command), true).iter().map(|p| p.pid).collect();
    assert_eq!(by_cmd, vec![2, 10, 7]);
    let none: Vec<u32> = order_processes(&ps, None, true).iter().map(|p| p.pid).collect();
    assert_eq!(none, vec![7, 2, 10]);
}

#[test]
fn long_listing_draws_psql_table() {
    let ps = vec![process(1234, "alice", "firefox"), process(56, "root", "sshd")];
    let table = long_listing(&ps, false, Some(PsSortBy::Pid));
    let lines: Vec<&str> = table.lines().collect();
    assert_eq!(lines.len(), 4);
    assert!(lines[0].contains("pid") && lines[0].contains("user_name") && lines[0].contains("command"));
    assert!(lines[1].starts_with('-') || lines[1].contains("-+-"));
    assert!(lines[2].contains("56") && lines[2].contains("sshd"));
    assert!(lines[3].contains("1234") && lines[3].contains("firefox"));
    assert_eq!(ps_output(&ps, Some(PsSortBy::Pid), false, false, false), format!("{table}\n"));
}

#[test]
fn presenter_output_is_repeatable() {
    let ps = vec![process(3, "bob", "b"), process(1, "alice", "a")];
    let first = ps_output(&ps, Some(PsSortBy::User), false, true, false);
    let second = ps_output(&ps, Some(PsSortBy::User), false, true, false);
    assert_eq!(first, second);
}

#[test]
fn notice_only_when_not_root_and_not_quiet() {
    assert!(ps_notice(false, false).unwrap().starts_with("Not running as root"));
    assert_eq!(ps_notice(true, false), None);
    assert_eq!(ps_notice(false, true), None);
}

#[test]
fn installed_files_take_second_token() {
    let lines = strings(&["glibc /usr/lib/libc.so.6", "", "bash /usr/bin/bash extra"]);
    assert_eq!(
        parse_pacman_files_output(&lines).unwrap(),
        strings(&["/usr/lib/libc.so.6", "/usr/bin/bash"])
    );
    let bad = strings(&["glibc /usr/lib/libc.so.6", "onlyname", "x y"]);
    assert_eq!(parse_pacman_files_output(&bad).unwrap_err().line, "onlyname");
}

#[test]
fn sort_key_names() {
    assert_eq!(PsSortBy::from_name("pid"), Some(PsSortBy::Pid));
    assert_eq!(PsSortBy::from_name("user"), Some(PsSortBy::User));
    assert_eq!(PsSortBy::from_name("command"), Some(PsSortBy::Command));
    assert_eq!(PsSortBy::from_name("name"), None);
}
