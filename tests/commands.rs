use pacrs::cli::Answer;
use pacrs::clean::{cache_entries, cache_entry_regex, parse_file_name, remove_candidates, CacheEntry, CacheError};
use pacrs::cmds::{pacman, paru_if_present, sudo_pacman, sudo_pacman_as};
use pacrs::utils::which;
use pacrs::command::Cmd;
use pacrs::dispatch::{list_filter, mark, MarkError};
use pacrs::files::{find_file, package_files_global};
use pacrs::pacrs::{
    autoremove, clean_cache_uninstalled, deps, explicit_pkgs, files_index_update, install,
    installed_pkgs, list_aur_pkgs, list_updates, mark_as_dep, orphaned_pkgs, package_search,
    remove, search, update, IndexUpdate, InstallError,
};
use pacrs::pacrs::{clean_cache, CacheCleaning};
use pacrs::temp_db;

fn strings(items: &[&str]) -> Vec<String> {
    items.iter().map(|s| s.to_string()).collect()
}

fn line(c: &Cmd) -> Vec<String> {
    let mut v = vec![c.program.clone()];
    v.extend(c.args.iter().cloned());
    v
}

fn ends_with_args(c: &Cmd, args: &[&str]) -> bool {
    let l = line(c);
    l.len() >= args.len() && l[l.len() - args.len()..] == strings(args)[..]
}

#[test]
fn builder_appends_arguments_in_order() {
    let c = Cmd::new("pacman").arg("-S").args(&strings(&["a", "b"])).hide_output();
    assert_eq!(line(&c), strings(&["pacman", "-S", "a", "b"]));
    assert!(c.hide_output);
    assert!(!c.pipe_stderr);
    assert!(Cmd::new("x").pipe_stderr().pipe_stderr);
}

#[test]
fn pacman_queries() {
    assert_eq!(line(&installed_pkgs()), strings(&["pacman", "-Qq"]));
    assert_eq!(line(&package_search("^lib")), strings(&["pacman", "-Qs", "^lib"]));
    assert_eq!(line(&list_aur_pkgs()), strings(&["pacman", "-Qmq"]));
    assert_eq!(line(&orphaned_pkgs()), strings(&["pacman", "-Qdtq"]));
    assert_eq!(line(&explicit_pkgs()), strings(&["pacman", "-Qeq"]));
    assert_eq!(line(&deps()), strings(&["pacman", "-Qdq"]));
    assert_eq!(line(&find_file("libc.so")), strings(&["pacman", "-F", "libc.so"]));
    assert_eq!(line(&pacrs::pacrs::files_of_installed_pkgs()), strings(&["pacman", "-Ql"]));
    assert_eq!(line(&pacrs::pacman::files_of_installed_pkgs()), strings(&["pacman", "-Ql"]));
    let global = package_files_global("bash");
    assert_eq!(line(&global), strings(&["pacman", "-Fl", "bash"]));
    assert!(global.pipe_stderr);
}

#[test]
fn root_commands_go_through_sudo_unless_root() {
    assert_eq!(line(&sudo_pacman_as(true)), strings(&["pacman"]));
    assert_eq!(line(&sudo_pacman_as(false)), strings(&["sudo", "pacman"]));
    let l = line(&sudo_pacman());
    assert!(l == strings(&["pacman"]) || l == strings(&["sudo", "pacman"]));
    assert!(ends_with_args(&clean_cache_uninstalled(), &["pacman", "-Sc"]));
}

#[test]
fn remove_with_and_without_dependencies() {
    let pkgs = strings(&["vim", "emacs"]);
    assert!(ends_with_args(&remove(&pkgs, true), &["pacman", "-R", "-s", "vim", "emacs"]));
    assert!(ends_with_args(&remove(&pkgs, false), &["pacman", "-R", "vim", "emacs"]));
}

#[test]
fn paru_or_pacman_commands() {
    if let Some(p) = paru_if_present() {
        assert_eq!(line(&p), strings(&["paru"]));
    }
    assert!(which("surely-no-such-program-here").is_none());
    assert!(ends_with_args(&search("vim"), &["-Ss", "vim"]));
    assert!(ends_with_args(&update(&strings(&["a"])), &["-Syu", "a"]));
    assert!(ends_with_args(&list_updates("/tmp/db"), &["-Qu", "--dbpath", "/tmp/db"]));
    if let Some(c) = autoremove() {
        assert_eq!(line(&c), strings(&["paru", "-c"]));
    }
}

#[test]
fn install_refuses_outdated_packages() {
    let pkgs = strings(&["firefox"]);
    let related = strings(&["firefox", "nss", "gtk3"]);
    assert_eq!(install(&pkgs, &related, &strings(&["nss"])).unwrap_err(), InstallError::OutdatedDatabase);
    let ok = install(&pkgs, &related, &strings(&["linux"])).unwrap();
    assert!(ends_with_args(&ok, &["-S", "firefox"]));
    assert!(install(&pkgs, &related, &Vec::new()).is_ok());
}

#[test]
fn files_index_update_depends_on_root_and_quiet() {
    match files_index_update(false, true) {
        IndexUpdate::Run(c) => assert_eq!(line(&c), strings(&["pacman", "-Fy"])),
        _ => panic!("expected a command"),
    }
    assert!(matches!(files_index_update(false, false), IndexUpdate::Warn));
    assert!(matches!(files_index_update(true, false), IndexUpdate::Skip));
}

#[test]
fn temp_db_update_is_fakeroot_sync() {
    let c = temp_db::update("/home/u/.cache/pacrs/db");
    assert_eq!(
        line(&c),
        strings(&["fakeroot", "--", "pacman", "-Sy", "--dbpath", "/home/u/.cache/pacrs/db"])
    );
    assert!(c.hide_output);
}

#[test]
fn mark_chooses_explicit_first() {
    let pkgs = strings(&["a"]);
    assert_eq!(line(&mark(&pkgs, true, true).unwrap()), strings(&["pacman", "-D", "--asexplicit", "a"]));
    assert_eq!(line(&mark(&pkgs, false, true).unwrap()), line(&mark_as_dep(&pkgs)));
    assert_eq!(mark(&pkgs, false, false).unwrap_err(), MarkError::NoMarkChosen);
    assert_eq!(line(&pacman()), strings(&["pacman"]));
}

#[test]
fn list_filter_fills_then_intersects() {
    let mut list = Vec::new();
    list_filter(&mut list, strings(&["a", "b", "c"]), false);
    assert_eq!(list, strings(&["a", "b", "c"]));
    list_filter(&mut list, strings(&["c", "a", "z"]), true);
    assert_eq!(list, strings(&["a", "c"]));
    list_filter(&mut list, Vec::new(), false);
    assert!(list.is_empty());
}

#[test]
fn replies_to_questions() {
    assert_eq!(Answer::from_reply("y\n", Answer::No), Answer::Yes);
    assert_eq!(Answer::from_reply("  YeS \n", Answer::No), Answer::Yes);
    assert_eq!(Answer::from_reply("\n", Answer::Yes), Answer::Yes);
    assert_eq!(Answer::from_reply("", Answer::No), Answer::No);
    assert_eq!(Answer::from_reply("nope\n", Answer::Yes), Answer::No);
    assert_eq!(Answer::from_reply("yess", Answer::Yes), Answer::No);
    assert!(Answer::Yes.as_bool());
    assert!(!Answer::No.as_bool());
    assert!(Answer::No.is_no());
}

fn entry(name: &str, version: &str) -> CacheEntry {
    CacheEntry {
        pkg_name: name.to_string(),
        version: version.to_string(),
        subversion: "1".to_string(),
        arch: "x86_64".to_string(),
        ext: "pkg.tar.zst".to_string(),
    }
}

fn versions(v: &[CacheEntry]) -> Vec<String> {
    v.iter().map(|e| format!("{}-{}", e.pkg_name, e.version)).collect()
}

#[test]
fn remove_candidates_keeps_newest_of_each_package() {
    let cache = vec![
        entry("vim", "9.0"),
        entry("bash", "5.1"),
        entry("vim", "9.2"),
        entry("bash", "5.2"),
        entry("vim", "9.1"),
        entry("zsh", "5.9"),
    ];
    assert_eq!(versions(&remove_candidates(1, &cache)), strings(&["vim-9.1", "vim-9.0", "bash-5.1"]));
    assert_eq!(versions(&remove_candidates(2, &cache)), strings(&["vim-9.0"]));
    assert!(remove_candidates(3, &cache).is_empty());
    assert_eq!(remove_candidates(0, &cache).len(), 6);
}

#[test]
fn cache_file_names_and_paths() {
    let e = entry("vim", "9.1.0");
    assert_eq!(e.file_name(), "vim-9.1.0-1-x86_64.pkg.tar.zst");
    assert_eq!(e.path(), "/var/cache/pacman/pkg/vim-9.1.0-1-x86_64.pkg.tar.zst");
}

#[test]
fn cache_names_parse_with_pattern() {
    let re = cache_entry_regex().unwrap();
    let e = parse_file_name("linux-firmware-20240312.3b128b60-1-any.pkg.tar.zst", &re).unwrap();
    assert_eq!(e.pkg_name, "linux-firmware");
    assert_eq!(e.version, "20240312.3b128b60");
    assert_eq!(e.subversion, "1");
    assert_eq!(e.arch, "any");
    assert_eq!(e.ext, "pkg.tar.zst");
    assert!(parse_file_name("garbage", &re).is_none());
    let names = strings(&[
        "vim-9.1.0-1-x86_64.pkg.tar.zst",
        "vim-9.1.0-1-x86_64.pkg.tar.zst.sig",
    ]);
    let entries = cache_entries(&names).unwrap();
    assert_eq!(entries.len(), 1);
    assert_eq!(entries[0].file_name(), "vim-9.1.0-1-x86_64.pkg.tar.zst");
    match cache_entries(&strings(&["README"])) {
        Err(CacheError::UnparsableName(n)) => assert_eq!(n, "README"),
        _ => panic!("expected an unparsable name"),
    }
}

#[test]
fn package_list_queries_follow_flags_in_order() {
    let all: Vec<Vec<String>> =
        pacrs::dispatch::package_list_queries(true, true, true, true).iter().map(line).collect();
    assert_eq!(
        all,
        vec![
            strings(&["pacman", "-Qdtq"]),
            strings(&["pacman", "-Qmq"]),
            strings(&["pacman", "-Qeq"]),
            strings(&["pacman", "-Qdq"]),
        ]
    );
    let some: Vec<Vec<String>> =
        pacrs::dispatch::package_list_queries(false, true, false, true).iter().map(line).collect();
    assert_eq!(some, vec![strings(&["pacman", "-Qmq"]), strings(&["pacman", "-Qdq"])]);
    assert!(pacrs::dispatch::package_list_queries(false, false, false, false).is_empty());
}

#[test]
fn cache_cleaning_choice() {
    assert!(matches!(clean_cache(0, true), CacheCleaning::ShowCandidates));
    assert!(matches!(clean_cache(2, true), CacheCleaning::ShowCandidates));
    assert!(matches!(clean_cache(3, false), CacheCleaning::KeepNewest));
    match clean_cache(0, false) {
        CacheCleaning::RemoveAll(c) => assert!(ends_with_args(&c, &["pacman", "-Scc"])),
        _ => panic!("expected the whole cache to go"),
    }
}
