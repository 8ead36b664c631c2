//! The command line behind each subcommand.
use vstd::prelude::*;

use crate::cmds::{
    pacman, pacman_cmd, paru_cmd, paru_if_present, paru_or_pacman, paru_or_plain_pacman,
    paru_or_root_pacman, paru_or_sudo_pacman, root_pacman, sudo_pacman,
};
use crate::command::Cmd;
use crate::text::views;
use crate::utils::is_root;

verus! {

/// `pacman -Qq`: list the installed packages.
pub fn installed_pkgs() -> (r: Cmd)
    ensures
        r@ == pacman_cmd().with_args(seq!["-Qq"@]),
{
    crate::pacman::installed_packages()
}

/// `pacman -Qs <regex>`: search the installed packages.
pub fn package_search(regex: &str) -> (r: Cmd)
    ensures
        r@ == pacman_cmd().with_args(seq!["-Qs"@, regex@]),
{
    let r = pacman().arg("-Qs").arg(regex);
    assert(r@.args =~= seq!["-Qs"@, regex@]);
    r
}

/// `-Ss <package>` through paru, or pacman without it: search the
/// repositories.
pub fn search(package: &str) -> (r: Cmd)
    ensures
        paru_or_plain_pacman(r@, seq!["-Ss"@, package@]),
{
    let r = paru_or_pacman().arg("-Ss").arg(package);
    assert(r@.args =~= seq!["-Ss"@, package@]);
    r
}

/// `pacman -Sc` as root: remove cached packages that are not installed.
pub fn clean_cache_uninstalled() -> (r: Cmd)
    ensures
        root_pacman(r@, seq!["-Sc"@]),
{
    sudo_pacman().arg("-Sc")
}

/// Why an installation was refused.
#[derive(Clone, Copy, Debug, PartialEq, Eq, Structural)]
pub enum InstallError {
    /// A package to install, or one of its dependencies, has a newer version
    /// in the repositories than the local databases know: the system must be
    /// updated first.
    OutdatedDatabase,
}

/// Some name of `outdated` is in `related`.
pub open spec fn any_outdated(related: Seq<Seq<char>>, outdated: Seq<Seq<char>>) -> bool {
    exists|i: int| 0 <= i < outdated.len() && related.contains(#[trigger] outdated[i])
}

/// Installs `packages` with `-S`, through paru or pacman as root.  `related`
/// holds the packages and all their dependencies, `outdated` the packages
/// whose repository version is newer than the synced one; the installation is
/// refused when one package is in both.
pub fn install(packages: &[String], related: &Vec<String>, outdated: &Vec<String>) -> (r: Result<
    Cmd,
    InstallError,
>)
    ensures
        r is Err <==> any_outdated(views(related@), views(outdated@)),
        r matches Ok(c) ==> paru_or_root_pacman(c@, seq!["-S"@] + views(packages@)),
{
    let mut i: usize = 0;
    while i < outdated.len()
        invariant
            i <= outdated@.len(),
            forall|k: int| 0 <= k < i ==> !views(related@).contains(#[trigger] views(outdated@)[k]),
        decreases outdated@.len() - i,
    {
        if crate::ps::holds_text(related, &outdated[i]) {
            assert(views(outdated@)[i as int] == outdated@[i as int]@);
            return Err(InstallError::OutdatedDatabase);
        }
        assert(views(outdated@)[i as int] == outdated@[i as int]@);
        i = i + 1;
    }
    let c = paru_or_sudo_pacman();
    let r = c.arg("-S").args(packages);
    assert(c@.args + seq!["-S"@] + views(packages@) =~= c@.args + (seq!["-S"@] + views(
        packages@,
    )));
    Ok(r)
}

/// `pacman -Qmq`: the installed packages that no repository has.
pub fn list_aur_pkgs() -> (r: Cmd)
    ensures
        r@ == pacman_cmd().with_args(seq!["-Qmq"@]),
{
    pacman().arg("-Qmq")
}

/// `pacman -R` as root on `packages`, with `-s` when `clean_deps` asks to
/// remove the dependencies that become unneeded.
pub fn remove(packages: &[String], clean_deps: bool) -> (r: Cmd)
    ensures
        root_pacman(
            r@,
            if clean_deps {
                seq!["-R"@, "-s"@] + views(packages@)
            } else {
                seq!["-R"@] + views(packages@)
            },
        ),
{
    let base = sudo_pacman();
    let mut c = base.arg("-R");
    if clean_deps {
        c = c.arg("-s");
    }
    let r = c.args(packages);
    assert(r@.args =~= base@.args + if clean_deps {
        seq!["-R"@, "-s"@] + views(packages@)
    } else {
        seq!["-R"@] + views(packages@)
    });
    r
}

/// `-Syu` with `packages`, through paru or pacman as root: update the
/// system.
pub fn update(packages: &[String]) -> (r: Cmd)
    ensures
        paru_or_root_pacman(r@, seq!["-Syu"@] + views(packages@)),
{
    let c = paru_or_sudo_pacman();
    let r = c.arg("-Syu").args(packages);
    assert(r@.args =~= c@.args + (seq!["-Syu"@] + views(packages@)));
    r
}

/// `-Qu --dbpath <temp_db_path>` through paru or pacman: the packages whose
/// version in the freshly synced database at `temp_db_path` is newer.
pub fn list_updates(temp_db_path: &str) -> (r: Cmd)
    ensures
        paru_or_plain_pacman(r@, seq!["-Qu"@, "--dbpath"@, temp_db_path@]),
{
    let r = paru_or_pacman().arg("-Qu").arg("--dbpath").arg(temp_db_path);
    assert(r@.args =~= seq!["-Qu"@, "--dbpath"@, temp_db_path@]);
    r
}

/// `pacman -Qdtq`: the orphaned packages.
pub fn orphaned_pkgs() -> (r: Cmd)
    ensures
        r@ == pacman_cmd().with_args(seq!["-Qdtq"@]),
{
    pacman().arg("-Qdtq")
}

/// `paru -c` when paru is on the search path; without it the caller removes
/// the orphaned packages with `remove`.
pub fn autoremove() -> (r: Option<Cmd>)
    ensures
        r matches Some(c) ==> c@ == paru_cmd().with_args(seq!["-c"@]),
{
    match paru_if_present() {
        Some(p) => Some(p.arg("-c")),
        None => None,
    }
}

/// `pacman -Qeq`: the explicitly installed packages.
pub fn explicit_pkgs() -> (r: Cmd)
    ensures
        r@ == pacman_cmd().with_args(seq!["-Qeq"@]),
{
    pacman().arg("-Qeq")
}

/// `pacman -Ql`: the files of every installed package.
pub fn files_of_installed_pkgs() -> (r: Cmd)
    ensures
        r@ == pacman_cmd().with_args(seq!["-Ql"@]),
{
    pacman().arg("-Ql")
}

/// `pacman -Qdq`: the packages installed as dependencies.
pub fn deps() -> (r: Cmd)
    ensures
        r@ == pacman_cmd().with_args(seq!["-Qdq"@]),
{
    pacman().arg("-Qdq")
}

/// What to do about the files index before a files query.
pub enum IndexUpdate {
    /// Run this command (`pacman -Fy`).
    Run(Cmd),
    /// Warn that the index is not updated without root.
    Warn,
    /// Nothing.
    Skip,
}

/// As root the index is refreshed with `pacman -Fy`; otherwise a warning
/// is due unless `quiet`.
pub fn files_index_update(quiet: bool, root: bool) -> (r: IndexUpdate)
    ensures
        root ==> (r matches IndexUpdate::Run(c) && c@ == pacman_cmd().with_args(seq!["-Fy"@])),
        !root && !quiet ==> r is Warn,
        !root && quiet ==> r is Skip,
{
    if root {
        IndexUpdate::Run(pacman().arg("-Fy"))
    } else if !quiet {
        IndexUpdate::Warn
    } else {
        IndexUpdate::Skip
    }
}

/// `files_index_update` for this process's rights.
pub fn update_files_index(quiet: bool) -> (r: IndexUpdate)
    ensures
        r matches IndexUpdate::Run(c) ==> c@ == pacman_cmd().with_args(seq!["-Fy"@]),
        quiet ==> !(r is Warn),
{
    files_index_update(quiet, is_root())
}

/// `pacman -D --asexplicit` on `packages`.
pub fn mark_as_explicit(packages: &[String]) -> (r: Cmd)
    ensures
        r@ == pacman_cmd().with_args(seq!["-D"@, "--asexplicit"@] + views(packages@)),
{
    let r = pacman().arg("-D").arg("--asexplicit").args(packages);
    assert(r@.args =~= seq!["-D"@, "--asexplicit"@] + views(packages@));
    r
}

/// `pacman -D --asdeps` on `packages`.
pub fn mark_as_dep(packages: &[String]) -> (r: Cmd)
    ensures
        r@ == pacman_cmd().with_args(seq!["-D"@, "--asdeps"@] + views(packages@)),
{
    let r = pacman().arg("-D").arg("--asdeps").args(packages);
    assert(r@.args =~= seq!["-D"@, "--asdeps"@] + views(packages@));
    r
}

/// How the package cache is cleaned.
pub enum CacheCleaning {
    /// List the files that keeping `keep` of each package would remove.
    ShowCandidates,
    /// Empty the whole cache with this command (`pacman -Scc` as root).
    RemoveAll(Cmd),
    /// Remove all but the `keep` newest files of each package, after asking.
    KeepNewest,
}

/// The way to clean the cache: only list the candidates when
/// `show_remove_candidates`; otherwise empty it all when `keep` is 0, and
/// else keep the `keep` newest files of each package.
pub fn clean_cache(keep: u8, show_remove_candidates: bool) -> (r: CacheCleaning)
    ensures
        show_remove_candidates ==> r is ShowCandidates,
        !show_remove_candidates && keep == 0 ==> (r matches CacheCleaning::RemoveAll(c)
            && root_pacman(c@, seq!["-Scc"@])),
        !show_remove_candidates && keep > 0 ==> r is KeepNewest,
{
    if show_remove_candidates {
        CacheCleaning::ShowCandidates
    } else if keep == 0 {
        CacheCleaning::RemoveAll(sudo_pacman().arg("-Scc"))
    } else {
        CacheCleaning::KeepNewest
    }
}

} // verus!
