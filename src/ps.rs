//! Processes that still map files which have since been deleted, and which
//! an installed package owns.
use vstd::prelude::*;

use crate::text::{
    ends_with, ends_with_text, last_component, last_component_of, split_ascii_ws, starts_with,
    tokens, views,
};

verus! {

/// The token with which the kernel marks a mapping whose file is deleted.
pub open spec fn deletion_marker() -> Seq<char> {
    "(deleted)"@
}

/// The path of a mapping-table line whose file the kernel reports deleted:
/// the sixth token, when the seventh is the deletion marker.  The first five
/// tokens are the address range, permissions, offset, device and inode.
pub open spec fn deleted_candidate(line: Seq<char>) -> Option<Seq<char>> {
    let t = tokens(line);
    if t.len() >= 7 && t[6] == deletion_marker() {
        Some(t[5])
    } else {
        None
    }
}

/// Paths that name kernel objects rather than files of a package: device
/// nodes, the runtime tmpfs, DRM nodes, memfd files, System V shared memory
/// and bracketed pseudo-paths such as `[heap]`.
pub open spec fn is_excluded(path: Seq<char>) -> bool {
    "/dev"@.is_prefix_of(path) || "/run"@.is_prefix_of(path) || "/drm"@.is_prefix_of(path)
        || "/memfd"@.is_prefix_of(path) || "/SYSV"@.is_prefix_of(path) || "["@.is_prefix_of(path)
}

/// The deleted files that a mapping table reports, the excluded ones left out.
pub open spec fn deleted_set(lines: Seq<Seq<char>>) -> Set<Seq<char>> {
    Set::new(
        |p: Seq<char>|
            exists|i: int|
                0 <= i < lines.len() && #[trigger] deleted_candidate(lines[i]) == Some(p)
                    && !is_excluded(p),
    )
}

/// The path of one mapping-table line, when the line marks it deleted.
pub fn deleted_mapping_path(line: &str) -> (r: Option<String>)
    ensures
        match r {
            Some(p) => deleted_candidate(line@) == Some(p@),
            None => deleted_candidate(line@) is None,
        },
{
    let parts = split_ascii_ws(line);
    if parts.len() < 7 {
        return None;
    }
    proof {
        assert(views(parts@)[6] == parts@[6]@);
        assert(views(parts@)[5] == parts@[5]@);
    }
    if crate::text::same_text(parts[6].as_str(), "(deleted)") {
        Some(parts[5].clone())
    } else {
        None
    }
}

/// Whether `path` names a kernel object rather than a file.
pub fn is_excluded_path(path: &str) -> (r: bool)
    ensures
        r == is_excluded(path@),
{
    starts_with(path, "/dev") || starts_with(path, "/run") || starts_with(path, "/drm")
        || starts_with(path, "/memfd") || starts_with(path, "/SYSV") || starts_with(path, "[")
}

/// Whether `v` holds a string equal to `x`.
pub fn holds_text(v: &Vec<String>, x: &String) -> (r: bool)
    ensures
        r == views(v@).contains(x@),
{
    let mut i: usize = 0;
    while i < v.len()
        invariant
            i <= v@.len(),
            forall|k: int| 0 <= k < i ==> v@[k]@ != x@,
        decreases v@.len() - i,
    {
        if v[i] == *x {
            assert(views(v@)[i as int] == x@);
            return true;
        }
        i = i + 1;
    }
    proof {
        if views(v@).contains(x@) {
            let k = choose|k: int| 0 <= k < views(v@).len() && views(v@)[k] == x@;
            assert(v@[k]@ == x@);
        }
    }
    false
}

/// The deleted files that the lines of one process's mapping table report,
/// each once, without those that `is_excluded` names.
pub fn process_has_deleted_files(lines: &Vec<String>) -> (r: Vec<String>)
    ensures
        views(r@).no_duplicates(),
        views(r@).to_set() == deleted_set(views(lines@)),
{
    let mut out: Vec<String> = Vec::new();
    let mut i: usize = 0;
    while i < lines.len()
        invariant
            i <= lines@.len(),
            views(out@).no_duplicates(),
            forall|p: Seq<char>|
                views(out@).contains(p) <==> exists|j: int|
                    0 <= j < i && #[trigger] deleted_candidate(lines@[j]@) == Some(p)
                        && !is_excluded(p),
        decreases lines@.len() - i,
    {
        let found = deleted_mapping_path(lines[i].as_str());
        let ghost before = views(out@);
        let ghost cand = deleted_candidate(lines@[i as int]@);
        match found {
            Some(path) => {
                if !is_excluded_path(path.as_str()) && !holds_text(&out, &path) {
                    out.push(path);
                    proof {
                        assert(views(out@) =~= before.push(path@));
                    }
                }
            },
            None => {},
        }
        proof {
            assert forall|p: Seq<char>|
                views(out@).contains(p) <==> (before.contains(p) || (cand == Some(p)
                    && !is_excluded(p))) by {
                if views(out@) != before {
                    assert(views(out@).last() == views(out@)[views(out@).len() - 1]);
                    if views(out@).contains(p) && !before.contains(p) {
                        let k = choose|k: int|
                            0 <= k < views(out@).len() && views(out@)[k] == p;
                        if k < before.len() {
                            assert(before[k] == p);
                        }
                    }
                    if before.contains(p) {
                        let k = choose|k: int| 0 <= k < before.len() && before[k] == p;
                        assert(views(out@)[k] == p);
                    }
                }
            }
            assert forall|p: Seq<char>|
                views(out@).contains(p) <==> exists|j: int|
                    0 <= j < i + 1 && #[trigger] deleted_candidate(lines@[j]@) == Some(p)
                        && !is_excluded(p) by {
                if cand == Some(p) && !is_excluded(p) {
                    assert(deleted_candidate(lines@[i as int]@) == Some(p));
                }
                if before.contains(p) {
                    let j = choose|j: int|
                        0 <= j < i && #[trigger] deleted_candidate(lines@[j]@) == Some(p)
                            && !is_excluded(p);
                    assert(deleted_candidate(lines@[j]@) == Some(p));
                }
                if exists|j: int|
                    0 <= j < i + 1 && #[trigger] deleted_candidate(lines@[j]@) == Some(p)
                        && !is_excluded(p) {
                    let j = choose|j: int|
                        0 <= j < i + 1 && #[trigger] deleted_candidate(lines@[j]@) == Some(p)
                            && !is_excluded(p);
                    if j < i {
                        assert(before.contains(p));
                    }
                }
            }
        }
        i = i + 1;
    }
    proof {
        assert forall|p: Seq<char>|
            views(out@).to_set().contains(p) == deleted_set(views(lines@)).contains(p) by {
            if views(out@).contains(p) {
                let j = choose|j: int|
                    0 <= j < lines@.len() && #[trigger] deleted_candidate(lines@[j]@) == Some(p)
                        && !is_excluded(p);
                assert(views(lines@)[j] == lines@[j]@);
            }
            if deleted_set(views(lines@)).contains(p) {
                let j = choose|j: int|
                    0 <= j < views(lines@).len() && #[trigger] deleted_candidate(
                        views(lines@)[j],
                    ) == Some(p) && !is_excluded(p);
                assert(views(lines@)[j] == lines@[j]@);
            }
        }
        assert(views(out@).to_set() =~= deleted_set(views(lines@)));
    }
    out
}

/// A mapping-table line whose last token is the deletion marker names the
/// token before it as the deleted file, and a line that does not end with
/// the marker names none.  This holds of lines of at most seven tokens (the
/// five fixed columns, a path and a marker); a longer line, such as one whose
/// path holds a space, is read by its sixth and seventh tokens.
pub proof fn lemma_marker_decides(line: Seq<char>)
    requires
        tokens(line).len() <= 7,
    ensures
        tokens(line).len() == 7 && tokens(line).last() == deletion_marker() ==> deleted_candidate(
            line,
        ) == Some(tokens(line)[tokens(line).len() - 2]),
        tokens(line).len() == 0 || tokens(line).last() != deletion_marker() ==> deleted_candidate(
            line,
        ) is None,
{
}

/// A path with one of the excluded prefixes never counts as a deleted file of
/// a process, however many lines of its mapping table name it.
pub proof fn lemma_excluded_never_reported(lines: Seq<Seq<char>>, path: Seq<char>)
    requires
        is_excluded(path),
    ensures
        !deleted_set(lines).contains(path),
{
}

/// One account of the password database: a user id and its name.
pub struct UserRecord {
    pub uid: u32,
    pub name: String,
}

/// What the process table tells of one process.
pub struct ProcessInfo {
    pub pid: u32,
    /// The owning user id, when the process has one.
    pub uid: Option<u32>,
    /// The path of the running executable, when it can be read.
    pub exe: Option<String>,
    /// The short name the kernel reports for the process.
    pub name: String,
}

/// A process as the report shows it.
#[derive(Clone, Debug)]
pub struct Process {
    pub pid: u32,
    pub user_name: String,
    pub command: String,
}

pub struct ProcessView {
    pub pid: u32,
    pub user_name: Seq<char>,
    pub command: Seq<char>,
}

impl View for Process {
    type V = ProcessView;

    open spec fn view(&self) -> ProcessView {
        ProcessView { pid: self.pid, user_name: self.user_name@, command: self.command@ }
    }
}

impl PartialEq for Process {
    fn eq(&self, other: &Process) -> (r: bool) {
        self.pid == other.pid && self.user_name == other.user_name && self.command
            == other.command
    }
}

impl vstd::std_specs::cmp::PartialEqSpecImpl for Process {
    open spec fn obeys_eq_spec() -> bool {
        true
    }

    open spec fn eq_spec(&self, other: &Process) -> bool {
        self@ == other@
    }
}

impl Eq for Process {

}

impl Process {
    /// A copy with the same fields.
    pub fn duplicate(&self) -> (r: Process)
        ensures
            r@ == self@,
    {
        Process { pid: self.pid, user_name: self.user_name.clone(), command: self.command.clone() }
    }

    /// The report's row for a process, its user looked up in `users`.
    pub fn new(info: &ProcessInfo, users: &Vec<UserRecord>) -> (r: Process)
        ensures
            r@ == process_of(info, users@),
    {
        let exe = match &info.exe {
            Some(p) => Some(p.as_str()),
            None => None,
        };
        Process {
            pid: info.pid,
            user_name: process_owner(info.uid, users),
            command: get_process_command(exe, info.name.as_str()),
        }
    }
}

/// The name of the first account in `users` with id `uid`.
pub open spec fn user_named(users: Seq<UserRecord>, uid: u32) -> Option<Seq<char>>
    decreases users.len(),
{
    if users.len() == 0 {
        None
    } else if users[0].uid == uid {
        Some(users[0].name@)
    } else {
        user_named(users.drop_first(), uid)
    }
}

/// The placeholder shown for a user that cannot be resolved.
pub open spec fn unknown_user() -> Seq<char> {
    "Unknown"@
}

/// The user name shown for an owner id.
pub open spec fn owner_name(uid: Option<u32>, users: Seq<UserRecord>) -> Seq<char> {
    match uid {
        Some(u) => match user_named(users, u) {
            Some(n) => n,
            None => unknown_user(),
        },
        None => unknown_user(),
    }
}

/// The display name of a process: the file name of its executable without
/// the deletion marker, or its short name when the executable is unknown.
pub open spec fn command_name(exe: Option<Seq<char>>, name: Seq<char>) -> Seq<char> {
    match exe {
        Some(p) => {
            let f = last_component(p);
            if ends_with(f, deletion_marker()) {
                f.take(f.len() - deletion_marker().len())
            } else {
                f
            }
        },
        None => name,
    }
}

pub open spec fn exe_view(exe: Option<String>) -> Option<Seq<char>> {
    match exe {
        Some(p) => Some(p@),
        None => None,
    }
}

pub open spec fn process_of(info: &ProcessInfo, users: Seq<UserRecord>) -> ProcessView {
    ProcessView {
        pid: info.pid,
        user_name: owner_name(info.uid, users),
        command: command_name(exe_view(info.exe), info.name@),
    }
}

/// The name of the user `uid`, or `Unknown`.
pub fn process_owner(uid: Option<u32>, users: &Vec<UserRecord>) -> (r: String)
    ensures
        r@ == owner_name(uid, users@),
{
    proof {
        reveal_strlit("Unknown");
    }
    match uid {
        None => "Unknown".to_owned(),
        Some(u) => {
            let mut i: usize = 0;
            proof {
                assert(users@.skip(0) =~= users@);
            }
            while i < users.len()
                invariant
                    uid == Some(u),
                    i <= users@.len(),
                    user_named(users@, u) == user_named(users@.skip(i as int), u),
                decreases users@.len() - i,
            {
                proof {
                    assert(users@.skip(i as int)[0] == users@[i as int]);
                    assert(users@.skip(i as int).drop_first() =~= users@.skip(i + 1));
                }
                if users[i].uid == u {
                    assert(users@.skip(i as int).len() > 0);
                    assert(user_named(users@.skip(i as int), u) == Some(users@[i as int].name@));
                    return users[i].name.clone();
                }
                i = i + 1;
            }
            proof {
                assert(users@.skip(i as int) =~= Seq::<UserRecord>::empty());
            }
            "Unknown".to_owned()
        },
    }
}

/// The display name of a process from its executable path and short name.
pub fn get_process_command(exe: Option<&str>, name: &str) -> (r: String)
    ensures
        r@ == command_name(
            match exe {
                Some(p) => Some(p@),
                None => None,
            },
            name@,
        ),
{
    proof {
        reveal_strlit("(deleted)");
    }
    match exe {
        None => name.to_owned(),
        Some(p) => {
            let file_name = last_component_of(p);
            if ends_with_text(file_name.as_str(), "(deleted)") {
                let n = file_name.as_str().unicode_len();
                file_name.as_str().substring_char(0, n - 9).to_owned()
            } else {
                file_name
            }
        },
    }
}

/// A process together with the deleted files that it maps.
pub struct ScannedProcess {
    pub process: Process,
    pub deleted: Vec<String>,
}

/// The entry for one process: its row and the deleted files its mapping
/// table reports, or nothing when it reports none.
pub fn scan_process(info: &ProcessInfo, users: &Vec<UserRecord>, maps: &Vec<String>) -> (r:
    Option<ScannedProcess>)
    ensures
        match r {
            Some(e) => {
                &&& e.process@ == process_of(info, users@)
                &&& views(e.deleted@).no_duplicates()
                &&& views(e.deleted@).to_set() == deleted_set(views(maps@))
                &&& !deleted_set(views(maps@)).is_empty()
            },
            None => deleted_set(views(maps@)).is_empty(),
        },
{
    let deleted = process_has_deleted_files(maps);
    if deleted.len() == 0 {
        proof {
            assert(views(deleted@) =~= Seq::<Seq<char>>::empty());
            assert(deleted_set(views(maps@)) =~= Set::<Seq<char>>::empty());
        }
        None
    } else {
        proof {
            assert(views(deleted@).to_set().contains(views(deleted@)[0]));
        }
        Some(ScannedProcess { process: Process::new(info, users), deleted })
    }
}

/// The process maps at least one deleted file that `installed` holds.
pub open spec fn is_stale(e: ScannedProcess, installed: Set<Seq<char>>) -> bool {
    exists|k: int| 0 <= k < e.deleted@.len() && installed.contains(#[trigger] e.deleted@[k]@)
}

/// The rows of the stale processes among `entries`, in their order.
pub open spec fn stale(entries: Seq<ScannedProcess>, installed: Set<Seq<char>>) -> Seq<ProcessView>
    decreases entries.len(),
{
    if entries.len() == 0 {
        seq![]
    } else {
        let rest = stale(entries.drop_last(), installed);
        if is_stale(entries.last(), installed) {
            rest.push(entries.last().process@)
        } else {
            rest
        }
    }
}

/// Whether one of the deleted files of `e` is in `installed`.
fn maps_installed_file(e: &ScannedProcess, installed: &Vec<String>) -> (r: bool)
    ensures
        r == is_stale(*e, views(installed@).to_set()),
{
    let mut k: usize = 0;
    while k < e.deleted.len()
        invariant
            k <= e.deleted@.len(),
            forall|j: int| 0 <= j < k ==> !views(installed@).contains(#[trigger] e.deleted@[j]@),
        decreases e.deleted@.len() - k,
    {
        if holds_text(installed, &e.deleted[k]) {
            assert(views(installed@).to_set().contains(e.deleted@[k as int]@));
            return true;
        }
        k = k + 1;
    }
    false
}

/// The processes that map a deleted file which an installed package owns,
/// in the order of `scanned`.
pub fn processes_with_deleted_files(installed: &Vec<String>, scanned: &Vec<ScannedProcess>) -> (r:
    Vec<Process>)
    ensures
        r@.map_values(|p: Process| p@) == stale(scanned@, views(installed@).to_set()),
{
    let ghost set = views(installed@).to_set();
    let mut out: Vec<Process> = Vec::new();
    let mut i: usize = 0;
    while i < scanned.len()
        invariant
            i <= scanned@.len(),
            set == views(installed@).to_set(),
            out@.map_values(|p: Process| p@) == stale(scanned@.take(i as int), set),
        decreases scanned@.len() - i,
    {
        proof {
            let t = scanned@.take(i + 1);
            assert(t.drop_last() =~= scanned@.take(i as int));
            assert(t.last() == scanned@[i as int]);
        }
        if maps_installed_file(&scanned[i], installed) {
            let p = scanned[i].process.duplicate();
            let ghost before = out@;
            out.push(p);
            proof {
                assert(out@.map_values(|p: Process| p@) =~= before.map_values(|p: Process| p@).push(
                    p@,
                ));
            }
        }
        i = i + 1;
    }
    proof {
        assert(scanned@.take(i as int) =~= scanned@);
    }
    out
}

/// A process is stale exactly when its set of deleted files meets the set of
/// installed files.
pub proof fn lemma_stale_is_intersection(e: ScannedProcess, installed: Set<Seq<char>>)
    ensures
        is_stale(e, installed) <==> !views(e.deleted@).to_set().intersect(installed).is_empty(),
{
    let meet = views(e.deleted@).to_set().intersect(installed);
    if is_stale(e, installed) {
        let k = choose|k: int| 0 <= k < e.deleted@.len() && installed.contains(#[trigger] e.deleted@[k]@);
        assert(views(e.deleted@)[k] == e.deleted@[k]@);
        assert(meet.contains(e.deleted@[k]@));
    }
    if !meet.is_empty() {
        let p = meet.choose();
        assert(meet.contains(p));
        let k = choose|k: int| 0 <= k < views(e.deleted@).len() && views(e.deleted@)[k] == p;
        assert(installed.contains(e.deleted@[k]@));
    }
}

/// A process is reported exactly when one of its deleted files is an
/// installed file: every reported row belongs to such a process, and every
/// such process is reported.
pub proof fn lemma_stale_exact(entries: Seq<ScannedProcess>, installed: Set<Seq<char>>)
    ensures
        forall|p: ProcessView|
            stale(entries, installed).contains(p) <==> exists|i: int|
                0 <= i < entries.len() && (#[trigger] entries[i]).process@ == p && is_stale(
                    entries[i],
                    installed,
                ),
    decreases entries.len(),
{
    if entries.len() > 0 {
        let rest = entries.drop_last();
        lemma_stale_exact(rest, installed);
        let s = stale(entries, installed);
        let sr = stale(rest, installed);
        assert forall|p: ProcessView|
            s.contains(p) <==> exists|i: int|
                0 <= i < entries.len() && (#[trigger] entries[i]).process@ == p && is_stale(
                    entries[i],
                    installed,
                ) by {
            let last = entries.last();
            if s.contains(p) {
                let k = choose|k: int| 0 <= k < s.len() && s[k] == p;
                if k < sr.len() {
                    assert(sr.contains(p));
                    let i = choose|i: int|
                        0 <= i < rest.len() && (#[trigger] rest[i]).process@ == p && is_stale(
                            rest[i],
                            installed,
                        );
                    assert(entries[i] == rest[i]);
                } else {
                    assert(entries[entries.len() - 1] == last);
                }
            }
            if exists|i: int|
                0 <= i < entries.len() && (#[trigger] entries[i]).process@ == p && is_stale(
                    entries[i],
                    installed,
                ) {
                let i = choose|i: int|
                    0 <= i < entries.len() && (#[trigger] entries[i]).process@ == p && is_stale(
                        entries[i],
                        installed,
                    );
                if i < rest.len() {
                    assert(rest[i] == entries[i]);
                    assert(sr.contains(p));
                    let k = choose|k: int| 0 <= k < sr.len() && sr[k] == p;
                    assert(s[k] == p);
                } else {
                    assert(s[s.len() - 1] == p);
                }
            }
        }
    }
}

} // verus!
