//! The package cache: which cached package files to remove so that only the
//! newest few of each package stay.
use vstd::prelude::*;

use crate::order::str_lt;
use crate::text::{ends_with, ends_with_text};

verus! {

/// Where pacman keeps downloaded packages.
pub const PACMAN_CACHE_PATH: &'static str = "/var/cache/pacman/pkg";

/// The pattern of a cached package's file name:
/// `<name>-<version>-<subversion>-<arch>.<ext>`.
pub const CACHE_ENTRY_REGEX: &'static str = r"(?<name>[\w\-\d\.+]+)-(?<version>[\w\d\.\-:+]*)-(?<subversion>[\w\d\._]+)-(?<arch>[\d\w_]+)\.(?<ext>[\w\.]+)";

/// One package file of the cache, by the parts of its name.
#[derive(Clone, Debug)]
pub struct CacheEntry {
    pub pkg_name: String,
    pub version: String,
    pub subversion: String,
    pub arch: String,
    pub ext: String,
}

pub struct CacheEntryView {
    pub pkg_name: Seq<char>,
    pub version: Seq<char>,
    pub subversion: Seq<char>,
    pub arch: Seq<char>,
    pub ext: Seq<char>,
}

impl View for CacheEntry {
    type V = CacheEntryView;

    open spec fn view(&self) -> CacheEntryView {
        CacheEntryView {
            pkg_name: self.pkg_name@,
            version: self.version@,
            subversion: self.subversion@,
            arch: self.arch@,
            ext: self.ext@,
        }
    }
}

/// `a` sorts strictly before `b`: by name, then version, subversion,
/// architecture and extension, each compared as a string.
pub open spec fn entry_lt(a: CacheEntryView, b: CacheEntryView) -> bool {
    if a.pkg_name != b.pkg_name {
        str_lt(a.pkg_name, b.pkg_name)
    } else if a.version != b.version {
        str_lt(a.version, b.version)
    } else if a.subversion != b.subversion {
        str_lt(a.subversion, b.subversion)
    } else if a.arch != b.arch {
        str_lt(a.arch, b.arch)
    } else {
        str_lt(a.ext, b.ext)
    }
}

/// `s` with `x` put before the first entry that sorts strictly below it.
pub open spec fn insert_desc(s: Seq<CacheEntryView>, x: CacheEntryView) -> Seq<CacheEntryView>
    decreases s.len(),
{
    if s.len() == 0 {
        seq![x]
    } else if entry_lt(s[0], x) {
        seq![x] + s
    } else {
        seq![s[0]] + insert_desc(s.drop_first(), x)
    }
}

/// The entries of `s` from the greatest to the least.
pub open spec fn sort_desc(s: Seq<CacheEntryView>) -> Seq<CacheEntryView>
    decreases s.len(),
{
    if s.len() == 0 {
        seq![]
    } else {
        insert_desc(sort_desc(s.drop_last()), s.last())
    }
}

/// How many entries of `s` belong to the package `name`.
pub open spec fn count_named(s: Seq<CacheEntryView>, name: Seq<char>) -> nat
    decreases s.len(),
{
    if s.len() == 0 {
        0
    } else {
        count_named(s.drop_last(), name) + if s.last().pkg_name == name {
            1nat
        } else {
            0nat
        }
    }
}

/// The entries of `s` that have at least `keep` entries of the same package
/// before them, in order.
pub open spec fn beyond_kept(s: Seq<CacheEntryView>, keep: nat) -> Seq<CacheEntryView>
    decreases s.len(),
{
    if s.len() == 0 {
        seq![]
    } else {
        let rest = beyond_kept(s.drop_last(), keep);
        if count_named(s.drop_last(), s.last().pkg_name) >= keep {
            rest.push(s.last())
        } else {
            rest
        }
    }
}

pub open spec fn entries_of(v: Seq<CacheEntry>) -> Seq<CacheEntryView> {
    v.map_values(|e: CacheEntry| e@)
}

impl CacheEntry {
    /// A copy with the same parts.
    pub fn duplicate(&self) -> (r: CacheEntry)
        ensures
            r@ == self@,
    {
        CacheEntry {
            pkg_name: self.pkg_name.clone(),
            version: self.version.clone(),
            subversion: self.subversion.clone(),
            arch: self.arch.clone(),
            ext: self.ext.clone(),
        }
    }
}

fn text_lt(a: &String, b: &String) -> (r: bool)
    ensures
        r == str_lt(a@, b@),
{
    crate::order::lt_str(a.as_str(), b.as_str())
}

/// Whether `a` sorts strictly before `b`.
pub fn entry_less(a: &CacheEntry, b: &CacheEntry) -> (r: bool)
    ensures
        r == entry_lt(a@, b@),
{
    if a.pkg_name != b.pkg_name {
        text_lt(&a.pkg_name, &b.pkg_name)
    } else if a.version != b.version {
        text_lt(&a.version, &b.version)
    } else if a.subversion != b.subversion {
        text_lt(&a.subversion, &b.subversion)
    } else if a.arch != b.arch {
        text_lt(&a.arch, &b.arch)
    } else {
        text_lt(&a.ext, &b.ext)
    }
}

proof fn lemma_insert_desc_at(s: Seq<CacheEntryView>, x: CacheEntryView, j: int)
    requires
        0 <= j <= s.len(),
        forall|k: int| 0 <= k < j ==> !entry_lt(#[trigger] s[k], x),
        j < s.len() ==> entry_lt(s[j], x),
    ensures
        insert_desc(s, x) == s.insert(j, x),
    decreases j,
{
    if j == 0 {
        if s.len() > 0 {
            assert(seq![x] + s =~= s.insert(0, x));
        } else {
            assert(seq![x] =~= s.insert(0, x));
        }
    } else {
        let t = s.drop_first();
        assert forall|k: int| 0 <= k < j - 1 implies !entry_lt(#[trigger] t[k], x) by {
            assert(t[k] == s[k + 1]);
        }
        lemma_insert_desc_at(t, x, j - 1);
        assert(!entry_lt(s[0], x));
        assert(seq![s[0]] + t.insert(j - 1, x) =~= s.insert(j, x));
    }
}

fn sorted_desc(cache: &Vec<CacheEntry>) -> (r: Vec<CacheEntry>)
    ensures
        entries_of(r@) == sort_desc(entries_of(cache@)),
{
    let ghost es = entries_of(cache@);
    let mut out: Vec<CacheEntry> = Vec::new();
    let mut i: usize = 0;
    while i < cache.len()
        invariant
            i <= cache@.len(),
            es == entries_of(cache@),
            entries_of(out@) == sort_desc(es.take(i as int)),
        decreases cache@.len() - i,
    {
        let x = &cache[i];
        let ghost s = entries_of(out@);
        let mut j: usize = 0;
        while j < out.len() && !entry_less(&out[j], x)
            invariant
                j <= out@.len(),
                s == entries_of(out@),
                forall|k: int| 0 <= k < j ==> !entry_lt(#[trigger] s[k], x@),
            decreases out@.len() - j,
        {
            j = j + 1;
        }
        proof {
            lemma_insert_desc_at(s, x@, j as int);
            assert(es.take(i + 1).drop_last() =~= es.take(i as int));
            assert(es.take(i + 1).last() == x@);
        }
        out.insert(j, x.duplicate());
        proof {
            assert(entries_of(out@) =~= s.insert(j as int, x@));
        }
        i = i + 1;
    }
    proof {
        assert(es.take(i as int) =~= es);
    }
    out
}

/// The cached files to remove so that the `keep` greatest entries of each
/// package stay: every entry that, in descending order, has at least `keep`
/// entries of the same package before it.  They come in descending order.
pub fn remove_candidates(keep: u8, cache: &Vec<CacheEntry>) -> (r: Vec<CacheEntry>)
    ensures
        entries_of(r@) == beyond_kept(sort_desc(entries_of(cache@)), keep as nat),
{
    let sorted = sorted_desc(cache);
    let ghost s = entries_of(sorted@);
    let mut out: Vec<CacheEntry> = Vec::new();
    let mut i: usize = 0;
    while i < sorted.len()
        invariant
            i <= sorted@.len(),
            s == entries_of(sorted@),
            entries_of(out@) == beyond_kept(s.take(i as int), keep as nat),
        decreases sorted@.len() - i,
    {
        let mut before: usize = 0;
        let mut j: usize = 0;
        while j < i
            invariant
                before <= j <= i,
                i < sorted@.len(),
                s == entries_of(sorted@),
                before as nat == count_named(s.take(j as int), sorted@[i as int].pkg_name@),
            decreases i - j,
        {
            proof {
                let t = s.take(j + 1);
                assert(t.drop_last() =~= s.take(j as int));
                assert(t.last() == sorted@[j as int]@);
            }
            if sorted[j].pkg_name == sorted[i].pkg_name {
                before = before + 1;
            }
            j = j + 1;
        }
        proof {
            let t = s.take(i + 1);
            assert(t.drop_last() =~= s.take(i as int));
            assert(t.last() == sorted@[i as int]@);
        }
        if before >= keep as usize {
            let e = sorted[i].duplicate();
            proof {
                assert(entries_of(out@.push(e)) =~= entries_of(out@).push(e@));
            }
            out.push(e);
        }
        i = i + 1;
    }
    proof {
        assert(s.take(i as int) =~= s);
    }
    out
}

/// The file name of an entry: `<name>-<version>-<subversion>-<arch>.<ext>`.
pub open spec fn entry_file_name(e: CacheEntryView) -> Seq<char> {
    e.pkg_name + "-"@ + e.version + "-"@ + e.subversion + "-"@ + e.arch + "."@ + e.ext
}

impl CacheEntry {
    /// The name of the cached file.
    pub fn file_name(&self) -> (r: String)
        ensures
            r@ == entry_file_name(self@),
    {
        let mut s = self.pkg_name.clone();
        s.append("-");
        s.append(self.version.as_str());
        s.append("-");
        s.append(self.subversion.as_str());
        s.append("-");
        s.append(self.arch.as_str());
        s.append(".");
        s.append(self.ext.as_str());
        s
    }

    /// The path of the cached file.
    pub fn path(&self) -> (r: String)
        ensures
            r@ == PACMAN_CACHE_PATH@ + "/"@ + entry_file_name(self@),
    {
        let mut s = PACMAN_CACHE_PATH.to_owned();
        s.append("/");
        let name = self.file_name();
        s.append(name.as_str());
        s
    }
}

#[verifier::external_type_specification]
#[verifier::external_body]
pub struct ExRegex(regex::Regex);

#[verifier::external_type_specification]
#[verifier::external_body]
pub struct ExRegexError(regex::Error);

/// `t` is a contiguous part of `s`.
pub open spec fn is_part_of(t: Seq<char>, s: Seq<char>) -> bool {
    exists|i: int, j: int| 0 <= i <= j <= s.len() && t == s.subrange(i, j)
}

/// Relies on `regex::Regex::new`: compiles `pattern`, or reports why it
/// cannot.
#[verifier::external_body]
fn compile_regex(pattern: &str) -> (r: Result<regex::Regex, regex::Error>) {
    regex::Regex::new(pattern)
}

/// Relies on `regex::Regex::captures`, `Captures::name` and `Match::as_str`:
/// the text that the group `group` matched in the first match of `re` in
/// `hay`, which is a part of `hay`.
#[verifier::external_body]
fn capture_named(re: &regex::Regex, hay: &str, group: &str) -> (r: Option<String>)
    ensures
        r matches Some(t) ==> is_part_of(t@, hay@),
{
    match re.captures(hay) {
        Some(c) => match c.name(group) {
            Some(m) => Some(m.as_str().to_owned()),
            None => None,
        },
        None => None,
    }
}

/// Why the cache could not be read.
#[derive(Clone, Debug)]
pub enum CacheError {
    /// The pattern of cache file names does not compile.
    InvalidPattern,
    /// A file of the cache is not named like a package.
    UnparsableName(String),
}

/// The compiled pattern of cache file names.
pub fn cache_entry_regex() -> (r: Result<regex::Regex, CacheError>)
    ensures
        r matches Err(e) ==> e is InvalidPattern,
{
    match compile_regex(CACHE_ENTRY_REGEX) {
        Ok(re) => Ok(re),
        Err(_) => Err(CacheError::InvalidPattern),
    }
}

/// The parts of a cache file name that `regex` captures, when all five
/// groups matched; each is a part of the name.
pub fn parse_file_name(file_name: &str, regex: &regex::Regex) -> (r: Option<CacheEntry>)
    ensures
        r matches Some(e) ==> {
            &&& is_part_of(e.pkg_name@, file_name@)
            &&& is_part_of(e.version@, file_name@)
            &&& is_part_of(e.subversion@, file_name@)
            &&& is_part_of(e.arch@, file_name@)
            &&& is_part_of(e.ext@, file_name@)
        },
{
    let pkg_name = capture_named(regex, file_name, "name")?;
    let version = capture_named(regex, file_name, "version")?;
    let subversion = capture_named(regex, file_name, "subversion")?;
    let arch = capture_named(regex, file_name, "arch")?;
    let ext = capture_named(regex, file_name, "ext")?;
    Some(CacheEntry { pkg_name, version, subversion, arch, ext })
}

/// A detached signature: a name with the extension `sig`.
pub open spec fn is_signature_name(name: Seq<char>) -> bool {
    name.len() > 4 && ends_with(name, ".sig"@)
}

/// The entries of the cache whose files are named `file_names`, signatures
/// left out.  A name that does not parse is an error.
pub fn cache_entries(file_names: &Vec<String>) -> (r: Result<Vec<CacheEntry>, CacheError>)
    ensures
        r matches Err(CacheError::UnparsableName(n)) ==> exists|i: int|
            0 <= i < file_names@.len() && n@ == (#[trigger] file_names@[i])@ && !is_signature_name(
                n@,
            ),
        r matches Ok(v) ==> v@.len() <= file_names@.len(),
{
    let regex = cache_entry_regex()?;
    let mut cache: Vec<CacheEntry> = Vec::new();
    let mut i: usize = 0;
    while i < file_names.len()
        invariant
            i <= file_names@.len(),
            cache@.len() <= i,
        decreases file_names@.len() - i,
    {
        let name = file_names[i].as_str();
        let signature = name.unicode_len() > 4 && ends_with_text(name, ".sig");
        if !signature {
            match parse_file_name(name, &regex) {
                Some(e) => cache.push(e),
                None => {
                    return Err(CacheError::UnparsableName(file_names[i].clone()));
                },
            }
        }
        i = i + 1;
    }
    Ok(cache)
}

} // verus!
