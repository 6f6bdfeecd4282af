//! Save endpoints and recognition of save file names.
use crate::backup::{plan_backup, BackupFile, BackupPlan, content_fingerprint, has_duplicate, is_oldest_first_eviction};
use crate::Error;
use vstd::prelude::*;
use vstd::string::*;

verus! {

/// Relies on `std::io::Error`, carried through unread.
#[verifier::external_type_specification]
#[verifier::external_body]
pub struct ExIoError(std::io::Error);

/// Relies on `std::path::PathBuf`, carried through unread.
#[verifier::external_type_specification]
#[verifier::external_body]
pub struct ExPathBuf(std::path::PathBuf);

/// Relies on `PathBuf::clone`, used only to share an endpoint with a watcher.
pub assume_specification[ <std::path::PathBuf as std::clone::Clone>::clone ](
    p: &std::path::PathBuf,
) -> std::path::PathBuf;

/// All the ways in which save file and backup handling can fail.
#[derive(Debug)]
pub enum SaveError {
    /// The home directory could not be found.
    HomeDir,
    /// Steam could not be found.
    SteamDir,
    /// Deep Rock Galactic is not installed through Steam.
    SteamApp,
    /// A directory could not be created.
    DirCreate(std::path::PathBuf),
    /// There is no save file to overwrite.
    NoSave,
    /// The destination was modified at the same time as the source or later.
    ModifyTime,
    /// An I/O operation failed.
    Io(std::io::Error),
}

/// The two sides that are kept in sync.
#[derive(Clone, Copy, Debug, PartialEq, Eq, Structural)]
pub enum SaveKind {
    Steam,
    Xbox,
}

/// The suffix that every Steam save file name ends with.
pub open spec fn steam_suffix() -> Seq<char> {
    seq!['_', 'P', 'l', 'a', 'y', 'e', 'r', '.', 's', 'a', 'v']
}

/// Number of characters in an Xbox save blob name.
pub const XBOX_NAME_LEN: usize = 32;

/// An ASCII hex digit, either case.
pub open spec fn is_hex_digit(c: char) -> bool {
    ('0' <= c && c <= '9') || ('a' <= c && c <= 'f') || ('A' <= c && c <= 'F')
}

/// A Steam save is named `<anything>_Player.sav`.
pub open spec fn is_steam_save_name(name: Seq<char>) -> bool {
    name.len() >= steam_suffix().len() && name.subrange(
        name.len() - steam_suffix().len(),
        name.len() as int,
    ) == steam_suffix()
}

/// An Xbox save is a blob named by exactly 32 hex digits.
pub open spec fn is_xbox_save_name(name: Seq<char>) -> bool {
    name.len() == XBOX_NAME_LEN && forall|i: int| 0 <= i < name.len() ==> is_hex_digit(#[trigger] name[i])
}

/// Whether `name` follows the save file naming convention of `kind`.
pub open spec fn is_save_name(kind: SaveKind, name: Seq<char>) -> bool {
    match kind {
        SaveKind::Steam => is_steam_save_name(name),
        SaveKind::Xbox => is_xbox_save_name(name),
    }
}

fn hex_digit(c: char) -> (r: bool)
    ensures
        r == is_hex_digit(c),
{
    ('0' <= c && c <= '9') || ('a' <= c && c <= 'f') || ('A' <= c && c <= 'F')
}

/// Whether `name` ends with the Steam save suffix.
pub fn steam_save_name(name: &str) -> (r: bool)
    ensures
        r == is_steam_save_name(name@),
{
    let suffix = "_Player.sav";
    proof {
        reveal_strlit("_Player.sav");
        assert(suffix@ == steam_suffix());
    }
    let n = name.unicode_len();
    let m = suffix.unicode_len();
    if n < m {
        return false;
    }
    let start = n - m;
    let mut i: usize = 0;
    while i < m
        invariant
            m == steam_suffix().len(),
            suffix@ == steam_suffix(),
            n == name@.len(),
            start == n - m,
            i <= m,
            forall|j: int| 0 <= j < i ==> name@[start + j] == steam_suffix()[j],
        decreases m - i,
    {
        if name.get_char(start + i) != suffix.get_char(i) {
            proof {
                assert(name@.subrange(start as int, n as int)[i as int] != steam_suffix()[i as int]);
            }
            return false;
        }
        i += 1;
    }
    proof {
        assert(name@.subrange(start as int, n as int) =~= steam_suffix());
    }
    true
}

/// Whether `name` is 32 hex digits.
pub fn xbox_save_name(name: &str) -> (r: bool)
    ensures
        r == is_xbox_save_name(name@),
{
    let n = name.unicode_len();
    if n != XBOX_NAME_LEN {
        return false;
    }
    let mut i: usize = 0;
    while i < n
        invariant
            n == name@.len(),
            i <= n,
            forall|j: int| 0 <= j < i ==> is_hex_digit(#[trigger] name@[j]),
        decreases n - i,
    {
        if !hex_digit(name.get_char(i)) {
            return false;
        }
        i += 1;
    }
    true
}

/// Whether `name` is the save file name convention of `kind`.
pub fn is_save_file_name(kind: SaveKind, name: &str) -> (r: bool)
    ensures
        r == is_save_name(kind, name@),
{
    match kind {
        SaveKind::Steam => steam_save_name(name),
        SaveKind::Xbox => xbox_save_name(name),
    }
}

/// The display label of each side.
pub open spec fn kind_name(kind: SaveKind) -> Seq<char> {
    match kind {
        SaveKind::Steam => seq!['S', 't', 'e', 'a', 'm'],
        SaveKind::Xbox => seq!['X', 'b', 'o', 'x'],
    }
}

/// The side that a save found on `kind` is copied to.
pub open spec fn other_side(kind: SaveKind) -> SaveKind {
    match kind {
        SaveKind::Steam => SaveKind::Xbox,
        SaveKind::Xbox => SaveKind::Steam,
    }
}

/// One side of the sync: where its save lives, where its backups go and how
/// many backups it keeps. Immutable once made.
#[derive(Debug)]
pub struct SaveEndpoint {
    kind: SaveKind,
    max_backups: usize,
    save_dir: std::path::PathBuf,
    backup_dir: std::path::PathBuf,
}

impl SaveEndpoint {
    /// The side this endpoint stands for.
    pub closed spec fn spec_kind(&self) -> SaveKind {
        self.kind
    }

    /// The retention limit.
    pub closed spec fn spec_max_backups(&self) -> usize {
        self.max_backups
    }

    /// The directory tree holding the live save.
    pub closed spec fn spec_save_dir(&self) -> std::path::PathBuf {
        self.save_dir
    }

    /// The flat directory holding the backups.
    pub closed spec fn spec_backup_dir(&self) -> std::path::PathBuf {
        self.backup_dir
    }

    /// An endpoint keeps at least one backup.
    #[verifier::type_invariant]
    closed spec fn wf(&self) -> bool {
        self.max_backups >= 1
    }

    /// Makes an endpoint; a retention limit of zero is refused.
    pub fn new(
        kind: SaveKind,
        max_backups: usize,
        save_dir: std::path::PathBuf,
        backup_dir: std::path::PathBuf,
    ) -> (r: Result<SaveEndpoint, Error>)
        ensures
            r is Err <==> max_backups < 1,
            r is Err ==> r->Err_0 is MaxBackups,
            r is Ok ==> {
                &&& r->Ok_0.spec_kind() == kind
                &&& r->Ok_0.spec_max_backups() == max_backups
                &&& r->Ok_0.spec_save_dir() == save_dir
                &&& r->Ok_0.spec_backup_dir() == backup_dir
            },
    {
        if max_backups < 1 {
            return Err(Error::MaxBackups);
        }
        Ok(SaveEndpoint { kind, max_backups, save_dir, backup_dir })
    }

    /// The display label of this side.
    pub fn name(&self) -> (r: &'static str)
        ensures
            r@ == kind_name(self.spec_kind()),
    {
        proof {
            reveal_strlit("Steam");
            reveal_strlit("Xbox");
        }
        match self.kind {
            SaveKind::Steam => "Steam",
            SaveKind::Xbox => "Xbox",
        }
    }

    pub fn kind(&self) -> (r: SaveKind)
        ensures
            r == self.spec_kind(),
    {
        self.kind
    }

    /// The retention limit, at least one.
    pub fn max_backups(&self) -> (r: usize)
        ensures
            r == self.spec_max_backups(),
            r >= 1,
    {
        proof {
            use_type_invariant(self);
        }
        self.max_backups
    }

    /// The directory tree holding the live save.
    pub fn save_dir(&self) -> (r: &std::path::PathBuf)
        ensures
            *r == self.spec_save_dir(),
    {
        &self.save_dir
    }

    /// The flat directory holding the backups.
    pub fn backup_dir(&self) -> (r: &std::path::PathBuf)
        ensures
            *r == self.spec_backup_dir(),
    {
        &self.backup_dir
    }

    /// The leaf name of `c` when it looks like this side's save file.
    pub fn save_file(&self, c: &SaveCandidate) -> (r: Option<String>)
        ensures
            r is Some <==> is_save_candidate(self.spec_kind(), *c),
            r is Some ==> r->0@ == c.file_name->0@,
    {
        save_file(self.kind, c)
    }

    /// The first save file of this side met in a walk of its save directory.
    pub fn locate_save_path(&self, entries: &Vec<SaveCandidate>) -> (r: Option<(usize, String)>)
        ensures
            match r {
                None => forall|i: int| 0 <= i < entries@.len() ==> !is_save_candidate(self.spec_kind(), #[trigger] entries@[i]),
                Some((i, name)) => {
                    &&& i < entries@.len()
                    &&& is_save_candidate(self.spec_kind(), entries@[i as int])
                    &&& name@ == entries@[i as int].file_name->0@
                    &&& forall|j: int| 0 <= j < i ==> !is_save_candidate(self.spec_kind(), #[trigger] entries@[j])
                },
            },
    {
        locate_save(self.kind, entries)
    }

    /// Decides a backup of `save` into this side's backup directory, listed as `files`.
    pub fn plan_backup(&self, save: &[u8], files: &Vec<BackupFile>) -> (r: BackupPlan)
        ensures
            r is Duplicate <==> has_duplicate(files@, content_fingerprint(save@)),
            r is Write ==> is_oldest_first_eviction(files@, self.spec_max_backups() as nat, r->evict@),
    {
        proof {
            use_type_invariant(self);
        }
        plan_backup(save, files, self.max_backups)
    }
}

impl Clone for SaveEndpoint {
    fn clone(&self) -> (r: Self)
        ensures
            r.spec_kind() == self.spec_kind(),
            r.spec_max_backups() == self.spec_max_backups(),
    {
        proof {
            use_type_invariant(self);
        }
        SaveEndpoint {
            kind: self.kind,
            max_backups: self.max_backups,
            save_dir: self.save_dir.clone(),
            backup_dir: self.backup_dir.clone(),
        }
    }
}

/// One entry met while walking a save directory: whether it is a regular
/// file, and its leaf name where it has one.
#[derive(Debug)]
pub struct SaveCandidate {
    pub is_file: bool,
    pub file_name: Option<String>,
}

/// Whether `c` is a regular file whose leaf name follows the convention of `kind`.
pub open spec fn is_save_candidate(kind: SaveKind, c: SaveCandidate) -> bool {
    c.is_file && c.file_name is Some && is_save_name(kind, c.file_name->0@)
}

/// The leaf name of `c` when it looks like the current save file of `kind`.
pub fn save_file(kind: SaveKind, c: &SaveCandidate) -> (r: Option<String>)
    ensures
        r is Some <==> is_save_candidate(kind, *c),
        r is Some ==> r->0@ == c.file_name->0@,
{
    if !c.is_file {
        return None;
    }
    match &c.file_name {
        Some(name) => {
            if is_save_file_name(kind, name.as_str()) {
                Some(name.clone())
            } else {
                None
            }
        },
        None => None,
    }
}

/// The first entry, in walk order, that looks like the current save file of
/// `kind`: its position in `entries` and its leaf name.
pub fn locate_save(kind: SaveKind, entries: &Vec<SaveCandidate>) -> (r: Option<(usize, String)>)
    ensures
        match r {
            None => forall|i: int| 0 <= i < entries@.len() ==> !is_save_candidate(kind, #[trigger] entries@[i]),
            Some((i, name)) => {
                &&& i < entries@.len()
                &&& is_save_candidate(kind, entries@[i as int])
                &&& name@ == entries@[i as int].file_name->0@
                &&& forall|j: int| 0 <= j < i ==> !is_save_candidate(kind, #[trigger] entries@[j])
            },
        },
{
    let mut i: usize = 0;
    while i < entries.len()
        invariant
            i <= entries@.len(),
            forall|j: int| 0 <= j < i ==> !is_save_candidate(kind, #[trigger] entries@[j]),
        decreases entries@.len() - i,
    {
        match save_file(kind, &entries[i]) {
            Some(name) => {
                return Some((i, name));
            },
            None => {},
        }
        i += 1;
    }
    None
}

/// The save file of `kind` to overwrite, or `NoSave` when the walk found none.
pub fn locate_destination(kind: SaveKind, entries: &Vec<SaveCandidate>) -> (r: Result<
    (usize, String),
    SaveError,
>)
    ensures
        r is Err <==> forall|i: int| 0 <= i < entries@.len() ==> !is_save_candidate(kind, #[trigger] entries@[i]),
        r is Err ==> r->Err_0 is NoSave,
        r is Ok ==> {
            let (i, name) = r->Ok_0;
            &&& i < entries@.len()
            &&& is_save_candidate(kind, entries@[i as int])
            &&& name@ == entries@[i as int].file_name->0@
            &&& forall|j: int| 0 <= j < i ==> !is_save_candidate(kind, #[trigger] entries@[j])
        },
{
    match locate_save(kind, entries) {
        Some(found) => Ok(found),
        None => Err(SaveError::NoSave),
    }
}

/// Last writer wins: a source may overwrite the destination only when its
/// modification time is strictly later. Times are nanoseconds since the Unix
/// epoch.
pub open spec fn is_newer(from_time: i128, to_time: i128) -> bool {
    from_time > to_time
}

/// `Ok` when `from_time` is strictly later than `to_time`, else `ModifyTime`.
pub fn check_newer(from_time: i128, to_time: i128) -> (r: Result<(), SaveError>)
    ensures
        r is Ok <==> is_newer(from_time, to_time),
        r is Err ==> r->Err_0 is ModifyTime,
{
    if from_time <= to_time {
        Err(SaveError::ModifyTime)
    } else {
        Ok(())
    }
}

} // verus!
