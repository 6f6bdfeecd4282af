//! Backups: content fingerprints, de-duplication, oldest-first eviction and
//! backup file names.
use std::collections::hash_map::DefaultHasher;
use std::hash::Hasher;
use vstd::prelude::*;
use vstd::std_specs::hash::DefaultHasherAdditionalSpecFns;
use vstd::string::*;

verus! {

/// The fingerprint of a file's whole contents: one `DefaultHasher` write of
/// the bytes, then `finish`.
pub open spec fn content_fingerprint(bytes: Seq<u8>) -> u64 {
    DefaultHasher::spec_finish(seq![bytes])
}

/// Hashes `bytes` for equality tests between files.
pub fn fingerprint(bytes: &[u8]) -> (r: u64)
    ensures
        r == content_fingerprint(bytes@),
{
    let mut hasher = DefaultHasher::new();
    hasher.write(bytes);
    proof {
        assert(hasher@ =~= seq![bytes@]);
    }
    hasher.finish()
}

/// One entry of a backup directory listing: whether it is a regular file,
/// its modification time in nanoseconds since the Unix epoch (`None` where
/// the metadata could not be read) and its contents (`None` where they could
/// not be read).
#[derive(Debug)]
pub struct BackupFile {
    pub is_file: bool,
    pub modified: Option<i128>,
    pub contents: Option<Vec<u8>>,
}

/// The key by which backups age: files whose time cannot be read count as
/// written at the epoch, and so go first.
pub open spec fn age_key(f: BackupFile) -> int {
    match f.modified {
        Some(t) => t as int,
        None => 0,
    }
}

/// Whether `f` is a readable regular file with the given fingerprint.
pub open spec fn holds_fingerprint(f: BackupFile, h: u64) -> bool {
    f.is_file && f.contents is Some && content_fingerprint(f.contents->0@) == h
}

/// Whether some backup already holds contents with fingerprint `h`.
pub open spec fn has_duplicate(files: Seq<BackupFile>, h: u64) -> bool {
    exists|i: int| 0 <= i < files.len() && holds_fingerprint(#[trigger] files[i], h)
}

/// Number of regular files in a listing.
pub open spec fn count_files(files: Seq<BackupFile>) -> nat
    decreases files.len(),
{
    if files.len() == 0 {
        0
    } else {
        count_files(files.drop_last()) + if files.last().is_file {
            1nat
        } else {
            0nat
        }
    }
}

/// How many backups must go so that at most `max_backups - 1` remain.
pub open spec fn excess(files: Seq<BackupFile>, max_backups: nat) -> nat {
    if count_files(files) > max_backups - 1 {
        (count_files(files) - (max_backups - 1)) as nat
    } else {
        0
    }
}

/// `evict` names, without repetition, `excess` regular files of `files`,
/// and none of them is younger than a regular file that stays.
pub open spec fn is_oldest_first_eviction(
    files: Seq<BackupFile>,
    max_backups: nat,
    evict: Seq<usize>,
) -> bool {
    &&& evict.len() == excess(files, max_backups)
    &&& forall|k: int| 0 <= k < evict.len() ==> (#[trigger] evict[k] as int) < files.len() && files[evict[k] as int].is_file
    &&& forall|a: int, b: int| 0 <= a < b < evict.len() ==> evict[a] != evict[b]
    &&& forall|k: int, j: int|
        0 <= k < evict.len() && 0 <= j < files.len() && files[j].is_file && !lists(evict, j)
            ==> age_key(files[#[trigger] evict[k] as int]) <= age_key(#[trigger] files[j])
}

/// Whether `j` is one of the positions in `s`.
pub open spec fn lists(s: Seq<usize>, j: int) -> bool {
    exists|k: int| 0 <= k < s.len() && s[k] as int == j
}

/// Whether some readable regular file of `files` has the fingerprint of `save`.
pub fn is_dupe_backup(save: &[u8], files: &Vec<BackupFile>) -> (r: bool)
    ensures
        r == has_duplicate(files@, content_fingerprint(save@)),
{
    let h = fingerprint(save);
    let mut i: usize = 0;
    while i < files.len()
        invariant
            h == content_fingerprint(save@),
            i <= files@.len(),
            forall|j: int| 0 <= j < i ==> !holds_fingerprint(#[trigger] files@[j], h),
        decreases files@.len() - i,
    {
        let f = &files[i];
        if f.is_file {
            match &f.contents {
                Some(bytes) => {
                    if fingerprint(bytes.as_slice()) == h {
                        assert(holds_fingerprint(files@[i as int], h));
                        return true;
                    }
                },
                None => {},
            }
        }
        i += 1;
    }
    false
}

fn age_of(f: &BackupFile) -> (r: i128)
    ensures
        r as int == age_key(*f),
{
    match f.modified {
        Some(t) => t,
        None => 0,
    }
}

/// The positions of the regular files of `files`, in order.
fn file_positions(files: &Vec<BackupFile>) -> (r: Vec<usize>)
    ensures
        r@.len() == count_files(files@),
        forall|k: int| 0 <= k < r@.len() ==> (#[trigger] r@[k] as int) < files@.len() && files@[r@[k] as int].is_file,
        forall|a: int, b: int| 0 <= a < b < r@.len() ==> r@[a] < r@[b],
        forall|j: int| 0 <= j < files@.len() && (#[trigger] files@[j]).is_file ==> lists(r@, j),
{
    let mut r: Vec<usize> = Vec::new();
    let mut i: usize = 0;
    while i < files.len()
        invariant
            i <= files@.len(),
            r@.len() == count_files(files@.subrange(0, i as int)),
            forall|k: int| 0 <= k < r@.len() ==> (#[trigger] r@[k] as int) < i && files@[r@[k] as int].is_file,
            forall|a: int, b: int| 0 <= a < b < r@.len() ==> r@[a] < r@[b],
            forall|j: int| 0 <= j < i && (#[trigger] files@[j]).is_file ==> lists(r@, j),
        decreases files@.len() - i,
    {
        proof {
            assert(files@.subrange(0, i + 1).drop_last() =~= files@.subrange(0, i as int));
        }
        let ghost old_r = r@;
        if files[i].is_file {
            r.push(i);
            proof {
                assert(r@[r@.len() - 1] == i);
                assert forall|j: int| 0 <= j < i + 1 && (#[trigger] files@[j]).is_file implies lists(r@, j) by {
                    if j < i {
                        assert(lists(old_r, j));
                        let k = choose|k: int| 0 <= k < old_r.len() && old_r[k] as int == j;
                        assert(r@[k] == old_r[k]);
                    } else {
                        assert(r@[r@.len() - 1] as int == j);
                    }
                }
            }
        } else {
            proof {
                assert forall|j: int| 0 <= j < i + 1 && (#[trigger] files@[j]).is_file implies lists(r@, j) by {
                    if j == i {
                        assert(!files@[j].is_file);
                    }
                }
            }
        }
        i += 1;
    }
    proof {
        assert(files@.subrange(0, files@.len() as int) =~= files@);
    }
    r
}

/// The regular files to delete, oldest first, so that at most
/// `max_backups - 1` remain.
pub fn oldest_backups(files: &Vec<BackupFile>, max_backups: usize) -> (evict: Vec<usize>)
    requires
        max_backups >= 1,
    ensures
        is_oldest_first_eviction(files@, max_backups as nat, evict@),
{
    let mut rest = file_positions(files);
    let keep: usize = max_backups - 1;
    let target: usize = if rest.len() > keep {
        rest.len() - keep
    } else {
        0
    };
    let ghost total = rest@.len();
    let mut evict: Vec<usize> = Vec::new();
    while evict.len() < target
        invariant
            total == count_files(files@),
            target == excess(files@, max_backups as nat),
            target <= total,
            evict@.len() + rest@.len() == total,
            evict@.len() <= target,
            forall|k: int| 0 <= k < rest@.len() ==> (#[trigger] rest@[k] as int) < files@.len() && files@[rest@[k] as int].is_file,
            forall|k: int| 0 <= k < evict@.len() ==> (#[trigger] evict@[k] as int) < files@.len() && files@[evict@[k] as int].is_file,
            forall|a: int, b: int| 0 <= a < b < rest@.len() ==> rest@[a] != rest@[b],
            forall|a: int, b: int| 0 <= a < b < evict@.len() ==> evict@[a] != evict@[b],
            forall|a: int, b: int| 0 <= a < evict@.len() && 0 <= b < rest@.len() ==> evict@[a] != rest@[b],
            forall|j: int| 0 <= j < files@.len() && (#[trigger] files@[j]).is_file ==> lists(evict@, j) || lists(rest@, j),
            forall|a: int, b: int| 0 <= a < evict@.len() && 0 <= b < rest@.len()
                ==> age_key(files@[evict@[a] as int]) <= age_key(files@[rest@[b] as int]),
        decreases target - evict@.len(),
    {
        // Find the oldest remaining file; the first one wins a tie.
        let mut p: usize = 0;
        let mut q: usize = 1;
        while q < rest.len()
            invariant
                0 < rest@.len(),
                p < q <= rest@.len(),
                forall|k: int| 0 <= k < rest@.len() ==> (#[trigger] rest@[k] as int) < files@.len(),
                forall|k: int| 0 <= k < q ==> age_key(files@[rest@[p as int] as int]) <= age_key(files@[#[trigger] rest@[k] as int]),
            decreases rest@.len() - q,
        {
            if age_of(&files[rest[q]]) < age_of(&files[rest[p]]) {
                p = q;
            }
            q += 1;
        }
        let ghost old_rest = rest@;
        let ghost old_evict = evict@;
        let x = rest.remove(p);
        evict.push(x);
        proof {
            assert(evict@ == old_evict.push(x));
            assert forall|k: int| 0 <= k < rest@.len() implies rest@[k] == old_rest[if k < p { k } else { k + 1 }] by {}
            assert forall|j: int| 0 <= j < files@.len() && (#[trigger] files@[j]).is_file implies lists(evict@, j) || lists(rest@, j) by {
                if lists(old_evict, j) {
                    let k = choose|k: int| 0 <= k < old_evict.len() && old_evict[k] as int == j;
                    assert(evict@[k] == old_evict[k]);
                } else {
                    assert(lists(old_rest, j));
                    let k = choose|k: int| 0 <= k < old_rest.len() && old_rest[k] as int == j;
                    if k == p {
                        assert(evict@[old_evict.len() as int] as int == j);
                    } else if k < p {
                        assert(rest@[k] as int == j);
                    } else {
                        assert(rest@[k - 1] as int == j);
                    }
                }
            }
            assert forall|a: int, b: int| 0 <= a < evict@.len() && 0 <= b < rest@.len() implies
                age_key(files@[evict@[a] as int]) <= age_key(files@[rest@[b] as int]) by {
                let ob = if b < p { b } else { b + 1 };
                assert(rest@[b] == old_rest[ob]);
                if a < old_evict.len() {
                    assert(evict@[a] == old_evict[a]);
                }
            }
            assert forall|a: int, b: int| 0 <= a < evict@.len() && 0 <= b < rest@.len() implies evict@[a] != rest@[b] by {
                let ob = if b < p { b } else { b + 1 };
                assert(rest@[b] == old_rest[ob]);
                if a < old_evict.len() {
                    assert(evict@[a] == old_evict[a]);
                }
            }
            assert forall|a: int, b: int| 0 <= a < b < rest@.len() implies rest@[a] != rest@[b] by {
                let oa = if a < p { a } else { a + 1 };
                let ob = if b < p { b } else { b + 1 };
                assert(rest@[a] == old_rest[oa]);
                assert(rest@[b] == old_rest[ob]);
            }
            assert forall|a: int, b: int| 0 <= a < b < evict@.len() implies evict@[a] != evict@[b] by {
                if b == old_evict.len() {
                    assert(old_rest[p as int] == x);
                }
            }
        }
    }
    proof {
        assert forall|k: int, j: int|
            0 <= k < evict@.len() && 0 <= j < files@.len() && files@[j].is_file && !lists(evict@, j)
            implies age_key(files@[#[trigger] evict@[k] as int]) <= age_key(#[trigger] files@[j]) by {
            assert(lists(rest@, j));
            let b = choose|b: int| 0 <= b < rest@.len() && rest@[b] as int == j;
            assert(age_key(files@[evict@[k] as int]) <= age_key(files@[rest@[b] as int]));
        }
    }
    evict
}

/// The character of decimal digit `d`.
pub open spec fn digit_char(d: nat) -> char {
    seq!['0', '1', '2', '3', '4', '5', '6', '7', '8', '9'][d as int]
}

/// The decimal notation of `n`, without leading zeros.
pub open spec fn decimal(n: nat) -> Seq<char>
    decreases n,
{
    if n < 10 {
        seq![digit_char(n)]
    } else {
        decimal(n / 10).push(digit_char(n % 10))
    }
}

/// A backup of `filename` made at `timestamp` is named `<timestamp>_<filename>`.
pub open spec fn backup_name(timestamp: nat, filename: Seq<char>) -> Seq<char> {
    decimal(timestamp) + seq!['_'] + filename
}

fn digit_str(d: u64) -> (r: &'static str)
    requires
        d < 10,
    ensures
        r@ == seq![digit_char(d as nat)],
{
    proof {
        reveal_strlit("0");
        reveal_strlit("1");
        reveal_strlit("2");
        reveal_strlit("3");
        reveal_strlit("4");
        reveal_strlit("5");
        reveal_strlit("6");
        reveal_strlit("7");
        reveal_strlit("8");
        reveal_strlit("9");
    }
    match d {
        0 => "0",
        1 => "1",
        2 => "2",
        3 => "3",
        4 => "4",
        5 => "5",
        6 => "6",
        7 => "7",
        8 => "8",
        _ => "9",
    }
}

fn push_decimal(s: &mut String, n: u64)
    ensures
        final(s)@ == old(s)@ + decimal(n as nat),
    decreases n,
{
    if n >= 10 {
        push_decimal(s, n / 10);
    }
    s.append(digit_str(n % 10));
    proof {
        if n >= 10 {
            assert(decimal(n as nat) == decimal((n / 10) as nat).push(digit_char((n % 10) as nat)));
        }
    }
    assert(s@ =~= old(s)@ + decimal(n as nat));
}

/// The file name under which a copy of `filename` taken at `timestamp`
/// (seconds since the Unix epoch) is stored.
pub fn backup_file_name(timestamp: u64, filename: &str) -> (r: String)
    ensures
        r@ == backup_name(timestamp as nat, filename@),
{
    let mut s = String::new();
    push_decimal(&mut s, timestamp);
    proof {
        reveal_strlit("_");
    }
    s.append("_");
    s.append(filename);
    assert(s@ =~= backup_name(timestamp as nat, filename@));
    s
}

/// What a backup of a save has to do.
#[derive(Debug)]
pub enum BackupPlan {
    /// A backup with the same contents exists: nothing is written.
    Duplicate,
    /// Delete the listed entries, then write the new backup.
    Write { evict: Vec<usize> },
}

/// Decides a backup of `save` into a directory listed as `files` that keeps
/// at most `max_backups` backups.
pub fn plan_backup(save: &[u8], files: &Vec<BackupFile>, max_backups: usize) -> (r: BackupPlan)
    requires
        max_backups >= 1,
    ensures
        r is Duplicate <==> has_duplicate(files@, content_fingerprint(save@)),
        r is Write ==> is_oldest_first_eviction(files@, max_backups as nat, r->evict@),
{
    if is_dupe_backup(save, files) {
        BackupPlan::Duplicate
    } else {
        BackupPlan::Write { evict: oldest_backups(files, max_backups) }
    }
}

/// The listing `files` without the positions named in `evict`, in order.
pub open spec fn remove_positions(files: Seq<BackupFile>, evict: Seq<usize>) -> Seq<BackupFile>
    decreases files.len(),
{
    if files.len() == 0 {
        files
    } else {
        let rest = remove_positions(files.drop_last(), evict);
        if lists(evict, files.len() - 1) {
            rest
        } else {
            rest.push(files.last())
        }
    }
}

/// `after` is the listing once a backup that was not a duplicate has run on
/// `before`: an oldest-first eviction, then `written` added.
pub open spec fn is_backup_write(
    before: Seq<BackupFile>,
    after: Seq<BackupFile>,
    max_backups: nat,
    written: BackupFile,
) -> bool {
    exists|evict: Seq<usize>|
        #[trigger] is_oldest_first_eviction(before, max_backups, evict) && after == remove_positions(
            before,
            evict,
        ).push(written)
}

/// Whether every entry of a listing is a regular file.
pub open spec fn all_files(files: Seq<BackupFile>) -> bool {
    forall|i: int| 0 <= i < files.len() ==> (#[trigger] files[i]).is_file
}

/// Number of entries of a listing that hold contents with fingerprint `h`.
pub open spec fn count_holding(files: Seq<BackupFile>, h: u64) -> nat
    decreases files.len(),
{
    if files.len() == 0 {
        0
    } else {
        count_holding(files.drop_last(), h) + if holds_fingerprint(files.last(), h) {
            1nat
        } else {
            0nat
        }
    }
}

/// Number of positions in `e` below `n`.
pub open spec fn count_below(e: Seq<usize>, n: int) -> nat
    decreases e.len(),
{
    if e.len() == 0 {
        0
    } else {
        count_below(e.drop_last(), n) + if (e.last() as int) < n {
            1nat
        } else {
            0nat
        }
    }
}

/// No position is named twice.
pub open spec fn distinct(e: Seq<usize>) -> bool {
    forall|a: int, b: int| 0 <= a < b < e.len() ==> e[a] != e[b]
}

proof fn lemma_count_below_zero(e: Seq<usize>)
    ensures
        count_below(e, 0) == 0,
    decreases e.len(),
{
    if e.len() > 0 {
        lemma_count_below_zero(e.drop_last());
    }
}

proof fn lemma_count_below_step(e: Seq<usize>, n: int)
    requires
        distinct(e),
    ensures
        count_below(e, n + 1) == count_below(e, n) + if lists(e, n) {
            1nat
        } else {
            0nat
        },
    decreases e.len(),
{
    if e.len() > 0 {
        let p = e.drop_last();
        assert(distinct(p));
        lemma_count_below_step(p, n);
        if e.last() as int == n {
            if lists(p, n) {
                let k = choose|k: int| 0 <= k < p.len() && p[k] as int == n;
                assert(e[k] == e[e.len() - 1]);
            }
            assert(e[e.len() - 1] as int == n);
        } else {
            if lists(e, n) {
                let k = choose|k: int| 0 <= k < e.len() && e[k] as int == n;
                assert(p[k] as int == n);
            }
            if lists(p, n) {
                let k = choose|k: int| 0 <= k < p.len() && p[k] as int == n;
                assert(e[k] as int == n);
            }
        }
    } else {
        assert(!lists(e, n));
    }
}

proof fn lemma_remove_positions_len(files: Seq<BackupFile>, e: Seq<usize>)
    requires
        distinct(e),
    ensures
        remove_positions(files, e).len() == files.len() - count_below(e, files.len() as int),
    decreases files.len(),
{
    if files.len() == 0 {
        lemma_count_below_zero(e);
    } else {
        let n = files.len() - 1;
        lemma_remove_positions_len(files.drop_last(), e);
        lemma_count_below_step(e, n);
    }
}

proof fn lemma_count_below_all(e: Seq<usize>, n: int)
    requires
        forall|k: int| 0 <= k < e.len() ==> (e[k] as int) < n,
    ensures
        count_below(e, n) == e.len(),
    decreases e.len(),
{
    if e.len() > 0 {
        lemma_count_below_all(e.drop_last(), n);
    }
}

proof fn lemma_count_files_all(files: Seq<BackupFile>)
    requires
        all_files(files),
    ensures
        count_files(files) == files.len(),
    decreases files.len(),
{
    if files.len() > 0 {
        lemma_count_files_all(files.drop_last());
    }
}

proof fn lemma_count_holding_none(files: Seq<BackupFile>, e: Seq<usize>, h: u64)
    requires
        !has_duplicate(files, h),
    ensures
        count_holding(remove_positions(files, e), h) == 0,
    decreases files.len(),
{
    if files.len() > 0 {
        let p = files.drop_last();
        assert(!has_duplicate(p, h)) by {
            if has_duplicate(p, h) {
                let i = choose|i: int| 0 <= i < p.len() && holds_fingerprint(#[trigger] p[i], h);
                assert(files[i] == p[i]);
            }
        }
        lemma_count_holding_none(p, e, h);
        let rest = remove_positions(p, e);
        assert(!holds_fingerprint(files[files.len() - 1], h));
        assert(rest.push(files.last()).drop_last() =~= rest);
    }
}

/// Retention, one step: in a backup directory of regular files, a backup
/// that writes a new file leaves `max_backups` files when at least
/// `max_backups - 1` were there, and one more than before otherwise.
pub proof fn lemma_backup_write_count(
    before: Seq<BackupFile>,
    after: Seq<BackupFile>,
    max_backups: nat,
    written: BackupFile,
)
    requires
        max_backups >= 1,
        all_files(before),
        is_backup_write(before, after, max_backups, written),
    ensures
        after.len() == if before.len() >= max_backups - 1 {
            max_backups as int
        } else {
            before.len() + 1 as int
        },
{
    let evict = choose|evict: Seq<usize>|
        #[trigger] is_oldest_first_eviction(before, max_backups, evict) && after == remove_positions(
            before,
            evict,
        ).push(written);
    lemma_count_files_all(before);
    lemma_remove_positions_len(before, evict);
    lemma_count_below_all(evict, before.len() as int);
}

proof fn lemma_retention_prefix(
    dirs: Seq<Seq<BackupFile>>,
    written: Seq<BackupFile>,
    max_backups: nat,
    i: int,
)
    requires
        max_backups >= 1,
        dirs.len() == written.len() + 1,
        0 <= i < dirs.len(),
        forall|d: int| 0 <= d < dirs.len() ==> all_files(#[trigger] dirs[d]),
        forall|d: int|
            0 <= d < written.len() ==> is_backup_write(
                #[trigger] dirs[d],
                dirs[d + 1],
                max_backups,
                written[d],
            ),
    ensures
        dirs[i].len() >= if i < max_backups {
            i as int
        } else {
            max_backups as int
        },
        i >= 1 ==> dirs[i].len() <= max_backups,
    decreases i,
{
    if i > 0 {
        lemma_retention_prefix(dirs, written, max_backups, i - 1);
        lemma_backup_write_count(dirs[i - 1], dirs[i], max_backups, written[i - 1]);
    }
}

/// Retention: starting from any directory of regular files, after at least
/// `max_backups` backups that each wrote a new file, exactly `max_backups`
/// backups remain. `dirs[d]` is the listing before backup `d`, `written[d]`
/// the file it added.
pub proof fn lemma_retention(dirs: Seq<Seq<BackupFile>>, written: Seq<BackupFile>, max_backups: nat)
    requires
        max_backups >= 1,
        dirs.len() == written.len() + 1,
        written.len() >= max_backups,
        forall|d: int| 0 <= d < dirs.len() ==> all_files(#[trigger] dirs[d]),
        forall|d: int|
            0 <= d < written.len() ==> is_backup_write(
                #[trigger] dirs[d],
                dirs[d + 1],
                max_backups,
                written[d],
            ),
    ensures
        dirs.last().len() == max_backups,
{
    lemma_retention_prefix(dirs, written, max_backups, dirs.len() - 1);
}

/// De-duplication: backing up contents that no backup holds writes one file
/// holding them; a second backup of the same contents then finds that file
/// and writes nothing, so exactly one backup holds them.
pub proof fn lemma_dedup(
    before: Seq<BackupFile>,
    after: Seq<BackupFile>,
    max_backups: nat,
    written: BackupFile,
    save: Seq<u8>,
)
    requires
        !has_duplicate(before, content_fingerprint(save)),
        is_backup_write(before, after, max_backups, written),
        written.is_file,
        written.contents is Some,
        written.contents->0@ == save,
    ensures
        has_duplicate(after, content_fingerprint(save)),
        count_holding(after, content_fingerprint(save)) == 1,
{
    let h = content_fingerprint(save);
    let evict = choose|evict: Seq<usize>|
        #[trigger] is_oldest_first_eviction(before, max_backups, evict) && after == remove_positions(
            before,
            evict,
        ).push(written);
    let kept = remove_positions(before, evict);
    lemma_count_holding_none(before, evict, h);
    assert(after.drop_last() =~= kept);
    assert(holds_fingerprint(after[after.len() - 1], h));
}

} // verus!
