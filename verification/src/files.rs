//! Which files the widget reads: the kinds it looks at, how much of each, and
//! the newest ones first.

use vstd::prelude::*;
use crate::text::{begins_with, eq_ignore_ascii_case, same_ignoring_ascii_case};

verus! {

/// At most this many of the Anthropic app's local-storage files are read.
pub const MAX_CLAUDE_LOCAL_STORAGE_FILES: usize = 16;

/// Local-storage files of the Anthropic app larger than this many bytes are skipped.
pub const MAX_CLAUDE_LOCAL_STORAGE_FILE_BYTES: u64 = 4194304;

/// At most this many Codex session logs are read.
pub const MAX_CODEX_FILES: usize = 24;

/// The walk over Codex's session directories stops after this many entries.
pub const MAX_CODEX_DIRECTORY_ENTRIES: usize = 4096;

/// Of a Codex session log, at most this many trailing bytes are read.
pub const MAX_CODEX_FILE_TAIL_BYTES: u64 = 2097152;

/// Whether `x` comes before `y` in time, where `None` (no modification time)
/// comes before every time.
pub open spec fn earlier(x: Option<i128>, y: Option<i128>) -> bool {
    match (x, y) {
        (None, Some(_)) => true,
        (Some(p), Some(q)) => p < q,
        _ => false,
    }
}

/// Whether file `a` counts as newer than file `b`: it was modified later, or at
/// the same time and is listed after it.
pub open spec fn newer(files: Seq<(Option<i128>, bool)>, a: int, b: int) -> bool {
    earlier(files[b].0, files[a].0) || (files[a].0 == files[b].0 && a > b)
}

/// `picked` lists, newest first, the `limit` newest of the files marked
/// eligible (all of them where there are fewer): by modification time, and of
/// files modified at the same time the one listed later first, as a stable
/// sort by time that is then reversed orders them. Each file is its
/// modification time and whether it is eligible.
pub open spec fn newest_first_of(files: Seq<(Option<i128>, bool)>, limit: usize, picked: Seq<usize>) -> bool {
    &&& picked.len() <= limit
    &&& forall|k: int| 0 <= k < picked.len() ==> (#[trigger] picked[k]) < files.len() && files[picked[k] as int].1
    &&& forall|k1: int, k2: int| 0 <= k1 < k2 < picked.len() ==> newer(files, picked[k1] as int, picked[k2] as int)
    &&& forall|j: int| 0 <= j < files.len() && (#[trigger] files[j]).1 && !picked.contains(j as usize) ==> {
        &&& picked.len() == limit
        &&& forall|k: int| 0 <= k < picked.len() ==> newer(files, #[trigger] picked[k] as int, j)
    }
}

fn is_earlier(x: Option<i128>, y: Option<i128>) -> (res: bool)
    ensures
        res == earlier(x, y),
{
    match (x, y) {
        (None, Some(_)) => true,
        (Some(p), Some(q)) => p < q,
        _ => false,
    }
}

proof fn lemma_newer_transitive(files: Seq<(Option<i128>, bool)>, a: int, b: int, c: int)
    requires
        newer(files, a, b),
        newer(files, b, c),
    ensures
        newer(files, a, c),
{
}

/// The indices of the `limit` newest eligible files, newest first (see
/// [`newest_first_of`]). Each file is given as its modification time (`None`
/// where it could not be read) and whether it is eligible.
pub fn newest_first(files: &Vec<(Option<i128>, bool)>, limit: usize) -> (res: Vec<usize>)
    ensures
        newest_first_of(files@, limit, res@),
{
    let n = files.len();
    let mut picked: Vec<usize> = Vec::new();
    let mut i: usize = 0;
    while i < n
        invariant
            n == files@.len(),
            i <= n,
            picked@.len() <= limit,
            forall|k: int| 0 <= k < picked@.len() ==> (#[trigger] picked@[k]) < i && files@[picked@[k] as int].1,
            forall|k1: int, k2: int| 0 <= k1 < k2 < picked@.len() ==> newer(files@, picked@[k1] as int, picked@[k2] as int),
            forall|j: int| 0 <= j < i && (#[trigger] files@[j]).1 && !picked@.contains(j as usize) ==> {
                &&& picked@.len() == limit
                &&& forall|k: int| 0 <= k < picked@.len() ==> newer(files@, #[trigger] picked@[k] as int, j)
            },
        decreases n - i,
    {
        if files[i].1 {
            let mut p: usize = 0;
            while p < picked.len() && is_earlier(files[i].0, files[picked[p]].0)
                invariant
                    p <= picked@.len(),
                    files@.len() == n,
                    i < n,
                    forall|k: int| 0 <= k < picked@.len() ==> (#[trigger] picked@[k]) < i,
                    forall|k: int| 0 <= k < p ==> earlier(files@[i as int].0, files@[#[trigger] picked@[k] as int].0),
                decreases picked@.len() - p,
            {
                p = p + 1;
            }
            if p < limit {
                let ghost old_picked = picked@;
                picked.insert(p, i);
                assert(picked@ == old_picked.insert(p as int, i));
                proof {
                    assert forall|k: int| 0 <= k < p implies newer(files@, #[trigger] old_picked[k] as int, i as int) by {}
                    assert forall|k: int| p <= k < old_picked.len() implies newer(files@, i as int, #[trigger] old_picked[k] as int) by {
                        assert(newer(files@, i as int, old_picked[p as int] as int));
                        if k > p {
                            lemma_newer_transitive(files@, i as int, old_picked[p as int] as int, old_picked[k] as int);
                        }
                    }
                    assert forall|k1: int, k2: int| 0 <= k1 < k2 < picked@.len() implies newer(files@, picked@[k1] as int, picked@[k2] as int) by {
                        if k1 < p && k2 > p {
                            lemma_newer_transitive(files@, old_picked[k1] as int, i as int, old_picked[k2 - 1] as int);
                        }
                    }
                }
                if picked.len() > limit {
                    let ghost full = picked@;
                    picked.pop();
                    proof {
                        assert(picked@ == full.drop_last());
                        assert forall|j: int| 0 <= j <= i && (#[trigger] files@[j]).1 && !picked@.contains(j as usize) implies {
                            &&& picked@.len() == limit
                            &&& forall|k: int| 0 <= k < picked@.len() ==> newer(files@, #[trigger] picked@[k] as int, j)
                        } by {
                            if j as usize == full.last() {
                                assert forall|k: int| 0 <= k < picked@.len() implies newer(files@, #[trigger] picked@[k] as int, j) by {
                                    assert(picked@[k] == full[k]);
                                }
                            } else {
                                assert(!old_picked.contains(j as usize)) by {
                                    if old_picked.contains(j as usize) {
                                        let w = choose|w: int| 0 <= w < old_picked.len() && old_picked[w] == j as usize;
                                        if w < p {
                                            assert(full[w] == j as usize);
                                            assert(picked@[w] == j as usize);
                                        } else {
                                            assert(full[w + 1] == j as usize);
                                            if w + 1 < picked@.len() {
                                                assert(picked@[w + 1] == j as usize);
                                            }
                                        }
                                    }
                                }
                                assert(j != i) by {
                                    if j == i {
                                        assert(full[p as int] == i);
                                        assert(picked@[p as int] == i);
                                    }
                                }
                                assert forall|k: int| 0 <= k < picked@.len() implies newer(files@, #[trigger] picked@[k] as int, j) by {
                                    assert(picked@[k] == full[k]);
                                    if k < p {
                                        assert(newer(files@, old_picked[k] as int, j));
                                    } else if k == p {
                                        assert(newer(files@, old_picked[p as int] as int, j));
                                        lemma_newer_transitive(files@, i as int, old_picked[p as int] as int, j);
                                    } else {
                                        assert(newer(files@, old_picked[k - 1] as int, j));
                                    }
                                }
                            }
                        }
                    }
                } else {
                    proof {
                        assert forall|j: int| 0 <= j <= i && (#[trigger] files@[j]).1 && !picked@.contains(j as usize) implies {
                            &&& picked@.len() == limit
                            &&& forall|k: int| 0 <= k < picked@.len() ==> newer(files@, #[trigger] picked@[k] as int, j)
                        } by {
                            if j == i {
                                assert(picked@[p as int] == i);
                            } else {
                                assert(!old_picked.contains(j as usize)) by {
                                    if old_picked.contains(j as usize) {
                                        let w = choose|w: int| 0 <= w < old_picked.len() && old_picked[w] == j as usize;
                                        if w < p {
                                            assert(picked@[w] == j as usize);
                                        } else {
                                            assert(picked@[w + 1] == j as usize);
                                        }
                                    }
                                }
                            }
                        }
                    }
                }
            } else {
                proof {
                    assert forall|j: int| 0 <= j <= i && (#[trigger] files@[j]).1 && !picked@.contains(j as usize) implies {
                        &&& picked@.len() == limit
                        &&& forall|k: int| 0 <= k < picked@.len() ==> newer(files@, #[trigger] picked@[k] as int, j)
                    } by {
                        if j == i {
                            assert forall|k: int| 0 <= k < picked@.len() implies newer(files@, #[trigger] picked@[k] as int, j) by {}
                        }
                    }
                }
            }
        }
        i = i + 1;
    }
    picked
}

/// Whether an extension marks one of the Anthropic app's local-storage files: `ldb`,
/// `sst` or `log`, in any ASCII case.
pub open spec fn is_storage_extension(extension: Seq<char>) -> bool {
    eq_ignore_ascii_case(extension, "ldb"@) || eq_ignore_ascii_case(extension, "sst"@)
        || eq_ignore_ascii_case(extension, "log"@)
}

/// Whether a file is one of the Anthropic app's local-storage files that are read: its
/// extension (`None` where it has none that is valid UTF-8) is a storage
/// extension and its length (`None` where it could not be read) is at most
/// [`MAX_CLAUDE_LOCAL_STORAGE_FILE_BYTES`].
pub fn is_local_storage_file(extension: Option<&str>, len: Option<u64>) -> (res: bool)
    ensures
        res == (match (extension, len) {
            (Some(e), Some(l)) => is_storage_extension(e@) && l <= MAX_CLAUDE_LOCAL_STORAGE_FILE_BYTES,
            _ => false,
        }),
{
    match (extension, len) {
        (Some(e), Some(l)) => (same_ignoring_ascii_case(e, "ldb") || same_ignoring_ascii_case(e, "sst")
            || same_ignoring_ascii_case(e, "log")) && l <= MAX_CLAUDE_LOCAL_STORAGE_FILE_BYTES,
        _ => false,
    }
}

/// Whether a local-storage file is read as a write-ahead log (extension `log`
/// in any ASCII case) rather than as an SSTable.
pub fn is_log_file(extension: Option<&str>) -> (res: bool)
    ensures
        res == (match extension {
            Some(e) => eq_ignore_ascii_case(e@, "log"@),
            None => false,
        }),
{
    match extension {
        Some(e) => same_ignoring_ascii_case(e, "log"),
        None => false,
    }
}

/// Whether a file is a Codex session log: extension `jsonl` in any ASCII case.
pub fn is_session_log(extension: Option<&str>) -> (res: bool)
    ensures
        res == (match extension {
            Some(e) => eq_ignore_ascii_case(e@, "jsonl"@),
            None => false,
        }),
{
    match extension {
        Some(e) => same_ignoring_ascii_case(e, "jsonl"),
        None => false,
    }
}

/// Whether a directory under the app packages holds the Anthropic desktop app: its name
/// begins with `Claude_`.
pub fn is_claude_package(name: &str) -> (res: bool)
    ensures
        res == ("Claude_"@.len() <= name@.len() && name@.subrange(0, "Claude_"@.len() as int) == "Claude_"@),
{
    begins_with(name, "Claude_")
}

/// Where reading a Codex session log of `size` bytes starts: at the last
/// [`MAX_CODEX_FILE_TAIL_BYTES`] bytes of a larger file, else at its start.
pub fn tail_start(size: u64) -> (res: u64)
    ensures
        res == (if size > MAX_CODEX_FILE_TAIL_BYTES { size - MAX_CODEX_FILE_TAIL_BYTES } else { 0 }),
{
    if size > MAX_CODEX_FILE_TAIL_BYTES {
        size - MAX_CODEX_FILE_TAIL_BYTES
    } else {
        0
    }
}

/// What the walk over Codex's session directories does with one entry.
#[derive(Clone, Copy, Debug, PartialEq, Eq, Structural)]
pub enum WalkAction {
    /// Enough entries have been seen: the whole walk ends.
    Stop,
    /// The entry is a directory: walk it next.
    Descend,
    /// The entry is a session log: keep it.
    Keep,
    /// Anything else: go on with the next entry.
    Skip,
}

/// Whether the walk may list another directory after `entries_seen` entries.
pub open spec fn spec_walk_continues(entries_seen: usize) -> bool {
    entries_seen < MAX_CODEX_DIRECTORY_ENTRIES
}

/// Whether the walk may list another directory (see [`spec_walk_continues`]).
pub fn walk_continues(entries_seen: usize) -> (res: bool)
    ensures
        res == spec_walk_continues(entries_seen),
{
    entries_seen < MAX_CODEX_DIRECTORY_ENTRIES
}

/// The walk's count after one more entry (it stops growing at the limit) and
/// what it does with the entry: the count reaching
/// [`MAX_CODEX_DIRECTORY_ENTRIES`] ends the walk; else a directory is walked,
/// a session log kept and anything else passed over.
pub open spec fn spec_walk_entry(entries_seen: usize, is_dir: bool, extension: Option<Seq<char>>) -> (usize, WalkAction) {
    let seen = if entries_seen < MAX_CODEX_DIRECTORY_ENTRIES { (entries_seen + 1) as usize } else { entries_seen };
    let action = if seen >= MAX_CODEX_DIRECTORY_ENTRIES {
        WalkAction::Stop
    } else if is_dir {
        WalkAction::Descend
    } else if (match extension {
        Some(e) => eq_ignore_ascii_case(e, "jsonl"@),
        None => false,
    }) {
        WalkAction::Keep
    } else {
        WalkAction::Skip
    };
    (seen, action)
}

/// One entry of the walk over Codex's session directories (see
/// [`spec_walk_entry`]); `extension` is the entry's extension where it has one
/// that is valid UTF-8.
pub fn walk_entry(entries_seen: usize, is_dir: bool, extension: Option<&str>) -> (res: (usize, WalkAction))
    ensures
        res == spec_walk_entry(entries_seen, is_dir, match extension {
            Some(e) => Some(e@),
            None => None,
        }),
{
    let seen = if entries_seen < MAX_CODEX_DIRECTORY_ENTRIES { entries_seen + 1 } else { entries_seen };
    let action = if seen >= MAX_CODEX_DIRECTORY_ENTRIES {
        WalkAction::Stop
    } else if is_dir {
        WalkAction::Descend
    } else if is_session_log(extension) {
        WalkAction::Keep
    } else {
        WalkAction::Skip
    };
    (seen, action)
}

} // verus!
