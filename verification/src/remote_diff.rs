//! The diff between the local tree and a listing of the remote side, by
//! path and size.

use crate::parallel_sync::DiffStatus;
use crate::parallel_sync::FileDiff;
use crate::strmap::StrMap;
use crate::text::lemma_text_order;
use crate::text::str_lt;
use crate::text::text_lt;
use vstd::prelude::*;

verus! {

/// The size that a listing gives for a path, if it lists the path.
pub open spec fn size_of(listing: Map<Seq<char>, u64>, path: Seq<char>) -> Option<u64> {
    if listing.contains_key(path) {
        Some(listing[path])
    } else {
        None
    }
}

/// How a path compares: added when only the local side has it, deleted when
/// only the remote side has it, modified when the sizes differ, unchanged
/// when they agree.
pub open spec fn status_of(local: Option<u64>, remote: Option<u64>) -> DiffStatus {
    match (local, remote) {
        (Some(l), Some(r)) => if l != r {
            DiffStatus::Modified
        } else {
            DiffStatus::Unchanged
        },
        (Some(_), None) => DiffStatus::Added,
        (None, _) => DiffStatus::Deleted,
    }
}

/// `entry` is the comparison of its path between the two listings, and one
/// of them lists the path.
pub open spec fn is_diff_entry(
    entry: FileDiff,
    local: Map<Seq<char>, u64>,
    remote: Map<Seq<char>, u64>,
) -> bool {
    &&& local.contains_key(entry.path@) || remote.contains_key(entry.path@)
    &&& entry.local_size == size_of(local, entry.path@)
    &&& entry.remote_size == size_of(remote, entry.path@)
    &&& entry.status == status_of(entry.local_size, entry.remote_size)
}

/// The entries are in strictly increasing order of their paths.
pub open spec fn sorted_by_path(diffs: Seq<FileDiff>) -> bool {
    forall|a: int, b: int|
        0 <= a < b < diffs.len() ==> text_lt((#[trigger] diffs[a]).path@, (#[trigger] diffs[b]).path@)
}

/// Some entry has the path.
pub open spec fn lists_path(diffs: Seq<FileDiff>, path: Seq<char>) -> bool {
    exists|m: int| 0 <= m < diffs.len() && (#[trigger] diffs[m]).path@ == path
}

/// `diffs` is the diff of the two listings: one entry for every path that
/// either side lists, each the comparison of its path, sorted by path.
pub open spec fn is_size_diff(
    diffs: Seq<FileDiff>,
    local: Map<Seq<char>, u64>,
    remote: Map<Seq<char>, u64>,
) -> bool {
    &&& sorted_by_path(diffs)
    &&& forall|m: int| 0 <= m < diffs.len() ==> is_diff_entry(#[trigger] diffs[m], local, remote)
    &&& forall|p: Seq<char>|
        local.contains_key(p) || remote.contains_key(p) ==> #[trigger] lists_path(diffs, p)
}

fn insert_sorted(list: &mut Vec<FileDiff>, entry: FileDiff) -> (at: Ghost<int>)
    requires
        sorted_by_path(old(list)@),
        !lists_path(old(list)@, entry.path@),
    ensures
        sorted_by_path(final(list)@),
        0 <= at@ <= old(list)@.len(),
        final(list)@ == old(list)@.insert(at@, entry),
{
    let mut p: usize = 0;
    while p < list.len() && str_lt(list[p].path.as_str(), entry.path.as_str())
        invariant
            p <= list.len(),
            list@ == old(list)@,
            forall|m: int| 0 <= m < p ==> text_lt((#[trigger] list@[m]).path@, entry.path@),
        decreases list.len() - p,
    {
        p = p + 1;
    }
    proof {
        let before = list@;
        let after = before.insert(p as int, entry);
        assert forall|a: int, b: int| 0 <= a < b < after.len() implies text_lt(
            (#[trigger] after[a]).path@,
            (#[trigger] after[b]).path@,
        ) by {
            let a0 = if a < p { a } else { a - 1 };
            let b0 = if b < p { b } else { b - 1 };
            if a == p {
                // the new entry against a later old one
                assert(after[b] == before[b0]);
                assert(before[p as int].path@ != entry.path@);
                lemma_text_order(before[p as int].path@, entry.path@, entry.path@);
                lemma_text_order(entry.path@, before[p as int].path@, before[b0].path@);
            } else if b == p {
                assert(after[a] == before[a0]);
            } else {
                assert(after[a] == before[a0]);
                assert(after[b] == before[b0]);
            }
        }
    }
    list.insert(p, entry);
    Ghost(p as int)
}

fn local_entry(path: &String, size: u64, remote: &StrMap<u64>) -> (entry: FileDiff)
    requires
        remote.wf(),
    ensures
        entry.path@ == path@,
        entry.local_size == Some(size),
        entry.remote_size == size_of(remote@, path@),
        entry.status == status_of(entry.local_size, entry.remote_size),
{
    match remote.get(path.as_str()) {
        Some(remote_size) => FileDiff {
            path: path.clone(),
            status: if size != *remote_size {
                DiffStatus::Modified
            } else {
                DiffStatus::Unchanged
            },
            local_size: Some(size),
            remote_size: Some(*remote_size),
        },
        None => FileDiff {
            path: path.clone(),
            status: DiffStatus::Added,
            local_size: Some(size),
            remote_size: None,
        },
    }
}

/// Compares the sizes of the local files with those of the remote files.
///
/// Every path of either side gets one entry: added, modified when the
/// sizes differ, unchanged, or deleted when only the remote side has it.
/// The entries are sorted by path.
pub fn diff_by_size(local: &StrMap<u64>, remote: &StrMap<u64>) -> (diffs: Vec<FileDiff>)
    requires
        local.wf(),
        remote.wf(),
    ensures
        is_size_diff(diffs@, local@, remote@),
{
    let mut diffs: Vec<FileDiff> = Vec::new();
    let local_count = local.len();
    let mut i: usize = 0;
    proof {
        local.lemma_domain();
        remote.lemma_domain();
    }
    while i < local_count
        invariant
            i <= local_count,
            local.wf(),
            remote.wf(),
            local_count == local.spec_keys().len(),
            sorted_by_path(diffs@),
            forall|m: int| 0 <= m < diffs@.len() ==> is_diff_entry(#[trigger] diffs@[m], local@, remote@),
            forall|m: int|
                0 <= m < diffs@.len() ==> exists|k: int|
                    0 <= k < i && local.spec_keys()[k] == (#[trigger] diffs@[m]).path@,
            forall|k: int| 0 <= k < i ==> lists_path(diffs@, #[trigger] local.spec_keys()[k]),
        decreases local_count - i,
    {
        let path = local.key_at(i);
        let size = *local.value_at(i);
        let entry = local_entry(path, size, remote);
        let ghost before = diffs@;
        proof {
            local.lemma_entry(i as int);
            if lists_path(before, entry.path@) {
                let m = choose|m: int| 0 <= m < before.len() && (#[trigger] before[m]).path@
                    == entry.path@;
                let k = choose|k: int| 0 <= k < i && local.spec_keys()[k] == before[m].path@;
                assert(local.spec_keys()[k] == local.spec_keys()[i as int]);
            }
        }
        let at = insert_sorted(&mut diffs, entry);
        proof {
            assert forall|m: int| 0 <= m < diffs@.len() implies is_diff_entry(
                #[trigger] diffs@[m],
                local@,
                remote@,
            ) && exists|k: int|
                0 <= k < i + 1 && local.spec_keys()[k] == diffs@[m].path@ by {
                if m == at@ {
                    assert(local.spec_keys()[i as int] == diffs@[m].path@);
                } else {
                    let m0 = if m < at@ { m } else { m - 1 };
                    assert(diffs@[m] == before[m0]);
                    let k = choose|k: int| 0 <= k < i && local.spec_keys()[k] == before[m0].path@;
                    assert(0 <= k < i + 1 && local.spec_keys()[k] == diffs@[m].path@);
                }
            }
            assert forall|k: int| 0 <= k < i + 1 implies lists_path(
                diffs@,
                #[trigger] local.spec_keys()[k],
            ) by {
                if k == i {
                    assert(diffs@[at@].path@ == local.spec_keys()[k]);
                } else {
                    let m0 = choose|m: int| 0 <= m < before.len() && (#[trigger] before[m]).path@
                        == local.spec_keys()[k];
                    let m = if m0 < at@ { m0 } else { m0 + 1 };
                    assert(diffs@[m] == before[m0]);
                }
            }
        }
        i = i + 1;
    }
    let remote_count = remote.len();
    let mut j: usize = 0;
    while j < remote_count
        invariant
            j <= remote_count,
            local.wf(),
            remote.wf(),
            remote_count == remote.spec_keys().len(),
            sorted_by_path(diffs@),
            forall|m: int| 0 <= m < diffs@.len() ==> is_diff_entry(#[trigger] diffs@[m], local@, remote@),
            forall|m: int|
                0 <= m < diffs@.len() ==> local@.contains_key((#[trigger] diffs@[m]).path@)
                    || exists|k: int| 0 <= k < j && remote.spec_keys()[k] == diffs@[m].path@,
            forall|k: int|
                0 <= k < local.spec_keys().len() ==> lists_path(
                    diffs@,
                    #[trigger] local.spec_keys()[k],
                ),
            forall|k: int| 0 <= k < j ==> lists_path(diffs@, #[trigger] remote.spec_keys()[k]),
        decreases remote_count - j,
    {
        let path = remote.key_at(j);
        let ghost before = diffs@;
        proof {
            remote.lemma_entry(j as int);
            local.lemma_domain();
        }
        if !local.contains_key(path.as_str()) {
            let size = *remote.value_at(j);
            let entry = FileDiff {
                path: path.clone(),
                status: DiffStatus::Deleted,
                local_size: None,
                remote_size: Some(size),
            };
            proof {
                if lists_path(before, entry.path@) {
                    let m = choose|m: int| 0 <= m < before.len() && (#[trigger] before[m]).path@
                        == entry.path@;
                    if !local@.contains_key(before[m].path@) {
                        let k = choose|k: int| 0 <= k < j && remote.spec_keys()[k] == before[m].path@;
                        assert(remote.spec_keys()[k] == remote.spec_keys()[j as int]);
                    }
                }
            }
            let at = insert_sorted(&mut diffs, entry);
            proof {
                assert forall|m: int| 0 <= m < diffs@.len() implies is_diff_entry(
                    #[trigger] diffs@[m],
                    local@,
                    remote@,
                ) && (local@.contains_key(diffs@[m].path@) || exists|k: int|
                    0 <= k < j + 1 && remote.spec_keys()[k] == diffs@[m].path@) by {
                    if m == at@ {
                        assert(remote.spec_keys()[j as int] == diffs@[m].path@);
                    } else {
                        let m0 = if m < at@ { m } else { m - 1 };
                        assert(diffs@[m] == before[m0]);
                        if !local@.contains_key(before[m0].path@) {
                            let k = choose|k: int|
                                0 <= k < j && remote.spec_keys()[k] == before[m0].path@;
                            assert(0 <= k < j + 1 && remote.spec_keys()[k] == diffs@[m].path@);
                        }
                    }
                }
                assert forall|p: Seq<char>| lists_path(before, p) implies lists_path(diffs@, p) by {
                    let m0 = choose|m: int| 0 <= m < before.len() && (#[trigger] before[m]).path@
                        == p;
                    let m = if m0 < at@ { m0 } else { m0 + 1 };
                    assert(diffs@[m] == before[m0]);
                }
                assert(diffs@[at@].path@ == remote.spec_keys()[j as int]);
            }
        } else {
            proof {
                let at = local.spec_keys().index_of(path@);
                assert(lists_path(diffs@, local.spec_keys()[at]));
            }
        }
        j = j + 1;
    }
    proof {
        local.lemma_domain();
        remote.lemma_domain();
        assert forall|p: Seq<char>| local@.contains_key(p) || remote@.contains_key(
            p,
        ) implies #[trigger] lists_path(diffs@, p) by {
            if local@.contains_key(p) {
                let k = local.spec_keys().index_of(p);
                assert(lists_path(diffs@, local.spec_keys()[k]));
            } else {
                let k = remote.spec_keys().index_of(p);
                assert(lists_path(diffs@, remote.spec_keys()[k]));
            }
        }
    }
    diffs
}

} // verus!
