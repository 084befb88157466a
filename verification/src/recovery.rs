//! The recycle bin and the per-skill history of snapshots: which requests
//! they accept, the order they list entries in, the limits a snapshot keeps
//! and the messages they give.
use crate::identity::is_canonical_uuid;
use crate::text::{concat2, decimal_chars, decimal_text};
use vstd::prelude::*;

verus! {

/// `r` holds the entries of `all` newest first (by the number each is
/// paired with), entries of the same age in their original order; `src`
/// gives for each place of `r` the place in `all` it came from.
pub open spec fn newest_first_by<T>(r: Seq<(u64, T)>, all: Seq<(u64, T)>, src: Seq<int>) -> bool {
    &&& r.len() == all.len()
    &&& src.len() == r.len()
    &&& forall|a: int| 0 <= a < r.len() ==> 0 <= #[trigger] src[a] < all.len() && r[a] == all[src[a]]
    &&& forall|a: int, b: int| 0 <= a < b < r.len() ==> #[trigger] src[a] != #[trigger] src[b]
    &&& forall|a: int, b: int| 0 <= a < b < r.len() ==> (#[trigger] r[a]).0 >= (#[trigger] r[b]).0
    &&& forall|a: int, b: int|
        0 <= a < b < r.len() && (#[trigger] r[a]).0 == (#[trigger] r[b]).0 ==> src[a] < src[b]
}

pub open spec fn is_newest_first<T>(r: Seq<(u64, T)>, all: Seq<(u64, T)>) -> bool {
    exists|src: Seq<int>| #[trigger] newest_first_by(r, all, src)
}

/// The entries, newest first; entries of the same age keep their order.
pub fn newest_first<T>(items: Vec<(u64, T)>) -> (r: Vec<(u64, T)>)
    ensures
        is_newest_first(r@, items@),
{
    let ghost all = items@;
    let mut rest = items;
    let mut r: Vec<(u64, T)> = Vec::new();
    let ghost mut src: Seq<int> = seq![];
    let mut i: usize = 0;
    assert(all.len() == rest.len());
    while rest.len() > 0
        invariant
            i + rest.len() == all.len(),
            all.len() <= usize::MAX,
            rest@ == all.skip(i as int),
            newest_first_by(r@, all.take(i as int), src),
        decreases rest.len(),
    {
        let x = rest.remove(0);
        assert(x == all[i as int]);
        assert(all.skip(i + 1) =~= all.skip(i as int).drop_first());
        let mut idx: usize = 0;
        while idx < r.len() && r[idx].0 >= x.0
            invariant
                idx <= r.len(),
                forall|a: int| 0 <= a < idx ==> (#[trigger] r@[a]).0 >= x.0,
            decreases r.len() - idx,
        {
            idx += 1;
        }
        let ghost old_r = r@;
        let ghost old_src = src;
        let ghost key = x.0;
        let ghost pre = all.take(i as int);
        let ghost next = all.take(i + 1);
        r.insert(idx, x);
        proof {
            src = old_src.insert(idx as int, i as int);
            assert(next.len() == i + 1);
            assert forall|a: int| 0 <= a < old_src.len() implies #[trigger] old_src[a] < i by {
                assert(pre.len() == i);
            }
            assert forall|a: int| 0 <= a < r@.len() implies 0 <= #[trigger] src[a] < next.len()
                && r@[a] == next[src[a]] by {
                if a < idx {
                    assert(r@[a] == old_r[a]);
                    assert(src[a] == old_src[a]);
                    assert(pre[old_src[a]] == next[old_src[a]]);
                } else if a == idx {
                    assert(next[i as int] == all[i as int]);
                } else {
                    assert(r@[a] == old_r[a - 1]);
                    assert(src[a] == old_src[a - 1]);
                    assert(pre[old_src[a - 1]] == next[old_src[a - 1]]);
                }
            }
            assert forall|a: int, b: int| 0 <= a < b < r@.len() implies #[trigger] src[a]
                != #[trigger] src[b] by {
                if a < idx && b > idx {
                    assert(src[a] == old_src[a] && src[b] == old_src[b - 1]);
                } else if a < idx && b < idx {
                    assert(src[a] == old_src[a] && src[b] == old_src[b]);
                } else if a > idx {
                    assert(src[a] == old_src[a - 1] && src[b] == old_src[b - 1]);
                } else if a == idx {
                    assert(src[b] == old_src[b - 1]);
                } else {
                    assert(src[a] == old_src[a]);
                }
            }
            assert(idx < old_r.len() ==> old_r[idx as int].0 < key);
            assert forall|a: int, b: int| 0 <= a < b < r@.len() implies (#[trigger] r@[a]).0 >= (
            #[trigger] r@[b]).0 && (r@[a].0 == r@[b].0 ==> src[a] < src[b]) by {
                if b < idx {
                    assert(r@[a] == old_r[a] && r@[b] == old_r[b]);
                    assert(src[a] == old_src[a] && src[b] == old_src[b]);
                } else if b == idx {
                    assert(r@[a] == old_r[a]);
                    assert(src[a] == old_src[a]);
                } else if a == idx {
                    assert(r@[b] == old_r[b - 1]);
                    assert(old_r[idx as int].0 < key);
                    if b - 1 > idx {
                        assert(old_r[idx as int].0 >= old_r[b - 1].0);
                    }
                } else if a < idx {
                    assert(r@[a] == old_r[a] && r@[b] == old_r[b - 1]);
                    assert(src[a] == old_src[a] && src[b] == old_src[b - 1]);
                } else {
                    assert(r@[a] == old_r[a - 1] && r@[b] == old_r[b - 1]);
                    assert(src[a] == old_src[a - 1] && src[b] == old_src[b - 1]);
                }
            }
            assert(newest_first_by(r@, next, src));
        }
        i += 1;
    }
    assert(all.take(i as int) =~= all);
    r
}

pub open spec fn invalid_trash_id_message() -> Seq<char> {
    "Invalid recycle bin ID"@
}

pub open spec fn invalid_snapshot_id_message() -> Seq<char> {
    "Invalid snapshot ID"@
}

/// A recycle bin entry is named by a UUID in its canonical text.
pub fn check_trash_id(id: &str) -> (r: Result<(), String>)
    ensures
        r is Ok <==> crate::identity::uuid_canonical(id@) == Some(id@),
        r matches Err(m) ==> m@ == invalid_trash_id_message(),
{
    if is_canonical_uuid(id) {
        Ok(())
    } else {
        Err(String::from_str("Invalid recycle bin ID"))
    }
}

/// A snapshot is named by a UUID in its canonical text.
pub fn check_snapshot_id(id: &str) -> (r: Result<(), String>)
    ensures
        r is Ok <==> crate::identity::uuid_canonical(id@) == Some(id@),
        r matches Err(m) ==> m@ == invalid_snapshot_id_message(),
{
    if is_canonical_uuid(id) {
        Ok(())
    } else {
        Err(String::from_str("Invalid snapshot ID"))
    }
}

pub open spec fn confirmation_message() -> Seq<char> {
    "Type DELETE to confirm permanent deletion"@
}

/// Permanent deletion is confirmed by typing `DELETE`.
pub fn check_delete_confirmation(confirmation: &str) -> (r: Result<(), String>)
    ensures
        r is Ok <==> confirmation@ == "DELETE"@,
        r matches Err(m) ==> m@ == confirmation_message(),
{
    let expected = String::from_str("DELETE");
    let given = String::from_str(confirmation);
    if given == expected {
        Ok(())
    } else {
        Err(String::from_str("Type DELETE to confirm permanent deletion"))
    }
}

/// A request to recycle skills names at least one.
pub fn check_recycle_request(paths: &Vec<String>) -> (r: Result<(), String>)
    ensures
        r is Ok <==> paths.len() > 0,
        r matches Err(m) ==> m@ == "No Skills selected"@,
{
    if paths.len() == 0 {
        Err(String::from_str("No Skills selected"))
    } else {
        Ok(())
    }
}

/// `s` without repeats, each text where it first occurs.
pub open spec fn first_occurrences(s: Seq<Seq<char>>) -> Seq<Seq<char>>
    decreases s.len(),
{
    if s.len() == 0 {
        s
    } else {
        let rest = first_occurrences(s.drop_last());
        if rest.contains(s.last()) {
            rest
        } else {
            rest.push(s.last())
        }
    }
}

/// The directories to recycle, each once, in the order first named.
pub fn distinct_targets(targets: Vec<String>) -> (r: Vec<String>)
    ensures
        crate::packages::string_views(r@) == first_occurrences(crate::packages::string_views(
            targets@,
        )),
{
    let ghost all = crate::packages::string_views(targets@);
    let mut r: Vec<String> = Vec::new();
    let mut i: usize = 0;
    while i < targets.len()
        invariant
            i <= targets.len(),
            all == crate::packages::string_views(targets@),
            crate::packages::string_views(r@) == first_occurrences(all.take(i as int)),
        decreases targets.len() - i,
    {
        let t = targets[i].clone();
        assert(all.take(i + 1).drop_last() =~= all.take(i as int));
        assert(all[i as int] == t@);
        if !crate::packages::strings_contain(&r, &t) {
            r.push(t);
            assert(crate::packages::string_views(r@) =~= first_occurrences(all.take(i as int)).push(
                all[i as int],
            ));
        }
        i += 1;
    }
    assert(all.take(targets.len() as int) =~= all);
    r
}

/// Each directory is recycled once, and every one named is recycled: the
/// list holds no repeats and the same directories as the request.
pub proof fn law_recycle_targets_once_each(targets: Seq<Seq<char>>)
    ensures
        first_occurrences(targets).no_duplicates(),
        forall|t: Seq<char>| #[trigger] first_occurrences(targets).contains(t) <==> targets.contains(t),
    decreases targets.len(),
{
    if targets.len() > 0 {
        let dl = targets.drop_last();
        law_recycle_targets_once_each(dl);
        let rest = first_occurrences(dl);
        let f = first_occurrences(targets);
        if !rest.contains(targets.last()) {
            assert forall|a: int, b: int| 0 <= a < f.len() && 0 <= b < f.len() && a != b implies f[a]
                != f[b] by {
                if a == f.len() - 1 {
                    assert(f[b] == rest[b]);
                } else if b == f.len() - 1 {
                    assert(f[a] == rest[a]);
                } else {
                    assert(f[a] == rest[a] && f[b] == rest[b]);
                }
            }
        }
        assert forall|t: Seq<char>| #[trigger] f.contains(t) <==> targets.contains(t) by {
            if f.contains(t) {
                let k = choose|k: int| 0 <= k < f.len() && f[k] == t;
                if k < rest.len() {
                    assert(rest[k] == t);
                    assert(rest.contains(t));
                    let w = choose|w: int| 0 <= w < dl.len() && dl[w] == t;
                    assert(targets[w] == t);
                } else {
                    assert(targets[targets.len() - 1] == t);
                }
            }
            if targets.contains(t) {
                let w = choose|w: int| 0 <= w < targets.len() && targets[w] == t;
                if w < dl.len() {
                    assert(dl[w] == t);
                    assert(dl.contains(t));
                    assert(first_occurrences(dl).contains(t));
                    let k = choose|k: int| 0 <= k < rest.len() && rest[k] == t;
                    if !rest.contains(targets.last()) {
                        assert(f[k] == t);
                    }
                    assert(f.contains(t));
                } else if !rest.contains(targets.last()) {
                    assert(f[f.len() - 1] == t);
                } else {
                    assert(t == targets.last());
                }
            }
        }
    }
}

pub open spec fn recycled_message_of(count: nat) -> Seq<char> {
    "已移入回收站 "@ + decimal_chars(count) + " 项 / Recycled "@ + decimal_chars(count) + " Skills"@
}

/// The message of a completed recycle of `count` skills.
pub fn recycled_message(count: u64) -> (r: String)
    ensures
        r@ == recycled_message_of(count as nat),
{
    let n = decimal_text(count as u128);
    let a = concat2("已移入回收站 ", n.as_str());
    let b = concat2(a.as_str(), " 项 / Recycled ");
    let c = concat2(b.as_str(), n.as_str());
    concat2(c.as_str(), " Skills")
}

/// The error of a recycle whose recovery record could not be written, after
/// `count` skills were recycled.
pub fn record_failed_message(count: u64, error: &str) -> (r: String)
    ensures
        r@ == "Recycled "@ + decimal_chars(count as nat) + "; cannot save recovery record: "@ + error@,
{
    let n = decimal_text(count as u128);
    let a = concat2("Recycled ", n.as_str());
    let b = concat2(a.as_str(), "; cannot save recovery record: ");
    concat2(b.as_str(), error)
}

/// The error of a recycle whose move into the bin failed, after `count`
/// skills were recycled.
pub fn move_failed_message(count: u64, error: &str) -> (r: String)
    ensures
        r@ == "已移入回收站 "@ + decimal_chars(count as nat) + " 项；其余未完成 / Recycled "@
            + decimal_chars(count as nat) + "; move failed: "@ + error@,
{
    let n = decimal_text(count as u128);
    let a = concat2("已移入回收站 ", n.as_str());
    let b = concat2(a.as_str(), " 项；其余未完成 / Recycled ");
    let c = concat2(b.as_str(), n.as_str());
    let d = concat2(c.as_str(), "; move failed: ");
    concat2(d.as_str(), error)
}

/// What the recycle bin keeps of a recycled skill.
#[derive(Debug)]
pub struct TrashItem {
    pub id: String,
    pub name: String,
    pub uuid: Option<String>,
    pub original_path: String,
    /// Seconds since the Unix epoch.
    pub deleted_at: u64,
}

/// The record of an entry must carry the entry's own ID.
pub fn check_trash_record(item: &TrashItem, id: &str) -> (r: Result<(), String>)
    ensures
        r is Ok <==> item.id@ == id@,
        r matches Err(m) ==> m@ == "Recycle bin metadata mismatch"@,
{
    let expected = String::from_str(id);
    if item.id == expected {
        Ok(())
    } else {
        Err(String::from_str("Recycle bin metadata mismatch"))
    }
}

/// What a snapshot of a skill records.
#[derive(Debug)]
pub struct Snapshot {
    pub id: String,
    pub skill_uuid: String,
    /// Seconds since the Unix epoch.
    pub created_at: u64,
    /// Why it was taken: `before-update`, `before-edit` or `before-restore`.
    pub reason: String,
}

pub open spec fn snapshot_restorable(
    record_id: Seq<char>,
    record_uuid: Seq<char>,
    id: Seq<char>,
    current_uuid: Option<Seq<char>>,
    content_uuid: Option<Seq<char>>,
) -> bool {
    record_id == id && current_uuid == Some(record_uuid) && content_uuid == Some(record_uuid)
}

/// A snapshot is restored only onto the skill it was taken of: the record is
/// the one asked for, and both the skill and the saved content carry the
/// record's UUID.
pub fn check_snapshot_restore(
    record: &Snapshot,
    id: &str,
    current_uuid: &Option<String>,
    content_uuid: &Option<String>,
) -> (r: Result<(), String>)
    ensures
        r is Ok <==> snapshot_restorable(
            record.id@,
            record.skill_uuid@,
            id@,
            crate::importing::opt_view(*current_uuid),
            crate::importing::opt_view(*content_uuid),
        ),
        r matches Err(m) ==> m@ == "Snapshot UUID mismatch; restore refused"@,
{
    let expected = String::from_str(id);
    let same_id = record.id == expected;
    let current_ok = match current_uuid {
        Some(u) => *u == record.skill_uuid,
        None => false,
    };
    let content_ok = match content_uuid {
        Some(u) => *u == record.skill_uuid,
        None => false,
    };
    if same_id && current_ok && content_ok {
        Ok(())
    } else {
        Err(String::from_str("Snapshot UUID mismatch; restore refused"))
    }
}

/// The snapshots of the skill with the given UUID, in the order found.
pub fn snapshots_of(records: Vec<Snapshot>, skill_uuid: &str) -> (r: Vec<Snapshot>)
    ensures
        r@ == records@.filter(|s: Snapshot| s.skill_uuid@ == skill_uuid@),
{
    let ghost all = records@;
    let ghost pred = |s: Snapshot| s.skill_uuid@ == skill_uuid@;
    let wanted = String::from_str(skill_uuid);
    let mut rest = records;
    let mut r: Vec<Snapshot> = Vec::new();
    let mut i: usize = 0;
    assert(all.len() == rest.len());
    while rest.len() > 0
        invariant
            i + rest.len() == all.len(),
            all.len() <= usize::MAX,
            rest@ == all.skip(i as int),
            wanted@ == skill_uuid@,
            pred == (|s: Snapshot| s.skill_uuid@ == skill_uuid@),
            r@ == all.take(i as int).filter(pred),
        decreases rest.len(),
    {
        let s = rest.remove(0);
        assert(s == all[i as int]);
        assert(all.skip(i + 1) =~= all.skip(i as int).drop_first());
        let ghost next = all.take(i + 1);
        assert(next.drop_last() =~= all.take(i as int));
        reveal(Seq::filter);
        if s.skill_uuid == wanted {
            r.push(s);
        }
        i += 1;
    }
    assert(all.take(i as int) =~= all);
    r
}

/// What a snapshot walk found of one file or directory.
pub struct TreeEntry {
    pub is_link: bool,
    /// Whether it is a Windows junction or other reparse point.
    pub is_reparse_point: bool,
    /// Its size in bytes.
    pub size: u64,
}

/// The largest tree a snapshot copies: 200 MiB.
pub const MAX_SNAPSHOT_BYTES: u64 = 209715200;

pub open spec fn saturating_total(sizes: Seq<TreeEntry>) -> nat
    decreases sizes.len(),
{
    if sizes.len() == 0 {
        0
    } else {
        let t = saturating_total(sizes.drop_last()) + sizes.last().size;
        if t > u64::MAX {
            u64::MAX as nat
        } else {
            t as nat
        }
    }
}

/// The first objection to snapshotting a tree, walking its entries in
/// order: a link, a reparse point, or the running size passing 200 MiB.
pub open spec fn tree_objection(entries: Seq<TreeEntry>) -> Option<Seq<char>>
    decreases entries.len(),
{
    if entries.len() == 0 {
        None
    } else {
        match tree_objection(entries.drop_last()) {
            Some(m) => Some(m),
            None => if entries.last().is_link {
                Some("Snapshots cannot contain symbolic links"@)
            } else if entries.last().is_reparse_point {
                Some("Snapshots cannot contain reparse points"@)
            } else if saturating_total(entries) > MAX_SNAPSHOT_BYTES {
                Some("Snapshot exceeds 200 MiB limit"@)
            } else {
                None
            },
        }
    }
}

/// Whether a tree may be snapshotted: no links or reparse points, and no
/// more than 200 MiB in all.
pub fn check_snapshot_tree(entries: &Vec<TreeEntry>) -> (r: Result<(), String>)
    ensures
        match tree_objection(entries@) {
            None => r is Ok,
            Some(m) => r matches Err(e) && e@ == m,
        },
{
    let mut total: u64 = 0;
    let mut i: usize = 0;
    while i < entries.len()
        invariant
            i <= entries.len(),
            tree_objection(entries@.take(i as int)) is None,
            total == saturating_total(entries@.take(i as int)),
        decreases entries.len() - i,
    {
        let ghost next = entries@.take(i + 1);
        assert(next.drop_last() =~= entries@.take(i as int));
        assert(next.last() == entries@[i as int]);
        if entries[i].is_link {
            proof {
                lemma_objection_prefix(entries@, i + 1);
            }
            return Err(String::from_str("Snapshots cannot contain symbolic links"));
        }
        if entries[i].is_reparse_point {
            proof {
                lemma_objection_prefix(entries@, i + 1);
            }
            return Err(String::from_str("Snapshots cannot contain reparse points"));
        }
        total = total.saturating_add(entries[i].size);
        i += 1;
        if total > MAX_SNAPSHOT_BYTES {
            proof {
                lemma_objection_prefix(entries@, i as int);
            }
            return Err(String::from_str("Snapshot exceeds 200 MiB limit"));
        }
    }
    assert(entries@.take(i as int) =~= entries@);
    Ok(())
}

/// Once a prefix of the walk has an objection, the whole walk has the same.
proof fn lemma_objection_prefix(entries: Seq<TreeEntry>, k: int)
    requires
        0 <= k <= entries.len(),
        tree_objection(entries.take(k)) is Some,
    ensures
        tree_objection(entries) == tree_objection(entries.take(k)),
    decreases entries.len(),
{
    if entries.len() == k {
        assert(entries.take(k) =~= entries);
    } else {
        let dl = entries.drop_last();
        assert(dl.take(k) =~= entries.take(k));
        lemma_objection_prefix(dl, k);
    }
}

pub open spec fn restore_unavailable_message() -> Seq<char> {
    "Original managed directory is unavailable"@
}

pub open spec fn restore_occupied_message() -> Seq<char> {
    "原位置已存在文件，未覆盖。请先处理同名目录 / Original path is occupied"@
}

/// A recycled skill goes back only into a managed skills directory, under
/// its own name, and never over something in its place.
pub fn check_restore_target(parent_is_managed: bool, has_name: bool, occupied: bool) -> (r: Result<
    (),
    String,
>)
    ensures
        r is Ok <==> parent_is_managed && has_name && !occupied,
        !(parent_is_managed && has_name) ==> (r matches Err(e) && e@ == restore_unavailable_message()),
        parent_is_managed && has_name && occupied ==> (r matches Err(e) && e@
            == restore_occupied_message()),
{
    if !parent_is_managed || !has_name {
        Err(String::from_str("Original managed directory is unavailable"))
    } else if occupied {
        Err(String::from_str("原位置已存在文件，未覆盖。请先处理同名目录 / Original path is occupied"))
    } else {
        Ok(())
    }
}

/// A recycled skill is not restored while the library holds another skill
/// with its UUID.
pub fn check_restore_identity(uuid_taken: bool) -> (r: Result<(), String>)
    ensures
        r is Ok <==> !uuid_taken,
        r matches Err(e) ==> e@ == "管理库已存在相同 UUID，请先处理身份冲突 / UUID already exists in library"@,
{
    if uuid_taken {
        Err(String::from_str("管理库已存在相同 UUID，请先处理身份冲突 / UUID already exists in library"))
    } else {
        Ok(())
    }
}

} // verus!
