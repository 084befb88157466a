//! What a backup of the managed skills to GitHub decides between its calls:
//! which local files are taken and in what order, whether the remote backup
//! is a plain folder of plain files, whether anything changed, which file
//! contents must be uploaded, and when a commit is made.
use crate::github_sync::SyncConfig;
use crate::library::{lemma_text_lt_asymmetric, lemma_text_lt_irreflexive, text_less, text_lt};
use crate::text::{chars_of, string_of};
use vstd::prelude::*;

verus! {

/// The largest file a backup takes: 5 MiB.
pub const MAX_SYNC_FILE_BYTES: u64 = 5242880;

/// The most bytes a backup takes in all: 20 MiB.
pub const MAX_SYNC_TOTAL_BYTES: usize = 20971520;

/// The most files a backup takes.
pub const MAX_SYNC_FILES: usize = 500;

pub open spec fn link_message() -> Seq<char> {
    "Sync stopped: symbolic links or junctions are not supported in managed Skills"@
}

pub open spec fn outside_message() -> Seq<char> {
    "File is outside managed storage"@
}

pub open spec fn file_too_large_message() -> Seq<char> {
    "A file exceeds the 5 MiB sync limit"@
}

pub open spec fn limit_message() -> Seq<char> {
    "Sync limit exceeded: 500 files / 20 MiB"@
}

/// What the walk of the managed storage found of one entry, before reading it.
pub struct WalkEntry {
    /// A symbolic link, junction or other reparse point.
    pub is_link: bool,
    pub is_file: bool,
    /// Whether it resolves inside the managed storage.
    pub inside_storage: bool,
    /// Its size on disk.
    pub size: u64,
}

/// Whether a walked entry is read into the backup (`Ok(true)`), passed over
/// (`Ok(false)`, not a file), or stops the backup.
pub open spec fn entry_verdict(e: WalkEntry) -> Result<bool, Seq<char>> {
    if e.is_link {
        Err(link_message())
    } else if !e.is_file {
        Ok(false)
    } else if !e.inside_storage {
        Err(outside_message())
    } else if e.size > MAX_SYNC_FILE_BYTES {
        Err(file_too_large_message())
    } else {
        Ok(true)
    }
}

pub fn check_walk_entry(entry: &WalkEntry) -> (r: Result<bool, String>)
    ensures
        match entry_verdict(*entry) {
            Ok(b) => r == Ok::<bool, String>(b),
            Err(m) => r matches Err(e) && e@ == m,
        },
{
    if entry.is_link {
        Err(
            String::from_str(
                "Sync stopped: symbolic links or junctions are not supported in managed Skills",
            ),
        )
    } else if !entry.is_file {
        Ok(false)
    } else if !entry.inside_storage {
        Err(String::from_str("File is outside managed storage"))
    } else if entry.size > MAX_SYNC_FILE_BYTES {
        Err(String::from_str("A file exceeds the 5 MiB sync limit"))
    } else {
        Ok(true)
    }
}

/// Adds a file of `len` bytes to a backup that has `count` files and `total`
/// bytes so far: the new total, or the limit error where the total passes
/// 20 MiB or 500 files are taken already.
pub fn add_to_backup(total: usize, count: usize, len: usize) -> (r: Result<usize, String>)
    ensures
        total + len > MAX_SYNC_TOTAL_BYTES || count >= MAX_SYNC_FILES ==> (r matches Err(e) && e@
            == limit_message()),
        !(total + len > MAX_SYNC_TOTAL_BYTES || count >= MAX_SYNC_FILES) ==> r == Ok::<
            usize,
            String,
        >((total + len) as usize),
{
    if len > MAX_SYNC_TOTAL_BYTES || total > MAX_SYNC_TOTAL_BYTES - len || count >= MAX_SYNC_FILES {
        Err(String::from_str("Sync limit exceeded: 500 files / 20 MiB"))
    } else {
        Ok(total + len)
    }
}

/// A backup needs the managed skills directory, so an emptied store never
/// erases the remote backup.
pub fn check_skills_directory(present: bool) -> (r: Result<(), String>)
    ensures
        r is Ok <==> present,
        r matches Err(e) ==> e@
            == "Managed Skills directory is missing; refusing to erase the backup"@,
{
    if present {
        Ok(())
    } else {
        Err(String::from_str("Managed Skills directory is missing; refusing to erase the backup"))
    }
}

/// A backup with no files is refused.
pub fn check_files_found(count: usize) -> (r: Result<(), String>)
    ensures
        r is Ok <==> count > 0,
        r matches Err(e) ==> e@
            == "No managed files to upload; refusing to erase the remote backup"@,
{
    if count > 0 {
        Ok(())
    } else {
        Err(String::from_str("No managed files to upload; refusing to erase the remote backup"))
    }
}

/// The name a file is uploaded under: its path below the storage root with
/// `/` between components.
pub open spec fn upload_name_of(relative: Seq<char>) -> Seq<char> {
    relative.map_values(|c: char| if c == '\\' { '/' } else { c })
}

pub fn upload_name(relative: &str) -> (r: String)
    ensures
        r@ == upload_name_of(relative@),
{
    let v = chars_of(relative);
    let mut w: Vec<char> = Vec::new();
    let mut i: usize = 0;
    while i < v.len()
        invariant
            i <= v.len(),
            w@ == upload_name_of(v@.subrange(0, i as int)),
        decreases v.len() - i,
    {
        let c = if v[i] == '\\' {
            '/'
        } else {
            v[i]
        };
        w.push(c);
        assert(upload_name_of(v@.subrange(0, i + 1)) =~= upload_name_of(
            v@.subrange(0, i as int),
        ).push(c));
        i += 1;
    }
    assert(v@.subrange(0, v.len() as int) =~= v@);
    string_of(&w)
}

/// `r` holds the entries of `all` ordered by name, entries of the same name
/// in their original order; `src` gives for each place of `r` the place in
/// `all` it came from.
pub open spec fn by_name_from<T>(r: Seq<(String, T)>, all: Seq<(String, T)>, src: Seq<int>) -> bool {
    &&& r.len() == all.len()
    &&& src.len() == r.len()
    &&& forall|a: int| 0 <= a < r.len() ==> 0 <= #[trigger] src[a] < all.len() && r[a] == all[src[a]]
    &&& forall|a: int, b: int| 0 <= a < b < r.len() ==> #[trigger] src[a] != #[trigger] src[b]
    &&& forall|a: int, b: int|
        0 <= a < b < r.len() ==> !text_lt((#[trigger] r[b]).0@, (#[trigger] r[a]).0@)
    &&& forall|a: int, b: int|
        0 <= a < b < r.len() && (#[trigger] r[a]).0@ == (#[trigger] r[b]).0@ ==> src[a] < src[b]
}

pub open spec fn is_sorted_by_name<T>(r: Seq<(String, T)>, all: Seq<(String, T)>) -> bool {
    exists|src: Seq<int>| #[trigger] by_name_from(r, all, src)
}

/// The files ordered by name, as `String` comparison orders them.
pub fn sort_by_name<T>(items: Vec<(String, T)>) -> (r: Vec<(String, T)>)
    ensures
        is_sorted_by_name(r@, items@),
{
    let ghost all = items@;
    let mut rest = items;
    let mut r: Vec<(String, T)> = Vec::new();
    let ghost mut src: Seq<int> = seq![];
    let mut i: usize = 0;
    assert(all.len() == rest.len());
    while rest.len() > 0
        invariant
            i + rest.len() == all.len(),
            all.len() <= usize::MAX,
            rest@ == all.skip(i as int),
            by_name_from(r@, all.take(i as int), src),
        decreases rest.len(),
    {
        let x = rest.remove(0);
        assert(x == all[i as int]);
        assert(all.skip(i + 1) =~= all.skip(i as int).drop_first());
        let key = chars_of(x.0.as_str());
        let mut idx: usize = 0;
        while idx < r.len() && !text_less(&key, &chars_of(r[idx].0.as_str()))
            invariant
                idx <= r.len(),
                key@ == x.0@,
                forall|a: int| 0 <= a < idx ==> !text_lt(x.0@, (#[trigger] r@[a]).0@),
            decreases r.len() - idx,
        {
            idx += 1;
        }
        let ghost old_r = r@;
        let ghost old_src = src;
        let ghost k = x.0@;
        let ghost pre = all.take(i as int);
        let ghost next = all.take(i + 1);
        r.insert(idx, x);
        proof {
            src = old_src.insert(idx as int, i as int);
            assert(next.len() == i + 1);
            assert forall|a: int| 0 <= a < old_src.len() implies #[trigger] old_src[a] < i by {
                assert(pre.len() == i);
            }
            assert forall|a: int| 0 <= a < r@.len() implies 0 <= #[trigger] src[a] < next.len()
                && r@[a] == next[src[a]] by {
                if a < idx {
                    assert(r@[a] == old_r[a]);
                    assert(src[a] == old_src[a]);
                    assert(pre[old_src[a]] == next[old_src[a]]);
                } else if a == idx {
                    assert(next[i as int] == all[i as int]);
                } else {
                    assert(r@[a] == old_r[a - 1]);
                    assert(src[a] == old_src[a - 1]);
                    assert(pre[old_src[a - 1]] == next[old_src[a - 1]]);
                }
            }
            assert forall|a: int, b: int| 0 <= a < b < r@.len() implies #[trigger] src[a]
                != #[trigger] src[b] by {
                if a < idx && b > idx {
                    assert(src[a] == old_src[a] && src[b] == old_src[b - 1]);
                } else if a < idx && b < idx {
                    assert(src[a] == old_src[a] && src[b] == old_src[b]);
                } else if a > idx {
                    assert(src[a] == old_src[a - 1] && src[b] == old_src[b - 1]);
                } else if a == idx {
                    assert(src[b] == old_src[b - 1]);
                } else {
                    assert(src[a] == old_src[a]);
                }
            }
            assert(idx < old_r.len() ==> text_lt(k, old_r[idx as int].0@));
            assert forall|a: int, b: int| 0 <= a < b < r@.len() implies !text_lt(
                (#[trigger] r@[b]).0@,
                (#[trigger] r@[a]).0@,
            ) && (r@[a].0@ == r@[b].0@ ==> src[a] < src[b]) by {
                if b < idx {
                    assert(r@[a] == old_r[a] && r@[b] == old_r[b]);
                    assert(src[a] == old_src[a] && src[b] == old_src[b]);
                } else if b == idx {
                    assert(r@[a] == old_r[a]);
                    assert(src[a] == old_src[a]);
                } else if a == idx {
                    assert(r@[b] == old_r[b - 1]);
                    if b - 1 > idx {
                        assert(!text_lt(old_r[b - 1].0@, old_r[idx as int].0@));
                        if text_lt(old_r[b - 1].0@, k) {
                            crate::library::lemma_text_lt_transitive(
                                old_r[b - 1].0@,
                                k,
                                old_r[idx as int].0@,
                            );
                        }
                    } else {
                        lemma_text_lt_asymmetric(k, old_r[idx as int].0@);
                    }
                    if r@[a].0@ == r@[b].0@ {
                        lemma_text_lt_irreflexive(k);
                        if b - 1 > idx {
                            assert(!text_lt(old_r[b - 1].0@, old_r[idx as int].0@));
                        }
                    }
                } else if a < idx {
                    assert(r@[a] == old_r[a] && r@[b] == old_r[b - 1]);
                    assert(src[a] == old_src[a] && src[b] == old_src[b - 1]);
                } else {
                    assert(r@[a] == old_r[a - 1] && r@[b] == old_r[b - 1]);
                    assert(src[a] == old_src[a - 1] && src[b] == old_src[b - 1]);
                }
            }
            assert(by_name_from(r@, next, src));
        }
        i += 1;
    }
    assert(all.take(i as int) =~= all);
    r
}

/// An entry of a GitHub tree listing, as plain text (a missing kind or mode
/// is empty).
pub struct RemoteEntry {
    pub path: Option<String>,
    /// `tree` or `blob` (or another kind).
    pub kind: String,
    pub mode: String,
    pub sha: Option<String>,
}

pub open spec fn folder_message() -> Seq<char> {
    "Remote SkillManager path is not a directory"@
}

/// The first entry of the repository's root named `SkillManager`.
pub open spec fn first_backup_entry(entries: Seq<RemoteEntry>) -> Option<int>
    decreases entries.len(),
{
    if entries.len() == 0 {
        None
    } else {
        match first_backup_entry(entries.drop_last()) {
            Some(k) => Some(k),
            None => if crate::importing::opt_view(entries.last().path) == Some("SkillManager"@) {
                Some(entries.len() - 1)
            } else {
                None
            },
        }
    }
}

/// The remote backup folder, from the root listing: its tree ID where there
/// is one (`None` where there is no backup yet); an error where the name is
/// taken by something other than a folder.
pub open spec fn backup_folder_of(entries: Seq<RemoteEntry>) -> Result<Option<Seq<char>>, Seq<char>> {
    match first_backup_entry(entries) {
        None => Ok(None),
        Some(k) => if entries[k].kind@ != "tree"@ {
            Err(folder_message())
        } else {
            match entries[k].sha {
                Some(s) => Ok(Some(s@)),
                None => Ok(None),
            }
        },
    }
}

proof fn lemma_first_backup_entry(entries: Seq<RemoteEntry>)
    ensures
        match first_backup_entry(entries) {
            Some(k) => 0 <= k < entries.len() && crate::importing::opt_view(entries[k].path) == Some("SkillManager"@) && forall|j: int|
                0 <= j < k ==> crate::importing::opt_view((#[trigger] entries[j]).path) != Some("SkillManager"@),
            None => forall|j: int|
                0 <= j < entries.len() ==> crate::importing::opt_view((#[trigger] entries[j]).path) != Some("SkillManager"@),
        },
    decreases entries.len(),
{
    if entries.len() > 0 {
        let dl = entries.drop_last();
        lemma_first_backup_entry(dl);
        assert forall|j: int| 0 <= j < dl.len() implies dl[j] == entries[j] by {}
    }
}

pub fn backup_folder(entries: &Vec<RemoteEntry>) -> (r: Result<Option<String>, String>)
    ensures
        match backup_folder_of(entries@) {
            Ok(o) => r matches Ok(x) && crate::importing::opt_view(x) == o,
            Err(m) => r matches Err(e) && e@ == m,
        },
{
    proof {
        lemma_first_backup_entry(entries@);
    }
    let name = String::from_str("SkillManager");
    let tree = String::from_str("tree");
    let mut i: usize = 0;
    while i < entries.len()
        invariant
            i <= entries.len(),
            name@ == "SkillManager"@,
            tree@ == "tree"@,
            forall|j: int| 0 <= j < i ==> crate::importing::opt_view((#[trigger] entries@[j]).path) != Some("SkillManager"@),
        decreases entries.len() - i,
    {
        let is_backup = match &entries[i].path {
            Some(p) => *p == name,
            None => false,
        };
        if is_backup {
            proof {
                lemma_first_backup_entry(entries@);
                let m = first_backup_entry(entries@);
                if let Some(k) = m {
                    if k < i {
                        assert(crate::importing::opt_view(entries@[k].path) != Some("SkillManager"@));
                    } else if k > i {
                        assert(crate::importing::opt_view(entries@[i as int].path) != Some("SkillManager"@));
                    }
                }
                assert(m == Some(i as int));
            }
            if entries[i].kind != tree {
                return Err(String::from_str("Remote SkillManager path is not a directory"));
            }
            return match &entries[i].sha {
                Some(s) => Ok(Some(s.clone())),
                None => Ok(None),
            };
        }
        i += 1;
    }
    proof {
        lemma_first_backup_entry(entries@);
        if let Some(k) = first_backup_entry(entries@) {
            assert(crate::importing::opt_view(entries@[k].path) != Some("SkillManager"@));
        }
    }
    Ok(None)
}

/// The message for a listing GitHub cut short.
pub fn check_listing_complete(truncated: bool, of_backup: bool) -> (r: Result<(), String>)
    ensures
        r is Ok <==> !truncated,
        r matches Err(e) ==> e@ == if of_backup {
            "Remote backup tree is too large"@
        } else {
            "Repository tree is too large"@
        },
{
    if !truncated {
        Ok(())
    } else if of_backup {
        Err(String::from_str("Remote backup tree is too large"))
    } else {
        Err(String::from_str("Repository tree is too large"))
    }
}

pub open spec fn modes_message() -> Seq<char> {
    "Remote backup contains unsupported file modes; manual review required"@
}

/// The files of the remote backup as (path, content ID) pairs, from its
/// recursive listing: folders are passed over; anything but a plain file
/// stops the backup, as does a file without a path or an ID.
pub open spec fn remote_files_of(items: Seq<RemoteEntry>) -> Result<Seq<(Seq<char>, Seq<char>)>, Seq<char>>
    decreases items.len(),
{
    if items.len() == 0 {
        Ok(seq![])
    } else {
        match remote_files_of(items.drop_last()) {
            Err(m) => Err(m),
            Ok(done) => {
                let it = items.last();
                if it.kind@ == "tree"@ {
                    Ok(done)
                } else if it.kind@ != "blob"@ || it.mode@ != "100644"@ {
                    Err(modes_message())
                } else {
                    match it.path {
                        None => Err("Missing GitHub field: path"@),
                        Some(p) => match it.sha {
                            None => Err("Missing GitHub field: sha"@),
                            Some(s) => Ok(done.push((p@, s@))),
                        },
                    }
                }
            },
        }
    }
}

pub open spec fn pair_views(v: Seq<(String, String)>) -> Seq<(Seq<char>, Seq<char>)> {
    v.map_values(|p: (String, String)| (p.0@, p.1@))
}

pub fn remote_files(items: &Vec<RemoteEntry>) -> (r: Result<Vec<(String, String)>, String>)
    ensures
        match remote_files_of(items@) {
            Ok(fs) => r matches Ok(v) && pair_views(v@) == fs,
            Err(m) => r matches Err(e) && e@ == m,
        },
{
    let tree = String::from_str("tree");
    let blob = String::from_str("blob");
    let mode = String::from_str("100644");
    let mut out: Vec<(String, String)> = Vec::new();
    let mut i: usize = 0;
    assert(items@.take(0) =~= Seq::<RemoteEntry>::empty());
    assert(pair_views(out@) =~= Seq::<(Seq<char>, Seq<char>)>::empty());
    while i < items.len()
        invariant
            i <= items.len(),
            tree@ == "tree"@,
            blob@ == "blob"@,
            mode@ == "100644"@,
            remote_files_of(items@.take(i as int)) == Ok::<_, Seq<char>>(pair_views(out@)),
        decreases items.len() - i,
    {
        let ghost next = items@.take(i + 1);
        assert(next.drop_last() =~= items@.take(i as int));
        assert(next.last() == items@[i as int]);
        let it = &items[i];
        let ghost before = pair_views(out@);
        if it.kind == tree {
            assert(remote_files_of(next) == Ok::<_, Seq<char>>(before));
        } else if it.kind != blob || it.mode != mode {
            proof {
                lemma_remote_files_prefix(items@, i + 1);
            }
            return Err(
                String::from_str(
                    "Remote backup contains unsupported file modes; manual review required",
                ),
            );
        } else {
            match (&it.path, &it.sha) {
                (None, _) => {
                    proof {
                        lemma_remote_files_prefix(items@, i + 1);
                    }
                    return Err(String::from_str("Missing GitHub field: path"));
                },
                (Some(_), None) => {
                    proof {
                        lemma_remote_files_prefix(items@, i + 1);
                    }
                    return Err(String::from_str("Missing GitHub field: sha"));
                },
                (Some(p), Some(s)) => {
                    out.push((p.clone(), s.clone()));
                    assert(pair_views(out@) =~= before.push((p@, s@)));
                    assert(remote_files_of(next) == Ok::<_, Seq<char>>(before.push((p@, s@))));
                },
            }
        }
        i += 1;
    }
    assert(items@.take(i as int) =~= items@);
    Ok(out)
}

proof fn lemma_remote_files_prefix(items: Seq<RemoteEntry>, k: int)
    requires
        0 <= k <= items.len(),
        remote_files_of(items.take(k)) is Err,
    ensures
        remote_files_of(items) == remote_files_of(items.take(k)),
    decreases items.len(),
{
    if items.len() == k {
        assert(items.take(k) =~= items);
    } else {
        let dl = items.drop_last();
        assert(dl.take(k) =~= items.take(k));
        lemma_remote_files_prefix(dl, k);
    }
}

/// The content ID a list of (path, ID) pairs gives a path: the last one
/// listed for it, as a map built from the list keeps.
pub open spec fn id_of(pairs: Seq<(Seq<char>, Seq<char>)>, path: Seq<char>) -> Option<Seq<char>>
    decreases pairs.len(),
{
    if pairs.len() == 0 {
        None
    } else if pairs.last().0 == path {
        Some(pairs.last().1)
    } else {
        id_of(pairs.drop_last(), path)
    }
}

/// The local files and the remote backup hold the same contents under the
/// same paths.
pub open spec fn same_contents(local: Seq<(Seq<char>, Seq<char>)>, remote: Seq<(Seq<char>, Seq<char>)>) -> bool {
    forall|p: Seq<char>| #[trigger] id_of(local, p) == id_of(remote, p)
}

proof fn lemma_id_of_absent(pairs: Seq<(Seq<char>, Seq<char>)>, path: Seq<char>)
    requires
        forall|j: int| 0 <= j < pairs.len() ==> (#[trigger] pairs[j]).0 != path,
    ensures
        id_of(pairs, path) is None,
    decreases pairs.len(),
{
    if pairs.len() > 0 {
        let dl = pairs.drop_last();
        assert forall|j: int| 0 <= j < dl.len() implies (#[trigger] dl[j]).0 != path by {
            assert(dl[j] == pairs[j]);
        }
        lemma_id_of_absent(dl, path);
    }
}

fn id_in(pairs: &Vec<(String, String)>, path: &String) -> (r: Option<String>)
    ensures
        crate::importing::opt_view(r) == id_of(pair_views(pairs@), path@),
{
    let mut i: usize = pairs.len();
    assert(pair_views(pairs@).take(pairs.len() as int) =~= pair_views(pairs@));
    while i > 0
        invariant
            i <= pairs.len(),
            id_of(pair_views(pairs@), path@) == id_of(pair_views(pairs@).take(i as int), path@),
        decreases i,
    {
        let ghost t = pair_views(pairs@).take(i as int);
        assert(t.drop_last() =~= pair_views(pairs@).take(i - 1));
        assert(t.last() == (pairs@[i - 1].0@, pairs@[i - 1].1@));
        if pairs[i - 1].0 == *path {
            return Some(pairs[i - 1].1.clone());
        }
        i -= 1;
    }
    None
}

fn agrees_on(a: &Vec<(String, String)>, b: &Vec<(String, String)>) -> (r: bool)
    ensures
        r == forall|j: int|
            0 <= j < a.len() ==> id_of(pair_views(a@), #[trigger] a@[j].0@) == id_of(
                pair_views(b@),
                a@[j].0@,
            ),
{
    let mut i: usize = 0;
    while i < a.len()
        invariant
            i <= a.len(),
            forall|j: int|
                0 <= j < i ==> id_of(pair_views(a@), #[trigger] a@[j].0@) == id_of(
                    pair_views(b@),
                    a@[j].0@,
                ),
        decreases a.len() - i,
    {
        let x = id_in(a, &a[i].0);
        let y = id_in(b, &a[i].0);
        let same = match x {
            Some(p) => match y {
                Some(q) => p == q,
                None => false,
            },
            None => y.is_none(),
        };
        if !same {
            return false;
        }
        i += 1;
    }
    true
}

/// Whether the local files are what the remote backup holds already.
pub fn unchanged(local: &Vec<(String, String)>, remote: &Vec<(String, String)>) -> (r: bool)
    ensures
        r == same_contents(pair_views(local@), pair_views(remote@)),
{
    let x = agrees_on(local, remote);
    let y = agrees_on(remote, local);
    proof {
        let lv = pair_views(local@);
        let rv = pair_views(remote@);
        if x && y {
            assert forall|p: Seq<char>| #[trigger] id_of(lv, p) == id_of(rv, p) by {
                if exists|j: int| 0 <= j < local.len() && local@[j].0@ == p {
                    let j = choose|j: int| 0 <= j < local.len() && local@[j].0@ == p;
                    assert(id_of(lv, local@[j].0@) == id_of(rv, local@[j].0@));
                } else if exists|j: int| 0 <= j < remote.len() && remote@[j].0@ == p {
                    let j = choose|j: int| 0 <= j < remote.len() && remote@[j].0@ == p;
                    assert(id_of(rv, remote@[j].0@) == id_of(lv, remote@[j].0@));
                } else {
                    assert forall|j: int| 0 <= j < lv.len() implies (#[trigger] lv[j]).0 != p by {
                        assert(lv[j].0 == local@[j].0@);
                    }
                    assert forall|j: int| 0 <= j < rv.len() implies (#[trigger] rv[j]).0 != p by {
                        assert(rv[j].0 == remote@[j].0@);
                    }
                    lemma_id_of_absent(lv, p);
                    lemma_id_of_absent(rv, p);
                }
            }
        }
        if !x {
            let j = choose|j: int|
                0 <= j < local.len() && !(id_of(lv, #[trigger] local@[j].0@) == id_of(
                    rv,
                    local@[j].0@,
                ));
            assert(!(id_of(lv, local@[j].0@) == id_of(rv, local@[j].0@)));
        }
        if x && !y {
            let j = choose|j: int|
                0 <= j < remote.len() && !(id_of(rv, #[trigger] remote@[j].0@) == id_of(
                    lv,
                    remote@[j].0@,
                ));
            assert(!(id_of(rv, remote@[j].0@) == id_of(lv, remote@[j].0@)));
        }
    }
    x && y
}

/// Which local files need their content uploaded: those whose content ID the
/// remote backup does not hold under any path.
pub fn contents_to_upload(local: &Vec<(String, String)>, remote: &Vec<(String, String)>) -> (r: Vec<
    bool,
>)
    ensures
        r.len() == local.len(),
        forall|i: int|
            0 <= i < local.len() ==> r@[i] == !pair_views(remote@).map_values(
                |p: (Seq<char>, Seq<char>)| p.1,
            ).contains(#[trigger] local@[i].1@),
{
    let ghost known = pair_views(remote@).map_values(|p: (Seq<char>, Seq<char>)| p.1);
    let mut r: Vec<bool> = Vec::new();
    let mut i: usize = 0;
    while i < local.len()
        invariant
            i <= local.len(),
            known == pair_views(remote@).map_values(|p: (Seq<char>, Seq<char>)| p.1),
            r.len() == i,
            forall|k: int| 0 <= k < i ==> r@[k] == !known.contains(#[trigger] local@[k].1@),
        decreases local.len() - i,
    {
        let mut found = false;
        let mut j: usize = 0;
        while j < remote.len()
            invariant
                j <= remote.len(),
                i < local.len(),
                known == pair_views(remote@).map_values(|p: (Seq<char>, Seq<char>)| p.1),
                known.len() == remote.len(),
                found ==> known.contains(local@[i as int].1@),
                !found ==> forall|k: int| 0 <= k < j ==> known[k] != local@[i as int].1@,
            decreases remote.len() - j,
        {
            assert(known[j as int] == remote@[j as int].1@);
            if remote[j].1 == local[i].1 {
                found = true;
            }
            j += 1;
        }
        r.push(!found);
        i += 1;
    }
    r
}

/// GitHub must give back the content ID computed here for an uploaded
/// content.
pub fn check_uploaded_id(returned: &str, expected: &str) -> (r: Result<(), String>)
    ensures
        r is Ok <==> returned@ == expected@,
        r matches Err(e) ==> e@ == "GitHub blob checksum mismatch"@,
{
    let a = String::from_str(returned);
    let b = String::from_str(expected);
    if a == b {
        Ok(())
    } else {
        Err(String::from_str("GitHub blob checksum mismatch"))
    }
}

/// The local files must not change while a backup is uploaded.
pub fn check_unchanged_meanwhile(same: bool) -> (r: Result<(), String>)
    ensures
        r is Ok <==> same,
        r matches Err(e) ==> e@
            == "Local Skills changed during upload; no commit was published. Retry once changes finish."@,
{
    if same {
        Ok(())
    } else {
        Err(
            String::from_str(
                "Local Skills changed during upload; no commit was published. Retry once changes finish.",
            ),
        )
    }
}

/// A commit is made only where the uploaded folder differs from the remote
/// one.
pub fn needs_commit(remote: &Option<String>, desired: &str) -> (r: bool)
    ensures
        r == (crate::importing::opt_view(*remote) != Some(desired@)),
{
    match remote {
        Some(s) => {
            let d = String::from_str(desired);
            !(*s == d)
        },
        None => true,
    }
}

/// Records a completed backup: the folder now remote, and when.
pub fn record_backup(config: &mut SyncConfig, tree: String, now: u64)
    ensures
        final(config).last_tree@ == tree@,
        final(config).last_success == Some(now),
        final(config).repository == old(config).repository,
        final(config).branch == old(config).branch,
        final(config).automatic == old(config).automatic,
{
    config.last_tree = tree;
    config.last_success = Some(now);
}

proof fn lemma_id_of_found(pairs: Seq<(Seq<char>, Seq<char>)>, path: Seq<char>)
    ensures
        id_of(pairs, path) matches Some(v) ==> exists|j: int|
            0 <= j < pairs.len() && #[trigger] pairs[j] == (path, v),
    decreases pairs.len(),
{
    if pairs.len() > 0 {
        let dl = pairs.drop_last();
        lemma_id_of_found(dl, path);
        if pairs.last().0 != path {
            if let Some(v) = id_of(dl, path) {
                let j = choose|j: int| 0 <= j < dl.len() && #[trigger] dl[j] == (path, v);
                assert(pairs[j] == (path, v));
            }
        } else {
            assert(pairs[pairs.len() - 1] == (path, pairs.last().1));
        }
    }
}

proof fn lemma_id_of_distinct(pairs: Seq<(Seq<char>, Seq<char>)>, i: int)
    requires
        0 <= i < pairs.len(),
        forall|a: int, b: int| 0 <= a < b < pairs.len() ==> (#[trigger] pairs[a]).0 != (#[trigger] pairs[b]).0,
    ensures
        id_of(pairs, pairs[i].0) == Some(pairs[i].1),
    decreases pairs.len(),
{
    if i < pairs.len() - 1 {
        let dl = pairs.drop_last();
        assert(pairs[i] == dl[i]);
        assert(pairs[i].0 != pairs[pairs.len() - 1].0);
        lemma_id_of_distinct(dl, i);
    }
}

/// A backup that finds the remote folder holding the local files uploads
/// no content: every local file's content is among the remote ones (local
/// paths being distinct, as paths in one directory tree are).
pub proof fn law_unchanged_backup_uploads_nothing(
    local: Seq<(Seq<char>, Seq<char>)>,
    remote: Seq<(Seq<char>, Seq<char>)>,
)
    requires
        forall|a: int, b: int| 0 <= a < b < local.len() ==> (#[trigger] local[a]).0 != (#[trigger] local[b]).0,
        same_contents(local, remote),
    ensures
        forall|i: int|
            0 <= i < local.len() ==> remote.map_values(|p: (Seq<char>, Seq<char>)| p.1).contains(
                (#[trigger] local[i]).1,
            ),
{
    let known = remote.map_values(|p: (Seq<char>, Seq<char>)| p.1);
    assert forall|i: int| 0 <= i < local.len() implies known.contains((#[trigger] local[i]).1) by {
        lemma_id_of_distinct(local, i);
        assert(id_of(local, local[i].0) == id_of(remote, local[i].0));
        lemma_id_of_found(remote, local[i].0);
        let j = choose|j: int| 0 <= j < remote.len() && #[trigger] remote[j] == (local[i].0, local[i].1);
        assert(known[j] == local[i].1);
    }
}

} // verus!
