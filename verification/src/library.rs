//! The library metadata of managed skills: favorites and tags, one entry
//! per skill UUID, changed only against the revision the caller last saw.
use crate::github_sync::lowercase;
use crate::identity::{is_canonical_uuid_shape, is_normalized_uuid, normalize_skill_uuid, normalized_uuid, uuid_canonical};
use crate::packages::{is_uuid_text, string_views};
use crate::text::{chars_of, string_of, trim, trim_chars};
use vstd::prelude::*;

verus! {

/// The favorite flag and tags of one skill.
#[derive(Debug)]
pub struct SkillLibraryEntry {
    pub uuid: String,
    pub favorite: bool,
    pub tags: Vec<String>,
}

/// The library metadata.
#[derive(Debug)]
pub struct SkillLibraryStore {
    pub schema_version: u32,
    pub revision: u64,
    pub entries: Vec<SkillLibraryEntry>,
}

/// A request to set the favorite flag and tags of a skill.
#[derive(Debug)]
pub struct SaveSkillLibraryEntryRequest {
    pub uuid: String,
    pub favorite: bool,
    pub tags: Vec<String>,
    pub revision: u64,
}

/// An entry as a value.
pub struct EntryView {
    pub uuid: Seq<char>,
    pub favorite: bool,
    pub tags: Seq<Seq<char>>,
}

impl View for SkillLibraryEntry {
    type V = EntryView;

    open spec fn view(&self) -> EntryView {
        EntryView { uuid: self.uuid@, favorite: self.favorite, tags: string_views(self.tags@) }
    }
}

pub open spec fn entry_views(v: Seq<SkillLibraryEntry>) -> Seq<EntryView> {
    v.map_values(|e: SkillLibraryEntry| e@)
}

/// The metadata as a value.
pub struct LibraryView {
    pub schema_version: u32,
    pub revision: u64,
    pub entries: Seq<EntryView>,
}

impl View for SkillLibraryStore {
    type V = LibraryView;

    open spec fn view(&self) -> LibraryView {
        LibraryView {
            schema_version: self.schema_version,
            revision: self.revision,
            entries: entry_views(self.entries@),
        }
    }
}

impl Default for SkillLibraryStore {
    fn default() -> (r: Self)
        ensures
            r@.schema_version == 1,
            r@.revision == 0,
            r@.entries.len() == 0,
    {
        SkillLibraryStore { schema_version: 1, revision: 0, entries: Vec::new() }
    }
}

/// Whether the entry at `i` is valid: a UUID not used by an earlier entry,
/// at most 20 tags, each of 1 to 32 characters.
pub open spec fn entry_ok(es: Seq<EntryView>, i: int) -> bool {
    &&& is_uuid_text(es[i].uuid)
    &&& forall|j: int| 0 <= j < i ==> #[trigger] es[j].uuid != es[i].uuid
    &&& es[i].tags.len() <= 20
    &&& forall|t: int| 0 <= t < es[i].tags.len() ==> 0 < (#[trigger] es[i].tags[t]).len() <= 32
}

/// The invariant of the metadata: every entry valid.
pub open spec fn library_wf(s: LibraryView) -> bool {
    s.schema_version == 1 && forall|i: int| 0 <= i < s.entries.len() ==> #[trigger] entry_ok(s.entries, i)
}

/// Why stored metadata is refused.
pub open spec fn library_error(s: LibraryView) -> Option<Seq<char>> {
    if s.schema_version != 1 {
        Some("Unsupported skill library metadata version"@)
    } else if exists|i: int| 0 <= i < s.entries.len() && !#[trigger] entry_ok(s.entries, i) {
        Some("Invalid entry in skill-library.json"@)
    } else {
        None
    }
}

fn same_text(a: &String, b: &String) -> (r: bool)
    ensures
        r == (a@ == b@),
{
    *a == *b
}

/// Checks stored library metadata (see `library_error`).
pub fn validate_library(store: SkillLibraryStore) -> (r: Result<SkillLibraryStore, String>)
    ensures
        match r {
            Ok(s) => library_error(store@) is None && s@ == store@ && library_wf(s@),
            Err(e) => library_error(store@) == Some(e@),
        },
{
    if store.schema_version != 1 {
        return Err(String::from_str("Unsupported skill library metadata version"));
    }
    let ghost es = store@.entries;
    let mut i: usize = 0;
    while i < store.entries.len()
        invariant
            i <= store.entries.len(),
            store.schema_version == 1,
            es == store@.entries,
            es.len() == store.entries.len(),
            forall|k: int| 0 <= k < i ==> #[trigger] entry_ok(es, k),
        decreases store.entries.len() - i,
    {
        let e = &store.entries[i];
        assert(es[i as int] == e@);
        let mut ok = is_normalized_uuid(e.uuid.as_str()) && e.tags.len() <= 20;
        let mut j: usize = 0;
        while ok && j < i
            invariant
                j <= i < store.entries.len(),
                es == store@.entries,
                es[i as int] == store.entries@[i as int]@,
                ok ==> forall|k: int| 0 <= k < j ==> #[trigger] es[k].uuid != es[i as int].uuid,
                ok ==> is_uuid_text(es[i as int].uuid) && es[i as int].tags.len() <= 20,
                !ok ==> !entry_ok(es, i as int),
            decreases i - j,
        {
            assert(es[j as int] == store.entries@[j as int]@);
            if same_text(&store.entries[j].uuid, &store.entries[i].uuid) {
                assert(es[j as int].uuid == es[i as int].uuid);
                ok = false;
            }
            j += 1;
        }
        let mut t: usize = 0;
        while ok && t < e.tags.len()
            invariant
                t <= e.tags.len(),
                i < es.len(),
                es[i as int] == e@,
                ok ==> forall|x: int| 0 <= x < t ==> 0 < (#[trigger] es[i as int].tags[x]).len() <= 32,
                ok ==> is_uuid_text(es[i as int].uuid) && es[i as int].tags.len() <= 20,
                ok ==> forall|k: int| 0 <= k < i ==> #[trigger] es[k].uuid != es[i as int].uuid,
                !ok ==> !entry_ok(es, i as int),
            decreases e.tags.len() - t,
        {
            assert(es[i as int].tags[t as int] == e.tags@[t as int]@);
            let n = chars_of(e.tags[t].as_str()).len();
            if n == 0 || n > 32 {
                ok = false;
            }
            t += 1;
        }
        if !ok {
            proof {
                assert(!entry_ok(es, i as int));
                assert(store@.schema_version == 1);
                assert(store@.entries == es);
            }
            return Err(String::from_str("Invalid entry in skill-library.json"));
        }
        i += 1;
    }
    Ok(store)
}

/// Code point order of texts: the order `String` comparison gives, since
/// UTF-8 keeps it.
pub open spec fn text_lt(a: Seq<char>, b: Seq<char>) -> bool
    decreases a.len(),
{
    if a.len() == 0 {
        b.len() > 0
    } else if b.len() == 0 {
        false
    } else if a[0] != b[0] {
        a[0] < b[0]
    } else {
        text_lt(a.drop_first(), b.drop_first())
    }
}

pub proof fn lemma_text_lt_irreflexive(a: Seq<char>)
    ensures
        !text_lt(a, a),
    decreases a.len(),
{
    if a.len() > 0 {
        lemma_text_lt_irreflexive(a.drop_first());
    }
}

pub proof fn lemma_text_lt_total(a: Seq<char>, b: Seq<char>)
    requires
        a != b,
    ensures
        text_lt(a, b) || text_lt(b, a),
    decreases a.len(),
{
    if a.len() > 0 && b.len() > 0 && a[0] == b[0] {
        if a.drop_first() == b.drop_first() {
            assert(a =~= seq![a[0]] + a.drop_first());
            assert(b =~= seq![b[0]] + b.drop_first());
        }
        lemma_text_lt_total(a.drop_first(), b.drop_first());
    } else if a.len() > 0 && b.len() > 0 {
    } else if a.len() == 0 && b.len() == 0 {
        assert(a =~= b);
    }
}

pub proof fn lemma_text_lt_asymmetric(a: Seq<char>, b: Seq<char>)
    requires
        text_lt(a, b),
    ensures
        !text_lt(b, a),
    decreases a.len(),
{
    if a.len() > 0 && b.len() > 0 && a[0] == b[0] {
        lemma_text_lt_asymmetric(a.drop_first(), b.drop_first());
    }
}

pub proof fn lemma_text_lt_transitive(a: Seq<char>, b: Seq<char>, c: Seq<char>)
    requires
        text_lt(a, b),
        text_lt(b, c),
    ensures
        text_lt(a, c),
    decreases a.len(),
{
    if a.len() > 0 && b.len() > 0 && c.len() > 0 && a[0] == b[0] && b[0] == c[0] {
        lemma_text_lt_transitive(a.drop_first(), b.drop_first(), c.drop_first());
    }
}

pub(crate) fn text_less(a: &Vec<char>, b: &Vec<char>) -> (r: bool)
    ensures
        r == text_lt(a@, b@),
{
    let mut i: usize = 0;
    assert(a@.subrange(0, a.len() as int) =~= a@);
    assert(b@.subrange(0, b.len() as int) =~= b@);
    while i < a.len() && i < b.len() && a[i] == b[i]
        invariant
            i <= a.len(),
            i <= b.len(),
            text_lt(a@, b@) == text_lt(a@.subrange(i as int, a.len() as int), b@.subrange(
                i as int,
                b.len() as int,
            )),
        decreases a.len() - i,
    {
        assert(a@.subrange(i as int, a.len() as int).drop_first() =~= a@.subrange(
            i + 1,
            a.len() as int,
        ));
        assert(b@.subrange(i as int, b.len() as int).drop_first() =~= b@.subrange(
            i + 1,
            b.len() as int,
        ));
        i += 1;
    }
    if i == a.len() {
        i < b.len()
    } else if i == b.len() {
        false
    } else {
        a[i] < b[i]
    }
}

/// Entries listed in strictly increasing UUID order.
pub open spec fn sorted_by_uuid(es: Seq<EntryView>) -> bool {
    forall|i: int, j: int| 0 <= i < j < es.len() ==> text_lt(#[trigger] es[i].uuid, #[trigger] es[j].uuid)
}

/// `r` lists the entries of `es` (`to` and `from` map places both ways).
pub open spec fn entry_reorders(r: Seq<EntryView>, es: Seq<EntryView>, to: Seq<int>, from: Seq<int>) -> bool {
    &&& to.len() == r.len()
    &&& from.len() == es.len()
    &&& forall|a: int| 0 <= a < r.len() ==> 0 <= #[trigger] to[a] < es.len() && r[a] == es[to[a]]
    &&& forall|j: int| 0 <= j < es.len() ==> 0 <= #[trigger] from[j] < r.len() && r[from[j]] == es[j]
}

/// The same entries in another order.
pub open spec fn is_entry_reordering(r: Seq<EntryView>, es: Seq<EntryView>) -> bool {
    &&& r.len() == es.len()
    &&& exists|to: Seq<int>, from: Seq<int>| #[trigger] entry_reorders(r, es, to, from)
}

pub open spec fn uuids_distinct(es: Seq<EntryView>) -> bool {
    forall|i: int, j: int| 0 <= i < es.len() && 0 <= j < es.len() && i != j ==> #[trigger] es[i].uuid != #[trigger] es[j].uuid
}

proof fn lemma_entry_insert(
    rv: Seq<EntryView>,
    ev: Seq<EntryView>,
    i: int,
    idx: int,
    to: Seq<int>,
    from: Seq<int>,
) -> (maps: (Seq<int>, Seq<int>))
    requires
        0 <= i < ev.len(),
        uuids_distinct(ev),
        rv.len() == i,
        sorted_by_uuid(rv),
        entry_reorders(rv, ev.subrange(0, i), to, from),
        0 <= idx <= rv.len(),
        forall|a: int| 0 <= a < idx ==> !text_lt(ev[i].uuid, #[trigger] rv[a].uuid),
        idx < rv.len() ==> text_lt(ev[i].uuid, rv[idx].uuid),
    ensures
        sorted_by_uuid(rv.insert(idx, ev[i])),
        entry_reorders(rv.insert(idx, ev[i]), ev.subrange(0, i + 1), maps.0, maps.1),
{
    let nv = rv.insert(idx, ev[i]);
    let pi = ev.subrange(0, i);
    let pn = ev.subrange(0, i + 1);
    let x = ev[i].uuid;
    assert forall|a: int| 0 <= a < idx implies text_lt(#[trigger] rv[a].uuid, x) by {
        assert(rv[a] == pi[to[a]]);
        assert(pi[to[a]] == ev[to[a]]);
        assert(ev[to[a]].uuid != x);
        lemma_text_lt_total(rv[a].uuid, x);
    }
    assert forall|a: int, b: int| 0 <= a < b < nv.len() implies text_lt(#[trigger] nv[a].uuid, #[trigger] nv[b].uuid) by {
        if b < idx {
        } else if a < idx && b == idx {
        } else if a < idx {
            assert(nv[b] == rv[b - 1]);
            if b - 1 > idx {
                lemma_text_lt_transitive(x, rv[idx].uuid, rv[b - 1].uuid);
            }
            lemma_text_lt_transitive(rv[a].uuid, x, rv[b - 1].uuid);
        } else if a == idx {
            assert(nv[b] == rv[b - 1]);
            if b - 1 > idx {
                lemma_text_lt_transitive(x, rv[idx].uuid, rv[b - 1].uuid);
            }
        } else {
            assert(nv[a] == rv[a - 1]);
            assert(nv[b] == rv[b - 1]);
        }
    }
    let to2 = to.insert(idx, i);
    let from2 = Seq::new(
        (i + 1) as nat,
        |j: int|
            if j < i {
                if from[j] >= idx {
                    from[j] + 1
                } else {
                    from[j]
                }
            } else {
                idx
            },
    );
    assert forall|a: int| 0 <= a < nv.len() implies 0 <= #[trigger] to2[a] < pn.len() && nv[a] == pn[to2[a]] by {
        if a < idx {
            assert(to2[a] == to[a]);
            assert(rv[a] == pi[to[a]]);
        } else if a == idx {
        } else {
            assert(to2[a] == to[a - 1]);
            assert(nv[a] == rv[a - 1]);
            assert(rv[a - 1] == pi[to[a - 1]]);
        }
    }
    assert forall|j: int| 0 <= j < pn.len() implies 0 <= #[trigger] from2[j] < nv.len() && nv[from2[j]] == pn[j] by {
        if j < i {
            assert(rv[from[j]] == pi[j]);
            if from[j] >= idx {
                assert(nv[from[j] + 1] == rv[from[j]]);
            } else {
                assert(nv[from[j]] == rv[from[j]]);
            }
        }
    }
    (to2, from2)
}

fn copy_entry(e: &SkillLibraryEntry) -> (r: SkillLibraryEntry)
    ensures
        r@ == e@,
{
    SkillLibraryEntry {
        uuid: e.uuid.clone(),
        favorite: e.favorite,
        tags: crate::packages::copy_strings(&e.tags),
    }
}

/// Entries ordered by UUID (their UUIDs are distinct).
fn sort_by_uuid(v: &Vec<SkillLibraryEntry>) -> (r: Vec<SkillLibraryEntry>)
    requires
        uuids_distinct(entry_views(v@)),
    ensures
        is_entry_reordering(entry_views(r@), entry_views(v@)),
        sorted_by_uuid(entry_views(r@)),
{
    let ghost ev = entry_views(v@);
    let mut r: Vec<SkillLibraryEntry> = Vec::new();
    let mut i: usize = 0;
    let ghost mut to: Seq<int> = seq![];
    let ghost mut from: Seq<int> = seq![];
    assert(ev.subrange(0, 0) =~= Seq::<EntryView>::empty());
    while i < v.len()
        invariant
            i <= v.len(),
            ev == entry_views(v@),
            ev.len() == v.len(),
            uuids_distinct(ev),
            entry_views(r@).len() == i,
            sorted_by_uuid(entry_views(r@)),
            entry_reorders(entry_views(r@), ev.subrange(0, i as int), to, from),
        decreases v.len() - i,
    {
        let ghost rv = entry_views(r@);
        let e = copy_entry(&v[i]);
        assert(e@ == ev[i as int]);
        let key = chars_of(e.uuid.as_str());
        let mut idx: usize = 0;
        while idx < r.len() && !text_less(&key, &chars_of(r[idx].uuid.as_str()))
            invariant
                idx <= r.len(),
                rv == entry_views(r@),
                key@ == e@.uuid,
                forall|a: int| 0 <= a < idx ==> !text_lt(e@.uuid, #[trigger] rv[a].uuid),
            decreases r.len() - idx,
        {
            assert(rv[idx as int] == r@[idx as int]@);
            idx += 1;
        }
        assert(idx < r.len() ==> text_lt(e@.uuid, rv[idx as int].uuid)) by {
            if idx < r.len() {
                assert(rv[idx as int] == r@[idx as int]@);
            }
        }
        proof {
            let maps = lemma_entry_insert(rv, ev, i as int, idx as int, to, from);
            to = maps.0;
            from = maps.1;
        }
        let ghost x = e@;
        r.insert(idx, e);
        assert(entry_views(r@) =~= rv.insert(idx as int, x));
        i += 1;
    }
    assert(ev.subrange(0, v.len() as int) =~= ev);
    assert(entry_reorders(entry_views(r@), ev, to, from));
    r
}

pub open spec fn library_changed_message() -> Seq<char> {
    "收藏或标签已变化，请刷新后重试 / Favorites or tags changed; refresh and retry"@
}

pub open spec fn invalid_skill_uuid_message() -> Seq<char> {
    "Invalid Skill UUID"@
}

pub open spec fn tag_length_message() -> Seq<char> {
    "每个标签最多 32 个字符 / Tags are limited to 32 characters"@
}

pub open spec fn tag_count_message() -> Seq<char> {
    "每个 Skill 最多 20 个标签 / Up to 20 tags per Skill"@
}

/// The tags a request gives, with their lowercase forms: each trimmed,
/// blanks dropped, one tag per lowercase form (the first one given); or the
/// error for the first tag over 32 characters.
pub open spec fn collected_tags(raw: Seq<Seq<char>>) -> Result<(Seq<Seq<char>>, Seq<Seq<char>>), Seq<char>>
    decreases raw.len(),
{
    if raw.len() == 0 {
        Ok((seq![], seq![]))
    } else {
        match collected_tags(raw.drop_last()) {
            Err(e) => Err(e),
            Ok((tags, keys)) => {
                let t = trim(raw.last());
                if t.len() == 0 {
                    Ok((tags, keys))
                } else if t.len() > 32 {
                    Err(tag_length_message())
                } else if keys.contains(lowercase(t)) {
                    Ok((tags, keys))
                } else {
                    Ok((tags.push(t), keys.push(lowercase(t))))
                }
            },
        }
    }
}

/// The entries other than the one for `id`, order kept.
pub open spec fn without_entry(es: Seq<EntryView>, id: Seq<char>) -> Seq<EntryView>
    decreases es.len(),
{
    if es.len() == 0 {
        seq![]
    } else if es.last().uuid == id {
        without_entry(es.drop_last(), id)
    } else {
        without_entry(es.drop_last(), id).push(es.last())
    }
}

/// Why a request to set a skill's favorite flag and tags is refused: a
/// stale revision, a UUID that is not one, a tag over 32 characters, or
/// more than 20 tags.
pub open spec fn entry_error(s: LibraryView, uuid: Seq<char>, tags: Seq<Seq<char>>, revision: u64) -> Option<Seq<char>> {
    if s.revision != revision {
        Some(library_changed_message())
    } else if normalized_uuid(uuid) is None {
        Some(invalid_skill_uuid_message())
    } else {
        match collected_tags(tags) {
            Err(e) => Some(e),
            Ok((ts, _)) => if ts.len() > 20 {
                Some(tag_count_message())
            } else {
                None
            },
        }
    }
}

/// An entry on its own is valid: a UUID, at most 20 tags of 1 to 32
/// characters.
pub open spec fn entry_valid(e: EntryView) -> bool {
    &&& is_uuid_text(e.uuid)
    &&& e.tags.len() <= 20
    &&& forall|t: int| 0 <= t < e.tags.len() ==> 0 < (#[trigger] e.tags[t]).len() <= 32
}

pub proof fn lemma_library_wf(s: LibraryView)
    ensures
        library_wf(s) <==> (s.schema_version == 1 && uuids_distinct(s.entries) && forall|i: int|
            0 <= i < s.entries.len() ==> entry_valid(#[trigger] s.entries[i])),
{
    let es = s.entries;
    if library_wf(s) {
        assert forall|i: int, j: int| 0 <= i < es.len() && 0 <= j < es.len() && i != j implies #[trigger] es[i].uuid
            != #[trigger] es[j].uuid by {
            if i < j {
                assert(entry_ok(es, j));
            } else {
                assert(entry_ok(es, i));
            }
        }
        assert forall|i: int| 0 <= i < es.len() implies entry_valid(#[trigger] es[i]) by {
            assert(entry_ok(es, i));
        }
    }
    if s.schema_version == 1 && uuids_distinct(es) && forall|i: int| 0 <= i < es.len() ==> entry_valid(#[trigger] es[i]) {
        assert forall|i: int| 0 <= i < es.len() implies #[trigger] entry_ok(es, i) by {
            assert(entry_valid(es[i]));
            assert forall|j: int| 0 <= j < i implies #[trigger] es[j].uuid != es[i].uuid by {}
        }
    }
}

pub proof fn lemma_without_entry(es: Seq<EntryView>, id: Seq<char>)
    ensures
        forall|a: int| 0 <= a < without_entry(es, id).len() ==> (#[trigger] without_entry(es, id)[a]).uuid != id
            && es.contains(without_entry(es, id)[a]),
        uuids_distinct(es) ==> uuids_distinct(without_entry(es, id)),
        without_entry(es, id).len() <= es.len(),
    decreases es.len(),
{
    if es.len() > 0 {
        let d = es.drop_last();
        lemma_without_entry(d, id);
        let w = without_entry(d, id);
        assert forall|a: int| 0 <= a < w.len() implies es.contains(#[trigger] w[a]) by {
            assert(d.contains(w[a]));
            let k = choose|k: int| 0 <= k < d.len() && d[k] == w[a];
            assert(es[k] == w[a]);
        }
        if es.last().uuid != id {
            let wp = w.push(es.last());
            assert forall|a: int| 0 <= a < wp.len() implies (#[trigger] wp[a]).uuid != id && es.contains(wp[a]) by {
                if a < w.len() {
                    assert(wp[a] == w[a]);
                } else {
                    assert(es[es.len() - 1] == wp[a]);
                }
            }
            if uuids_distinct(es) {
                assert(uuids_distinct(d)) by {
                    assert forall|i: int, j: int| 0 <= i < d.len() && 0 <= j < d.len() && i != j implies #[trigger] d[i].uuid
                        != #[trigger] d[j].uuid by {
                        assert(d[i] == es[i]);
                        assert(d[j] == es[j]);
                    }
                }
                assert forall|i: int, j: int| 0 <= i < wp.len() && 0 <= j < wp.len() && i != j implies #[trigger] wp[i].uuid
                    != #[trigger] wp[j].uuid by {
                    if i < w.len() && j < w.len() {
                        assert(wp[i] == w[i]);
                        assert(wp[j] == w[j]);
                    } else if i < w.len() {
                        assert(wp[i] == w[i]);
                        assert(d.contains(w[i]));
                        let k = choose|k: int| 0 <= k < d.len() && d[k] == w[i];
                        assert(es[k] == w[i]);
                        assert(es[es.len() - 1] == wp[j]);
                    } else {
                        assert(wp[j] == w[j]);
                        assert(d.contains(w[j]));
                        let k = choose|k: int| 0 <= k < d.len() && d[k] == w[j];
                        assert(es[k] == w[j]);
                        assert(es[es.len() - 1] == wp[i]);
                    }
                }
            }
        } else {
            if uuids_distinct(es) {
                assert(uuids_distinct(d)) by {
                    assert forall|i: int, j: int| 0 <= i < d.len() && 0 <= j < d.len() && i != j implies #[trigger] d[i].uuid
                        != #[trigger] d[j].uuid by {
                        assert(d[i] == es[i]);
                        assert(d[j] == es[j]);
                    }
                }
            }
        }
    }
}

/// A reordering of distinct valid entries is distinct and valid.
proof fn lemma_entry_reordering(r: Seq<EntryView>, es: Seq<EntryView>)
    requires
        is_entry_reordering(r, es),
        sorted_by_uuid(r),
        forall|i: int| 0 <= i < es.len() ==> entry_valid(#[trigger] es[i]),
    ensures
        uuids_distinct(r),
        forall|i: int| 0 <= i < r.len() ==> entry_valid(#[trigger] r[i]),
{
    let (to, from) = choose|to: Seq<int>, from: Seq<int>| #[trigger] entry_reorders(r, es, to, from);
    assert forall|i: int, j: int| 0 <= i < r.len() && 0 <= j < r.len() && i != j implies #[trigger] r[i].uuid
        != #[trigger] r[j].uuid by {
        if i < j {
            lemma_text_lt_irreflexive(r[i].uuid);
            assert(text_lt(r[i].uuid, r[j].uuid));
        } else {
            lemma_text_lt_irreflexive(r[j].uuid);
            assert(text_lt(r[j].uuid, r[i].uuid));
        }
    }
    assert forall|i: int| 0 <= i < r.len() implies entry_valid(#[trigger] r[i]) by {
        assert(r[i] == es[to[i]]);
    }
}

/// Sets the favorite flag and tags of a skill (see `entry_error` for when
/// it is refused): the skill's entry is replaced by one with the request's
/// UUID (normalized), flag and tags, and the entries are then ordered by
/// UUID; a skill neither favorite nor tagged loses its entry and the order
/// is left as it was; the revision goes up by one.  The metadata stays
/// valid.
pub fn save_library_entry(store: &SkillLibraryStore, request: &SaveSkillLibraryEntryRequest) -> (r: Result<
    SkillLibraryStore,
    String,
>)
    requires
        library_wf(store@),
        store.revision < u64::MAX,
    ensures
        match r {
            Err(e) => entry_error(store@, request.uuid@, string_views(request.tags@), request.revision)
                == Some(e@),
            Ok(s) => {
                let id = normalized_uuid(request.uuid@)->0;
                let tags = collected_tags(string_views(request.tags@))->Ok_0.0;
                let kept = without_entry(store@.entries, id);
                &&& entry_error(store@, request.uuid@, string_views(request.tags@), request.revision)
                    is None
                &&& s@.schema_version == store@.schema_version
                &&& s@.revision == store.revision + 1
                &&& if request.favorite || tags.len() > 0 {
                    &&& is_entry_reordering(
                        s@.entries,
                        kept.push(EntryView { uuid: id, favorite: request.favorite, tags }),
                    )
                    &&& sorted_by_uuid(s@.entries)
                } else {
                    s@.entries == kept
                }
                &&& library_wf(s@)
            },
        },
{
    if store.revision != request.revision {
        return Err(
            String::from_str("收藏或标签已变化，请刷新后重试 / Favorites or tags changed; refresh and retry"),
        );
    }
    let id = match normalize_skill_uuid(request.uuid.as_str()) {
        Some(u) => u,
        None => {
            return Err(String::from_str("Invalid Skill UUID"));
        },
    };
    proof {
        crate::packages::lemma_canonical_is_uuid_text(id@);
    }
    let ghost raw = string_views(request.tags@);
    let mut tags: Vec<String> = Vec::new();
    let mut keys: Vec<String> = Vec::new();
    let mut i: usize = 0;
    assert(raw.subrange(0, 0) =~= Seq::<Seq<char>>::empty());
    assert(string_views(tags@) =~= Seq::<Seq<char>>::empty());
    assert(string_views(keys@) =~= Seq::<Seq<char>>::empty());
    while i < request.tags.len()
        invariant
            i <= request.tags.len(),
            raw == string_views(request.tags@),
            store.revision == request.revision,
            normalized_uuid(request.uuid@) is Some,
            collected_tags(raw.subrange(0, i as int)) == Ok::<(Seq<Seq<char>>, Seq<Seq<char>>), Seq<char>>(
                (string_views(tags@), string_views(keys@)),
            ),
            forall|t: int| 0 <= t < tags@.len() ==> 0 < (#[trigger] string_views(tags@)[t]).len() <= 32,
        decreases request.tags.len() - i,
    {
        let ghost cur = raw.subrange(0, i + 1);
        assert(cur.drop_last() =~= raw.subrange(0, i as int));
        assert(cur.last() == request.tags@[i as int]@);
        let t = trim_chars(&chars_of(request.tags[i].as_str()));
        if t.len() > 0 {
            if t.len() > 32 {
                proof {
                    lemma_tags_error_stays(raw, i + 1);
                }
                return Err(String::from_str("每个标签最多 32 个字符 / Tags are limited to 32 characters"));
            }
            let tag = string_of(&t);
            let key = crate::github_sync::to_lowercase(tag.as_str());
            if !crate::packages::strings_contain(&keys, &key) {
                let ghost before = string_views(tags@);
                let ghost kbefore = string_views(keys@);
                let ghost kv = key@;
                tags.push(tag);
                keys.push(key);
                assert(string_views(tags@) =~= before.push(t@));
                assert(string_views(keys@) =~= kbefore.push(kv));
            }
        }
        i += 1;
    }
    assert(raw.subrange(0, request.tags.len() as int) =~= raw);
    if tags.len() > 20 {
        return Err(String::from_str("每个 Skill 最多 20 个标签 / Up to 20 tags per Skill"));
    }
    let ghost es = store@.entries;
    let mut kept: Vec<SkillLibraryEntry> = Vec::new();
    let mut j: usize = 0;
    assert(es.subrange(0, 0) =~= Seq::<EntryView>::empty());
    while j < store.entries.len()
        invariant
            j <= store.entries.len(),
            es == store@.entries,
            entry_views(kept@) == without_entry(es.subrange(0, j as int), id@),
        decreases store.entries.len() - j,
    {
        assert(es.subrange(0, j + 1).drop_last() =~= es.subrange(0, j as int));
        assert(es[j as int] == store.entries@[j as int]@);
        if store.entries[j].uuid != id {
            let c = copy_entry(&store.entries[j]);
            let ghost before = entry_views(kept@);
            kept.push(c);
            assert(entry_views(kept@) =~= before.push(c@));
        }
        j += 1;
    }
    assert(es.subrange(0, store.entries.len() as int) =~= es);
    let ghost kv = entry_views(kept@);
    proof {
        lemma_library_wf(store@);
        lemma_without_entry(es, id@);
        assert forall|a: int| 0 <= a < kv.len() implies entry_valid(#[trigger] kv[a]) by {
            let k = choose|k: int| 0 <= k < es.len() && es[k] == kv[a];
        }
    }
    let entries = if request.favorite || tags.len() > 0 {
        let fresh = SkillLibraryEntry { uuid: id, favorite: request.favorite, tags };
        let ghost fv = fresh@;
        kept.push(fresh);
        let ghost all = entry_views(kept@);
        assert(all =~= kv.push(fv));
        proof {
            assert forall|x: int, y: int| 0 <= x < all.len() && 0 <= y < all.len() && x != y implies #[trigger] all[x].uuid
                != #[trigger] all[y].uuid by {
                if x < kv.len() && y < kv.len() {
                } else if x < kv.len() {
                    assert(kv[x].uuid != id@);
                } else {
                    assert(kv[y].uuid != id@);
                }
            }
            assert forall|a: int| 0 <= a < all.len() implies entry_valid(#[trigger] all[a]) by {
                if a < kv.len() {
                    assert(all[a] == kv[a]);
                }
            }
        }
        let sorted = sort_by_uuid(&kept);
        proof {
            lemma_entry_reordering(entry_views(sorted@), all);
        }
        sorted
    } else {
        kept
    };
    proof {
        lemma_library_wf(
            LibraryView { schema_version: store.schema_version, revision: (store.revision + 1) as u64, entries: entry_views(entries@) },
        );
    }
    Ok(SkillLibraryStore { schema_version: store.schema_version, revision: store.revision + 1, entries })
}

/// A request whose first `k` tags are refused is refused with the same
/// error.
proof fn lemma_tags_error_stays(raw: Seq<Seq<char>>, k: int)
    requires
        0 <= k <= raw.len(),
        collected_tags(raw.subrange(0, k)) is Err,
    ensures
        collected_tags(raw) == collected_tags(raw.subrange(0, k)),
    decreases raw.len() - k,
{
    if k < raw.len() {
        assert(raw.subrange(0, k + 1).drop_last() =~= raw.subrange(0, k));
        lemma_tags_error_stays(raw, k + 1);
    } else {
        assert(raw.subrange(0, k) =~= raw);
    }
}

} // verus!
