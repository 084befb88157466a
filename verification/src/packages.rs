//! Skill packages: named groups of managed skills.  A skill belongs to at
//! most one package; the packages and the "uncategorized" group are shown in
//! an order the user chooses; every change is made against the revision the
//! caller last saw.
use crate::identity::{
    is_canonical_uuid_shape, is_normalized_uuid, lemma_trim_unpadded, normalize_skill_uuid,
    normalized_uuid, unquote, uuid_canonical,
};
use crate::text::{chars_of, is_ws, string_of, trim, trim_chars};
use vstd::prelude::*;

verus! {

/// A named group of skills, known by their UUIDs.
#[derive(Debug)]
pub struct SkillPackage {
    pub id: String,
    pub name: String,
    pub description: String,
    pub skill_uuids: Vec<String>,
    pub position: u32,
    pub created_at: u64,
    pub updated_at: u64,
}

/// All packages, with the position of the "uncategorized" group among them.
#[derive(Debug)]
pub struct PackageStore {
    pub schema_version: u32,
    pub revision: u64,
    pub uncategorized_position: u32,
    pub packages: Vec<SkillPackage>,
}

/// A request to create (`id` absent) or update a package.
#[derive(Debug)]
pub struct SavePackageRequest {
    pub id: Option<String>,
    pub name: String,
    pub description: String,
    pub skill_uuids: Vec<String>,
    pub revision: u64,
}

/// A request to move skills into a package, or out of every package
/// (`package_id` absent).
#[derive(Debug)]
pub struct AssignPackageMembersRequest {
    pub package_id: Option<String>,
    pub skill_uuids: Vec<String>,
    pub revision: u64,
}

/// A request to put the groups in a new order; the "uncategorized" group is
/// named by `__uncategorized__`.
#[derive(Debug)]
pub struct ReorderPackagesRequest {
    pub group_ids: Vec<String>,
    pub revision: u64,
}

/// A package as a value.
pub struct PackageView {
    pub id: Seq<char>,
    pub name: Seq<char>,
    pub description: Seq<char>,
    pub members: Seq<Seq<char>>,
    pub position: u32,
    pub created_at: u64,
    pub updated_at: u64,
}

/// A store as a value.
pub struct StoreView {
    pub schema_version: u32,
    pub revision: u64,
    pub uncategorized_position: u32,
    pub packages: Seq<PackageView>,
}

pub open spec fn string_views(v: Seq<String>) -> Seq<Seq<char>> {
    v.map_values(|s: String| s@)
}

impl View for SkillPackage {
    type V = PackageView;

    open spec fn view(&self) -> PackageView {
        PackageView {
            id: self.id@,
            name: self.name@,
            description: self.description@,
            members: string_views(self.skill_uuids@),
            position: self.position,
            created_at: self.created_at,
            updated_at: self.updated_at,
        }
    }
}

pub open spec fn package_views(v: Seq<SkillPackage>) -> Seq<PackageView> {
    v.map_values(|p: SkillPackage| p@)
}

impl View for PackageStore {
    type V = StoreView;

    open spec fn view(&self) -> StoreView {
        StoreView {
            schema_version: self.schema_version,
            revision: self.revision,
            uncategorized_position: self.uncategorized_position,
            packages: package_views(self.packages@),
        }
    }
}

/// The identifier of the "uncategorized" group in a requested order.
pub open spec fn uncategorized_id() -> Seq<char> {
    "__uncategorized__"@
}

/// A UUID in the form `normalize_skill_uuid` gives.
pub open spec fn is_uuid_text(s: Seq<char>) -> bool {
    is_canonical_uuid_shape(s) && normalized_uuid(s) == Some(s)
}

/// Every package id is a UUID and no two packages share one.
pub open spec fn ids_valid(ps: Seq<PackageView>) -> bool {
    &&& forall|i: int| 0 <= i < ps.len() ==> is_uuid_text(#[trigger] ps[i].id)
    &&& forall|i: int, j: int| 0 <= i < j < ps.len() ==> #[trigger] ps[i].id != #[trigger] ps[j].id
}

/// Every member is a UUID, and no skill is listed twice, in one package or
/// in two.
pub open spec fn members_valid(ps: Seq<PackageView>) -> bool {
    &&& forall|i: int, a: int|
        0 <= i < ps.len() && 0 <= a < ps[i].members.len() ==> is_uuid_text(
            #[trigger] ps[i].members[a],
        )
    &&& forall|i: int| 0 <= i < ps.len() ==> (#[trigger] ps[i].members).no_duplicates()
    &&& forall|i: int, j: int, m: Seq<char>|
        0 <= i < ps.len() && 0 <= j < ps.len() && i != j && #[trigger] ps[i].members.contains(m)
            ==> !#[trigger] ps[j].members.contains(m)
}

/// The groups sit at distinct positions `0..=n` (`n` packages and the
/// uncategorized group), and the packages are listed by position.
pub open spec fn positions_valid(u: u32, ps: Seq<PackageView>) -> bool {
    &&& u <= ps.len()
    &&& forall|i: int| 0 <= i < ps.len() ==> (#[trigger] ps[i].position) <= ps.len()
        && ps[i].position != u
    &&& forall|i: int, j: int|
        0 <= i < j < ps.len() ==> (#[trigger] ps[i].position) < (#[trigger] ps[j].position)
}

/// The invariant of a store: current schema, valid ids, valid memberships,
/// valid positions.
pub open spec fn store_wf(s: StoreView) -> bool {
    &&& s.schema_version == 3
    &&& ids_valid(s.packages)
    &&& members_valid(s.packages)
    &&& positions_valid(s.uncategorized_position, s.packages)
}

/// `r` lists the packages of `ps`: `to` maps each place of `r` to the place
/// in `ps` it came from, and `from` each place of `ps` to where it went.
pub open spec fn reorders(r: Seq<PackageView>, ps: Seq<PackageView>, to: Seq<int>, from: Seq<
    int,
>) -> bool {
    &&& to.len() == r.len()
    &&& from.len() == ps.len()
    &&& forall|a: int| 0 <= a < r.len() ==> 0 <= #[trigger] to[a] < ps.len() && r[a] == ps[to[a]]
    &&& forall|j: int| 0 <= j < ps.len() ==> 0 <= #[trigger] from[j] < r.len() && r[from[j]] == ps[j]
}

/// The same packages in another order.
pub open spec fn is_reordering(r: Seq<PackageView>, ps: Seq<PackageView>) -> bool {
    &&& r.len() == ps.len()
    &&& exists|to: Seq<int>, from: Seq<int>| #[trigger] reorders(r, ps, to, from)
}

pub open spec fn with_position(p: PackageView, position: u32) -> PackageView {
    PackageView { position, ..p }
}

pub open spec fn with_members(p: PackageView, members: Seq<Seq<char>>) -> PackageView {
    PackageView { members, ..p }
}

/// The ids of `ms` not in `seen`, each once, in first-seen order.
pub open spec fn fresh_members(ms: Seq<Seq<char>>, seen: Seq<Seq<char>>) -> Seq<Seq<char>>
    decreases ms.len(),
{
    if ms.len() == 0 {
        seq![]
    } else {
        let prefix = fresh_members(ms.drop_last(), seen);
        if seen.contains(ms.last()) || prefix.contains(ms.last()) {
            prefix
        } else {
            prefix.push(ms.last())
        }
    }
}

pub open spec fn version_message() -> Seq<char> {
    "Unsupported skill package configuration version"@
}

pub open spec fn invalid_uuid_message() -> Seq<char> {
    "Invalid or duplicate UUID in skill-packages.json"@
}

pub open spec fn one_package_message() -> Seq<char> {
    "A Skill can belong to only one package"@
}

pub open spec fn positions_message() -> Seq<char> {
    "Invalid Skill group positions in skill-packages.json"@
}

/// Whether the package at index `k` of `ps` has a valid and new id and
/// valid member ids.
pub open spec fn package_ids_ok(ps: Seq<PackageView>, k: int) -> bool {
    &&& is_uuid_text(ps[k].id)
    &&& forall|j: int| 0 <= j < k ==> #[trigger] ps[j].id != ps[k].id
    &&& forall|a: int| 0 <= a < ps[k].members.len() ==> is_uuid_text(#[trigger] ps[k].members[a])
}

/// The packages of a stored configuration of schema `schema`, checked and
/// brought to the current schema one by one: the packages so far with the
/// skills they hold, or the first error.  Before schema 3 a package's
/// position is its place in the list (from 1); under schema 1 a skill
/// listed again is dropped, under later schemas it is an error.
pub open spec fn migrate_packages(schema: u32, ps: Seq<PackageView>) -> Result<
    (Seq<PackageView>, Seq<Seq<char>>),
    Seq<char>,
>
    decreases ps.len(),
{
    if ps.len() == 0 {
        Ok((seq![], seq![]))
    } else {
        match migrate_packages(schema, ps.drop_last()) {
            Err(e) => Err(e),
            Ok((done, assigned)) => {
                let k = ps.len() - 1;
                let p = ps[k];
                let placed = if schema < 3 {
                    with_position(p, (k + 1) as u32)
                } else {
                    p
                };
                if !package_ids_ok(ps, k) {
                    Err(invalid_uuid_message())
                } else if schema == 1 {
                    let kept = fresh_members(p.members, assigned);
                    Ok((done.push(with_members(placed, kept)), assigned + kept))
                } else if !p.members.no_duplicates() || exists|a: int|
                    0 <= a < p.members.len() && assigned.contains(#[trigger] p.members[a]) {
                    Err(one_package_message())
                } else {
                    Ok((done.push(placed), assigned + p.members))
                }
            },
        }
    }
}

/// Whether the positions of a schema 3 configuration are the distinct
/// values `0..=n`.
pub open spec fn stored_positions_ok(u: u32, ps: Seq<PackageView>) -> bool {
    &&& u <= ps.len()
    &&& forall|i: int| 0 <= i < ps.len() ==> (#[trigger] ps[i].position) <= ps.len()
        && ps[i].position != u
    &&& forall|i: int, j: int|
        0 <= i < ps.len() && 0 <= j < ps.len() && i != j ==> (#[trigger] ps[i].position) != (
        #[trigger] ps[j].position)
}

/// The error a stored configuration is refused with, if any.
pub open spec fn store_error(s: StoreView) -> Option<Seq<char>> {
    if s.schema_version < 1 || s.schema_version > 3 {
        Some(version_message())
    } else {
        match migrate_packages(s.schema_version, s.packages) {
            Err(e) => Some(e),
            Ok((done, _)) => if s.schema_version == 3 && !stored_positions_ok(
                s.uncategorized_position,
                done,
            ) {
                Some(positions_message())
            } else {
                None
            },
        }
    }
}

pub open spec fn migrated(s: StoreView) -> Seq<PackageView> {
    match migrate_packages(s.schema_version, s.packages) {
        Ok((done, _)) => done,
        Err(_) => seq![],
    }
}

pub open spec fn sorted_by_position(ps: Seq<PackageView>) -> bool {
    forall|i: int, j: int|
        0 <= i < j < ps.len() ==> (#[trigger] ps[i].position) < (#[trigger] ps[j].position)
}

pub proof fn lemma_fresh_members(ms: Seq<Seq<char>>, seen: Seq<Seq<char>>)
    ensures
        fresh_members(ms, seen).no_duplicates(),
        forall|m: Seq<char>|
            #[trigger] fresh_members(ms, seen).contains(m) <==> (ms.contains(m) && !seen.contains(m)),
    decreases ms.len(),
{
    if ms.len() > 0 {
        lemma_fresh_members(ms.drop_last(), seen);
        let prefix = fresh_members(ms.drop_last(), seen);
        assert forall|m: Seq<char>| ms.contains(m) <==> (ms.drop_last().contains(m) || m == ms.last()) by {
            if ms.contains(m) {
                let k = choose|k: int| 0 <= k < ms.len() && ms[k] == m;
                if k < ms.len() - 1 {
                    assert(ms.drop_last()[k] == m);
                }
            }
            if ms.drop_last().contains(m) {
                let k = choose|k: int| 0 <= k < ms.drop_last().len() && ms.drop_last()[k] == m;
                assert(ms[k] == m);
            }
            if m == ms.last() {
                assert(ms[ms.len() - 1] == m);
            }
        }
        if !(seen.contains(ms.last()) || prefix.contains(ms.last())) {
            assert forall|m: Seq<char>| #[trigger] prefix.push(ms.last()).contains(m) <==> (
            prefix.contains(m) || m == ms.last()) by {
                if prefix.push(ms.last()).contains(m) {
                    let k = choose|k: int| 0 <= k < prefix.len() + 1 && prefix.push(ms.last())[k] == m;
                    if k < prefix.len() {
                        assert(prefix[k] == m);
                    }
                }
                if prefix.contains(m) {
                    let k = choose|k: int| 0 <= k < prefix.len() && prefix[k] == m;
                    assert(prefix.push(ms.last())[k] == m);
                }
                if m == ms.last() {
                    assert(prefix.push(ms.last())[prefix.len() as int] == m);
                }
            }
        }
    }
}

/// What the migration gives: the packages in their order with their own
/// fields, positions from 1 before schema 3, members drawn from each
/// package's own, valid ids and memberships, and the skills placed so far.
pub proof fn lemma_migrate(schema: u32, ps: Seq<PackageView>)
    requires
        migrate_packages(schema, ps) is Ok,
    ensures
        ({
            let (done, assigned) = migrate_packages(schema, ps)->Ok_0;
            &&& done.len() == ps.len()
            &&& forall|k: int|
                0 <= k < ps.len() ==> (#[trigger] done[k]).id == ps[k].id && done[k].name
                    == ps[k].name && done[k].description == ps[k].description
                    && done[k].created_at == ps[k].created_at && done[k].updated_at
                    == ps[k].updated_at && done[k].position == (if schema < 3 {
                    (k + 1) as u32
                } else {
                    ps[k].position
                }) && done[k].members == (if schema == 1 {
                    done[k].members
                } else {
                    ps[k].members
                })
            &&& ids_valid(done)
            &&& members_valid(done)
            &&& forall|m: Seq<char>|
                #[trigger] assigned.contains(m) <==> exists|i: int|
                    0 <= i < done.len() && #[trigger] done[i].members.contains(m)
        }),
    decreases ps.len(),
{
    if ps.len() > 0 {
        let k = ps.len() - 1;
        let p = ps[k];
        assert(migrate_packages(schema, ps.drop_last()) is Ok);
        lemma_migrate(schema, ps.drop_last());
        let (done, assigned) = migrate_packages(schema, ps.drop_last())->Ok_0;
        let placed = if schema < 3 {
            with_position(p, (k + 1) as u32)
        } else {
            p
        };
        assert(package_ids_ok(ps, k));
        let kept = if schema == 1 {
            fresh_members(p.members, assigned)
        } else {
            p.members
        };
        if schema == 1 {
            lemma_fresh_members(p.members, assigned);
        }
        let entry = with_members(placed, kept);
        let done2 = done.push(entry);
        let assigned2 = assigned + kept;
        assert(migrate_packages(schema, ps) == Ok::<(Seq<PackageView>, Seq<Seq<char>>), Seq<char>>((done2, assigned2))) by {
            if schema != 1 {
                assert(entry == placed);
            }
        }
        assert forall|m: Seq<char>| kept.contains(m) implies p.members.contains(m) && !assigned.contains(m) by {
            if schema != 1 {
                let a = choose|a: int| 0 <= a < kept.len() && kept[a] == m;
                assert(p.members[a] == m);
            }
        }
        assert forall|a: int| 0 <= a < kept.len() implies is_uuid_text(#[trigger] kept[a]) by {
            assert(kept.contains(kept[a]));
            let b = choose|b: int| 0 <= b < p.members.len() && p.members[b] == kept[a];
            assert(is_uuid_text(ps[k].members[b]));
        }
        assert forall|j: int| 0 <= j < k implies #[trigger] done2[j].id != done2[k].id by {
            assert(done[j].id == ps.drop_last()[j].id);
        }
        assert forall|m: Seq<char>| #[trigger] assigned2.contains(m) <==> exists|i: int|
            0 <= i < done2.len() && #[trigger] done2[i].members.contains(m) by {
            if assigned2.contains(m) {
                let a = choose|a: int| 0 <= a < assigned2.len() && assigned2[a] == m;
                if a < assigned.len() {
                    assert(assigned[a] == m);
                    assert(assigned.contains(m));
                    let i = choose|i: int| 0 <= i < done.len() && #[trigger] done[i].members.contains(m);
                    assert(done2[i] == done[i]);
                } else {
                    assert(kept[a - assigned.len()] == m);
                    assert(done2[k].members.contains(m));
                }
            }
            if exists|i: int| 0 <= i < done2.len() && #[trigger] done2[i].members.contains(m) {
                let i = choose|i: int| 0 <= i < done2.len() && #[trigger] done2[i].members.contains(m);
                if i < k {
                    assert(done2[i] == done[i]);
                    assert(assigned.contains(m));
                    let a = choose|a: int| 0 <= a < assigned.len() && assigned[a] == m;
                    assert(assigned2[a] == m);
                } else {
                    let a = choose|a: int| 0 <= a < kept.len() && kept[a] == m;
                    assert(assigned2[assigned.len() + a] == m);
                }
            }
        }
        assert forall|i: int, j: int, m: Seq<char>|
            0 <= i < done2.len() && 0 <= j < done2.len() && i != j && #[trigger] done2[i].members.contains(m)
                implies !#[trigger] done2[j].members.contains(m) by {
            if i < k && j < k {
                assert(done2[i] == done[i]);
                assert(done2[j] == done[j]);
            } else if i == k {
                assert(done2[j] == done[j]);
                if done[j].members.contains(m) {
                    assert(assigned.contains(m));
                }
            } else {
                assert(done2[i] == done[i]);
                assert(assigned.contains(m));
            }
        }
        assert forall|k2: int| 0 <= k2 < ps.len() implies (#[trigger] done2[k2]).id == ps[k2].id by {
            if k2 < k {
                assert(done2[k2] == done[k2]);
                assert(ps.drop_last()[k2] == ps[k2]);
            }
        }
        assert forall|k2: int| 0 <= k2 < ps.len() - 1 implies (#[trigger] ps.drop_last()[k2]) == ps[k2] by {}
    }
}

/// A copy of a list of texts.
pub(crate) fn copy_strings(v: &Vec<String>) -> (r: Vec<String>)
    ensures
        string_views(r@) == string_views(v@),
{
    let mut r: Vec<String> = Vec::new();
    let mut i: usize = 0;
    while i < v.len()
        invariant
            i <= v.len(),
            string_views(r@) == string_views(v@.subrange(0, i as int)),
        decreases v.len() - i,
    {
        r.push(v[i].clone());
        assert(string_views(v@.subrange(0, i + 1)) =~= string_views(v@.subrange(0, i as int)).push(
            v@[i as int]@,
        ));
        assert(string_views(r@) =~= string_views(v@.subrange(0, i + 1)));
        i += 1;
    }
    assert(v@.subrange(0, v.len() as int) =~= v@);
    r
}

/// A copy of a package.
fn copy_package(p: &SkillPackage) -> (r: SkillPackage)
    ensures
        r@ == p@,
{
    SkillPackage {
        id: p.id.clone(),
        name: p.name.clone(),
        description: p.description.clone(),
        skill_uuids: copy_strings(&p.skill_uuids),
        position: p.position,
        created_at: p.created_at,
        updated_at: p.updated_at,
    }
}

/// Whether `v` holds the text `s`.
pub(crate) fn strings_contain(v: &Vec<String>, s: &String) -> (r: bool)
    ensures
        r == string_views(v@).contains(s@),
{
    let mut i: usize = 0;
    while i < v.len()
        invariant
            i <= v.len(),
            forall|k: int| 0 <= k < i ==> v@[k]@ != s@,
        decreases v.len() - i,
    {
        if v[i] == *s {
            assert(string_views(v@)[i as int] == s@);
            return true;
        }
        i += 1;
    }
    assert forall|k: int| 0 <= k < string_views(v@).len() implies string_views(v@)[k] != s@ by {
        assert(string_views(v@)[k] == v@[k]@);
    }
    false
}

/// Whether one of the packages `ps[..upto]` has the id `id`.
fn ids_contain(ps: &Vec<SkillPackage>, upto: usize, id: &String) -> (r: bool)
    requires
        upto <= ps.len(),
    ensures
        r == exists|j: int| 0 <= j < upto && #[trigger] ps@[j]@.id == id@,
{
    let mut j: usize = 0;
    while j < upto
        invariant
            j <= upto <= ps.len(),
            forall|k: int| 0 <= k < j ==> #[trigger] ps@[k]@.id != id@,
        decreases upto - j,
    {
        if ps[j].id == *id {
            assert(ps@[j as int]@.id == id@);
            return true;
        }
        j += 1;
    }
    false
}

proof fn lemma_views_push(v: Seq<String>, s: String)
    ensures
        string_views(v.push(s)) == string_views(v).push(s@),
{
    assert(string_views(v.push(s)) =~= string_views(v).push(s@));
}

proof fn lemma_package_views_push(v: Seq<SkillPackage>, p: SkillPackage)
    ensures
        package_views(v.push(p)) == package_views(v).push(p@),
{
    assert(package_views(v.push(p)) =~= package_views(v).push(p@));
}

pub open spec fn positions_distinct(ps: Seq<PackageView>) -> bool {
    forall|i: int, j: int|
        0 <= i < ps.len() && 0 <= j < ps.len() && i != j ==> (#[trigger] ps[i].position) != (
        #[trigger] ps[j].position)
}

/// Inserting the next package before the first one with a larger position
/// keeps the list sorted and made of the packages seen so far.
proof fn lemma_sorted_insert(
    rv: Seq<PackageView>,
    pv: Seq<PackageView>,
    i: int,
    idx: int,
    to: Seq<int>,
    from: Seq<int>,
) -> (maps: (Seq<int>, Seq<int>))
    requires
        0 <= i < pv.len(),
        positions_distinct(pv),
        rv.len() == i,
        sorted_by_position(rv),
        reorders(rv, pv.subrange(0, i), to, from),
        0 <= idx <= rv.len(),
        forall|a: int| 0 <= a < idx ==> #[trigger] rv[a].position < pv[i].position,
        idx < rv.len() ==> rv[idx].position >= pv[i].position,
    ensures
        sorted_by_position(rv.insert(idx, pv[i])),
        reorders(rv.insert(idx, pv[i]), pv.subrange(0, i + 1), maps.0, maps.1),
{
    let nv = rv.insert(idx, pv[i]);
    let pi = pv.subrange(0, i);
    let pn = pv.subrange(0, i + 1);
    if idx < rv.len() {
        assert(rv[idx] == pi[to[idx]]);
        assert(pi[to[idx]] == pv[to[idx]]);
        assert(pv[to[idx]].position != pv[i].position);
    }
    assert forall|a: int, b: int| 0 <= a < b < nv.len() implies (#[trigger] nv[a].position) < (
    #[trigger] nv[b].position) by {
        if b < idx {
        } else if a < idx && b == idx {
        } else if a < idx {
            assert(nv[b] == rv[b - 1]);
            assert(rv[idx].position <= rv[b - 1].position);
        } else if a == idx {
            assert(nv[b] == rv[b - 1]);
            assert(rv[idx].position <= rv[b - 1].position);
        } else {
            assert(nv[a] == rv[a - 1]);
            assert(nv[b] == rv[b - 1]);
        }
    }
    let to2 = to.insert(idx, i);
    let from2 = Seq::new(
        (i + 1) as nat,
        |j: int|
            if j < i {
                if from[j] >= idx {
                    from[j] + 1
                } else {
                    from[j]
                }
            } else {
                idx
            },
    );
    assert forall|a: int| 0 <= a < nv.len() implies 0 <= #[trigger] to2[a] < pn.len() && nv[a]
        == pn[to2[a]] by {
        if a < idx {
            assert(to2[a] == to[a]);
            assert(rv[a] == pi[to[a]]);
        } else if a == idx {
        } else {
            assert(to2[a] == to[a - 1]);
            assert(nv[a] == rv[a - 1]);
            assert(rv[a - 1] == pi[to[a - 1]]);
        }
    }
    assert forall|j: int| 0 <= j < pn.len() implies 0 <= #[trigger] from2[j] < nv.len()
        && nv[from2[j]] == pn[j] by {
        if j < i {
            assert(rv[from[j]] == pi[j]);
            if from[j] >= idx {
                assert(nv[from[j] + 1] == rv[from[j]]);
            } else {
                assert(nv[from[j]] == rv[from[j]]);
            }
        }
    }
    (to2, from2)
}

/// The packages ordered by position (their positions are distinct).
fn sort_by_position(v: &Vec<SkillPackage>) -> (r: Vec<SkillPackage>)
    requires
        positions_distinct(package_views(v@)),
    ensures
        is_reordering(package_views(r@), package_views(v@)),
        sorted_by_position(package_views(r@)),
{
    let ghost pv = package_views(v@);
    let mut r: Vec<SkillPackage> = Vec::new();
    let mut i: usize = 0;
    let ghost mut to: Seq<int> = seq![];
    let ghost mut from: Seq<int> = seq![];
    assert(pv.subrange(0, 0) =~= Seq::<PackageView>::empty());
    while i < v.len()
        invariant
            i <= v.len(),
            pv == package_views(v@),
            pv.len() == v.len(),
            positions_distinct(pv),
            package_views(r@).len() == i,
            sorted_by_position(package_views(r@)),
            reorders(package_views(r@), pv.subrange(0, i as int), to, from),
        decreases v.len() - i,
    {
        let ghost rv = package_views(r@);
        let p = copy_package(&v[i]);
        assert(p@ == pv[i as int]);
        let mut idx: usize = 0;
        while idx < r.len() && r[idx].position < p.position
            invariant
                idx <= r.len(),
                rv == package_views(r@),
                forall|a: int| 0 <= a < idx ==> #[trigger] rv[a].position < p.position,
            decreases r.len() - idx,
        {
            assert(rv[idx as int] == r@[idx as int]@);
            idx += 1;
        }
        assert(idx < r.len() ==> rv[idx as int].position >= p.position) by {
            if idx < r.len() {
                assert(rv[idx as int] == r@[idx as int]@);
            }
        }
        proof {
            let maps = lemma_sorted_insert(rv, pv, i as int, idx as int, to, from);
            to = maps.0;
            from = maps.1;
        }
        let ghost x = p@;
        r.insert(idx, p);
        assert(package_views(r@) =~= rv.insert(idx as int, x));
        i += 1;
    }
    assert(pv.subrange(0, v.len() as int) =~= pv);
    assert(reorders(package_views(r@), pv, to, from));
    r
}

/// A reordering of valid packages whose positions were valid is valid once
/// sorted.
proof fn lemma_reordering_wf(r: Seq<PackageView>, ps: Seq<PackageView>, u: u32)
    requires
        is_reordering(r, ps),
        sorted_by_position(r),
        ids_valid(ps),
        members_valid(ps),
        stored_positions_ok(u, ps),
    ensures
        ids_valid(r),
        members_valid(r),
        positions_valid(u, r),
{
    let (to, from) = choose|to: Seq<int>, from: Seq<int>| #[trigger] reorders(r, ps, to, from);
    assert forall|a: int, b: int| 0 <= a < r.len() && 0 <= b < r.len() && a != b implies #[trigger] to[a]
        != #[trigger] to[b] by {
        if a < b {
            assert(r[a].position < r[b].position);
        } else {
            assert(r[b].position < r[a].position);
        }
    }
    assert forall|i: int| 0 <= i < r.len() implies is_uuid_text(#[trigger] r[i].id) by {
        assert(r[i] == ps[to[i]]);
    }
    assert forall|i: int, j: int| 0 <= i < j < r.len() implies #[trigger] r[i].id != #[trigger] r[j].id by {
        assert(r[i] == ps[to[i]]);
        assert(r[j] == ps[to[j]]);
        assert(to[i] != to[j]);
    }
    assert forall|i: int, a: int|
        0 <= i < r.len() && 0 <= a < r[i].members.len() implies is_uuid_text(
        #[trigger] r[i].members[a],
    ) by {
        assert(r[i] == ps[to[i]]);
    }
    assert forall|i: int| 0 <= i < r.len() implies (#[trigger] r[i].members).no_duplicates() by {
        assert(r[i] == ps[to[i]]);
    }
    assert forall|i: int, j: int, m: Seq<char>|
        0 <= i < r.len() && 0 <= j < r.len() && i != j && #[trigger] r[i].members.contains(m)
            implies !#[trigger] r[j].members.contains(m) by {
        assert(r[i] == ps[to[i]]);
        assert(r[j] == ps[to[j]]);
        assert(to[i] != to[j]);
    }
    assert forall|i: int| 0 <= i < r.len() implies (#[trigger] r[i].position) <= r.len()
        && r[i].position != u by {
        assert(r[i] == ps[to[i]]);
    }
}

/// A configuration whose first `k` packages are refused is refused with the
/// same error.
proof fn lemma_migrate_error_stays(schema: u32, ps: Seq<PackageView>, k: int)
    requires
        0 <= k <= ps.len(),
        migrate_packages(schema, ps.subrange(0, k)) is Err,
    ensures
        migrate_packages(schema, ps) == migrate_packages(schema, ps.subrange(0, k)),
    decreases ps.len() - k,
{
    if k < ps.len() {
        let next = ps.subrange(0, k + 1);
        assert(next.drop_last() =~= ps.subrange(0, k));
        lemma_migrate_error_stays(schema, ps, k + 1);
    } else {
        assert(ps.subrange(0, k) =~= ps);
    }
}

/// Whether every text in `v` is a UUID in normalized form.
fn all_uuid_texts(v: &Vec<String>) -> (r: bool)
    ensures
        r == forall|a: int| 0 <= a < v@.len() ==> is_uuid_text(#[trigger] string_views(v@)[a]),
{
    let mut a: usize = 0;
    while a < v.len()
        invariant
            a <= v.len(),
            forall|b: int| 0 <= b < a ==> is_uuid_text(#[trigger] string_views(v@)[b]),
        decreases v.len() - a,
    {
        if !is_normalized_uuid(v[a].as_str()) {
            assert(string_views(v@)[a as int] == v@[a as int]@);
            assert(!is_uuid_text(string_views(v@)[a as int]));
            return false;
        }
        a += 1;
    }
    true
}

pub open spec fn store_result_view(r: Result<PackageStore, String>) -> Result<StoreView, Seq<char>> {
    match r {
        Ok(s) => Ok(s@),
        Err(e) => Err(e@),
    }
}

/// Checks a stored package configuration and brings it to the current
/// schema: ids must be distinct UUIDs; before schema 3 packages are placed
/// in list order after the uncategorized group, and under schema 1 a skill
/// keeps only its first package; schema 3 positions must be the distinct
/// values `0..=n`, and the packages come back ordered by them.
pub fn validate_store(store: PackageStore) -> (r: Result<PackageStore, String>)
    requires
        store.packages.len() < u32::MAX,
    ensures
        match r {
            Err(e) => store_error(store@) == Some(e@),
            Ok(s) => {
                &&& store_error(store@) is None
                &&& s@.schema_version == 3
                &&& s@.revision == store@.revision
                &&& s@.uncategorized_position == (if store@.schema_version == 3 {
                    store@.uncategorized_position
                } else {
                    0
                })
                &&& store@.schema_version < 3 ==> s@.packages == migrated(store@)
                &&& is_reordering(s@.packages, migrated(store@))
                &&& store_wf(s@)
            },
        },
{
    let schema = store.schema_version;
    if schema < 1 || schema > 3 {
        return Err(String::from_str("Unsupported skill package configuration version"));
    }
    let ghost ps = store@.packages;
    let mut done: Vec<SkillPackage> = Vec::new();
    let mut assigned: Vec<String> = Vec::new();
    let mut i: usize = 0;
    assert(ps.subrange(0, 0) =~= Seq::<PackageView>::empty());
    assert(package_views(done@) =~= Seq::<PackageView>::empty());
    assert(string_views(assigned@) =~= Seq::<Seq<char>>::empty());
    while i < store.packages.len()
        invariant
            i <= store.packages.len() < u32::MAX,
            ps == store@.packages,
            ps.len() == store.packages.len(),
            1 <= schema <= 3,
            schema == store.schema_version,
            migrate_packages(schema, ps.subrange(0, i as int)) == Ok::<
                (Seq<PackageView>, Seq<Seq<char>>),
                Seq<char>,
            >((package_views(done@), string_views(assigned@))),
        decreases store.packages.len() - i,
    {
        let p = &store.packages[i];
        let ghost pre = ps.subrange(0, i as int);
        let ghost cur = ps.subrange(0, i + 1);
        assert(cur.drop_last() =~= pre);
        assert(p@ == ps[i as int]);
        assert(cur[i as int] == ps[i as int]);
        let id_ok = is_normalized_uuid(p.id.as_str());
        let id_seen = ids_contain(&store.packages, i, &p.id);
        let members_ok = all_uuid_texts(&p.skill_uuids);
        assert(cur[i as int].id == p.id@);
        assert(cur[i as int].members == string_views(p.skill_uuids@));
        assert(id_seen == exists|j: int| 0 <= j < i && #[trigger] cur[j].id == cur[i as int].id) by {
            if id_seen {
                let j = choose|j: int| 0 <= j < i && #[trigger] store.packages@[j]@.id == p.id@;
                assert(cur[j] == store.packages@[j]@);
            }
            if exists|j: int| 0 <= j < i && #[trigger] cur[j].id == cur[i as int].id {
                let j = choose|j: int| 0 <= j < i && #[trigger] cur[j].id == cur[i as int].id;
                assert(cur[j] == store.packages@[j]@);
            }
        }
        if !id_ok || id_seen || !members_ok {
            proof {
                assert(!package_ids_ok(cur, i as int));
                lemma_migrate_error_stays(schema, ps, i + 1);
            }
            return Err(String::from_str("Invalid or duplicate UUID in skill-packages.json"));
        }
        assert(package_ids_ok(cur, i as int));
        let mut q = copy_package(p);
        if schema < 3 {
            q.position = i as u32 + 1;
        }
        let ghost assigned0 = string_views(assigned@);
        let ghost members = ps[i as int].members;
        if schema == 1 {
            let mut kept: Vec<String> = Vec::new();
            let mut a: usize = 0;
            assert(members.subrange(0, 0) =~= Seq::<Seq<char>>::empty());
            assert(string_views(kept@) =~= Seq::<Seq<char>>::empty());
            while a < p.skill_uuids.len()
                invariant
                    a <= p.skill_uuids.len(),
                    members == string_views(p.skill_uuids@),
                    assigned0 == string_views(assigned@),
                    string_views(kept@) == fresh_members(members.subrange(0, a as int), assigned0),
                decreases p.skill_uuids.len() - a,
            {
                let m = &p.skill_uuids[a];
                assert(members.subrange(0, a + 1).drop_last() =~= members.subrange(0, a as int));
                assert(members.subrange(0, a + 1).last() == m@);
                if !strings_contain(&assigned, m) && !strings_contain(&kept, m) {
                    let c = m.clone();
                    proof {
                        lemma_views_push(kept@, c);
                    }
                    kept.push(c);
                }
                a += 1;
            }
            assert(members.subrange(0, members.len() as int) =~= members);
            let ghost kept_view = string_views(kept@);
            let mut b: usize = 0;
            while b < kept.len()
                invariant
                    b <= kept.len(),
                    kept_view == string_views(kept@),
                    string_views(assigned@) == assigned0 + kept_view.subrange(0, b as int),
                decreases kept.len() - b,
            {
                let c = kept[b].clone();
                proof {
                    lemma_views_push(assigned@, c);
                }
                assigned.push(c);
                assert(kept_view.subrange(0, b + 1) =~= kept_view.subrange(0, b as int).push(
                    kept_view[b as int],
                ));
                assert(assigned0 + kept_view.subrange(0, b + 1) =~= (assigned0 + kept_view.subrange(
                    0,
                    b as int,
                )).push(kept_view[b as int]));
                b += 1;
            }
            assert(kept_view.subrange(0, kept_view.len() as int) =~= kept_view);
            q.skill_uuids = kept;
        } else {
            let mut a: usize = 0;
            assert(members.subrange(0, 0) =~= Seq::<Seq<char>>::empty());
            assert(assigned0 + members.subrange(0, 0) =~= assigned0);
            while a < p.skill_uuids.len()
                invariant
                    a <= p.skill_uuids.len(),
                    members == string_views(p.skill_uuids@),
                    string_views(assigned@) == assigned0 + members.subrange(0, a as int),
                    i < store.packages.len(),
                    ps == store@.packages,
                    ps.len() == store.packages.len(),
                    2 <= schema <= 3,
                    schema == store.schema_version,
                    cur == ps.subrange(0, i + 1),
                    cur.drop_last() == ps.subrange(0, i as int),
                    cur[i as int].members == members,
                    migrate_packages(schema, ps.subrange(0, i as int)) == Ok::<
                        (Seq<PackageView>, Seq<Seq<char>>),
                        Seq<char>,
                    >((package_views(done@), assigned0)),
                    package_ids_ok(cur, i as int),
                    members.subrange(0, a as int).no_duplicates(),
                    forall|b: int| 0 <= b < a ==> !assigned0.contains(#[trigger] members[b]),
                decreases p.skill_uuids.len() - a,
            {
                let m = &p.skill_uuids[a];
                assert(members[a as int] == m@);
                if strings_contain(&assigned, m) {
                    proof {
                        let seen = assigned0 + members.subrange(0, a as int);
                        let k = choose|k: int| 0 <= k < seen.len() && seen[k] == m@;
                        if k < assigned0.len() {
                            assert(assigned0[k] == m@);
                            assert(assigned0.contains(members[a as int]));
                        } else {
                            assert(members[k - assigned0.len()] == members[a as int]);
                            assert(!members.no_duplicates());
                        }
                        assert(cur.len() - 1 == i);
                        assert(!members.no_duplicates() || exists|x: int|
                            0 <= x < members.len() && assigned0.contains(#[trigger] members[x]));
                        assert(migrate_packages(schema, cur) == Err::<
                            (Seq<PackageView>, Seq<Seq<char>>),
                            Seq<char>,
                        >(one_package_message()));
                        lemma_migrate_error_stays(schema, ps, i + 1);
                    }
                    return Err(String::from_str("A Skill can belong to only one package"));
                }
                let c = m.clone();
                proof {
                    if assigned0.contains(m@) {
                        let k = choose|k: int| 0 <= k < assigned0.len() && assigned0[k] == m@;
                        assert((assigned0 + members.subrange(0, a as int))[k] == m@);
                    }
                    lemma_views_push(assigned@, c);
                    assert(members.subrange(0, a + 1) =~= members.subrange(0, a as int).push(m@));
                    assert(assigned0 + members.subrange(0, a + 1) =~= (assigned0 + members.subrange(
                        0,
                        a as int,
                    )).push(m@));
                    let ext = members.subrange(0, a + 1);
                    assert forall|x: int, y: int| 0 <= x < ext.len() && 0 <= y < ext.len() && x != y implies #[trigger] ext[x]
                        != #[trigger] ext[y] by {
                        if x > y {
                            if x == a {
                                assert((assigned0 + members.subrange(0, a as int))[assigned0.len() + y]
                                    == members[y]);
                            } else {
                                assert(members.subrange(0, a as int)[x] == members[x]);
                                assert(members.subrange(0, a as int)[y] == members[y]);
                            }
                        } else
                        if y == a {
                            assert((assigned0 + members.subrange(0, a as int))[assigned0.len() + x]
                                == members[x]);
                        } else {
                            assert(members.subrange(0, a as int)[x] == members[x]);
                            assert(members.subrange(0, a as int)[y] == members[y]);
                        }
                    }
                }
                assigned.push(c);
                a += 1;
            }
            assert(members.subrange(0, members.len() as int) =~= members);
        }
        proof {
            lemma_package_views_push(done@, q);
        }
        done.push(q);
        assert(package_views(done@).last() == q@);
        i += 1;
    }
    assert(ps.subrange(0, ps.len() as int) =~= ps);
    proof {
        lemma_migrate(schema, ps);
    }
    if schema == 3 {
        let u = store.uncategorized_position;
        let n = done.len();
        let ghost dv = package_views(done@);
        let mut ok = (u as usize) <= n;
        let mut k: usize = 0;
        while k < n && ok
            invariant
                k <= n == done.len(),
                dv == package_views(done@),
                ok == ((u as usize) <= n && forall|x: int| 0 <= x < k ==> (#[trigger] dv[x].position)
                    <= n && dv[x].position != u && forall|y: int|
                    0 <= y < n && y != x ==> dv[x].position != #[trigger] dv[y].position),
            decreases n - k,
        {
            let pk = done[k].position;
            assert(dv[k as int].position == pk);
            if pk as usize > n || pk == u {
                ok = false;
            } else {
                let mut m: usize = 0;
                while m < n && ok
                    invariant
                        m <= n == done.len(),
                        k < n,
                        dv == package_views(done@),
                        pk == dv[k as int].position,
                        ok ==> forall|y: int| 0 <= y < m && y != k ==> pk != #[trigger] dv[y].position,
                        !ok ==> exists|y: int| 0 <= y < n && y != k && pk == #[trigger] dv[y].position,
                    decreases n - m,
                {
                    if m != k && done[m].position == pk {
                        assert(dv[m as int].position == pk);
                        ok = false;
                    }
                    m += 1;
                }
                proof {
                    if !ok {
                        let y = choose|y: int| 0 <= y < n && y != k && pk == #[trigger] dv[y].position;
                        assert(dv[k as int].position == dv[y].position);
                    }
                }
            }
            k += 1;
        }
        assert(ok == stored_positions_ok(u, dv)) by {
            if ok {
                assert forall|x: int, y: int| 0 <= x < dv.len() && 0 <= y < dv.len() && x != y
                    implies (#[trigger] dv[x].position) != (#[trigger] dv[y].position) by {
                    assert(dv[x].position <= n);
                }
            }
        }
        if !ok {
            return Err(String::from_str("Invalid Skill group positions in skill-packages.json"));
        }
        let sorted = sort_by_position(&done);
        proof {
            lemma_reordering_wf(package_views(sorted@), dv, u);
        }
        Ok(PackageStore {
            schema_version: 3,
            revision: store.revision,
            uncategorized_position: u,
            packages: sorted,
        })
    } else {
        let ghost dv = package_views(done@);
        proof {
            let ident = Seq::new(dv.len(), |j: int| j);
            assert(reorders(dv, dv, ident, ident));
            assert forall|x: int, y: int| 0 <= x < y < dv.len() implies (#[trigger] dv[x].position)
                < (#[trigger] dv[y].position) by {}
        }
        Ok(PackageStore {
            schema_version: 3,
            revision: store.revision,
            uncategorized_position: 0,
            packages: done,
        })
    }
}

pub open spec fn changed_message() -> Seq<char> {
    "Packages changed. Refresh and retry / 包配置已变化，请刷新后重试"@
}

pub open spec fn missing_package_message() -> Seq<char> {
    "Package no longer exists"@
}

pub open spec fn invalid_member_message() -> Seq<char> {
    "Invalid member UUID"@
}

pub open spec fn not_managed_message(id: Seq<char>) -> Seq<char> {
    "Skill is not managed / Skill 未托管: "@ + id
}

pub open spec fn package_text_message() -> Seq<char> {
    "包名称需为 1–100 字符，描述最多 4000 字符 / Invalid package name or description"@
}

/// The skills a request names, normalized and each once in first-seen
/// order; or the error for the first that is not a UUID or not in
/// `allowed`.
pub open spec fn requested_members(raw: Seq<Seq<char>>, allowed: Set<Seq<char>>) -> Result<
    Seq<Seq<char>>,
    Seq<char>,
>
    decreases raw.len(),
{
    if raw.len() == 0 {
        Ok(seq![])
    } else {
        match requested_members(raw.drop_last(), allowed) {
            Err(e) => Err(e),
            Ok(prefix) => match normalized_uuid(raw.last()) {
                None => Err(invalid_member_message()),
                Some(id) => if !allowed.contains(id) {
                    Err(not_managed_message(id))
                } else if prefix.contains(id) {
                    Ok(prefix)
                } else {
                    Ok(prefix.push(id))
                },
            },
        }
    }
}

/// The members of `ms` that are not in `removed`, order kept.
pub open spec fn without(ms: Seq<Seq<char>>, removed: Seq<Seq<char>>) -> Seq<Seq<char>>
    decreases ms.len(),
{
    if ms.len() == 0 {
        seq![]
    } else if removed.contains(ms.last()) {
        without(ms.drop_last(), removed)
    } else {
        without(ms.drop_last(), removed).push(ms.last())
    }
}

/// The first index of a package with id `id`, or -1.
pub open spec fn package_index(ps: Seq<PackageView>, id: Seq<char>) -> int
    decreases ps.len(),
{
    if ps.len() == 0 {
        -1
    } else if package_index(ps.drop_last(), id) >= 0 {
        package_index(ps.drop_last(), id)
    } else if ps.last().id == id {
        ps.len() - 1
    } else {
        -1
    }
}

/// The largest position in use, the uncategorized group's included.
pub open spec fn max_position(u: u32, ps: Seq<PackageView>) -> u32
    decreases ps.len(),
{
    if ps.len() == 0 {
        u
    } else {
        let m = max_position(u, ps.drop_last());
        if ps.last().position > m {
            ps.last().position
        } else {
            m
        }
    }
}

/// A save request as a value.
pub struct SaveRequestView {
    pub id: Option<Seq<char>>,
    pub name: Seq<char>,
    pub description: Seq<char>,
    pub members: Seq<Seq<char>>,
    pub revision: u64,
}

impl View for SavePackageRequest {
    type V = SaveRequestView;

    open spec fn view(&self) -> SaveRequestView {
        SaveRequestView {
            id: match self.id {
                Some(i) => Some(i@),
                None => None,
            },
            name: self.name@,
            description: self.description@,
            members: string_views(self.skill_uuids@),
            revision: self.revision,
        }
    }
}

/// The package a save request stands for, given its members.
pub open spec fn saved_package(
    s: StoreView,
    req: SaveRequestView,
    members: Seq<Seq<char>>,
    now: u64,
    fresh: Seq<char>,
) -> PackageView {
    match req.id {
        Some(id) => {
            let p = s.packages[package_index(s.packages, id)];
            PackageView {
                name: trim(req.name),
                description: trim(req.description),
                members,
                updated_at: now,
                ..p
            }
        },
        None => PackageView {
            id: fresh,
            name: trim(req.name),
            description: trim(req.description),
            members,
            position: (max_position(s.uncategorized_position, s.packages) + 1) as u32,
            created_at: now,
            updated_at: now,
        },
    }
}

/// Every other package loses the members of `pkg`.
pub open spec fn release_members(ps: Seq<PackageView>, pkg: PackageView) -> Seq<PackageView> {
    ps.map_values(
        |q: PackageView|
            if q.id != pkg.id {
                with_members(q, without(q.members, pkg.members))
            } else {
                q
            },
    )
}

/// `pkg` put in place of the package with its id, or added at the end.
pub open spec fn put_package(ps: Seq<PackageView>, pkg: PackageView) -> Seq<PackageView> {
    let k = package_index(ps, pkg.id);
    if k >= 0 {
        ps.update(k, pkg)
    } else {
        ps.push(pkg)
    }
}

/// What saving a package does: the request must be made against the
/// current revision, name a package of 1 to 100 characters (trimmed) with a
/// description of at most 4000, and name an existing package when it has an
/// id; its members must be managed skills (`managed`) or already in the
/// package.  The package gets the trimmed texts and the members, a new one
/// the id `fresh`, the time `now` and the position after all others; the
/// members leave every other package; the revision goes up by one.
pub open spec fn save_outcome(
    s: StoreView,
    req: SaveRequestView,
    managed: Set<Seq<char>>,
    now: u64,
    fresh: Seq<char>,
) -> Result<StoreView, Seq<char>> {
    if req.revision != s.revision {
        Err(changed_message())
    } else if trim(req.name).len() == 0 || trim(req.name).len() > 100 || req.description.len()
        > 4000 {
        Err(package_text_message())
    } else if req.id is Some && package_index(s.packages, req.id->0) < 0 {
        Err(missing_package_message())
    } else {
        let allowed = match req.id {
            Some(id) => managed + s.packages[package_index(s.packages, id)].members.to_set(),
            None => managed,
        };
        match requested_members(req.members, allowed) {
            Err(e) => Err(e),
            Ok(members) => {
                let pkg = saved_package(s, req, members, now, fresh);
                Ok(
                    StoreView {
                        revision: (s.revision + 1) as u64,
                        packages: put_package(release_members(s.packages, pkg), pkg),
                        ..s
                    },
                )
            },
        }
    }
}

/// `package_index` is the first index holding the id.
pub proof fn lemma_package_index(ps: Seq<PackageView>, id: Seq<char>)
    ensures
        -1 <= package_index(ps, id) < ps.len(),
        package_index(ps, id) == -1 <==> forall|j: int| 0 <= j < ps.len() ==> #[trigger] ps[j].id != id,
        package_index(ps, id) >= 0 ==> ps[package_index(ps, id)].id == id && forall|j: int|
            0 <= j < package_index(ps, id) ==> #[trigger] ps[j].id != id,
    decreases ps.len(),
{
    if ps.len() > 0 {
        let d = ps.drop_last();
        lemma_package_index(d, id);
        let r = package_index(d, id);
        if r >= 0 {
            assert(ps[r] == d[r]);
            assert forall|j: int| 0 <= j < r implies #[trigger] ps[j].id != id by {
                assert(d[j] == ps[j]);
            }
        } else if ps.last().id == id {
            assert forall|j: int| 0 <= j < ps.len() - 1 implies #[trigger] ps[j].id != id by {
                assert(d[j] == ps[j]);
            }
        } else {
            assert forall|j: int| 0 <= j < ps.len() implies #[trigger] ps[j].id != id by {
                if j < ps.len() - 1 {
                    assert(d[j] == ps[j]);
                }
            }
        }
    }
}

/// Where the package with id `id` is.
fn find_package(ps: &Vec<SkillPackage>, id: &String) -> (r: Option<usize>)
    ensures
        match r {
            Some(k) => package_index(package_views(ps@), id@) == k && k < ps.len(),
            None => package_index(package_views(ps@), id@) == -1,
        },
{
    let ghost pv = package_views(ps@);
    proof {
        lemma_package_index(pv, id@);
    }
    let mut j: usize = 0;
    while j < ps.len()
        invariant
            j <= ps.len(),
            pv == package_views(ps@),
            pv.len() == ps.len(),
            -1 <= package_index(pv, id@) < pv.len(),
            package_index(pv, id@) == -1 <==> forall|k: int| 0 <= k < pv.len() ==> #[trigger] pv[k].id != id@,
            package_index(pv, id@) >= 0 ==> pv[package_index(pv, id@)].id == id@ && forall|k: int|
                0 <= k < package_index(pv, id@) ==> #[trigger] pv[k].id != id@,
            forall|k: int| 0 <= k < j ==> #[trigger] pv[k].id != id@,
        decreases ps.len() - j,
    {
        assert(pv[j as int] == ps@[j as int]@);
        if ps[j].id == *id {
            proof {
                let r = package_index(pv, id@);
                assert(pv[j as int].id == id@);
                if r == -1 {
                    assert(pv[j as int].id != id@);
                } else if r < j {
                    assert(pv[r].id != id@);
                } else if r > j {
                    assert(pv[j as int].id != id@);
                }
            }
            return Some(j);
        }
        j += 1;
    }
    None
}

/// The largest position in use.
fn find_max_position(u: u32, ps: &Vec<SkillPackage>) -> (r: u32)
    ensures
        r == max_position(u, package_views(ps@)),
{
    let ghost pv = package_views(ps@);
    let mut m = u;
    let mut j: usize = 0;
    assert(pv.subrange(0, 0) =~= Seq::<PackageView>::empty());
    while j < ps.len()
        invariant
            j <= ps.len(),
            pv == package_views(ps@),
            m == max_position(u, pv.subrange(0, j as int)),
        decreases ps.len() - j,
    {
        assert(pv.subrange(0, j + 1).drop_last() =~= pv.subrange(0, j as int));
        assert(pv[j as int] == ps@[j as int]@);
        if ps[j].position > m {
            m = ps[j].position;
        }
        j += 1;
    }
    assert(pv.subrange(0, ps.len() as int) =~= pv);
    m
}

/// The members of `ms` that are not in `removed`.
fn strings_without(ms: &Vec<String>, removed: &Vec<String>) -> (r: Vec<String>)
    ensures
        string_views(r@) == without(string_views(ms@), string_views(removed@)),
{
    let ghost mv = string_views(ms@);
    let mut r: Vec<String> = Vec::new();
    let mut j: usize = 0;
    assert(mv.subrange(0, 0) =~= Seq::<Seq<char>>::empty());
    while j < ms.len()
        invariant
            j <= ms.len(),
            mv == string_views(ms@),
            string_views(r@) == without(mv.subrange(0, j as int), string_views(removed@)),
        decreases ms.len() - j,
    {
        assert(mv.subrange(0, j + 1).drop_last() =~= mv.subrange(0, j as int));
        assert(mv[j as int] == ms@[j as int]@);
        if !strings_contain(removed, &ms[j]) {
            let c = ms[j].clone();
            proof {
                lemma_views_push(r@, c);
            }
            r.push(c);
        }
        j += 1;
    }
    assert(mv.subrange(0, ms.len() as int) =~= mv);
    r
}

/// A UUID in canonical shape that is its own canonical form is a UUID text.
pub proof fn lemma_canonical_is_uuid_text(u: Seq<char>)
    requires
        is_canonical_uuid_shape(u),
        uuid_canonical(u) == Some(u),
    ensures
        is_uuid_text(u),
{
    assert(u[0] == '-' || crate::identity::is_lower_hex(u[0]));
    assert(u[35] == '-' || crate::identity::is_lower_hex(u[35]));
    lemma_trim_unpadded(u);
}

/// The members a request names, checked against the managed skills and
/// `extra`.
fn collect_members(raw: &Vec<String>, managed: &Vec<String>, extra: &Vec<String>) -> (r: Result<
    Vec<String>,
    String,
>)
    ensures
        match r {
            Ok(ms) => {
                &&& requested_members(
                    string_views(raw@),
                    string_views(managed@).to_set() + string_views(extra@).to_set(),
                ) == Ok::<Seq<Seq<char>>, Seq<char>>(string_views(ms@))
                &&& forall|a: int| 0 <= a < ms@.len() ==> is_uuid_text(#[trigger] string_views(ms@)[a])
                &&& string_views(ms@).no_duplicates()
            },
            Err(e) => requested_members(
                string_views(raw@),
                string_views(managed@).to_set() + string_views(extra@).to_set(),
            ) == Err::<Seq<Seq<char>>, Seq<char>>(e@),
        },
{
    let ghost allowed = string_views(managed@).to_set() + string_views(extra@).to_set();
    let ghost rv = string_views(raw@);
    let mut ms: Vec<String> = Vec::new();
    let mut a: usize = 0;
    assert(rv.subrange(0, 0) =~= Seq::<Seq<char>>::empty());
    assert(string_views(ms@) =~= Seq::<Seq<char>>::empty());
    while a < raw.len()
        invariant
            a <= raw.len(),
            rv == string_views(raw@),
            allowed == string_views(managed@).to_set() + string_views(extra@).to_set(),
            requested_members(rv.subrange(0, a as int), allowed) == Ok::<Seq<Seq<char>>, Seq<char>>(
                string_views(ms@),
            ),
            forall|b: int| 0 <= b < ms@.len() ==> is_uuid_text(#[trigger] string_views(ms@)[b]),
            string_views(ms@).no_duplicates(),
        decreases raw.len() - a,
    {
        let ghost cur = rv.subrange(0, a + 1);
        assert(cur.drop_last() =~= rv.subrange(0, a as int));
        assert(cur.last() == raw@[a as int]@);
        let id = match normalize_skill_uuid(raw[a].as_str()) {
            Some(id) => id,
            None => {
                proof {
                    lemma_requested_error_stays(rv, allowed, a + 1);
                }
                return Err(String::from_str("Invalid member UUID"));
            },
        };
        proof {
            lemma_canonical_is_uuid_text(id@);
        }
        let allowed_here = strings_contain(managed, &id) || strings_contain(extra, &id);
        if !allowed_here {
            let mut message = chars_of("Skill is not managed / Skill 未托管: ");
            let idc = chars_of(id.as_str());
            crate::text::append_chars(&mut message, &idc);
            proof {
                lemma_requested_error_stays(rv, allowed, a + 1);
            }
            return Err(string_of(&message));
        }
        if !strings_contain(&ms, &id) {
            let ghost before = string_views(ms@);
            proof {
                lemma_views_push(ms@, id);
            }
            ms.push(id);
            assert forall|x: int, y: int| 0 <= x < string_views(ms@).len() && 0 <= y < string_views(ms@).len() && x != y
                implies #[trigger] string_views(ms@)[x] != #[trigger] string_views(ms@)[y] by {
                if x < before.len() && y < before.len() {
                    assert(string_views(ms@)[x] == before[x]);
                    assert(string_views(ms@)[y] == before[y]);
                } else if x < before.len() {
                    assert(string_views(ms@)[x] == before[x]);
                } else if y < before.len() {
                    assert(string_views(ms@)[y] == before[y]);
                }
            }
        }
        a += 1;
    }
    assert(rv.subrange(0, raw.len() as int) =~= rv);
    Ok(ms)
}

/// A request whose first `k` members are refused is refused with the same
/// error.
proof fn lemma_requested_error_stays(raw: Seq<Seq<char>>, allowed: Set<Seq<char>>, k: int)
    requires
        0 <= k <= raw.len(),
        requested_members(raw.subrange(0, k), allowed) is Err,
    ensures
        requested_members(raw, allowed) == requested_members(raw.subrange(0, k), allowed),
    decreases raw.len() - k,
{
    if k < raw.len() {
        assert(raw.subrange(0, k + 1).drop_last() =~= raw.subrange(0, k));
        lemma_requested_error_stays(raw, allowed, k + 1);
    } else {
        assert(raw.subrange(0, k) =~= raw);
    }
}

pub proof fn lemma_without(ms: Seq<Seq<char>>, removed: Seq<Seq<char>>)
    ensures
        forall|m: Seq<char>| #[trigger] without(ms, removed).contains(m) <==> (ms.contains(m)
            && !removed.contains(m)),
        ms.no_duplicates() ==> without(ms, removed).no_duplicates(),
    decreases ms.len(),
{
    if ms.len() > 0 {
        let d = ms.drop_last();
        lemma_without(d, removed);
        let w = without(d, removed);
        assert forall|m: Seq<char>| ms.contains(m) <==> (d.contains(m) || m == ms.last()) by {
            if ms.contains(m) {
                let k = choose|k: int| 0 <= k < ms.len() && ms[k] == m;
                if k < ms.len() - 1 {
                    assert(d[k] == m);
                }
            }
            if d.contains(m) {
                let k = choose|k: int| 0 <= k < d.len() && d[k] == m;
                assert(ms[k] == m);
            }
            if m == ms.last() {
                assert(ms[ms.len() - 1] == m);
            }
        }
        if !removed.contains(ms.last()) {
            assert forall|m: Seq<char>| #[trigger] w.push(ms.last()).contains(m) <==> (w.contains(m)
                || m == ms.last()) by {
                if w.push(ms.last()).contains(m) {
                    let k = choose|k: int| 0 <= k < w.len() + 1 && w.push(ms.last())[k] == m;
                    if k < w.len() {
                        assert(w[k] == m);
                    }
                }
                if w.contains(m) {
                    let k = choose|k: int| 0 <= k < w.len() && w[k] == m;
                    assert(w.push(ms.last())[k] == m);
                }
                if m == ms.last() {
                    assert(w.push(ms.last())[w.len() as int] == m);
                }
            }
            if ms.no_duplicates() {
                assert(d.no_duplicates()) by {
                    assert forall|x: int, y: int| 0 <= x < d.len() && 0 <= y < d.len() && x != y
                        implies d[x] != d[y] by {
                        assert(d[x] == ms[x]);
                        assert(d[y] == ms[y]);
                    }
                }
                assert(!d.contains(ms.last())) by {
                    if d.contains(ms.last()) {
                        let k = choose|k: int| 0 <= k < d.len() && d[k] == ms.last();
                        assert(ms[k] == ms[ms.len() - 1]);
                    }
                }
                assert(!w.contains(ms.last()));
                let wp = w.push(ms.last());
                assert forall|x: int, y: int| 0 <= x < wp.len() && 0 <= y < wp.len() && x != y
                    implies wp[x] != wp[y] by {
                    if x < w.len() && y < w.len() {
                    } else if x < w.len() {
                        assert(w.contains(wp[x]));
                    } else if y < w.len() {
                        assert(w.contains(wp[y]));
                    }
                }
            }
        } else {
            if ms.no_duplicates() {
                assert(d.no_duplicates()) by {
                    assert forall|x: int, y: int| 0 <= x < d.len() && 0 <= y < d.len() && x != y
                        implies d[x] != d[y] by {
                        assert(d[x] == ms[x]);
                        assert(d[y] == ms[y]);
                    }
                }
            }
        }
    }
}

/// The largest position is at most any bound on all positions.
pub proof fn lemma_max_position(u: u32, ps: Seq<PackageView>, bound: int)
    requires
        u <= bound,
        forall|i: int| 0 <= i < ps.len() ==> (#[trigger] ps[i].position) <= bound,
    ensures
        max_position(u, ps) <= bound,
        u <= max_position(u, ps),
        forall|i: int| 0 <= i < ps.len() ==> (#[trigger] ps[i].position) <= max_position(u, ps),
    decreases ps.len(),
{
    if ps.len() > 0 {
        let d = ps.drop_last();
        assert forall|i: int| 0 <= i < d.len() implies (#[trigger] d[i].position) <= bound by {
            assert(d[i] == ps[i]);
        }
        lemma_max_position(u, d, bound);
        assert forall|i: int| 0 <= i < ps.len() implies (#[trigger] ps[i].position) <= max_position(
            u,
            ps,
        ) by {
            if i < d.len() {
                assert(d[i] == ps[i]);
            }
        }
    }
}

/// Saving keeps a store well formed, provided a new package gets an unused
/// UUID.
proof fn lemma_save_wf(
    s: StoreView,
    req: SaveRequestView,
    now: u64,
    fresh: Seq<char>,
    members: Seq<Seq<char>>,
)
    requires
        store_wf(s),
        s.packages.len() < u32::MAX,
        req.id is Some ==> package_index(s.packages, req.id->0) >= 0,
        req.id is None ==> is_uuid_text(fresh) && package_index(s.packages, fresh) == -1,
        forall|a: int| 0 <= a < members.len() ==> is_uuid_text(#[trigger] members[a]),
        members.no_duplicates(),
    ensures
        ({
            let pkg = saved_package(s, req, members, now, fresh);
            store_wf(
                StoreView {
                    revision: (s.revision + 1) as u64,
                    packages: put_package(release_members(s.packages, pkg), pkg),
                    ..s
                },
            )
        }),
{
    let ps = s.packages;
    let n = ps.len();
    let pkg = saved_package(s, req, members, now, fresh);
    let rel = release_members(ps, pkg);
    lemma_package_index(ps, pkg.id);
    lemma_max_position(s.uncategorized_position, ps, n as int);
    assert forall|k: int| 0 <= k < n implies #[trigger] rel[k].id == ps[k].id && rel[k].position
        == ps[k].position by {}
    assert forall|k: int, m: Seq<char>| 0 <= k < n && #[trigger] rel[k].members.contains(m) implies ps[k].members.contains(m)
        && (ps[k].id != pkg.id ==> !members.contains(m)) by {
        if ps[k].id != pkg.id {
            lemma_without(ps[k].members, members);
        }
    }
    assert(package_index(rel, pkg.id) == package_index(ps, pkg.id)) by {
        lemma_package_index(rel, pkg.id);
        let a = package_index(rel, pkg.id);
        let b = package_index(ps, pkg.id);
        if a >= 0 && b >= 0 {
            if a < b {
                assert(rel[a].id == ps[a].id);
            } else if b < a {
                assert(rel[b].id == ps[b].id);
            }
        } else if a >= 0 {
            assert(rel[a].id == ps[a].id);
        } else if b >= 0 {
            assert(rel[b].id == ps[b].id);
        }
    }
    let k0 = package_index(ps, pkg.id);
    let out = put_package(rel, pkg);
    if req.id is Some {
        lemma_package_index(ps, req.id->0);
        assert(pkg.id == req.id->0);
        assert(k0 == package_index(ps, req.id->0));
        assert(out == rel.update(k0, pkg));
        assert(pkg.position == ps[k0].position);
    } else {
        assert(k0 == -1);
        assert(out == rel.push(pkg));
    }
    // ids
    assert forall|i: int| 0 <= i < out.len() implies is_uuid_text(#[trigger] out[i].id) by {
        if i < n {
            assert(out[i].id == ps[i].id);
        }
    }
    assert forall|i: int, j: int| 0 <= i < j < out.len() implies #[trigger] out[i].id != #[trigger] out[j].id by {
        if j < n {
            assert(out[i].id == ps[i].id);
            assert(out[j].id == ps[j].id);
        } else {
            assert(out[i].id == ps[i].id);
        }
    }
    // members
    assert forall|i: int, a: int| 0 <= i < out.len() && 0 <= a < out[i].members.len() implies is_uuid_text(
        #[trigger] out[i].members[a],
    ) by {
        if out[i] != pkg {
            assert(out[i] == rel[i]);
            assert(rel[i].members.contains(rel[i].members[a]));
            let b = choose|b: int| 0 <= b < ps[i].members.len() && ps[i].members[b] == rel[i].members[a];
        }
    }
    assert forall|i: int| 0 <= i < out.len() implies (#[trigger] out[i].members).no_duplicates() by {
        if out[i] != pkg {
            assert(out[i] == rel[i]);
            if ps[i].id != pkg.id {
                lemma_without(ps[i].members, members);
            }
        }
    }
    assert forall|i: int, j: int, m: Seq<char>|
        0 <= i < out.len() && 0 <= j < out.len() && i != j && #[trigger] out[i].members.contains(m)
            implies !#[trigger] out[j].members.contains(m) by {
        let pi = out[i] == pkg && (i == k0 || i == n);
        let pj = out[j] == pkg && (j == k0 || j == n);
        if i == k0 || i == n {
            assert(out[i] == pkg);
            assert(j < n && j != k0);
            assert(out[j] == rel[j]);
            if out[j].members.contains(m) {
                assert(ps[j].id != pkg.id);
            }
        } else if j == k0 || j == n {
            assert(out[j] == pkg);
            assert(out[i] == rel[i]);
            assert(ps[i].id != pkg.id);
        } else {
            assert(out[i] == rel[i]);
            assert(out[j] == rel[j]);
        }
    }
    // positions
    assert forall|i: int| 0 <= i < out.len() implies (#[trigger] out[i].position) <= out.len()
        && out[i].position != s.uncategorized_position by {
        if i < n {
            assert(out[i].position == ps[i].position);
        }
    }
    assert forall|i: int, j: int| 0 <= i < j < out.len() implies (#[trigger] out[i].position) < (
    #[trigger] out[j].position) by {
        assert(out[i].position == ps[i].position);
        if j < n {
            assert(out[j].position == ps[j].position);
        }
    }
}

/// `q` without the members of `pkg` unless it is `pkg`'s own entry.
fn released(q: &SkillPackage, pkg: &SkillPackage) -> (r: SkillPackage)
    ensures
        r@ == (if q@.id != pkg@.id {
            with_members(q@, without(q@.members, pkg@.members))
        } else {
            q@
        }),
{
    if q.id != pkg.id {
        SkillPackage {
            id: q.id.clone(),
            name: q.name.clone(),
            description: q.description.clone(),
            skill_uuids: strings_without(&q.skill_uuids, &pkg.skill_uuids),
            position: q.position,
            created_at: q.created_at,
            updated_at: q.updated_at,
        }
    } else {
        copy_package(q)
    }
}

/// The packages with `pkg` put in place of the one with its id (or added),
/// every other package losing `pkg`'s members.
fn place_package(ps: &Vec<SkillPackage>, pkg: SkillPackage) -> (r: Vec<SkillPackage>)
    ensures
        package_views(r@) == put_package(release_members(package_views(ps@), pkg@), pkg@),
{
    let ghost pv = package_views(ps@);
    let ghost rel = release_members(pv, pkg@);
    let mut out: Vec<SkillPackage> = Vec::new();
    let mut j: usize = 0;
    while j < ps.len()
        invariant
            j <= ps.len(),
            pv == package_views(ps@),
            rel == release_members(pv, pkg@),
            package_views(out@).len() == j,
            forall|k: int| 0 <= k < j ==> #[trigger] package_views(out@)[k] == rel[k],
        decreases ps.len() - j,
    {
        let q = released(&ps[j], &pkg);
        assert(ps@[j as int]@ == pv[j as int]);
        proof {
            lemma_package_views_push(out@, q);
        }
        out.push(q);
        j += 1;
    }
    assert(package_views(out@) =~= rel);
    match find_package(&out, &pkg.id) {
        Some(k) => {
            let ghost x = pkg@;
            out.set(k, pkg);
            assert(package_views(out@) =~= rel.update(k as int, x));
        },
        None => {
            proof {
                lemma_package_views_push(out@, pkg);
            }
            out.push(pkg);
        },
    }
    out
}

/// Saves a package (see `save_outcome`): `managed` are the UUIDs of the
/// managed skills, `now` the time in seconds and `fresh_id` the UUID a new
/// package gets.  When a new package's UUID is unused, the store stays well
/// formed.
pub fn save_package(
    store: &PackageStore,
    request: &SavePackageRequest,
    managed: &Vec<String>,
    now: u64,
    fresh_id: &str,
) -> (r: Result<PackageStore, String>)
    requires
        store_wf(store@),
        store.revision < u64::MAX,
        store.packages.len() < u32::MAX,
    ensures
        store_result_view(r) == save_outcome(
            store@,
            request@,
            string_views(managed@).to_set(),
            now,
            fresh_id@,
        ),
        r is Ok && (request.id is None ==> is_uuid_text(fresh_id@) && package_index(
            store@.packages,
            fresh_id@,
        ) == -1) ==> store_wf(r->Ok_0@),
{
    let ghost s = store@;
    let ghost req = request@;
    let ghost managed_set = string_views(managed@).to_set();
    if request.revision != store.revision {
        return Err(String::from_str("Packages changed. Refresh and retry / 包配置已变化，请刷新后重试"));
    }
    let name = trim_chars(&chars_of(request.name.as_str()));
    let description = chars_of(request.description.as_str());
    if name.len() == 0 || name.len() > 100 || description.len() > 4000 {
        return Err(
            String::from_str(
                "包名称需为 1–100 字符，描述最多 4000 字符 / Invalid package name or description",
            ),
        );
    }
    let previous: Option<usize> = match &request.id {
        Some(id) => match find_package(&store.packages, id) {
            Some(k) => Some(k),
            None => {
                return Err(String::from_str("Package no longer exists"));
            },
        },
        None => None,
    };
    let extra: Vec<String> = match previous {
        Some(k) => copy_strings(&store.packages[k].skill_uuids),
        None => Vec::new(),
    };
    proof {
        lemma_max_position(store.uncategorized_position, s.packages, s.packages.len() as int);
        match previous {
            Some(k) => {
                assert(s.packages[k as int] == store.packages@[k as int]@);
                assert(string_views(extra@).to_set() =~= s.packages[package_index(
                    s.packages,
                    req.id->0,
                )].members.to_set());
            },
            None => {
                assert(string_views(extra@).to_set() =~= Set::<Seq<char>>::empty());
                assert(managed_set + Set::<Seq<char>>::empty() =~= managed_set);
            },
        }
    }
    let members = match collect_members(&request.skill_uuids, managed, &extra) {
        Ok(ms) => ms,
        Err(e) => {
            return Err(e);
        },
    };
    let ghost mv = string_views(members@);
    let trimmed_description = trim_chars(&description);
    let pkg = match previous {
        Some(k) => {
            let p = &store.packages[k];
            SkillPackage {
                id: p.id.clone(),
                name: string_of(&name),
                description: string_of(&trimmed_description),
                skill_uuids: members,
                position: p.position,
                created_at: p.created_at,
                updated_at: now,
            }
        },
        None => {
            let top = find_max_position(store.uncategorized_position, &store.packages);
            SkillPackage {
                id: String::from_str(fresh_id),
                name: string_of(&name),
                description: string_of(&trimmed_description),
                skill_uuids: members,
                position: top + 1,
                created_at: now,
                updated_at: now,
            }
        },
    };
    assert(pkg@ == saved_package(s, req, mv, now, fresh_id@)) by {
        if previous is Some {
            assert(s.packages[package_index(s.packages, req.id->0)] == store.packages@[previous->0 as int]@);
        }
    }
    let packages = place_package(&store.packages, pkg);
    proof {
        if request.id is None ==> is_uuid_text(fresh_id@) && package_index(s.packages, fresh_id@) == -1 {
            lemma_save_wf(s, req, now, fresh_id@, mv);
        }
    }
    Ok(
        PackageStore {
            schema_version: store.schema_version,
            revision: store.revision + 1,
            uncategorized_position: store.uncategorized_position,
            packages,
        },
    )
}

/// Saves a package as `save_package` does, a new package taking a random
/// UUID; where that UUID is not in use already, the store stays well
/// formed.
pub fn save_package_with_fresh_id(
    store: &PackageStore,
    request: &SavePackageRequest,
    managed: &Vec<String>,
    now: u64,
) -> (r: Result<PackageStore, String>)
    requires
        store_wf(store@),
        store.revision < u64::MAX,
        store.packages.len() < u32::MAX,
    ensures
        exists|id: Seq<char>|
            #[trigger] is_canonical_uuid_shape(id) && store_result_view(r) == save_outcome(
                store@,
                request@,
                string_views(managed@).to_set(),
                now,
                id,
            ) && (r is Ok && package_index(store@.packages, id) == -1 ==> store_wf(r->Ok_0@)),
{
    let id = crate::create_skill::new_uuid();
    proof {
        lemma_canonical_is_uuid_text(id@);
    }
    let r = save_package(store, request, managed, now, id.as_str());
    assert(is_canonical_uuid_shape(id@));
    r
}

/// An assignment request as a value.
pub struct AssignRequestView {
    pub package_id: Option<Seq<char>>,
    pub members: Seq<Seq<char>>,
    pub revision: u64,
}

impl View for AssignPackageMembersRequest {
    type V = AssignRequestView;

    open spec fn view(&self) -> AssignRequestView {
        AssignRequestView {
            package_id: match self.package_id {
                Some(i) => Some(i@),
                None => None,
            },
            members: string_views(self.skill_uuids@),
            revision: self.revision,
        }
    }
}

/// Every package loses the given members.
pub open spec fn clear_members(ps: Seq<PackageView>, members: Seq<Seq<char>>) -> Seq<PackageView> {
    ps.map_values(|q: PackageView| with_members(q, without(q.members, members)))
}

/// What assigning skills does: against the current revision, to an
/// existing package or to none, with managed skills only; the skills leave
/// every package, then join the end of the chosen one, whose update time
/// becomes `now`; the revision goes up by one.
pub open spec fn assign_outcome(
    s: StoreView,
    req: AssignRequestView,
    managed: Set<Seq<char>>,
    now: u64,
) -> Result<StoreView, Seq<char>> {
    if req.revision != s.revision {
        Err(changed_message())
    } else if req.package_id is Some && package_index(s.packages, req.package_id->0) < 0 {
        Err(missing_package_message())
    } else {
        match requested_members(req.members, managed) {
            Err(e) => Err(e),
            Ok(members) => {
                let cleared = clear_members(s.packages, members);
                let packages = match req.package_id {
                    None => cleared,
                    Some(id) => {
                        let k = package_index(cleared, id);
                        cleared.update(
                            k,
                            PackageView {
                                members: cleared[k].members + members,
                                updated_at: now,
                                ..cleared[k]
                            },
                        )
                    },
                };
                Ok(StoreView { revision: (s.revision + 1) as u64, packages, ..s })
            },
        }
    }
}

/// Assigning skills keeps a store well formed.
proof fn lemma_assign_wf(s: StoreView, req: AssignRequestView, now: u64, members: Seq<Seq<char>>)
    requires
        store_wf(s),
        req.package_id is Some ==> package_index(s.packages, req.package_id->0) >= 0,
        forall|a: int| 0 <= a < members.len() ==> is_uuid_text(#[trigger] members[a]),
        members.no_duplicates(),
    ensures
        ({
            let cleared = clear_members(s.packages, members);
            let packages = match req.package_id {
                None => cleared,
                Some(id) => {
                    let k = package_index(cleared, id);
                    cleared.update(
                        k,
                        PackageView { members: cleared[k].members + members, updated_at: now, ..cleared[k] },
                    )
                },
            };
            store_wf(StoreView { revision: (s.revision + 1) as u64, packages, ..s })
        }),
{
    let ps = s.packages;
    let n = ps.len();
    let cleared = clear_members(ps, members);
    assert forall|k: int, m: Seq<char>| 0 <= k < n && #[trigger] cleared[k].members.contains(m) implies ps[k].members.contains(m)
        && !members.contains(m) by {
        lemma_without(ps[k].members, members);
    }
    assert forall|k: int| 0 <= k < n implies (#[trigger] cleared[k]).members.no_duplicates() && cleared[k].id == ps[k].id && cleared[k].position == ps[k].position by {
        lemma_without(ps[k].members, members);
    }
    let packages = match req.package_id {
        None => cleared,
        Some(id) => {
            let k = package_index(cleared, id);
            cleared.update(
                k,
                PackageView { members: cleared[k].members + members, updated_at: now, ..cleared[k] },
            )
        },
    };
    let mut k0: int = -1;
    if req.package_id is Some {
        let id = req.package_id->0;
        lemma_package_index(ps, id);
        lemma_package_index(cleared, id);
        k0 = package_index(cleared, id);
        assert(k0 >= 0) by {
            let b = package_index(ps, id);
            assert(cleared[b].id == id);
        }
    }
    assert forall|i: int| 0 <= i < n && i != k0 implies #[trigger] packages[i] == cleared[i] by {}
    assert forall|i: int| 0 <= i < n implies #[trigger] packages[i].id == ps[i].id && packages[i].position
        == ps[i].position by {}
    assert(packages.len() == n);
    assert forall|i: int, a: int| 0 <= i < n && 0 <= a < packages[i].members.len() implies is_uuid_text(
        #[trigger] packages[i].members[a],
    ) by {
        let m = packages[i].members[a];
        if i == k0 && a >= cleared[i].members.len() {
            assert(m == members[a - cleared[i].members.len()]);
        } else {
            assert(m == cleared[i].members[a]);
            assert(cleared[i].members.contains(m));
            assert(ps[i].members.contains(m));
            let b = choose|b: int| 0 <= b < ps[i].members.len() && ps[i].members[b] == m;
        }
    }
    assert forall|i: int| 0 <= i < n implies (#[trigger] packages[i].members).no_duplicates() by {
        if i == k0 {
            let c = cleared[i].members;
            let all = c + members;
            assert forall|x: int, y: int| 0 <= x < all.len() && 0 <= y < all.len() && x != y implies all[x]
                != all[y] by {
                if x < c.len() && y < c.len() {
                } else if x < c.len() {
                    assert(c.contains(all[x]));
                    assert(members[y - c.len()] == all[y]);
                } else if y < c.len() {
                    assert(c.contains(all[y]));
                    assert(members[x - c.len()] == all[x]);
                } else {
                    assert(members[x - c.len()] == all[x]);
                    assert(members[y - c.len()] == all[y]);
                }
            }
        }
    }
    assert forall|i: int, j: int, m: Seq<char>|
        0 <= i < n && 0 <= j < n && i != j && #[trigger] packages[i].members.contains(m)
            implies !#[trigger] packages[j].members.contains(m) by {
        let c = cleared[k0].members;
        if i == k0 {
            if packages[j].members.contains(m) {
                assert(cleared[j].members.contains(m));
                let a = choose|a: int| 0 <= a < packages[i].members.len() && packages[i].members[a] == m;
                if a < c.len() {
                    assert(c.contains(m));
                } else {
                    assert(members.contains(m)) by {
                        assert(members[a - c.len()] == m);
                    }
                }
            }
        } else if j == k0 {
            assert(cleared[i].members.contains(m));
            if packages[j].members.contains(m) {
                let a = choose|a: int| 0 <= a < packages[j].members.len() && packages[j].members[a] == m;
                if a < c.len() {
                    assert(c.contains(m));
                } else {
                    assert(members[a - c.len()] == m);
                }
            }
        } else {
            assert(cleared[i].members.contains(m));
            if packages[j].members.contains(m) {
                assert(cleared[j].members.contains(m));
            }
        }
    }
    assert forall|i: int, j: int| 0 <= i < j < n implies #[trigger] packages[i].id != #[trigger] packages[j].id by {}
    assert forall|i: int| 0 <= i < n implies is_uuid_text(#[trigger] packages[i].id) by {}
    assert forall|i: int| 0 <= i < n implies (#[trigger] packages[i].position) <= n
        && packages[i].position != s.uncategorized_position by {}
    assert forall|i: int, j: int| 0 <= i < j < n implies (#[trigger] packages[i].position) < (
    #[trigger] packages[j].position) by {}
}

/// Moves skills into a package, or out of every package (see
/// `assign_outcome`), keeping the store well formed.
pub fn assign_package_members(
    store: &PackageStore,
    request: &AssignPackageMembersRequest,
    managed: &Vec<String>,
    now: u64,
) -> (r: Result<PackageStore, String>)
    requires
        store_wf(store@),
        store.revision < u64::MAX,
    ensures
        store_result_view(r) == assign_outcome(
            store@,
            request@,
            string_views(managed@).to_set(),
            now,
        ),
        r is Ok ==> store_wf(r->Ok_0@),
{
    let ghost s = store@;
    let ghost req = request@;
    if request.revision != store.revision {
        return Err(String::from_str("Packages changed. Refresh and retry / 包配置已变化，请刷新后重试"));
    }
    if let Some(id) = &request.package_id {
        if find_package(&store.packages, id).is_none() {
            return Err(String::from_str("Package no longer exists"));
        }
    }
    assert(req.package_id is Some ==> package_index(s.packages, req.package_id->0) >= 0);
    let none: Vec<String> = Vec::new();
    proof {
        assert(string_views(none@).to_set() =~= Set::<Seq<char>>::empty());
        assert(string_views(managed@).to_set() + Set::<Seq<char>>::empty() =~= string_views(
            managed@,
        ).to_set());
    }
    let members = match collect_members(&request.skill_uuids, managed, &none) {
        Ok(ms) => ms,
        Err(e) => {
            return Err(e);
        },
    };
    let ghost mv = string_views(members@);
    let ghost cleared = clear_members(s.packages, mv);
    let mut out: Vec<SkillPackage> = Vec::new();
    let mut j: usize = 0;
    while j < store.packages.len()
        invariant
            j <= store.packages.len(),
            s == store@,
            mv == string_views(members@),
            cleared == clear_members(s.packages, mv),
            package_views(out@).len() == j,
            forall|k: int| 0 <= k < j ==> #[trigger] package_views(out@)[k] == cleared[k],
        decreases store.packages.len() - j,
    {
        let q = &store.packages[j];
        assert(q@ == s.packages[j as int]);
        let c = SkillPackage {
            id: q.id.clone(),
            name: q.name.clone(),
            description: q.description.clone(),
            skill_uuids: strings_without(&q.skill_uuids, &members),
            position: q.position,
            created_at: q.created_at,
            updated_at: q.updated_at,
        };
        proof {
            lemma_package_views_push(out@, c);
        }
        out.push(c);
        j += 1;
    }
    assert(package_views(out@) =~= cleared);
    if let Some(id) = &request.package_id {
        match find_package(&out, id) {
            Some(k) => {
                let mut target = copy_package(&out[k]);
                let mut b: usize = 0;
                let ghost start = string_views(target.skill_uuids@);
                assert(target@ == cleared[k as int]);
                while b < members.len()
                    invariant
                        b <= members.len(),
                        mv == string_views(members@),
                        string_views(target.skill_uuids@) == start + mv.subrange(0, b as int),
                        k < cleared.len(),
                        k < out.len(),
                        package_views(out@) == cleared,
                        start == cleared[k as int].members,
                        cleared == clear_members(s.packages, mv),
                        target@.id == cleared[k as int].id,
                        target@.name == cleared[k as int].name,
                        target@.description == cleared[k as int].description,
                        target@.position == cleared[k as int].position,
                        target@.created_at == cleared[k as int].created_at,
                        target@.updated_at == cleared[k as int].updated_at,
                    decreases members.len() - b,
                {
                    let c = members[b].clone();
                    proof {
                        lemma_views_push(target.skill_uuids@, c);
                        assert(start + mv.subrange(0, b + 1) =~= (start + mv.subrange(0, b as int)).push(
                            mv[b as int],
                        ));
                    }
                    target.skill_uuids.push(c);
                    b += 1;
                }
                assert(mv.subrange(0, mv.len() as int) =~= mv);
                target.updated_at = now;
                let ghost x = target@;
                assert(k == package_index(cleared, id@));
                assert(x == PackageView { members: cleared[k as int].members + mv, updated_at: now, ..cleared[k as int] });
                out.set(k, target);
                assert(package_views(out@) =~= cleared.update(k as int, x));
                assert(req.package_id == Some(id@));
            },
            None => {
                proof {
                    lemma_package_index(s.packages, id@);
                    let b = package_index(s.packages, id@);
                    assert(cleared[b].id == id@);
                    assert(package_views(out@)[b].id == id@);
                    lemma_package_index(package_views(out@), id@);
                }
            },
        }
    }
    let ghost expected = match req.package_id {
        None => cleared,
        Some(id) => {
            let k = package_index(cleared, id);
            cleared.update(
                k,
                PackageView { members: cleared[k].members + mv, updated_at: now, ..cleared[k] },
            )
        },
    };
    assert(package_views(out@) == expected);
    assert(requested_members(req.members, string_views(managed@).to_set()) == Ok::<Seq<Seq<char>>, Seq<char>>(mv));
    proof {
        lemma_assign_wf(s, req, now, mv);
    }
    Ok(
        PackageStore {
            schema_version: store.schema_version,
            revision: store.revision + 1,
            uncategorized_position: store.uncategorized_position,
            packages: out,
        },
    )
}

/// A reorder request as a value.
pub struct ReorderRequestView {
    pub group_ids: Seq<Seq<char>>,
    pub revision: u64,
}

impl View for ReorderPackagesRequest {
    type V = ReorderRequestView;

    open spec fn view(&self) -> ReorderRequestView {
        ReorderRequestView { group_ids: string_views(self.group_ids@), revision: self.revision }
    }
}

pub open spec fn order_message() -> Seq<char> {
    "Group order must include every group exactly once"@
}

/// The first index of `g` in `gs`, or -1.
pub open spec fn text_index(gs: Seq<Seq<char>>, g: Seq<char>) -> int
    decreases gs.len(),
{
    if gs.len() == 0 {
        -1
    } else if text_index(gs.drop_last(), g) >= 0 {
        text_index(gs.drop_last(), g)
    } else if gs.last() == g {
        gs.len() - 1
    } else {
        -1
    }
}

/// A requested order lists every group, packages and uncategorized, once.
pub open spec fn group_order_valid(ps: Seq<PackageView>, gs: Seq<Seq<char>>) -> bool {
    &&& gs.no_duplicates()
    &&& gs.len() == ps.len() + 1
    &&& forall|a: int|
        0 <= a < gs.len() ==> #[trigger] gs[a] == uncategorized_id() || exists|i: int|
            0 <= i < ps.len() && ps[i].id == gs[a]
}

/// Each package placed where the requested order lists it.
pub open spec fn repositioned(ps: Seq<PackageView>, gs: Seq<Seq<char>>) -> Seq<PackageView> {
    ps.map_values(|q: PackageView| with_position(q, text_index(gs, q.id) as u32))
}

pub proof fn lemma_text_index(gs: Seq<Seq<char>>, g: Seq<char>)
    ensures
        -1 <= text_index(gs, g) < gs.len(),
        text_index(gs, g) == -1 <==> !gs.contains(g),
        text_index(gs, g) >= 0 ==> gs[text_index(gs, g)] == g && forall|j: int|
            0 <= j < text_index(gs, g) ==> #[trigger] gs[j] != g,
    decreases gs.len(),
{
    if gs.len() > 0 {
        let d = gs.drop_last();
        lemma_text_index(d, g);
        let r = text_index(d, g);
        if r >= 0 {
            assert(gs[r] == d[r]);
            assert forall|j: int| 0 <= j < r implies #[trigger] gs[j] != g by {
                assert(d[j] == gs[j]);
            }
        } else if gs.last() == g {
            assert forall|j: int| 0 <= j < gs.len() - 1 implies #[trigger] gs[j] != g by {
                assert(d[j] == gs[j]);
            }
            assert(gs[gs.len() - 1] == g);
        } else {
            assert forall|j: int| 0 <= j < gs.len() implies #[trigger] gs[j] != g by {
                if j < gs.len() - 1 {
                    assert(d[j] == gs[j]);
                }
            }
        }
    }
}

/// A UUID text is never the uncategorized group's name.
proof fn lemma_uncategorized_is_not_uuid(s: Seq<char>)
    requires
        is_uuid_text(s),
    ensures
        s != uncategorized_id(),
{
    reveal_strlit("__uncategorized__");
}

/// A complete order of distinct groups names every package and the
/// uncategorized group.
proof fn lemma_every_group_listed(ps: Seq<PackageView>, gs: Seq<Seq<char>>)
    requires
        ids_valid(ps),
        group_order_valid(ps, gs),
    ensures
        forall|i: int| 0 <= i < ps.len() ==> gs.contains(#[trigger] ps[i].id),
        gs.contains(uncategorized_id()),
{
    let e = ps.map_values(|q: PackageView| q.id).push(uncategorized_id());
    assert forall|i: int| 0 <= i < ps.len() implies #[trigger] e[i] == ps[i].id by {}
    assert(e[ps.len() as int] == uncategorized_id());
    assert(e.no_duplicates()) by {
        assert forall|x: int, y: int| 0 <= x < e.len() && 0 <= y < e.len() && x != y implies e[x] != e[y] by {
            if x < ps.len() && y < ps.len() {
                if x < y {
                    assert(ps[x].id != ps[y].id);
                } else {
                    assert(ps[y].id != ps[x].id);
                }
            } else if x < ps.len() {
                lemma_uncategorized_is_not_uuid(ps[x].id);
            } else if y < ps.len() {
                lemma_uncategorized_is_not_uuid(ps[y].id);
            }
        }
    }
    assert(gs.to_set().subset_of(e.to_set())) by {
        assert forall|g: Seq<char>| gs.to_set().contains(g) implies e.to_set().contains(g) by {
            let a = choose|a: int| 0 <= a < gs.len() && gs[a] == g;
            if gs[a] == uncategorized_id() {
                assert(e[ps.len() as int] == g);
            } else {
                let i = choose|i: int| 0 <= i < ps.len() && ps[i].id == gs[a];
                assert(e[i] == g);
            }
        }
    }
    gs.unique_seq_to_set();
    e.unique_seq_to_set();
    vstd::set_lib::lemma_subset_equality(gs.to_set(), e.to_set());
    assert forall|i: int| 0 <= i < ps.len() implies gs.contains(#[trigger] ps[i].id) by {
        assert(e.to_set().contains(e[i]));
        assert(gs.to_set().contains(e[i]));
    }
    assert(e.to_set().contains(e[ps.len() as int]));
    assert(gs.to_set().contains(uncategorized_id()));
}

/// Where `g` is in `gs`.
fn find_text(gs: &Vec<String>, g: &String) -> (r: Option<usize>)
    ensures
        match r {
            Some(k) => text_index(string_views(gs@), g@) == k && k < gs.len(),
            None => text_index(string_views(gs@), g@) == -1,
        },
{
    let ghost gv = string_views(gs@);
    proof {
        lemma_text_index(gv, g@);
    }
    let mut j: usize = 0;
    while j < gs.len()
        invariant
            j <= gs.len(),
            gv == string_views(gs@),
            gv.len() == gs.len(),
            -1 <= text_index(gv, g@) < gv.len(),
            text_index(gv, g@) == -1 <==> !gv.contains(g@),
            text_index(gv, g@) >= 0 ==> gv[text_index(gv, g@)] == g@ && forall|k: int|
                0 <= k < text_index(gv, g@) ==> #[trigger] gv[k] != g@,
            forall|k: int| 0 <= k < j ==> #[trigger] gv[k] != g@,
        decreases gs.len() - j,
    {
        assert(gv[j as int] == gs@[j as int]@);
        if gs[j] == *g {
            proof {
                let r = text_index(gv, g@);
                if r == -1 {
                    assert(gv.contains(g@));
                } else if r < j {
                    assert(gv[r] != g@);
                } else if r > j {
                    assert(gv[j as int] != g@);
                }
            }
            return Some(j);
        }
        j += 1;
    }
    None
}

/// Whether a requested order lists every group exactly once.
fn check_group_order(ps: &Vec<SkillPackage>, gs: &Vec<String>) -> (r: bool)
    ensures
        r == group_order_valid(package_views(ps@), string_views(gs@)),
{
    let ghost pv = package_views(ps@);
    let ghost gv = string_views(gs@);
    if gs.len() == 0 || gs.len() - 1 != ps.len() {
        return false;
    }
    let uncategorized = String::from_str("__uncategorized__");
    let mut a: usize = 0;
    while a < gs.len()
        invariant
            a <= gs.len() == ps.len() + 1,
            pv == package_views(ps@),
            gv == string_views(gs@),
            uncategorized@ == uncategorized_id(),
            forall|x: int, y: int| 0 <= x < a && 0 <= y < gs.len() && x != y ==> #[trigger] gv[x] != #[trigger] gv[y],
            forall|x: int|
                0 <= x < a ==> #[trigger] gv[x] == uncategorized_id() || exists|i: int|
                    0 <= i < pv.len() && pv[i].id == gv[x],
        decreases gs.len() - a,
    {
        assert(gv[a as int] == gs@[a as int]@);
        let mut b: usize = 0;
        while b < gs.len()
            invariant
                a < gs.len(),
                b <= gs.len(),
                gv == string_views(gs@),
                forall|y: int| 0 <= y < b && y != a ==> gv[a as int] != #[trigger] gv[y],
            decreases gs.len() - b,
        {
            assert(gv[b as int] == gs@[b as int]@);
            if b != a && gs[a] == gs[b] {
                assert(gv[a as int] == gv[b as int]);
                assert(!gv.no_duplicates());
                return false;
            }
            b += 1;
        }
        if gs[a] != uncategorized {
            match find_package(ps, &gs[a]) {
                Some(k) => {
                    proof {
                        lemma_package_index(pv, gv[a as int]);
                    }
                },
                None => {
                    proof {
                        lemma_package_index(pv, gv[a as int]);
                    }
                    return false;
                },
            }
        }
        a += 1;
    }
    true
}

/// Puts the groups in the requested order: against the current revision,
/// the order must list every package and the uncategorized group exactly
/// once; each group takes its place in the order as position, and the
/// packages come back ordered by it; the revision goes up by one.
pub fn reorder_packages(store: &PackageStore, request: &ReorderPackagesRequest) -> (r: Result<
    PackageStore,
    String,
>)
    requires
        store_wf(store@),
        store.revision < u64::MAX,
        store.packages.len() < u32::MAX,
    ensures
        match r {
            Err(e) => if request.revision != store.revision {
                e@ == changed_message()
            } else {
                e@ == order_message() && !group_order_valid(store@.packages, request@.group_ids)
            },
            Ok(s) => {
                &&& request.revision == store.revision
                &&& group_order_valid(store@.packages, request@.group_ids)
                &&& s@.schema_version == store@.schema_version
                &&& s@.revision == store.revision + 1
                &&& s@.uncategorized_position == text_index(request@.group_ids, uncategorized_id())
                &&& is_reordering(s@.packages, repositioned(store@.packages, request@.group_ids))
                &&& sorted_by_position(s@.packages)
                &&& store_wf(s@)
            },
        },
{
    let ghost sv = store@;
    let ghost gv = request@.group_ids;
    if request.revision != store.revision {
        return Err(String::from_str("Packages changed. Refresh and retry / 包配置已变化，请刷新后重试"));
    }
    if !check_group_order(&store.packages, &request.group_ids) {
        return Err(String::from_str("Group order must include every group exactly once"));
    }
    proof {
        lemma_every_group_listed(sv.packages, gv);
    }
    let ghost target = repositioned(sv.packages, gv);
    let mut placed: Vec<SkillPackage> = Vec::new();
    let mut j: usize = 0;
    while j < store.packages.len()
        invariant
            j <= store.packages.len() < u32::MAX,
            sv == store@,
            gv == string_views(request.group_ids@),
            target == repositioned(sv.packages, gv),
            gv.len() == store.packages.len() + 1,
            forall|i: int| 0 <= i < sv.packages.len() ==> gv.contains(#[trigger] sv.packages[i].id),
            package_views(placed@).len() == j,
            forall|k: int| 0 <= k < j ==> #[trigger] package_views(placed@)[k] == target[k],
        decreases store.packages.len() - j,
    {
        let q = &store.packages[j];
        assert(q@ == sv.packages[j as int]);
        proof {
            lemma_text_index(gv, q@.id);
        }
        let index = match find_text(&request.group_ids, &q.id) {
            Some(k) => k,
            None => {
                assert(gv.contains(sv.packages[j as int].id));
                0
            },
        };
        let mut c = copy_package(q);
        c.position = index as u32;
        proof {
            lemma_package_views_push(placed@, c);
        }
        placed.push(c);
        j += 1;
    }
    let ghost pv = package_views(placed@);
    assert(pv =~= target);
    let uncategorized = String::from_str("__uncategorized__");
    let u = match find_text(&request.group_ids, &uncategorized) {
        Some(k) => k as u32,
        None => 0,
    };
    proof {
        lemma_text_index(gv, uncategorized_id());
        assert forall|x: int| 0 <= x < pv.len() implies 0 <= text_index(gv, #[trigger] pv[x].id) < gv.len()
            && gv[text_index(gv, pv[x].id)] == pv[x].id by {
            lemma_text_index(gv, pv[x].id);
            assert(pv[x].id == sv.packages[x].id);
        }
        assert forall|x: int, y: int| 0 <= x < pv.len() && 0 <= y < pv.len() && x != y implies (
        #[trigger] pv[x].position) != (#[trigger] pv[y].position) by {
            assert(pv[x].id == sv.packages[x].id);
            assert(pv[y].id == sv.packages[y].id);
            if x < y {
                assert(sv.packages[x].id != sv.packages[y].id);
            } else {
                assert(sv.packages[y].id != sv.packages[x].id);
            }
        }
    }
    let sorted = sort_by_position(&placed);
    proof {
        assert forall|i: int| 0 <= i < pv.len() implies is_uuid_text(#[trigger] pv[i].id) by {
            assert(pv[i].id == sv.packages[i].id);
        }
        assert forall|i: int, j2: int| 0 <= i < j2 < pv.len() implies #[trigger] pv[i].id
            != #[trigger] pv[j2].id by {
            assert(pv[i].id == sv.packages[i].id);
            assert(pv[j2].id == sv.packages[j2].id);
        }
        assert forall|i: int| 0 <= i < pv.len() implies #[trigger] pv[i].members == sv.packages[i].members by {}
        assert(members_valid(pv));
        assert forall|i: int| 0 <= i < pv.len() implies (#[trigger] pv[i].position) <= pv.len() && pv[i].position
            != u by {
            lemma_uncategorized_is_not_uuid(sv.packages[i].id);
            assert(pv[i].id == sv.packages[i].id);
            lemma_text_index(gv, pv[i].id);
        }
        lemma_reordering_wf(package_views(sorted@), pv, u);
    }
    Ok(
        PackageStore {
            schema_version: store.schema_version,
            revision: store.revision + 1,
            uncategorized_position: u,
            packages: sorted,
        },
    )
}

/// A position after the removal of the group at `removed`: later groups
/// move up by one.
pub open spec fn shifted(position: u32, removed: u32) -> u32 {
    if position > removed {
        (position - 1) as u32
    } else {
        position
    }
}

/// What deleting a package does: against the current revision, the package
/// must exist; it is removed, the groups after it move up one place, and
/// the revision goes up by one.  (With positions `0..=n` this is the order
/// of the remaining groups renumbered from 0.)
pub open spec fn delete_outcome(s: StoreView, id: Seq<char>, revision: u64) -> Result<
    StoreView,
    Seq<char>,
> {
    if s.revision != revision {
        Err(changed_message())
    } else if package_index(s.packages, id) < 0 {
        Err(missing_package_message())
    } else {
        let k = package_index(s.packages, id);
        let p = s.packages[k].position;
        Ok(
            StoreView {
                revision: (s.revision + 1) as u64,
                uncategorized_position: shifted(s.uncategorized_position, p),
                packages: s.packages.remove(k).map_values(
                    |q: PackageView| with_position(q, shifted(q.position, p)),
                ),
                ..s
            },
        )
    }
}

/// Deletes a package (see `delete_outcome`), keeping the store well formed.
pub fn delete_package(store: &PackageStore, id: &str, revision: u64) -> (r: Result<
    PackageStore,
    String,
>)
    requires
        store_wf(store@),
        store.revision < u64::MAX,
    ensures
        store_result_view(r) == delete_outcome(store@, id@, revision),
        r is Ok ==> store_wf(r->Ok_0@),
{
    let ghost sv = store@;
    if store.revision != revision {
        return Err(String::from_str("Packages changed. Refresh and retry / 包配置已变化，请刷新后重试"));
    }
    let key = String::from_str(id);
    let k = match find_package(&store.packages, &key) {
        Some(k) => k,
        None => {
            return Err(String::from_str("Package no longer exists"));
        },
    };
    let removed = store.packages[k].position;
    assert(removed == sv.packages[k as int].position);
    let ghost rest = sv.packages.remove(k as int);
    let ghost target = rest.map_values(
        |q: PackageView| with_position(q, shifted(q.position, removed)),
    );
    let mut out: Vec<SkillPackage> = Vec::new();
    let mut j: usize = 0;
    while j < store.packages.len()
        invariant
            j <= store.packages.len(),
            k < store.packages.len(),
            sv == store@,
            rest == sv.packages.remove(k as int),
            target == rest.map_values(|q: PackageView| with_position(q, shifted(q.position, removed))),
            package_views(out@).len() == (if j <= k { j as int } else { j - 1 }),
            forall|x: int| 0 <= x < package_views(out@).len() ==> #[trigger] package_views(out@)[x] == target[x],
        decreases store.packages.len() - j,
    {
        if j != k {
            let q = &store.packages[j];
            assert(q@ == sv.packages[j as int]);
            let mut c = copy_package(q);
            if c.position > removed {
                c.position = c.position - 1;
            }
            assert(c@ == target[if j < k { j as int } else { j - 1 }]) by {
                if j < k {
                    assert(rest[j as int] == sv.packages[j as int]);
                } else {
                    assert(rest[j - 1] == sv.packages[j as int]);
                }
            }
            proof {
                lemma_package_views_push(out@, c);
            }
            out.push(c);
        }
        j += 1;
    }
    assert(package_views(out@) =~= target);
    let u = if store.uncategorized_position > removed {
        store.uncategorized_position - 1
    } else {
        store.uncategorized_position
    };
    proof {
        let ps = sv.packages;
        let n = ps.len();
        assert forall|x: int| 0 <= x < target.len() implies #[trigger] target[x].id == rest[x].id
            && target[x].members == rest[x].members && rest[x] == ps[if x < k { x } else { x + 1 }] by {}
        assert forall|x: int| 0 <= x < target.len() implies is_uuid_text(#[trigger] target[x].id) by {
            assert(rest[x] == ps[if x < k { x } else { x + 1 }]);
        }
        assert forall|x: int, y: int| 0 <= x < y < target.len() implies #[trigger] target[x].id
            != #[trigger] target[y].id by {
            let a = if x < k { x } else { x + 1 };
            let b = if y < k { y } else { y + 1 };
            assert(rest[x] == ps[a]);
            assert(rest[y] == ps[b]);
            assert(a < b);
        }
        assert forall|x: int, a: int| 0 <= x < target.len() && 0 <= a < target[x].members.len()
            implies is_uuid_text(#[trigger] target[x].members[a]) by {
            assert(rest[x] == ps[if x < k { x } else { x + 1 }]);
        }
        assert forall|x: int| 0 <= x < target.len() implies (#[trigger] target[x].members).no_duplicates() by {
            assert(rest[x] == ps[if x < k { x } else { x + 1 }]);
        }
        assert forall|x: int, y: int, m: Seq<char>|
            0 <= x < target.len() && 0 <= y < target.len() && x != y && #[trigger] target[x].members.contains(m)
                implies !#[trigger] target[y].members.contains(m) by {
            let a = if x < k { x } else { x + 1 };
            let b = if y < k { y } else { y + 1 };
            assert(rest[x] == ps[a]);
            assert(rest[y] == ps[b]);
        }
        assert forall|x: int| 0 <= x < target.len() implies (#[trigger] target[x].position) <= target.len()
            && target[x].position != u by {
            let a = if x < k { x } else { x + 1 };
            assert(rest[x] == ps[a]);
            assert(ps[a].position != ps[k as int].position);
        }
        assert forall|x: int, y: int| 0 <= x < y < target.len() implies (#[trigger] target[x].position) < (
        #[trigger] target[y].position) by {
            let a = if x < k { x } else { x + 1 };
            let b = if y < k { y } else { y + 1 };
            assert(rest[x] == ps[a]);
            assert(rest[y] == ps[b]);
            assert(ps[a].position < ps[b].position);
            assert(ps[a].position != ps[k as int].position);
            assert(ps[b].position != ps[k as int].position);
        }
    }
    Ok(
        PackageStore {
            schema_version: store.schema_version,
            revision: store.revision + 1,
            uncategorized_position: u,
            packages: out,
        },
    )
}

/// Reordering groups changes only their positions: every package keeps its
/// id, texts, members and times.
pub proof fn law_reorder_changes_only_positions(ps: Seq<PackageView>, gs: Seq<Seq<char>>)
    ensures
        repositioned(ps, gs).len() == ps.len(),
        forall|i: int|
            0 <= i < ps.len() ==> {
                let q = #[trigger] repositioned(ps, gs)[i];
                &&& q.id == ps[i].id
                &&& q.name == ps[i].name
                &&& q.description == ps[i].description
                &&& q.members == ps[i].members
                &&& q.created_at == ps[i].created_at
                &&& q.updated_at == ps[i].updated_at
            },
{
}

/// Deleting a package returns its members to the uncategorized group: no
/// package of the store afterwards lists any of them.
pub proof fn law_deleted_members_become_uncategorized(s: StoreView, id: Seq<char>, revision: u64)
    requires
        store_wf(s),
        delete_outcome(s, id, revision) is Ok,
    ensures
        forall|m: Seq<char>, j: int|
            #[trigger] s.packages[package_index(s.packages, id)].members.contains(m) && 0 <= j
                < delete_outcome(s, id, revision)->Ok_0.packages.len() ==> !(#[trigger] delete_outcome(
                s,
                id,
                revision,
            )->Ok_0.packages[j]).members.contains(m),
{
    lemma_package_index(s.packages, id);
    let k = package_index(s.packages, id);
    let t = delete_outcome(s, id, revision)->Ok_0;
    let rest = s.packages.remove(k);
    assert forall|m: Seq<char>, j: int|
        #[trigger] s.packages[k].members.contains(m) && 0 <= j < t.packages.len() implies !(
        #[trigger] t.packages[j]).members.contains(m) by {
        assert(t.packages[j].members == rest[j].members);
        if j < k {
            assert(rest[j] == s.packages[j]);
            assert(s.packages[k].members.contains(m) ==> !s.packages[j].members.contains(m));
        } else {
            assert(rest[j] == s.packages[j + 1]);
            assert(s.packages[k].members.contains(m) ==> !s.packages[j + 1].members.contains(m));
        }
    }
}

/// Saving an existing package keeps its identity: afterwards the store
/// holds a package with the same id, created at the same time and at the
/// same position, with the saved members.
pub proof fn law_saved_package_keeps_identity(
    s: StoreView,
    req: SaveRequestView,
    managed: Set<Seq<char>>,
    now: u64,
    fresh: Seq<char>,
)
    requires
        store_wf(s),
        req.id is Some,
        save_outcome(s, req, managed, now, fresh) is Ok,
    ensures
        ({
            let t = save_outcome(s, req, managed, now, fresh)->Ok_0;
            let old_p = s.packages[package_index(s.packages, req.id->0)];
            let k = package_index(t.packages, req.id->0);
            &&& 0 <= k < t.packages.len()
            &&& t.packages[k].created_at == old_p.created_at
            &&& t.packages[k].position == old_p.position
            &&& t.packages[k].name == trim(req.name)
        }),
{
    let id = req.id->0;
    lemma_package_index(s.packages, id);
    let k = package_index(s.packages, id);
    let allowed = managed + s.packages[k].members.to_set();
    let members = requested_members(req.members, allowed)->Ok_0;
    let pkg = saved_package(s, req, members, now, fresh);
    let released = release_members(s.packages, pkg);
    assert(pkg.id == id);
    assert forall|j: int| 0 <= j < released.len() implies #[trigger] released[j].id == s.packages[j].id by {}
    lemma_package_index(released, id);
    assert(package_index(released, id) == k) by {
        let r = package_index(released, id);
        assert(released[k].id == id);
        if r < 0 {
        } else if r < k {
            assert(released[r].id == s.packages[r].id);
        } else if r > k {
            assert(released[k].id == id);
        }
    }
    let t_packages = put_package(released, pkg);
    assert(t_packages == released.update(k, pkg));
    assert forall|j: int| 0 <= j < t_packages.len() implies #[trigger] t_packages[j].id == s.packages[j].id by {}
    lemma_package_index(t_packages, id);
    assert(package_index(t_packages, id) == k) by {
        let r = package_index(t_packages, id);
        assert(t_packages[k].id == id);
        if r < 0 {
        } else if r < k {
            assert(t_packages[r].id == s.packages[r].id);
        } else if r > k {
            assert(t_packages[k].id == id);
        }
    }
}

/// Saving a package puts exactly the requested skills in it and takes them
/// out of every other package: afterwards the saved package (the edited one,
/// or a new one with the id `fresh` at the end) holds the requested UUIDs,
/// normalized and each once in first-seen order, under the trimmed name;
/// every other package keeps its place, id, texts, position and times and
/// loses just those skills, its other members kept in order; the revision
/// goes up by one.
pub proof fn law_save_moves_members_into_the_package(
    s: StoreView,
    req: SaveRequestView,
    managed: Set<Seq<char>>,
    now: u64,
    fresh: Seq<char>,
)
    requires
        store_wf(s),
        s.revision < u64::MAX,
        req.id is None ==> package_index(s.packages, fresh) == -1,
        save_outcome(s, req, managed, now, fresh) is Ok,
    ensures
        ({
            let t = save_outcome(s, req, managed, now, fresh)->Ok_0;
            let allowed = match req.id {
                Some(id) => managed + s.packages[package_index(s.packages, id)].members.to_set(),
                None => managed,
            };
            let members = requested_members(req.members, allowed)->Ok_0;
            let pid = match req.id {
                Some(id) => id,
                None => fresh,
            };
            let k = package_index(t.packages, pid);
            &&& t.revision == s.revision + 1
            &&& t.uncategorized_position == s.uncategorized_position
            &&& t.packages.len() == (if req.id is Some {
                s.packages.len() as int
            } else {
                s.packages.len() + 1int
            })
            &&& k == (match req.id {
                Some(id) => package_index(s.packages, id),
                None => s.packages.len() as int,
            })
            &&& 0 <= k < t.packages.len()
            &&& t.packages[k].members == members
            &&& t.packages[k].name == trim(req.name)
            &&& forall|j: int|
                0 <= j < t.packages.len() && j != k ==> #[trigger] t.packages[j] == with_members(
                    s.packages[j],
                    without(s.packages[j].members, members),
                )
        }),
{
    let allowed = match req.id {
        Some(id) => managed + s.packages[package_index(s.packages, id)].members.to_set(),
        None => managed,
    };
    let members = requested_members(req.members, allowed)->Ok_0;
    let pkg = saved_package(s, req, members, now, fresh);
    let released = release_members(s.packages, pkg);
    let t = save_outcome(s, req, managed, now, fresh)->Ok_0;
    assert(pkg.members == members);
    assert forall|j: int| 0 <= j < released.len() implies #[trigger] released[j].id
        == s.packages[j].id by {}
    match req.id {
        Some(id) => {
            lemma_package_index(s.packages, id);
            let k = package_index(s.packages, id);
            assert(pkg.id == id);
            lemma_package_index(released, id);
            assert(package_index(released, id) == k) by {
                let r = package_index(released, id);
                assert(released[k].id == id);
                if r >= 0 && r < k {
                    assert(released[r].id == s.packages[r].id);
                }
            }
            assert(t.packages == released.update(k, pkg));
            assert forall|j: int| 0 <= j < t.packages.len() implies #[trigger] t.packages[j].id
                == s.packages[j].id by {}
            lemma_package_index(t.packages, id);
            assert(package_index(t.packages, id) == k) by {
                let r = package_index(t.packages, id);
                assert(t.packages[k].id == id);
                if r >= 0 && r < k {
                    assert(t.packages[r].id == s.packages[r].id);
                }
            }
            assert forall|j: int| 0 <= j < t.packages.len() && j != k implies #[trigger] t.packages[j]
                == with_members(s.packages[j], without(s.packages[j].members, members)) by {
                assert(t.packages[j] == released[j]);
                if j < k {
                    assert(s.packages[j].id != s.packages[k].id);
                } else {
                    assert(s.packages[k].id != s.packages[j].id);
                }
            }
        },
        None => {
            lemma_package_index(s.packages, fresh);
            assert(pkg.id == fresh);
            lemma_package_index(released, fresh);
            assert(package_index(released, fresh) == -1) by {
                let r = package_index(released, fresh);
                if r >= 0 {
                    assert(released[r].id == s.packages[r].id);
                }
            }
            assert(t.packages == released.push(pkg));
            let n = s.packages.len() as int;
            lemma_package_index(t.packages, fresh);
            assert(package_index(t.packages, fresh) == n) by {
                let r = package_index(t.packages, fresh);
                assert(t.packages[n].id == fresh);
                if r >= 0 && r < n {
                    assert(t.packages[r] == released[r]);
                    assert(released[r].id == s.packages[r].id);
                }
            }
            assert forall|j: int| 0 <= j < t.packages.len() && j != n implies #[trigger] t.packages[j]
                == with_members(s.packages[j], without(s.packages[j].members, members)) by {
                assert(t.packages[j] == released[j]);
                assert(s.packages[j].id != fresh);
            }
        },
    }
}

/// Assigning skills to a package (or to none) moves them there: afterwards
/// every package keeps its place, id, texts, position and creation time;
/// the chosen package ends with its other members, in order, followed by
/// the requested UUIDs (normalized, each once, in first-seen order) and is
/// marked updated at `now`; every other package loses just those skills and
/// keeps its update time; the revision goes up by one.
pub proof fn law_assign_moves_members_to_the_target(
    s: StoreView,
    req: AssignRequestView,
    managed: Set<Seq<char>>,
    now: u64,
)
    requires
        store_wf(s),
        s.revision < u64::MAX,
        assign_outcome(s, req, managed, now) is Ok,
    ensures
        ({
            let t = assign_outcome(s, req, managed, now)->Ok_0;
            let members = requested_members(req.members, managed)->Ok_0;
            &&& t.revision == s.revision + 1
            &&& t.uncategorized_position == s.uncategorized_position
            &&& t.packages.len() == s.packages.len()
            &&& forall|j: int|
                0 <= j < s.packages.len() ==> {
                    let q = #[trigger] t.packages[j];
                    let p = s.packages[j];
                    &&& q.id == p.id
                    &&& q.name == p.name
                    &&& q.description == p.description
                    &&& q.position == p.position
                    &&& q.created_at == p.created_at
                    &&& if req.package_id == Some(p.id) {
                        q.members == without(p.members, members) + members && q.updated_at == now
                    } else {
                        q.members == without(p.members, members) && q.updated_at == p.updated_at
                    }
                }
        }),
{
    let members = requested_members(req.members, managed)->Ok_0;
    let cleared = clear_members(s.packages, members);
    let t = assign_outcome(s, req, managed, now)->Ok_0;
    assert forall|j: int| 0 <= j < cleared.len() implies #[trigger] cleared[j].id
        == s.packages[j].id by {}
    match req.package_id {
        None => {},
        Some(id) => {
            lemma_package_index(s.packages, id);
            let k = package_index(s.packages, id);
            lemma_package_index(cleared, id);
            assert(package_index(cleared, id) == k) by {
                let r = package_index(cleared, id);
                assert(cleared[k].id == id);
                if r >= 0 && r < k {
                    assert(cleared[r].id == s.packages[r].id);
                }
            }
            assert forall|j: int| 0 <= j < s.packages.len() && s.packages[j].id == id implies j
                == k by {
                if j < k {
                    assert(s.packages[j].id != s.packages[k].id);
                } else if j > k {
                    assert(s.packages[k].id != s.packages[j].id);
                }
            }
        },
    }
}


/// The positions the groups of a store sit at: the uncategorized group's
/// and each package's.
pub open spec fn group_positions(s: StoreView) -> Set<int> {
    (seq![s.uncategorized_position as int] + s.packages.map_values(
        |p: PackageView| p.position as int,
    )).to_set()
}

/// A valid store (what validation gives, and what every change keeps) has
/// the current schema; its package ids are distinct UUIDs; each member is a
/// UUID listed in at most one package; its groups sit at exactly the
/// positions `0..=n` for `n` packages; and its packages come by position.
pub proof fn law_valid_store_shape(s: StoreView)
    requires
        store_wf(s),
    ensures
        s.schema_version == 3,
        forall|i: int| 0 <= i < s.packages.len() ==> is_uuid_text(#[trigger] s.packages[i].id),
        forall|i: int, j: int|
            0 <= i < j < s.packages.len() ==> #[trigger] s.packages[i].id != #[trigger] s.packages[j].id,
        forall|i: int, a: int|
            0 <= i < s.packages.len() && 0 <= a < s.packages[i].members.len() ==> is_uuid_text(
                #[trigger] s.packages[i].members[a],
            ),
        forall|i: int, j: int, m: Seq<char>|
            0 <= i < s.packages.len() && 0 <= j < s.packages.len() && i != j
                && #[trigger] s.packages[i].members.contains(m) ==> !#[trigger] s.packages[j].members.contains(m),
        group_positions(s) == vstd::set_lib::set_int_range(0, s.packages.len() + 1int),
        sorted_by_position(s.packages),
{
    let n = s.packages.len() as int;
    let q = seq![s.uncategorized_position as int] + s.packages.map_values(
        |p: PackageView| p.position as int,
    );
    assert forall|i: int, j: int| 0 <= i < q.len() && 0 <= j < q.len() && i != j implies q[i]
        != q[j] by {
        if i > 0 && j > 0 {
            assert(q[i] == s.packages[i - 1].position as int);
            assert(q[j] == s.packages[j - 1].position as int);
            if i < j {
                assert(s.packages[i - 1].position < s.packages[j - 1].position);
            } else {
                assert(s.packages[j - 1].position < s.packages[i - 1].position);
            }
        } else if i == 0 {
            assert(q[j] == s.packages[j - 1].position as int);
        } else {
            assert(q[i] == s.packages[i - 1].position as int);
        }
    }
    assert(q.no_duplicates());
    q.unique_seq_to_set();
    let range = vstd::set_lib::set_int_range(0, n + 1);
    vstd::set_lib::lemma_int_range(0, n + 1);
    assert forall|x: int| #[trigger] q.to_set().contains(x) implies range.contains(x) by {
        let i = choose|i: int| 0 <= i < q.len() && q[i] == x;
        if i > 0 {
            assert(q[i] == s.packages[i - 1].position as int);
        }
    }
    vstd::set_lib::lemma_len_subset(q.to_set(), range);
    vstd::set_lib::lemma_subset_equality(q.to_set(), range);
}

/// A stored configuration of an unknown schema is refused, and so is one of
/// schema 2 or 3 that lists a skill in two packages.
pub proof fn law_invalid_stores_are_refused(s: StoreView)
    ensures
        (s.schema_version < 1 || s.schema_version > 3) ==> store_error(s) == Some(version_message()),
        (s.schema_version == 2 || s.schema_version == 3) && (exists|i: int, j: int, m: Seq<char>|
            0 <= i < s.packages.len() && 0 <= j < s.packages.len() && i != j
                && #[trigger] s.packages[i].members.contains(m)
                && #[trigger] s.packages[j].members.contains(m)) ==> store_error(s) is Some,
{
    if (s.schema_version == 2 || s.schema_version == 3) && (exists|i: int, j: int, m: Seq<char>|
        0 <= i < s.packages.len() && 0 <= j < s.packages.len() && i != j
            && #[trigger] s.packages[i].members.contains(m)
            && #[trigger] s.packages[j].members.contains(m)) && store_error(s) is None {
        let (i, j, m) = choose|i: int, j: int, m: Seq<char>|
            0 <= i < s.packages.len() && 0 <= j < s.packages.len() && i != j
                && #[trigger] s.packages[i].members.contains(m)
                && #[trigger] s.packages[j].members.contains(m);
        assert(migrate_packages(s.schema_version, s.packages) is Ok);
        lemma_migrate(s.schema_version, s.packages);
        let done = migrate_packages(s.schema_version, s.packages)->Ok_0.0;
        assert(done[i].members == s.packages[i].members);
        assert(done[j].members == s.packages[j].members);
        assert(done[i].members.contains(m));
        assert(!done[j].members.contains(m));
    }
}


/// After saving a package no skill sits in two packages.
pub proof fn law_save_keeps_each_skill_in_one_package(
    s: StoreView,
    req: SaveRequestView,
    managed: Set<Seq<char>>,
    now: u64,
    fresh: Seq<char>,
)
    requires
        store_wf(s),
        s.revision < u64::MAX,
        req.id is None ==> package_index(s.packages, fresh) == -1,
        save_outcome(s, req, managed, now, fresh) is Ok,
    ensures
        ({
            let t = save_outcome(s, req, managed, now, fresh)->Ok_0;
            forall|i: int, j: int, m: Seq<char>|
                0 <= i < t.packages.len() && 0 <= j < t.packages.len() && i != j
                    && #[trigger] t.packages[i].members.contains(m)
                    ==> !#[trigger] t.packages[j].members.contains(m)
        }),
{
    law_save_moves_members_into_the_package(s, req, managed, now, fresh);
    let t = save_outcome(s, req, managed, now, fresh)->Ok_0;
    let allowed = match req.id {
        Some(id) => managed + s.packages[package_index(s.packages, id)].members.to_set(),
        None => managed,
    };
    let members = requested_members(req.members, allowed)->Ok_0;
    let pid = match req.id {
        Some(id) => id,
        None => fresh,
    };
    let k = package_index(t.packages, pid);
    assert forall|i: int, j: int, m: Seq<char>|
        0 <= i < t.packages.len() && 0 <= j < t.packages.len() && i != j
            && #[trigger] t.packages[i].members.contains(m)
            implies !#[trigger] t.packages[j].members.contains(m) by {
        if i != k {
            lemma_without(s.packages[i].members, members);
            assert(t.packages[i].members == without(s.packages[i].members, members));
        }
        if j != k {
            lemma_without(s.packages[j].members, members);
            assert(t.packages[j].members == without(s.packages[j].members, members));
        }
        if i != k && j != k {
            assert(s.packages[i].members.contains(m));
        }
    }
}


/// After assigning skills no skill sits in two packages.
pub proof fn law_assign_keeps_each_skill_in_one_package(
    s: StoreView,
    req: AssignRequestView,
    managed: Set<Seq<char>>,
    now: u64,
)
    requires
        store_wf(s),
        s.revision < u64::MAX,
        assign_outcome(s, req, managed, now) is Ok,
    ensures
        ({
            let t = assign_outcome(s, req, managed, now)->Ok_0;
            forall|i: int, j: int, m: Seq<char>|
                0 <= i < t.packages.len() && 0 <= j < t.packages.len() && i != j
                    && #[trigger] t.packages[i].members.contains(m)
                    ==> !#[trigger] t.packages[j].members.contains(m)
        }),
{
    law_assign_moves_members_to_the_target(s, req, managed, now);
    let t = assign_outcome(s, req, managed, now)->Ok_0;
    let members = requested_members(req.members, managed)->Ok_0;
    assert forall|i: int, j: int, m: Seq<char>|
        0 <= i < t.packages.len() && 0 <= j < t.packages.len() && i != j
            && #[trigger] t.packages[i].members.contains(m)
            implies !#[trigger] t.packages[j].members.contains(m) by {
        let wi = without(s.packages[i].members, members);
        let wj = without(s.packages[j].members, members);
        lemma_without(s.packages[i].members, members);
        lemma_without(s.packages[j].members, members);
        let ti = req.package_id == Some(s.packages[i].id);
        let tj = req.package_id == Some(s.packages[j].id);
        assert(!(ti && tj)) by {
            if ti && tj {
                if i < j {
                    assert(s.packages[i].id != s.packages[j].id);
                } else {
                    assert(s.packages[j].id != s.packages[i].id);
                }
            }
        }
        if ti {
            assert(t.packages[i].members == wi + members);
            assert(t.packages[j].members == wj);
            if members.contains(m) {
            } else {
                assert(wi.contains(m)) by {
                    let a = choose|a: int| 0 <= a < (wi + members).len() && (wi + members)[a] == m;
                    if a >= wi.len() {
                        assert(members[a - wi.len()] == m);
                    }
                }
                assert(s.packages[i].members.contains(m));
                assert(!s.packages[j].members.contains(m));
            }
            assert(!wj.contains(m));
        } else if tj {
            assert(t.packages[i].members == wi);
            assert(t.packages[j].members == wj + members);
            assert(s.packages[i].members.contains(m));
            assert(!s.packages[j].members.contains(m));
            assert(!members.contains(m));
            if (wj + members).contains(m) {
                let a = choose|a: int| 0 <= a < (wj + members).len() && (wj + members)[a] == m;
                if a >= wj.len() {
                    assert(members[a - wj.len()] == m);
                } else {
                    assert(wj[a] == m);
                    assert(wj.contains(m));
                }
            }
        } else {
            assert(t.packages[i].members == wi);
            assert(t.packages[j].members == wj);
            assert(s.packages[i].members.contains(m));
            assert(!s.packages[j].members.contains(m));
            assert(!wj.contains(m));
        }
    }
}


} // verus!
