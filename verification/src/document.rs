//! The frontmatter of a `SKILL.md` document as the library reads it: name,
//! description (including YAML block scalars) and UUID, the body check, the
//! Agent Skills naming rule and the validation of an edit.
use crate::identity::{
    dashes, is_indented, is_uuid_line, line_key, line_value, name_key, normalize_uuid_chars,
    normalized_uuid, split_key, strip_bom, strip_bom_chars, unquote, unquote_chars, uuid_key,
    is_dashes,
};
use crate::text::{
    chars_eq, chars_of, char_is_ws, join, join_chars, lines, slice_chars, split_lines,
    string_of, trim, trim_chars, trim_end, trim_end_chars, views,
};
use vstd::prelude::*;

verus! {

/// The fields of a frontmatter, as texts.
pub struct DocFields {
    pub uuid: Option<Seq<char>>,
    pub name: Option<Seq<char>>,
    pub description: Option<Seq<char>>,
}

pub open spec fn description_key() -> Seq<char> {
    seq!['d', 'e', 's', 'c', 'r', 'i', 'p', 't', 'i', 'o', 'n']
}

/// `>`, `|`, `>-` or `|-`: the value introduces an indented block.
pub open spec fn is_block_marker(raw: Seq<char>) -> bool {
    ||| raw == seq!['>']
    ||| raw == seq!['|']
    ||| raw == seq!['>', '-']
    ||| raw == seq!['|', '-']
}

/// Where a block scalar starting at `i` ends: the first line that is neither
/// indented nor blank.
pub open spec fn block_end(fm: Seq<Seq<char>>, i: int) -> int
    decreases fm.len() - i,
{
    if i < 0 || i >= fm.len() {
        fm.len() as int
    } else if !is_indented(fm[i]) && trim(fm[i]).len() > 0 {
        i
    } else {
        block_end(fm, i + 1)
    }
}

/// The non-blank trimmed lines of `fm[i..j]`.
pub open spec fn block_parts(fm: Seq<Seq<char>>, i: int, j: int) -> Seq<Seq<char>>
    decreases j - i,
{
    if i < 0 || i >= j || i >= fm.len() {
        seq![]
    } else if trim(fm[i]).len() > 0 {
        seq![trim(fm[i])] + block_parts(fm, i + 1, j)
    } else {
        block_parts(fm, i + 1, j)
    }
}

/// Whether a frontmatter line is skipped: indented, a comment or blank.
pub open spec fn is_skipped_line(line: Seq<char>) -> bool {
    let t = trim(line);
    is_indented(line) || (t.len() > 0 && t[0] == '#') || t.len() == 0
}

/// The fields read from the frontmatter lines `fm[i..]`, later fields of the
/// same key overriding earlier ones.
pub open spec fn scan_fields(fm: Seq<Seq<char>>, i: int, acc: DocFields) -> DocFields
    decreases fm.len() - i,
{
    if i < 0 || i >= fm.len() {
        acc
    } else if is_skipped_line(fm[i]) {
        scan_fields(fm, i + 1, acc)
    } else {
        let t = trim(fm[i]);
        match line_key(t) {
            None => scan_fields(fm, i + 1, acc),
            Some(key) => {
                let raw = trim(line_value(t));
                if key == uuid_key() {
                    scan_fields(fm, i + 1, DocFields { uuid: normalized_uuid(raw), ..acc })
                } else if key == name_key() {
                    scan_fields(fm, i + 1, DocFields { name: Some(unquote(raw)), ..acc })
                } else if key == description_key() {
                    if is_block_marker(raw) {
                        let e = block_end(fm, i + 1);
                        proof {
                            lemma_block_end(fm, i + 1);
                        }
                        scan_fields(
                            fm,
                            e,
                            DocFields {
                                description: Some(join(block_parts(fm, i + 1, e), seq![' '])),
                                ..acc
                            },
                        )
                    } else {
                        scan_fields(fm, i + 1, DocFields { description: Some(unquote(raw)), ..acc })
                    }
                } else {
                    scan_fields(fm, i + 1, acc)
                }
            },
        }
    }
}

/// The first index at or after `i` whose line, with trailing whitespace
/// removed, is `---`; or -1.
pub open spec fn closing_delim_from(ls: Seq<Seq<char>>, i: int) -> int
    decreases ls.len() - i,
{
    if i < 0 || i >= ls.len() {
        -1
    } else if trim_end(ls[i]) == dashes() {
        i
    } else {
        closing_delim_from(ls, i + 1)
    }
}

/// The index of the closing `---` of a document's frontmatter, or -1 when the
/// document has no frontmatter.
pub open spec fn frontmatter_end(ls: Seq<Seq<char>>) -> int {
    if ls.len() == 0 || trim(ls[0]) != dashes() {
        -1
    } else {
        closing_delim_from(ls, 1)
    }
}

pub open spec fn no_fields() -> DocFields {
    DocFields { uuid: None, name: None, description: None }
}

/// Whether a document has a frontmatter: it opens with `---` and a later
/// line is `---` (trailing whitespace aside).
pub open spec fn doc_has_frontmatter(content: Seq<char>) -> bool {
    frontmatter_end(lines(strip_bom(content))) >= 1
}

/// The fields of a document's frontmatter (none without a frontmatter).
pub open spec fn doc_fields(content: Seq<char>) -> DocFields {
    let ls = lines(strip_bom(content));
    let e = frontmatter_end(ls);
    if e >= 1 {
        scan_fields(ls.subrange(1, e), 0, no_fields())
    } else {
        no_fields()
    }
}

/// The metadata of a `SKILL.md` document.
pub struct SkillDocumentMetadata {
    pub uuid: Option<String>,
    pub name: Option<String>,
    pub description: Option<String>,
    pub has_frontmatter: bool,
}

pub open spec fn opt_string_view(o: Option<String>) -> Option<Seq<char>> {
    match o {
        Some(s) => Some(s@),
        None => None,
    }
}

pub open spec fn opt_chars_view(o: Option<Vec<char>>) -> Option<Seq<char>> {
    match o {
        Some(s) => Some(s@),
        None => None,
    }
}

impl SkillDocumentMetadata {
    /// The fields as texts.
    pub open spec fn fields(&self) -> DocFields {
        DocFields {
            uuid: opt_string_view(self.uuid),
            name: opt_string_view(self.name),
            description: opt_string_view(self.description),
        }
    }
}

fn opt_string_of(o: &Option<Vec<char>>) -> (r: Option<String>)
    ensures
        opt_string_view(r) == opt_chars_view(*o),
{
    match o {
        Some(v) => Some(string_of(v)),
        None => None,
    }
}

/// Whether a text is one of the block markers.
fn is_block_marker_chars(raw: &Vec<char>) -> (r: bool)
    ensures
        r == is_block_marker(raw@),
{
    proof {
        if raw@.len() == 1 {
            assert(raw@ =~= seq![raw@[0]]);
        }
        if raw@.len() == 2 {
            assert(raw@ =~= seq![raw@[0], raw@[1]]);
        }
    }
    (raw.len() == 1 && (raw[0] == '>' || raw[0] == '|')) || (raw.len() == 2 && (raw[0] == '>'
        || raw[0] == '|') && raw[1] == '-')
}

/// Whether a line is indented, a comment or blank.
fn is_skipped_line_chars(line: &Vec<char>) -> (r: bool)
    ensures
        r == is_skipped_line(line@),
{
    let t = trim_chars(line);
    (line.len() > 0 && char_is_ws(line[0])) || (t.len() > 0 && t[0] == '#') || t.len() == 0
}

pub proof fn lemma_block_end(fm: Seq<Seq<char>>, i: int)
    requires
        0 <= i <= fm.len(),
    ensures
        i <= block_end(fm, i) <= fm.len(),
    decreases fm.len() - i,
{
    if i < fm.len() && !(!is_indented(fm[i]) && trim(fm[i]).len() > 0) {
        lemma_block_end(fm, i + 1);
    }
}

pub proof fn lemma_block_parts_push(fm: Seq<Seq<char>>, i: int, j: int)
    requires
        0 <= i <= j < fm.len(),
    ensures
        block_parts(fm, i, j + 1) == (if trim(fm[j]).len() > 0 {
            block_parts(fm, i, j).push(trim(fm[j]))
        } else {
            block_parts(fm, i, j)
        }),
    decreases j - i,
{
    if i < j {
        lemma_block_parts_push(fm, i + 1, j);
        if trim(fm[i]).len() > 0 {
            assert(seq![trim(fm[i])] + block_parts(fm, i + 1, j).push(trim(fm[j])) =~= (seq![
                trim(fm[i]),
            ] + block_parts(fm, i + 1, j)).push(trim(fm[j])));
        }
    } else {
        assert(block_parts(fm, j, j) =~= Seq::<Seq<char>>::empty());
        assert(block_parts(fm, j + 1, j + 1) =~= Seq::<Seq<char>>::empty());
        if trim(fm[j]).len() > 0 {
            assert(seq![trim(fm[j])] + Seq::<Seq<char>>::empty() =~= Seq::<Seq<char>>::empty().push(
                trim(fm[j]),
            ));
        }
    }
}

/// The fields of the frontmatter lines `fm` (read from index 0).
fn scan_fields_exec(fm: &Vec<Vec<char>>) -> (r: (Option<Vec<char>>, Option<Vec<char>>, Option<
    Vec<char>,
>))
    ensures
        scan_fields(views(fm@), 0, no_fields()) == (DocFields {
            uuid: opt_chars_view(r.0),
            name: opt_chars_view(r.1),
            description: opt_chars_view(r.2),
        }),
{
    let ghost vs = views(fm@);
    let mut uuid: Option<Vec<char>> = None;
    let mut name: Option<Vec<char>> = None;
    let mut description: Option<Vec<char>> = None;
    let mut index: usize = 0;
    let uuid_k = vec!['u', 'u', 'i', 'd'];
    let name_k = vec!['n', 'a', 'm', 'e'];
    let desc_k = vec!['d', 'e', 's', 'c', 'r', 'i', 'p', 't', 'i', 'o', 'n'];
    while index < fm.len()
        invariant
            vs == views(fm@),
            index <= fm.len(),
            uuid_k@ == uuid_key(),
            name_k@ == name_key(),
            desc_k@ == description_key(),
            scan_fields(vs, index as int, DocFields {
                uuid: opt_chars_view(uuid),
                name: opt_chars_view(name),
                description: opt_chars_view(description),
            }) == scan_fields(vs, 0, no_fields()),
        decreases fm.len() - index,
    {
        let ghost acc = DocFields {
            uuid: opt_chars_view(uuid),
            name: opt_chars_view(name),
            description: opt_chars_view(description),
        };
        let line = &fm[index];
        assert(line@ == vs[index as int]);
        if is_skipped_line_chars(line) {
            assert(scan_fields(vs, index as int, acc) == scan_fields(vs, index + 1, acc));
            index += 1;
            continue;
        }
        let t = trim_chars(line);
        let split = split_key(&t);
        assert(t@ == trim(vs[index as int]));
        match split {
            None => {
                assert(scan_fields(vs, index as int, acc) == scan_fields(vs, index + 1, acc));
                index += 1;
            },
            Some((key, at)) => {
                let value = slice_chars(&t, at + 1, t.len());
                let raw = trim_chars(&value);
                assert(raw@ == trim(line_value(t@)));
                if chars_eq(&key, &uuid_k) {
                    assert(scan_fields(vs, index as int, acc) == scan_fields(
                        vs,
                        index + 1,
                        DocFields { uuid: normalized_uuid(raw@), ..acc },
                    ));
                    uuid = match normalize_uuid_chars(&raw) {
                        Some(u) => Some(u),
                        None => None,
                    };
                    index += 1;
                    assert(scan_fields(vs, index as int, DocFields {
                        uuid: opt_chars_view(uuid),
                        name: opt_chars_view(name),
                        description: opt_chars_view(description),
                    }) == scan_fields(vs, 0, no_fields()));
                } else if chars_eq(&key, &name_k) {
                    assert(scan_fields(vs, index as int, acc) == scan_fields(
                        vs,
                        index + 1,
                        DocFields { name: Some(unquote(raw@)), ..acc },
                    ));
                    name = Some(unquote_chars(&raw));
                    index += 1;
                    assert(scan_fields(vs, index as int, DocFields {
                        uuid: opt_chars_view(uuid),
                        name: opt_chars_view(name),
                        description: opt_chars_view(description),
                    }) == scan_fields(vs, 0, no_fields()));
                } else if chars_eq(&key, &desc_k) {
                    if is_block_marker_chars(&raw) {
                        let ghost start: int = index + 1;
                        let mut parts: Vec<Vec<char>> = Vec::new();
                        let mut j: usize = index + 1;
                        let mut done = false;
                        proof {
                            assert(views(parts@) =~= block_parts(vs, start, start));
                        }
                        while j < fm.len() && !done
                            invariant
                                vs == views(fm@),
                                0 <= start <= j <= fm.len(),
                                !done ==> block_end(vs, start as int) == block_end(vs, j as int),
                                done ==> block_end(vs, start as int) == j,
                                views(parts@) == block_parts(vs, start as int, j as int),
                                vs.len() == fm.len(),
                                scan_fields(vs, index as int, acc) == scan_fields(vs, 0, no_fields()),
                                start == index + 1,
                                acc == (DocFields {
                                    uuid: opt_chars_view(uuid),
                                    name: opt_chars_view(name),
                                    description: opt_chars_view(description),
                                }),
                            decreases fm.len() - j + (if done {
                                0int
                            } else {
                                1int
                            }),
                        {
                            let block_line = &fm[j];
                            assert(block_line@ == vs[j as int]);
                            let bt = trim_chars(block_line);
                            let indented = block_line.len() > 0 && char_is_ws(block_line[0]);
                            if !indented && bt.len() > 0 {
                                done = true;
                            } else {
                                proof {
                                    assert(0 <= start <= j);
                                    assert(j < vs.len());
                                    lemma_block_parts_push(vs, start as int, j as int);
                                    crate::text::lemma_views_push(parts@, bt);
                                }
                                if bt.len() > 0 {
                                    parts.push(bt);
                                }
                                j += 1;
                            }
                        }
                        proof {
                            if !done {
                                assert(j == fm.len());
                            }
                        }
                        assert(j == block_end(vs, start));
                        assert(is_block_marker(raw@));
                        assert(scan_fields(vs, index as int, acc) == scan_fields(
                            vs,
                            j as int,
                            DocFields {
                                description: Some(join(block_parts(vs, start, j as int), seq![' '])),
                                ..acc
                            },
                        ));
                        let space = vec![' '];
                        let joined = join_chars(&parts, &space);
                        assert(space@ == seq![' ']);
                        assert(joined@ == join(block_parts(vs, start, j as int), seq![' ']));
                        assert(acc.uuid == opt_chars_view(uuid));
                        assert(acc.name == opt_chars_view(name));
                        description = Some(joined);
                        index = j;
                        assert(scan_fields(vs, index as int, DocFields {
                        uuid: opt_chars_view(uuid),
                        name: opt_chars_view(name),
                        description: opt_chars_view(description),
                    }) == scan_fields(vs, 0, no_fields()));
                    } else {
                        assert(scan_fields(vs, index as int, acc) == scan_fields(
                            vs,
                            index + 1,
                            DocFields { description: Some(unquote(raw@)), ..acc },
                        ));
                        description = Some(unquote_chars(&raw));
                        index += 1;
                        assert(scan_fields(vs, index as int, DocFields {
                        uuid: opt_chars_view(uuid),
                        name: opt_chars_view(name),
                        description: opt_chars_view(description),
                    }) == scan_fields(vs, 0, no_fields()));
                    }
                } else {
                    assert(scan_fields(vs, index as int, acc) == scan_fields(vs, index + 1, acc));
                    index += 1;
                }
            },
        }
    }
    (uuid, name, description)
}

/// The frontmatter metadata of a `SKILL.md` document: `uuid` (normalized),
/// `name` (unquoted), `description` (unquoted, or the non-blank lines of a
/// `>`/`|` block joined by spaces).  A document without a `---` opening and
/// a `---` closing line has no frontmatter and no fields.
pub fn parse_skill_document(content: &str) -> (r: SkillDocumentMetadata)
    ensures
        r.has_frontmatter == doc_has_frontmatter(content@),
        r.fields() == doc_fields(content@),
{
    let v = chars_of(content);
    parse_skill_document_chars(&v)
}

/// `parse_skill_document` on a text.
pub fn parse_skill_document_chars(v: &Vec<char>) -> (r: SkillDocumentMetadata)
    ensures
        r.has_frontmatter == doc_has_frontmatter(v@),
        r.fields() == doc_fields(v@),
{
    let body = strip_bom_chars(v);
    let ls = split_lines(&body);
    let ghost vs = views(ls@);
    let none = SkillDocumentMetadata {
        uuid: None,
        name: None,
        description: None,
        has_frontmatter: false,
    };
    if ls.len() == 0 {
        return none;
    }
    assert(vs[0] == ls@[0]@);
    let first = trim_chars(&ls[0]);
    if !is_dashes(&first) {
        return none;
    }
    let mut end: Option<usize> = None;
    let mut i: usize = 1;
    while i < ls.len() && end.is_none()
        invariant
            1 <= i <= ls.len(),
            vs == views(ls@),
            end is None ==> closing_delim_from(vs, i as int) == closing_delim_from(vs, 1),
            end matches Some(e) ==> closing_delim_from(vs, 1) == e && 1 <= e < ls.len(),
        decreases ls.len() - i,
    {
        assert(vs[i as int] == ls@[i as int]@);
        let t = trim_end_chars(&ls[i]);
        if is_dashes(&t) {
            end = Some(i);
        }
        i += 1;
    }
    match end {
        None => none,
        Some(e) => {
            let mut fm: Vec<Vec<char>> = Vec::new();
            let mut k: usize = 1;
            while k < e
                invariant
                    1 <= k <= e < ls.len(),
                    vs == views(ls@),
                    views(fm@) == vs.subrange(1, k as int),
                decreases e - k,
            {
                proof {
                    crate::text::lemma_views_push(fm@, ls@[k as int]);
                    assert(vs.subrange(1, k + 1) =~= vs.subrange(1, k as int).push(vs[k as int]));
                }
                fm.push(ls[k].clone());
                k += 1;
            }
            let (uuid, name, description) = scan_fields_exec(&fm);
            SkillDocumentMetadata {
                uuid: opt_string_of(&uuid),
                name: opt_string_of(&name),
                description: opt_string_of(&description),
                has_frontmatter: true,
            }
        },
    }
}


/// The index of the closing `---` of the frontmatter of the lines `ls`.
fn frontmatter_end_exec(ls: &Vec<Vec<char>>) -> (r: Option<usize>)
    ensures
        match r {
            Some(e) => frontmatter_end(views(ls@)) == e && 1 <= e < ls.len(),
            None => frontmatter_end(views(ls@)) == -1,
        },
{
    let ghost vs = views(ls@);
    if ls.len() == 0 {
        return None;
    }
    assert(vs[0] == ls@[0]@);
    let first = trim_chars(&ls[0]);
    if !is_dashes(&first) {
        return None;
    }
    let mut end: Option<usize> = None;
    let mut i: usize = 1;
    while i < ls.len() && end.is_none()
        invariant
            1 <= i <= ls.len(),
            vs == views(ls@),
            end is None ==> closing_delim_from(vs, i as int) == closing_delim_from(vs, 1),
            end matches Some(e) ==> closing_delim_from(vs, 1) == e && 1 <= e < ls.len(),
        decreases ls.len() - i,
    {
        assert(vs[i as int] == ls@[i as int]@);
        let t = trim_end_chars(&ls[i]);
        if is_dashes(&t) {
            end = Some(i);
        }
        i += 1;
    }
    end
}

/// Whether the body after the frontmatter holds a non-blank line; false
/// without a frontmatter.
pub open spec fn body_has_content(content: Seq<char>) -> bool {
    let ls = lines(strip_bom(content));
    let e = frontmatter_end(ls);
    e >= 1 && exists|j: int| e < j < ls.len() && trim(#[trigger] ls[j]).len() > 0
}

/// Whether a `SKILL.md` document has a frontmatter followed by a non-blank
/// body line.
pub fn skill_body_has_content(content: &str) -> (r: bool)
    ensures
        r == body_has_content(content@),
{
    let v = chars_of(content);
    let body = strip_bom_chars(&v);
    let ls = split_lines(&body);
    let ghost vs = views(ls@);
    match frontmatter_end_exec(&ls) {
        None => false,
        Some(e) => {
            let mut j = e + 1;
            while j < ls.len()
                invariant
                    1 <= e < j <= ls.len(),
                    vs == views(ls@),
                    vs == lines(strip_bom(content@)),
                    frontmatter_end(vs) == e,
                    forall|k: int| e < k < j ==> trim(#[trigger] vs[k]).len() == 0,
                decreases ls.len() - j,
            {
                assert(vs[j as int] == ls@[j as int]@);
                let t = trim_chars(&ls[j]);
                if t.len() > 0 {
                    assert(e < j < vs.len() && trim(vs[j as int]).len() > 0);
                    return true;
                }
                j += 1;
            }
            false
        },
    }
}

/// Whether line `k` is a `uuid` line inside the frontmatter of `ls` (an
/// unclosed frontmatter runs to the end).
pub open spec fn is_frontmatter_uuid_line(ls: Seq<Seq<char>>, k: int) -> bool {
    let e = crate::identity::first_delim_from(ls, 1);
    &&& ls.len() > 0
    &&& trim(ls[0]) == dashes()
    &&& 1 <= k
    &&& (e < 0 || k < e)
    &&& is_uuid_line(ls[k])
}

/// The lines of `ls` from `k` on, frontmatter `uuid` lines left out.
pub open spec fn lines_without_uuid(ls: Seq<Seq<char>>, k: int) -> Seq<Seq<char>>
    decreases ls.len() - k,
{
    if k < 0 || k >= ls.len() {
        seq![]
    } else if is_frontmatter_uuid_line(ls, k) {
        lines_without_uuid(ls, k + 1)
    } else {
        seq![ls[k]] + lines_without_uuid(ls, k + 1)
    }
}

/// A document with its frontmatter `uuid` lines removed, lines joined by `\n`.
pub open spec fn content_without_uuid(content: Seq<char>) -> Seq<char> {
    join(lines_without_uuid(lines(strip_bom(content)), 0), seq!['\n'])
}

/// A `SKILL.md` document without its frontmatter `uuid` lines, so that two
/// copies of a skill that differ only in identity compare equal.
pub fn skill_content_without_uuid(content: &str) -> (r: String)
    ensures
        r@ == content_without_uuid(content@),
{
    let v = chars_of(content);
    let body = strip_bom_chars(&v);
    let ls = split_lines(&body);
    let ghost vs = views(ls@);
    let mut open = false;
    if ls.len() > 0 {
        assert(vs[0] == ls@[0]@);
        let first = trim_chars(&ls[0]);
        open = is_dashes(&first);
    }
    // The closing delimiter of the frontmatter, if any.
    let mut end: Option<usize> = None;
    let mut i: usize = 1;
    while i < ls.len() && end.is_none()
        invariant
            1 <= i,
            vs == views(ls@),
            end is None ==> crate::identity::first_delim_from(vs, i as int)
                == crate::identity::first_delim_from(vs, 1),
            end matches Some(e) ==> crate::identity::first_delim_from(vs, 1) == e,
        decreases ls.len() - i,
    {
        assert(vs[i as int] == ls@[i as int]@);
        let t = trim_chars(&ls[i]);
        if is_dashes(&t) {
            end = Some(i);
        }
        i += 1;
    }
    assert(end is None ==> crate::identity::first_delim_from(vs, 1) == -1);
    let mut kept: Vec<Vec<char>> = Vec::new();
    let mut k: usize = 0;
    let key = vec!['u', 'u', 'i', 'd'];
    while k < ls.len()
        invariant
            k <= ls.len(),
            vs == views(ls@),
            key@ == crate::identity::uuid_key(),
            open == (ls.len() > 0 && trim(vs[0]) == dashes()),
            end is None ==> crate::identity::first_delim_from(vs, 1) == -1,
            end matches Some(e) ==> crate::identity::first_delim_from(vs, 1) == e,
            views(kept@) + lines_without_uuid(vs, k as int) == lines_without_uuid(vs, 0),
            vs == lines(strip_bom(content@)),
        decreases ls.len() - k,
    {
        let line = &ls[k];
        assert(line@ == vs[k as int]);
        let t = trim_chars(line);
        let indented = line.len() > 0 && char_is_ws(line[0]);
        let before_end = match end {
            Some(e) => k < e,
            None => true,
        };
        let is_uuid = open && k >= 1 && before_end && !indented && match split_key(&t) {
            Some((name, _)) => chars_eq(&name, &key),
            None => false,
        };
        assert(is_uuid == is_frontmatter_uuid_line(vs, k as int));
        if !is_uuid {
            let copy = line.clone();
            proof {
                crate::text::lemma_views_push(kept@, copy);
            }
            kept.push(copy);
            assert(views(kept@) + lines_without_uuid(vs, k + 1) =~= views(kept@).drop_last() + (
            seq![vs[k as int]] + lines_without_uuid(vs, k + 1)));
        }
        k += 1;
    }
    assert(lines_without_uuid(vs, k as int) =~= Seq::<Seq<char>>::empty());
    assert(views(kept@) + Seq::<Seq<char>>::empty() =~= views(kept@));
    let nl = vec!['\n'];
    let joined = join_chars(&kept, &nl);
    assert(nl@ == seq!['\n']);
    assert(views(kept@) == lines_without_uuid(vs, 0));
    string_of(&joined)
}

/// The Agent Skills naming rule: 1 to 64 characters, each a lowercase ASCII
/// letter, digit or `-`; no leading, trailing or doubled `-`.  (Every such
/// name is ASCII, so counting characters is counting bytes.)
pub open spec fn is_standard_name(name: Seq<char>) -> bool {
    &&& 0 < name.len() <= 64
    &&& name[0] != '-'
    &&& name.last() != '-'
    &&& forall|i: int| 0 <= i < name.len() ==> (crate::text::is_ascii_lower(#[trigger] name[i])
        || crate::text::is_ascii_digit(name[i]) || name[i] == '-')
    &&& forall|i: int| 0 <= i < name.len() - 1 ==> !(#[trigger] name[i] == '-' && name[i + 1] == '-')
}

/// `is_standard_skill_name` on a text.
pub fn is_standard_name_chars(v: &Vec<char>) -> (r: bool)
    ensures
        r == is_standard_name(v@),
{
    let n = v.len();
    if n == 0 || n > 64 || v[0] == '-' || v[n - 1] == '-' {
        return false;
    }
    let mut i: usize = 0;
    while i < n
        invariant
            n == v.len(),
            0 < n <= 64,
            i <= n,
            forall|k: int| 0 <= k < i ==> (crate::text::is_ascii_lower(#[trigger] v@[k])
                || crate::text::is_ascii_digit(v@[k]) || v@[k] == '-'),
            forall|k: int| 0 <= k < i && k < n - 1 ==> !(#[trigger] v@[k] == '-' && v@[k + 1] == '-'),
        decreases n - i,
    {
        let c = v[i];
        if !(('a' <= c && c <= 'z') || ('0' <= c && c <= '9') || c == '-') {
            return false;
        }
        if i + 1 < n && c == '-' && v[i + 1] == '-' {
            return false;
        }
        i += 1;
    }
    true
}

/// Whether `name` follows the Agent Skills naming rule (see
/// `is_standard_name`).
pub fn is_standard_skill_name(name: &str) -> (r: bool)
    ensures
        r == is_standard_name(name@),
{
    let v = chars_of(name);
    is_standard_name_chars(&v)
}

proof fn lemma_first_delim_at(ls: Seq<Seq<char>>, i: int, e: int)
    requires
        0 <= i <= e < ls.len(),
        trim(ls[e]) == dashes(),
        forall|k: int| i <= k < e ==> trim(#[trigger] ls[k]) != dashes(),
    ensures
        crate::identity::first_delim_from(ls, i) == e,
    decreases e - i,
{
    if i < e {
        lemma_first_delim_at(ls, i + 1, e);
    }
}

/// Past the frontmatter every line is kept.
proof fn lemma_without_uuid_tail(ls: Seq<Seq<char>>, k: int)
    requires
        0 <= k <= ls.len(),
        forall|j: int| k <= j < ls.len() ==> !is_frontmatter_uuid_line(ls, j),
    ensures
        lines_without_uuid(ls, k) == ls.subrange(k, ls.len() as int),
    decreases ls.len() - k,
{
    if k < ls.len() {
        lemma_without_uuid_tail(ls, k + 1);
        assert(seq![ls[k]] + ls.subrange(k + 1, ls.len() as int) =~= ls.subrange(k, ls.len() as int));
    } else {
        assert(ls.subrange(k, ls.len() as int) =~= Seq::<Seq<char>>::empty());
    }
}

/// Two documents whose lines from `k` to `m` agree on which are frontmatter
/// `uuid` lines, and on every other line, and whose remainders from `m`
/// compare equal, compare equal from `k`.
proof fn lemma_without_uuid_prefix(a: Seq<Seq<char>>, b: Seq<Seq<char>>, k: int, m: int)
    requires
        0 <= k <= m,
        m <= a.len(),
        m <= b.len(),
        forall|j: int|
            k <= j < m ==> is_frontmatter_uuid_line(a, j) == is_frontmatter_uuid_line(b, j) && (
            !is_frontmatter_uuid_line(a, j) ==> #[trigger] a[j] == b[j]),
        lines_without_uuid(a, m) == lines_without_uuid(b, m),
    ensures
        lines_without_uuid(a, k) == lines_without_uuid(b, k),
    decreases m - k,
{
    if k < m {
        assert forall|j: int| k + 1 <= j < m implies is_frontmatter_uuid_line(a, j)
            == is_frontmatter_uuid_line(b, j) && (!is_frontmatter_uuid_line(a, j) ==> #[trigger] a[j]
            == b[j]) by {
            assert(a[j] == a[j]);
        }
        lemma_without_uuid_prefix(a, b, k + 1, m);
    }
}

/// Comparing documents without their identity is blind to a UUID written
/// into a document that has a frontmatter: the rewritten document compares
/// equal to the document it was made from.
pub proof fn law_written_uuid_is_ignored_in_comparison(content: Seq<char>, u: Seq<char>)
    requires
        crate::identity::is_canonical_uuid_shape(u),
        crate::identity::has_closed_frontmatter(lines(strip_bom(content))),
    ensures
        content_without_uuid(crate::identity::with_uuid(content, u)) == content_without_uuid(content),
{
    crate::identity::lemma_written_uuid_closed(content, u);
    crate::identity::lemma_uuid_line(u);
    let a = lines(strip_bom(content));
    let b = crate::identity::lines_with_uuid(a, u);
    let l = crate::identity::uuid_line(u);
    let end = crate::identity::first_delim_from(a, 1);
    crate::identity::lemma_first_delim(a, 1);
    let idx = crate::identity::first_uuid_line(a, 1, end);
    crate::identity::lemma_first_uuid_line(a, 1, end);
    if idx >= 0 {
        assert(b == a.update(idx, l));
        assert forall|k: int| 1 <= k < end implies trim(#[trigger] b[k]) != dashes() by {
            if k != idx {
                assert(b[k] == a[k]);
            }
        }
        lemma_first_delim_at(b, 1, end);
        assert forall|j: int|
            0 <= j < a.len() implies is_frontmatter_uuid_line(a, j) == is_frontmatter_uuid_line(b, j)
            && (!is_frontmatter_uuid_line(a, j) ==> #[trigger] a[j] == b[j]) by {
            if j != idx {
                assert(b[j] == a[j]);
            }
            assert(b[0] == a[0]);
        }
        assert(lines_without_uuid(a, a.len() as int) == lines_without_uuid(b, a.len() as int));
        lemma_without_uuid_prefix(a, b, 0, a.len() as int);
    } else {
        assert(b == a.insert(end, l));
        assert forall|k: int| 1 <= k <= end implies trim(#[trigger] b[k]) != dashes() by {
            if k < end {
                assert(b[k] == a[k]);
            }
        }
        assert(b[end + 1] == a[end]);
        lemma_first_delim_at(b, 1, end + 1);
        assert(b[0] == a[0]);
        assert forall|j: int| end + 1 <= j < b.len() implies !is_frontmatter_uuid_line(b, j) by {}
        lemma_without_uuid_tail(b, end + 1);
        assert forall|j: int| end <= j < a.len() implies !is_frontmatter_uuid_line(a, j) by {}
        lemma_without_uuid_tail(a, end);
        assert(b.subrange(end + 1, b.len() as int) =~= a.subrange(end, a.len() as int));
        assert(is_frontmatter_uuid_line(b, end));
        assert(lines_without_uuid(b, end) == lines_without_uuid(b, end + 1));
        assert forall|j: int|
            0 <= j < end implies is_frontmatter_uuid_line(a, j) == is_frontmatter_uuid_line(b, j)
            && (!is_frontmatter_uuid_line(a, j) ==> #[trigger] a[j] == b[j]) by {
            assert(b[j] == a[j]);
        }
        lemma_without_uuid_prefix(a, b, 0, end);
    }
}

} // verus!
