//! Skill identity: the `uuid` and `name` fields of a `SKILL.md` frontmatter,
//! and the rewrite of a document so that it carries a given UUID.
use crate::text::{
    append_chars, chars_contains, ends_cr, end_non_ws, first_non_ws, is_line_ending,
    lemma_end_non_ws_bounds, lemma_first_non_ws_bounds, lemma_index_from_unique, lemma_lines_cons,
    lemma_lines_join, lemma_lines_shape, no_lf, chars_eq, chars_of, char_is_ws, contains_text, join, join_chars, find_char_from, index_of, is_ascii_digit, is_ws, lemma_index_from,
    lines, slice_chars, split_lines, string_of, trim, trim_chars, views,
};
use vstd::prelude::*;

verus! {

/// The canonical text of a UUID as the `uuid` crate produces it: `s` parsed by
/// `Uuid::parse_str`, then formatted with `hyphenated()`.  `None` when `s` does
/// not parse.
pub uninterp spec fn uuid_canonical(s: Seq<char>) -> Option<Seq<char>>;

pub open spec fn is_lower_hex(c: char) -> bool {
    is_ascii_digit(c) || ('a' <= c && c <= 'f')
}

/// The lowercase hyphenated shape `xxxxxxxx-xxxx-xxxx-xxxx-xxxxxxxxxxxx`.
pub open spec fn is_canonical_uuid_shape(s: Seq<char>) -> bool {
    &&& s.len() == 36
    &&& forall|i: int|
        0 <= i < 36 ==> if i == 8 || i == 13 || i == 18 || i == 23 {
            #[trigger] s[i] == '-'
        } else {
            is_lower_hex(s[i])
        }
}

/// `Uuid::parse_str(s)` followed by `.hyphenated().to_string()`.
///
/// Trusted: the result is the named canonical form of `s`; a UUID in canonical
/// form has the lowercase hyphenated shape (the crate documents `hyphenated`
/// as that format) and is its own canonical form; a text already in that
/// shape parses and formats back to itself.
#[verifier::external_body]
fn uuid_parse_canonical(s: &str) -> (r: Option<String>)
    ensures
        r.is_none() == uuid_canonical(s@).is_none(),
        r matches Some(u) ==> uuid_canonical(s@) == Some(u@) && is_canonical_uuid_shape(u@)
            && uuid_canonical(u@) == Some(u@) && (is_canonical_uuid_shape(s@) ==> u@ == s@),
        r is None ==> !is_canonical_uuid_shape(s@),
{
    uuid::Uuid::parse_str(s).ok().map(|value| value.hyphenated().to_string())
}

/// The byte order mark that may open a document.
pub open spec fn bom() -> char {
    '\u{feff}'
}

/// `s` without one leading byte order mark.
pub open spec fn strip_bom(s: Seq<char>) -> Seq<char> {
    if s.len() > 0 && s[0] == bom() {
        s.drop_first()
    } else {
        s
    }
}

/// `trim(s)`, and if that is wrapped in matching single or double quotes, the
/// trimmed text between them.
pub open spec fn unquote(s: Seq<char>) -> Seq<char> {
    let t = trim(s);
    if t.len() >= 2 && ((t[0] == '"' && t.last() == '"') || (t[0] == '\'' && t.last()
        == '\'')) {
        trim(t.subrange(1, t.len() - 1))
    } else {
        t
    }
}

/// The UUID a frontmatter value denotes: the canonical form of the unquoted value.
pub open spec fn normalized_uuid(s: Seq<char>) -> Option<Seq<char>> {
    uuid_canonical(unquote(s))
}

pub open spec fn dashes() -> Seq<char> {
    seq!['-', '-', '-']
}

/// A line that starts with whitespace (a continuation line in YAML).
pub open spec fn is_indented(l: Seq<char>) -> bool {
    l.len() > 0 && is_ws(l[0])
}

/// The key of a `key: value` line: the trimmed text before the first `:`.
pub open spec fn line_key(t: Seq<char>) -> Option<Seq<char>> {
    let i = index_of(t, ':');
    if 0 <= i < t.len() {
        Some(trim(t.subrange(0, i)))
    } else {
        None
    }
}

/// The raw value of a `key: value` line: the text after the first `:`.
pub open spec fn line_value(t: Seq<char>) -> Seq<char> {
    let i = index_of(t, ':');
    t.subrange(i + 1, t.len() as int)
}

/// The value of the first top-level `key:` line among the frontmatter lines
/// `ls[i..]`, stopping at the closing `---`.  Indented and comment lines are
/// skipped.
pub open spec fn field_value(ls: Seq<Seq<char>>, key: Seq<char>, i: int) -> Option<Seq<char>>
    decreases ls.len() - i,
{
    if i < 0 || i >= ls.len() {
        None
    } else {
        let t = trim(ls[i]);
        if t == dashes() {
            None
        } else if is_indented(ls[i]) || (t.len() > 0 && t[0] == '#') {
            field_value(ls, key, i + 1)
        } else if line_key(t) == Some(key) {
            Some(line_value(t))
        } else {
            field_value(ls, key, i + 1)
        }
    }
}

/// The raw value of the frontmatter field `key` of a document, if the document
/// opens with a `---` line and the field comes before any closing `---`.
pub open spec fn frontmatter_field(content: Seq<char>, key: Seq<char>) -> Option<Seq<char>> {
    let ls = lines(strip_bom(content));
    if ls.len() == 0 || trim(ls[0]) != dashes() {
        None
    } else {
        field_value(ls, key, 1)
    }
}

pub open spec fn uuid_key() -> Seq<char> {
    seq!['u', 'u', 'i', 'd']
}

pub open spec fn name_key() -> Seq<char> {
    seq!['n', 'a', 'm', 'e']
}

/// The UUID recorded in the frontmatter of a document.
pub open spec fn skill_uuid_of(content: Seq<char>) -> Option<Seq<char>> {
    match frontmatter_field(content, uuid_key()) {
        Some(v) => normalized_uuid(v),
        None => None,
    }
}

/// The name recorded in the frontmatter of a document, when it is not empty.
pub open spec fn skill_name_of(content: Seq<char>) -> Option<Seq<char>> {
    match frontmatter_field(content, name_key()) {
        Some(v) => if unquote(v).len() > 0 {
            Some(unquote(v))
        } else {
            None
        },
        None => None,
    }
}

/// `unquote` on a text.
pub fn unquote_chars(v: &Vec<char>) -> (r: Vec<char>)
    ensures
        r@ == unquote(v@),
{
    let t = trim_chars(v);
    let n = t.len();
    if n >= 2 && ((t[0] == '"' && t[n - 1] == '"') || (t[0] == '\'' && t[n - 1] == '\'')) {
        let inner = slice_chars(&t, 1, n - 1);
        trim_chars(&inner)
    } else {
        t
    }
}

/// The canonical UUID denoted by a frontmatter value.
pub fn normalize_uuid_chars(v: &Vec<char>) -> (r: Option<Vec<char>>)
    ensures
        match r {
            Some(u) => normalized_uuid(v@) == Some(u@) && is_canonical_uuid_shape(u@)
                && uuid_canonical(u@) == Some(u@),
            None => normalized_uuid(v@) is None,
        },
{
    let u = unquote_chars(v);
    let s = string_of(&u);
    match uuid_parse_canonical(s.as_str()) {
        Some(text) => Some(chars_of(text.as_str())),
        None => None,
    }
}

/// The canonical lowercase hyphenated form of a UUID written in `value`
/// (surrounding whitespace and quotes are ignored), or `None` when `value`
/// is not a UUID.
pub fn normalize_skill_uuid(value: &str) -> (r: Option<String>)
    ensures
        match r {
            Some(u) => normalized_uuid(value@) == Some(u@) && is_canonical_uuid_shape(u@)
                && uuid_canonical(u@) == Some(u@),
            None => normalized_uuid(value@) is None,
        },
{
    let v = chars_of(value);
    match normalize_uuid_chars(&v) {
        Some(u) => Some(string_of(&u)),
        None => None,
    }
}

/// Whether a text is exactly `---`.
pub fn is_dashes(t: &Vec<char>) -> (r: bool)
    ensures
        r == (t@ == dashes()),
{
    let d = vec!['-', '-', '-'];
    chars_eq(t, &d)
}

/// `s` without one leading byte order mark.
pub fn strip_bom_chars(v: &Vec<char>) -> (r: Vec<char>)
    ensures
        r@ == strip_bom(v@),
{
    if v.len() > 0 && v[0] == '\u{feff}' {
        slice_chars(v, 1, v.len())
    } else {
        v.clone()
    }
}

/// The key of a `key: value` line, with the index of its `:`.
pub fn split_key(t: &Vec<char>) -> (r: Option<(Vec<char>, usize)>)
    ensures
        match r {
            Some((k, i)) => line_key(t@) == Some(k@) && i as int == index_of(t@, ':') && i
                < t.len(),
            None => line_key(t@) is None,
        },
{
    proof {
        lemma_index_from(t@, ':', 0);
    }
    match find_char_from(t, ':', 0) {
        Some(i) => {
            let raw = slice_chars(t, 0, i);
            Some((trim_chars(&raw), i))
        },
        None => None,
    }
}

/// The raw value of the frontmatter field `key` of a document.
pub fn frontmatter_field_chars(content: &Vec<char>, key: &Vec<char>) -> (r: Option<Vec<char>>)
    ensures
        match r {
            Some(v) => frontmatter_field(content@, key@) == Some(v@),
            None => frontmatter_field(content@, key@) is None,
        },
{
    let body = strip_bom_chars(content);
    let ls = split_lines(&body);
    if ls.len() == 0 {
        return None;
    }
    let first = trim_chars(&ls[0]);
    if !is_dashes(&first) {
        return None;
    }
    let ghost vs = views(ls@);
    assert(vs[0] == ls@[0]@);
    assert(frontmatter_field(content@, key@) == field_value(vs, key@, 1));
    let mut i: usize = 1;
    while i < ls.len()
        invariant
            1 <= i <= ls.len(),
            vs == views(ls@),
            vs == lines(strip_bom(content@)),
            field_value(vs, key@, i as int) == field_value(vs, key@, 1),
            frontmatter_field(content@, key@) == field_value(vs, key@, 1),
        decreases ls.len() - i,
    {
        let line = &ls[i];
        assert(line@ == vs[i as int]);
        let t = trim_chars(line);
        if is_dashes(&t) {
            return None;
        }
        let indented = line.len() > 0 && char_is_ws(line[0]);
        if indented || (t.len() > 0 && t[0] == '#') {
            i += 1;
            continue;
        }
        match split_key(&t) {
            Some((k, at)) => {
                if chars_eq(&k, key) {
                    assert(line_key(t@) == Some(key@));
                    assert(field_value(vs, key@, i as int) == Some(line_value(t@)));
                    return Some(slice_chars(&t, at + 1, t.len()));
                }
            },
            None => {},
        }
        i += 1;
    }
    None
}

/// The UUID recorded in the frontmatter of a `SKILL.md` document, in
/// canonical form (lowercase hyphenated, its own normal form).  `None` when
/// the document has no frontmatter, no `uuid` field before the closing
/// `---`, or the field does not hold a UUID.
pub fn skill_uuid_from_content(content: &str) -> (r: Option<String>)
    ensures
        match r {
            Some(u) => skill_uuid_of(content@) == Some(u@) && is_canonical_uuid_shape(u@)
                && uuid_canonical(u@) == Some(u@) && normalized_uuid(u@) == Some(u@),
            None => skill_uuid_of(content@) is None,
        },
{
    let v = chars_of(content);
    match skill_uuid_chars(&v) {
        Some(u) => {
            proof {
                crate::packages::lemma_canonical_is_uuid_text(u@);
            }
            Some(string_of(&u))
        },
        None => None,
    }
}

/// `skill_uuid_from_content` on a text.
pub fn skill_uuid_chars(v: &Vec<char>) -> (r: Option<Vec<char>>)
    ensures
        match r {
            Some(u) => skill_uuid_of(v@) == Some(u@) && is_canonical_uuid_shape(u@)
                && uuid_canonical(u@) == Some(u@),
            None => skill_uuid_of(v@) is None,
        },
{
    let key = vec!['u', 'u', 'i', 'd'];
    match frontmatter_field_chars(v, &key) {
        Some(value) => normalize_uuid_chars(&value),
        None => None,
    }
}

/// The `name` recorded in the frontmatter of a `SKILL.md` document, unquoted;
/// `None` when there is no frontmatter, no `name` field before the closing
/// `---`, or the first `name` field is empty.
pub fn skill_name_from_content(content: &str) -> (r: Option<String>)
    ensures
        match r {
            Some(n) => skill_name_of(content@) == Some(n@),
            None => skill_name_of(content@) is None,
        },
{
    let v = chars_of(content);
    let key = vec!['n', 'a', 'm', 'e'];
    match frontmatter_field_chars(&v, &key) {
        Some(value) => {
            let name = unquote_chars(&value);
            if name.len() > 0 {
                Some(string_of(&name))
            } else {
                None
            }
        },
        None => None,
    }
}


pub open spec fn crlf() -> Seq<char> {
    seq!['\r', '\n']
}

pub open spec fn lf() -> Seq<char> {
    seq!['\n']
}

/// The line ending a rewritten document uses: `\r\n` when the document
/// already contains one, `\n` otherwise.
pub open spec fn newline_of(body: Seq<char>) -> Seq<char> {
    if contains_text(body, crlf()) {
        crlf()
    } else {
        lf()
    }
}

/// A top-level frontmatter line whose key is `uuid`.
pub open spec fn is_uuid_line(l: Seq<char>) -> bool {
    !is_indented(l) && line_key(trim(l)) == Some(uuid_key())
}

/// The first index at or after `i` whose trimmed line is `---`, or -1.
pub open spec fn first_delim_from(ls: Seq<Seq<char>>, i: int) -> int
    decreases ls.len() - i,
{
    if i < 0 || i >= ls.len() {
        -1
    } else if trim(ls[i]) == dashes() {
        i
    } else {
        first_delim_from(ls, i + 1)
    }
}

/// The first index in `[i, end)` holding a `uuid` line, or -1.
pub open spec fn first_uuid_line(ls: Seq<Seq<char>>, i: int, end: int) -> int
    decreases end - i,
{
    if i < 0 || i >= end || i >= ls.len() {
        -1
    } else if is_uuid_line(ls[i]) {
        i
    } else {
        first_uuid_line(ls, i + 1, end)
    }
}

/// The frontmatter line `uuid: <u>`.
pub open spec fn uuid_line(u: Seq<char>) -> Seq<char> {
    seq!['u', 'u', 'i', 'd', ':', ' '] + u
}

/// Whether the lines open with `---` and have a closing `---` line.
pub open spec fn has_closed_frontmatter(ls: Seq<Seq<char>>) -> bool {
    ls.len() > 0 && trim(ls[0]) == dashes() && first_delim_from(ls, 1) >= 0
}

/// The frontmatter lines with the UUID line set to `u`: the first `uuid`
/// line is replaced, or a `uuid` line is inserted before the closing `---`.
pub open spec fn lines_with_uuid(ls: Seq<Seq<char>>, u: Seq<char>) -> Seq<Seq<char>> {
    let end = first_delim_from(ls, 1);
    let idx = first_uuid_line(ls, 1, end);
    if idx >= 0 {
        ls.update(idx, uuid_line(u))
    } else {
        ls.insert(end, uuid_line(u))
    }
}

/// A document rewritten so that its frontmatter records the UUID `u`.  A
/// leading byte order mark and the final line ending are kept; a document
/// without a closed frontmatter gets a new one holding only the UUID.
pub open spec fn with_uuid(content: Seq<char>, u: Seq<char>) -> Seq<char> {
    let body = strip_bom(content);
    let prefix = if content.len() > 0 && content[0] == bom() {
        seq![bom()]
    } else {
        seq![]
    };
    let nl = newline_of(body);
    let ls = lines(body);
    let tail = if body.len() > 0 && body.last() == '\n' {
        nl
    } else {
        seq![]
    };
    if has_closed_frontmatter(ls) {
        prefix + join(lines_with_uuid(ls, u), nl) + tail
    } else {
        prefix + dashes() + nl + uuid_line(u) + nl + dashes() + nl + body
    }
}

/// Whether `l` is a top-level `uuid` line.
fn is_uuid_line_chars(l: &Vec<char>) -> (r: bool)
    ensures
        r == is_uuid_line(l@),
{
    if l.len() > 0 && char_is_ws(l[0]) {
        return false;
    }
    let t = trim_chars(l);
    let key = vec!['u', 'u', 'i', 'd'];
    match split_key(&t) {
        Some((k, _)) => chars_eq(&k, &key),
        None => false,
    }
}

/// The document `content` rewritten so that its frontmatter records `uuid`.
pub fn replace_or_insert_uuid_chars(content: &Vec<char>, uuid: &Vec<char>) -> (r: Vec<char>)
    ensures
        r@ == with_uuid(content@, uuid@),
{
    let has_bom = content.len() > 0 && content[0] == '\u{feff}';
    let body = strip_bom_chars(content);
    let crlf_text = vec!['\r', '\n'];
    let nl = if chars_contains(&body, &crlf_text) {
        crlf_text
    } else {
        vec!['\n']
    };
    let ls = split_lines(&body);
    let ghost vs = views(ls@);
    let mut line_text = vec!['u', 'u', 'i', 'd', ':', ' '];
    append_chars(&mut line_text, uuid);
    let mut out: Vec<char> = if has_bom {
        vec!['\u{feff}']
    } else {
        Vec::new()
    };
    let ends_nl = body.len() > 0 && body[body.len() - 1] == '\n';
    let ghost pre = out@;
    assert(pre == (if content@.len() > 0 && content@[0] == bom() {
        seq![bom()]
    } else {
        seq![]
    }));
    assert(nl@ == newline_of(body@));
    assert(ends_nl == (body@.len() > 0 && body@.last() == '\n'));
    let mut end: Option<usize> = None;
    if ls.len() > 0 {
        assert(vs[0] == ls@[0]@);
        let first = trim_chars(&ls[0]);
        if is_dashes(&first) {
            let mut i: usize = 1;
            while i < ls.len() && end.is_none()
                invariant
                    1 <= i <= ls.len(),
                    vs == views(ls@),
                    end is None ==> first_delim_from(vs, i as int) == first_delim_from(vs, 1),
                    end matches Some(e) ==> first_delim_from(vs, 1) == e && 1 <= e < ls.len(),
                decreases ls.len() - i,
            {
                assert(vs[i as int] == ls@[i as int]@);
                let t = trim_chars(&ls[i]);
                if is_dashes(&t) {
                    end = Some(i);
                }
                i += 1;
            }
            assert(end is None ==> first_delim_from(vs, 1) == -1);
            assert(end matches Some(e) ==> first_delim_from(vs, 1) == e);
        }
    }
    match end {
        Some(e) => {
            assert(has_closed_frontmatter(vs));
            let mut idx: Option<usize> = None;
            let mut i: usize = 1;
            while i < e && idx.is_none()
                invariant
                    1 <= i <= e < ls.len(),
                    vs == views(ls@),
                    idx is None ==> first_uuid_line(vs, i as int, e as int) == first_uuid_line(
                        vs,
                        1,
                        e as int,
                    ),
                    idx matches Some(j) ==> first_uuid_line(vs, 1, e as int) == j && 1 <= j < e,
                decreases e - i,
            {
                assert(vs[i as int] == ls@[i as int]@);
                if is_uuid_line_chars(&ls[i]) {
                    idx = Some(i);
                }
                i += 1;
            }
            assert(idx is None ==> first_uuid_line(vs, 1, e as int) == -1);
            assert(idx matches Some(j) ==> first_uuid_line(vs, 1, e as int) == j);
            let mut new_lines = ls.clone();
            match idx {
                Some(j) => {
                    new_lines.set(j, line_text);
                },
                None => {
                    new_lines.insert(e, line_text);
                },
            }
            assert(views(new_lines@) =~= lines_with_uuid(vs, uuid@));
            let joined = join_chars(&new_lines, &nl);
            append_chars(&mut out, &joined);
            if ends_nl {
                append_chars(&mut out, &nl);
            }
            assert(out@ =~= pre + join(lines_with_uuid(vs, uuid@), nl@) + (if ends_nl {
                nl@
            } else {
                seq![]
            }));
            out
        },
        None => {
            assert(!has_closed_frontmatter(vs));
            let d = vec!['-', '-', '-'];
            append_chars(&mut out, &d);
            append_chars(&mut out, &nl);
            append_chars(&mut out, &line_text);
            append_chars(&mut out, &nl);
            append_chars(&mut out, &d);
            append_chars(&mut out, &nl);
            append_chars(&mut out, &body);
            out
        },
    }
}

/// `content` rewritten so that its frontmatter records `uuid`: the first
/// top-level `uuid` line is replaced, or a `uuid` line is added before the
/// closing `---`, or a frontmatter holding only the UUID is put in front of a
/// document that has none.  The byte order mark, the line ending style and
/// the final line ending are kept.
pub fn replace_or_insert_uuid(content: &str, uuid: &str) -> (r: String)
    ensures
        r@ == with_uuid(content@, uuid@),
{
    let c = chars_of(content);
    let u = chars_of(uuid);
    string_of(&replace_or_insert_uuid_chars(&c, &u))
}


/// A text that neither starts nor ends with whitespace is its own trim.
pub proof fn lemma_trim_unpadded(l: Seq<char>)
    requires
        l.len() > 0,
        !is_ws(l[0]),
        !is_ws(l.last()),
    ensures
        trim(l) == l,
{
    assert(first_non_ws(l, 0) == 0);
    assert(l.subrange(0, l.len() as int) =~= l);
    assert(end_non_ws(l, l.len() as int) == l.len());
}

/// One leading space and no other padding: trim removes just the space.
pub proof fn lemma_trim_one_space(u: Seq<char>)
    requires
        u.len() > 0,
        !is_ws(u[0]),
        !is_ws(u.last()),
    ensures
        trim(seq![' '] + u) == u,
{
    let s = seq![' '] + u;
    assert(is_ws(s[0]));
    assert(s[1] == u[0]);
    assert(first_non_ws(s, 1) == 1);
    assert(first_non_ws(s, 0) == 1);
    assert(s.subrange(1, s.len() as int) =~= u);
    lemma_trim_unpadded(u);
}

/// Facts about the line `uuid: <u>` for a UUID in canonical shape.
pub proof fn lemma_uuid_line(u: Seq<char>)
    requires
        is_canonical_uuid_shape(u),
    ensures
        trim(uuid_line(u)) == uuid_line(u),
        line_key(uuid_line(u)) == Some(uuid_key()),
        line_value(uuid_line(u)) == seq![' '] + u,
        unquote(seq![' '] + u) == u,
        !is_indented(uuid_line(u)),
        is_uuid_line(uuid_line(u)),
        no_lf(uuid_line(u)),
        !ends_cr(uuid_line(u)),
        trim(uuid_line(u)) != dashes(),
        uuid_line(u)[0] == 'u',
{
    let l = uuid_line(u);
    assert(u[0] == u[0]);
    assert(is_lower_hex(u[0]));
    assert(is_lower_hex(u[35]));
    assert(u.last() == u[35]);
    assert(l.last() == u.last());
    lemma_trim_unpadded(l);
    lemma_trim_one_space(u);
    assert(l[4] == ':');
    assert forall|k: int| 0 <= k < 4 implies #[trigger] l[k] != ':' by {}
    lemma_index_from_unique(l, ':', 0, 4);
    assert(l.subrange(0, 4) =~= uuid_key());
    lemma_trim_unpadded(uuid_key());
    assert(l.subrange(5, l.len() as int) =~= seq![' '] + u);
    assert forall|k: int| 0 <= k < l.len() implies #[trigger] l[k] != '\n' by {
        if k >= 6 {
            assert(l[k] == u[k - 6]);
            assert(is_lower_hex(u[k - 6]) || u[k - 6] == '-');
        }
    }
    assert(u[0] != '"' && u[0] != '\'');
    assert(l.len() != 3);
}

pub proof fn lemma_first_delim(ls: Seq<Seq<char>>, i: int)
    requires
        0 <= i,
    ensures
        first_delim_from(ls, i) == -1 || (i <= first_delim_from(ls, i) < ls.len() && trim(
            ls[first_delim_from(ls, i)],
        ) == dashes()),
        forall|k: int|
            i <= k < ls.len() && (first_delim_from(ls, i) == -1 || k < first_delim_from(ls, i))
                ==> trim(#[trigger] ls[k]) != dashes(),
    decreases ls.len() - i,
{
    if i < ls.len() && trim(ls[i]) != dashes() {
        lemma_first_delim(ls, i + 1);
    }
}

pub proof fn lemma_first_uuid_line(ls: Seq<Seq<char>>, i: int, end: int)
    requires
        0 <= i,
        end <= ls.len(),
    ensures
        first_uuid_line(ls, i, end) == -1 || (i <= first_uuid_line(ls, i, end) < end
            && is_uuid_line(ls[first_uuid_line(ls, i, end)])),
        forall|k: int|
            i <= k < end && (first_uuid_line(ls, i, end) == -1 || k < first_uuid_line(ls, i, end))
                ==> !is_uuid_line(#[trigger] ls[k]),
    decreases end - i,
{
    if i < end && !is_uuid_line(ls[i]) {
        lemma_first_uuid_line(ls, i + 1, end);
    }
}

/// Scanning for the `uuid` field passes over lines that are neither the
/// closing `---` nor `uuid` lines.
pub proof fn lemma_uuid_field_walk(ls: Seq<Seq<char>>, lo: int, target: int)
    requires
        0 <= lo <= target <= ls.len(),
        forall|k: int|
            lo <= k < target ==> trim(#[trigger] ls[k]) != dashes() && !is_uuid_line(ls[k]),
    ensures
        field_value(ls, uuid_key(), lo) == field_value(ls, uuid_key(), target),
    decreases target - lo,
{
    if lo < target {
        assert(trim(ls[lo]) != dashes() && !is_uuid_line(ls[lo]));
        lemma_uuid_field_walk(ls, lo + 1, target);
    }
}

/// A line whose trim is `---` does not start with a byte order mark.
pub proof fn lemma_dashes_line_not_bom(l: Seq<char>)
    requires
        trim(l) == dashes(),
    ensures
        l.len() > 0,
        l[0] != bom(),
{
    lemma_first_non_ws_bounds(l, 0);
    let f = first_non_ws(l, 0);
    let t = l.subrange(f, l.len() as int);
    lemma_end_non_ws_bounds(t, t.len() as int);
    let e = end_non_ws(t, t.len() as int);
    assert(trim(l) == t.subrange(0, e));
    assert(dashes().len() == 3);
    assert(t.subrange(0, e).len() == e);
    assert(e == 3);
    assert(l.len() >= 3);
    if l[0] == bom() {
        assert(!is_ws(l[0]));
        assert(f == 0);
        assert(t[0] == l[0]);
        assert(trim(l)[0] == t[0]);
    }
}

/// The rewrite of a document with a closed frontmatter: its lines are the old
/// lines with the `uuid` line set, and the `uuid` field reads `u`.
pub proof fn lemma_written_uuid_closed(content: Seq<char>, u: Seq<char>)
    requires
        is_canonical_uuid_shape(u),
        has_closed_frontmatter(lines(strip_bom(content))),
    ensures
        lines(strip_bom(with_uuid(content, u))) == lines_with_uuid(lines(strip_bom(content)), u),
        frontmatter_field(with_uuid(content, u), uuid_key()) == Some(seq![' '] + u),
{
    lemma_uuid_line(u);
    let body = strip_bom(content);
    let has_bom = content.len() > 0 && content[0] == bom();
    let prefix = if has_bom {
        seq![bom()]
    } else {
        seq![]
    };
    let nl = newline_of(body);
    let ls = lines(body);
    let tail = if body.len() > 0 && body.last() == '\n' {
        nl
    } else {
        seq![]
    };
    let l = uuid_line(u);
    let w = with_uuid(content, u);
    assert(is_line_ending(nl));
    let end = first_delim_from(ls, 1);
    lemma_first_delim(ls, 1);
    let idx = first_uuid_line(ls, 1, end);
    lemma_first_uuid_line(ls, 1, end);
    let out = lines_with_uuid(ls, u);
    lemma_lines_shape(body);
    let target = if idx >= 0 {
        idx
    } else {
        end
    };
    if idx >= 0 {
        assert(out == ls.update(idx, l));
    } else {
        assert(out == ls.insert(end, l));
    }
    assert(out[target] == l);
    assert(out.last() == ls.last());
    assert forall|j: int| 0 <= j < out.len() implies no_lf(#[trigger] out[j]) by {
        if j == target {
        } else if j < target || idx >= 0 {
            assert(out[j] == ls[j]);
        } else {
            assert(out[j] == ls[j - 1]);
        }
    }
    if nl == seq!['\n'] {
        assert(!contains_text(body, seq!['\r', '\n']));
        assert forall|j: int| 0 <= j < out.len() - 1 implies !ends_cr(#[trigger] out[j]) by {
            if j == target {
            } else if j < target || idx >= 0 {
                assert(out[j] == ls[j]);
            } else {
                assert(out[j] == ls[j - 1]);
            }
        }
    }
    lemma_lines_join(out, nl, tail);
    let x = join(out, nl) + tail;
    assert(w == prefix + x);
    assert(out[0] == ls[0]);
    lemma_dashes_line_not_bom(ls[0]);
    if has_bom {
        assert(strip_bom(w) =~= x);
    } else {
        assert(out.len() > 1);
        assert(join(out, nl) == out[0] + nl + join(out.drop_first(), nl));
        assert(x[0] == out[0][0]);
        assert(w =~= x);
    }
    assert(lines(strip_bom(w)) == out);
    assert forall|k: int| 1 <= k < target implies trim(#[trigger] out[k]) != dashes()
        && !is_uuid_line(out[k]) by {
        assert(out[k] == ls[k]);
    }
    lemma_uuid_field_walk(out, 1, target);
    assert(field_value(out, uuid_key(), target) == Some(seq![' '] + u));
}

/// The rewrite of a document without a closed frontmatter: a new frontmatter
/// holding only the UUID is put in front.
#[verifier::rlimit(40)]
proof fn lemma_written_uuid_open(content: Seq<char>, u: Seq<char>)
    requires
        is_canonical_uuid_shape(u),
        !has_closed_frontmatter(lines(strip_bom(content))),
    ensures
        frontmatter_field(with_uuid(content, u), uuid_key()) == Some(seq![' '] + u),
{
    lemma_uuid_line(u);
    let body = strip_bom(content);
    let has_bom = content.len() > 0 && content[0] == bom();
    let prefix = if has_bom {
        seq![bom()]
    } else {
        seq![]
    };
    let nl = newline_of(body);
    let l = uuid_line(u);
    let w = with_uuid(content, u);
    assert(is_line_ending(nl));
    let x = dashes() + nl + l + nl + dashes() + nl + body;
    let r1 = dashes() + nl + body;
    let r2 = l + nl + r1;
    let x2 = dashes() + nl + r2;
    assert(x =~= x2);
    assert(w == prefix + x);
    assert(x[0] == '-');
    if has_bom {
        assert(strip_bom(w) =~= x);
    } else {
        assert(w =~= x);
    }
    assert forall|k: int| 0 <= k < dashes().len() implies #[trigger] dashes()[k] != '\n' by {}
    lemma_lines_cons(l, nl, r1);
    lemma_lines_cons(dashes(), nl, r2);
    let ls2 = lines(x);
    assert(ls2 == seq![dashes()] + (seq![l] + lines(r1)));
    assert(ls2[0] == dashes());
    assert(ls2[1] == l);
    lemma_trim_unpadded(dashes());
    assert(field_value(ls2, uuid_key(), 1) == Some(seq![' '] + u));
}

/// Reading the UUID of a document just rewritten to record the canonical
/// UUID `u` gives `u` back, whatever the document held before.
pub proof fn law_written_uuid_is_read(content: Seq<char>, u: Seq<char>)
    requires
        is_canonical_uuid_shape(u),
        uuid_canonical(u) == Some(u),
    ensures
        skill_uuid_of(with_uuid(content, u)) == Some(u),
{
    lemma_uuid_line(u);
    if has_closed_frontmatter(lines(strip_bom(content))) {
        lemma_written_uuid_closed(content, u);
    } else {
        lemma_written_uuid_open(content, u);
    }
}


pub open spec fn invalid_uuid_message() -> Seq<char> {
    "Invalid skill UUID"@
}

/// The content step of writing a UUID into a `SKILL.md`: the UUID is
/// normalized first; the document is rewritten to record it.  Reading the
/// rewritten document gives the UUID back.
pub fn write_uuid_into_content(content: &str, uuid: &str) -> (r: Result<(String, String), String>)
    ensures
        match r {
            Ok((u, new_content)) => {
                &&& normalized_uuid(uuid@) == Some(u@)
                &&& new_content@ == with_uuid(content@, u@)
                &&& skill_uuid_of(new_content@) == Some(u@)
            },
            Err(e) => normalized_uuid(uuid@) is None && e@ == invalid_uuid_message(),
        },
{
    match normalize_skill_uuid(uuid) {
        Some(u) => {
            let updated = replace_or_insert_uuid(content, u.as_str());
            proof {
                law_written_uuid_is_read(content@, u@);
            }
            Ok((u, updated))
        },
        None => Err(String::from_str("Invalid skill UUID")),
    }
}

/// The view of an optional text.
pub open spec fn opt_view(o: Option<&str>) -> Option<Seq<char>> {
    match o {
        Some(p) => Some(p@),
        None => None,
    }
}

/// The UUID `ensure_uuid_in_content` settles on when the document has none:
/// the preferred UUID when it is valid, the fresh one otherwise.
pub open spec fn chosen_uuid(preferred: Option<Seq<char>>, fresh: Seq<char>) -> Seq<char> {
    match preferred {
        Some(p) => match normalized_uuid(p) {
            Some(u) => u,
            None => fresh,
        },
        None => fresh,
    }
}

/// The content step of giving a skill an identity: a document that already
/// records a UUID keeps it and needs no write; otherwise the preferred UUID
/// (if valid) or the fresh one is written into it.  Either way the returned
/// UUID is what the document (as written) records.
pub fn ensure_uuid_in_content(content: &str, preferred: Option<&str>, fresh: &str) -> (r: Result<
    (String, Option<String>),
    String,
>)
    ensures
        match skill_uuid_of(content@) {
            Some(existing) => r matches Ok((u, None)) && u@ == existing,
            None => match r {
                Ok((u, Some(new_content))) => {
                    &&& normalized_uuid(chosen_uuid(opt_view(preferred), fresh@)) == Some(
                        u@,
                    )
                    &&& new_content@ == with_uuid(content@, u@)
                    &&& skill_uuid_of(new_content@) == Some(u@)
                },
                Ok((_, None)) => false,
                Err(e) => normalized_uuid(chosen_uuid(opt_view(preferred), fresh@)) is None
                    && e@ == invalid_uuid_message(),
            },
        },
{
    let c = chars_of(content);
    match skill_uuid_chars(&c) {
        Some(existing) => {
            return Ok((string_of(&existing), None));
        },
        None => {},
    }
    let chosen: String = match preferred {
        Some(p) => match normalize_skill_uuid(p) {
            Some(u) => u,
            None => String::from_str(fresh),
        },
        None => String::from_str(fresh),
    };
    assert(chosen@ == chosen_uuid(opt_view(preferred), fresh@));
    match write_uuid_into_content(content, chosen.as_str()) {
        Ok((u, updated)) => Ok((u, Some(updated))),
        Err(e) => Err(e),
    }
}

/// Whether `value` denotes a UUID.
pub fn is_valid_skill_uuid(value: &str) -> (r: bool)
    ensures
        r == normalized_uuid(value@) is Some,
{
    normalize_skill_uuid(value).is_some()
}

/// Whether `value` is already a UUID in the normalized form that
/// `normalize_skill_uuid` gives.
pub fn is_normalized_uuid(value: &str) -> (r: bool)
    ensures
        r == (normalized_uuid(value@) == Some(value@)),
        r ==> is_canonical_uuid_shape(value@),
{
    match normalize_skill_uuid(value) {
        Some(u) => u == String::from_str(value),
        None => false,
    }
}

/// Whether `id` is exactly the canonical text of a UUID (what `Uuid::parse_str`
/// followed by `to_string` gives back unchanged).
pub fn is_canonical_uuid(id: &str) -> (r: bool)
    ensures
        r == (uuid_canonical(id@) == Some(id@)),
{
    match uuid_parse_canonical(id) {
        Some(u) => u == String::from_str(id),
        None => false,
    }
}

} // verus!
