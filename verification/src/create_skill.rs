//! A new skill written from a form: the rules its name, description and
//! body follow, and the `SKILL.md` document made from them.
use crate::document::{is_standard_name, is_standard_name_chars};
use crate::identity::{
    dashes, is_canonical_uuid_shape, is_indented, lemma_trim_one_space, lemma_trim_unpadded,
    lemma_uuid_line, line_key, line_value, name_key, skill_name_of, skill_uuid_of, strip_bom,
    unquote, uuid_canonical, uuid_key, uuid_line,
};
use crate::text::{ends_cr, is_ws, lemma_index_from_unique, lemma_lines_cons, no_lf};
use crate::text::{
    chars_eq, chars_of, concat_texts, join, join_chars, lines, split_lines, string_of, trim,
    trim_chars, views,
};
use vstd::prelude::*;

verus! {

/// A skill to create.
#[derive(Debug)]
pub struct CreateSkillRequest {
    pub name: String,
    pub description: String,
    pub body: String,
}

/// A created skill: its UUID and directory.
#[derive(Debug)]
pub struct CreatedSkill {
    pub uuid: String,
    pub path: String,
}

pub open spec fn invalid_name_message() -> Seq<char> {
    "名称需为 1–64 位小写字母、数字或单连字符，连字符不能位于首尾 / Invalid skill name"@
}

pub open spec fn reserved_name_message() -> Seq<char> {
    "此名称是 Windows 保留名称 / Reserved Windows name"@
}

pub open spec fn invalid_description_message() -> Seq<char> {
    "描述需为 1–1024 个字符 / Invalid description"@
}

pub open spec fn invalid_body_message() -> Seq<char> {
    "正文不能为空，且不能超过 1 MB / Invalid body"@
}

/// The names Windows reserves for devices.
pub open spec fn is_reserved_name(n: Seq<char>) -> bool {
    ||| n == "con"@ ||| n == "prn"@ ||| n == "aux"@ ||| n == "nul"@
    ||| n == "com1"@ ||| n == "com2"@ ||| n == "com3"@ ||| n == "com4"@ ||| n == "com5"@
    ||| n == "com6"@ ||| n == "com7"@ ||| n == "com8"@ ||| n == "com9"@
    ||| n == "lpt1"@ ||| n == "lpt2"@ ||| n == "lpt3"@ ||| n == "lpt4"@ ||| n == "lpt5"@
    ||| n == "lpt6"@ ||| n == "lpt7"@ ||| n == "lpt8"@ ||| n == "lpt9"@
}

/// Why a new skill is refused, in the order of the checks: the trimmed name
/// must follow the Agent Skills naming rule and not be a reserved Windows
/// name; the trimmed description must have 1 to 1024 characters; the body
/// must not be blank and must be at most 1 MB (in UTF-8 bytes).
pub open spec fn create_error(name: Seq<char>, description: Seq<char>, body: Seq<char>) -> Option<Seq<char>> {
    if !is_standard_name(trim(name)) {
        Some(invalid_name_message())
    } else if is_reserved_name(trim(name)) {
        Some(reserved_name_message())
    } else if trim(description).len() == 0 || trim(description).len() > 1024 {
        Some(invalid_description_message())
    } else if trim(body).len() == 0 || crate::translation::byte_len(body) > 1048576 {
        Some(invalid_body_message())
    } else {
        None
    }
}

fn reserved(n: &Vec<char>) -> (r: bool)
    ensures
        r == is_reserved_name(n@),
{
    let names = vec![
        "con", "prn", "aux", "nul", "com1", "com2", "com3", "com4", "com5", "com6", "com7", "com8",
        "com9", "lpt1", "lpt2", "lpt3", "lpt4", "lpt5", "lpt6", "lpt7", "lpt8", "lpt9",
    ];
    let mut k: usize = 0;
    while k < names.len()
        invariant
            k <= names.len(),
            names@ == seq![
                "con", "prn", "aux", "nul", "com1", "com2", "com3", "com4", "com5", "com6", "com7",
                "com8", "com9", "lpt1", "lpt2", "lpt3", "lpt4", "lpt5", "lpt6", "lpt7", "lpt8",
                "lpt9",
            ],
            forall|j: int| 0 <= j < k ==> n@ != (#[trigger] names@[j])@,
        decreases names.len() - k,
    {
        if chars_eq(n, &chars_of(names[k])) {
            return true;
        }
        k += 1;
    }
    assert(!is_reserved_name(n@)) by {
        assert(n@ != names@[0]@);
        assert(n@ != names@[1]@);
        assert(n@ != names@[2]@);
        assert(n@ != names@[3]@);
        assert(n@ != names@[4]@);
        assert(n@ != names@[5]@);
        assert(n@ != names@[6]@);
        assert(n@ != names@[7]@);
        assert(n@ != names@[8]@);
        assert(n@ != names@[9]@);
        assert(n@ != names@[10]@);
        assert(n@ != names@[11]@);
        assert(n@ != names@[12]@);
        assert(n@ != names@[13]@);
        assert(n@ != names@[14]@);
        assert(n@ != names@[15]@);
        assert(n@ != names@[16]@);
        assert(n@ != names@[17]@);
        assert(n@ != names@[18]@);
        assert(n@ != names@[19]@);
        assert(n@ != names@[20]@);
        assert(n@ != names@[21]@);
    }
    false
}

/// Checks a new skill (see `create_error`).
pub fn check_create_request(request: &CreateSkillRequest) -> (r: Result<(), String>)
    ensures
        match r {
            Ok(()) => create_error(request.name@, request.description@, request.body@) is None,
            Err(e) => create_error(request.name@, request.description@, request.body@) == Some(e@),
        },
{
    let name = trim_chars(&chars_of(request.name.as_str()));
    if !is_standard_name_chars(&name) {
        return Err(
            String::from_str(
                "名称需为 1–64 位小写字母、数字或单连字符，连字符不能位于首尾 / Invalid skill name",
            ),
        );
    }
    if reserved(&name) {
        return Err(String::from_str("此名称是 Windows 保留名称 / Reserved Windows name"));
    }
    let description = trim_chars(&chars_of(request.description.as_str()));
    if description.len() == 0 || description.len() > 1024 {
        return Err(String::from_str("描述需为 1–1024 个字符 / Invalid description"));
    }
    let body = trim_chars(&chars_of(request.body.as_str()));
    if body.len() == 0 || request.body.as_str().len() > 1048576 {
        return Err(String::from_str("正文不能为空，且不能超过 1 MB / Invalid body"));
    }
    Ok(())
}

/// The description lines of the document: each line of the trimmed
/// description indented by two spaces.
pub open spec fn indented_lines(description: Seq<char>) -> Seq<Seq<char>> {
    lines(trim(description)).map_values(|l: Seq<char>| "  "@ + l)
}

/// The `SKILL.md` of a new skill: a frontmatter with the trimmed name, the
/// UUID and the description as a `|-` block, then a blank line, the trimmed
/// body and a final line ending.
pub open spec fn skill_document(name: Seq<char>, uuid: Seq<char>, description: Seq<char>, body: Seq<char>) -> Seq<char> {
    "---\nname: "@ + trim(name) + "\nuuid: "@ + uuid + "\ndescription: |-\n"@ + join(
        indented_lines(description),
        "\n"@,
    ) + "\n---\n\n"@ + trim(body) + "\n"@
}

/// Writes the `SKILL.md` of a new skill (see `skill_document`).
pub fn render_skill_document(request: &CreateSkillRequest, uuid: &str) -> (r: String)
    ensures
        r@ == skill_document(request.name@, uuid@, request.description@, request.body@),
{
    let name = string_of(&trim_chars(&chars_of(request.name.as_str())));
    let description = trim_chars(&chars_of(request.description.as_str()));
    let ls = split_lines(&description);
    let ghost lv = views(ls@);
    let mut indented: Vec<Vec<char>> = Vec::new();
    let mut i: usize = 0;
    while i < ls.len()
        invariant
            i <= ls.len(),
            lv == views(ls@),
            views(indented@) == lv.subrange(0, i as int).map_values(|l: Seq<char>| "  "@ + l),
        decreases ls.len() - i,
    {
        let mut line = chars_of("  ");
        crate::text::append_chars(&mut line, &ls[i]);
        proof {
            crate::text::lemma_views_push(indented@, line);
            assert(lv[i as int] == ls@[i as int]@);
            assert(lv.subrange(0, i + 1).map_values(|l: Seq<char>| "  "@ + l) =~= lv.subrange(
                0,
                i as int,
            ).map_values(|l: Seq<char>| "  "@ + l).push("  "@ + lv[i as int]));
        }
        indented.push(line);
        i += 1;
    }
    assert(lv.subrange(0, ls.len() as int) =~= lv);
    let nl = chars_of("\n");
    let block = string_of(&join_chars(&indented, &nl));
    let body = string_of(&trim_chars(&chars_of(request.body.as_str())));
    let parts = vec![
        "---\nname: ",
        name.as_str(),
        "\nuuid: ",
        uuid,
        "\ndescription: |-\n",
        block.as_str(),
        "\n---\n\n",
        body.as_str(),
        "\n",
    ];
    let doc = concat_texts(&parts);
    proof {
        reveal_with_fuel(Seq::fold_left, 10);
        assert(parts@.len() == 9);
    }
    doc
}

/// A new UUID, `Uuid::new_v4` formatted.
///
/// Trusted: the crate formats a UUID as lowercase hyphenated text, which
/// `Uuid::parse_str` reads back as the same UUID, so the text is its own
/// canonical form.  Which UUID comes back is left open (it is random).
#[verifier::external_body]
pub(crate) fn new_uuid() -> (r: String)
    ensures
        is_canonical_uuid_shape(r@),
        crate::identity::uuid_canonical(r@) == Some(r@),
{
    uuid::Uuid::new_v4().to_string()
}

/// The `SKILL.md` of a new skill with a fresh UUID, and that UUID; or why
/// the skill is refused (see `create_error`).
pub fn new_skill_document(request: &CreateSkillRequest) -> (r: Result<(String, String), String>)
    ensures
        match r {
            Ok((document, uuid)) => {
                &&& create_error(request.name@, request.description@, request.body@) is None
                &&& is_canonical_uuid_shape(uuid@)
                &&& document@ == skill_document(request.name@, uuid@, request.description@, request.body@)
            },
            Err(e) => create_error(request.name@, request.description@, request.body@) == Some(e@),
        },
{
    check_create_request(request)?;
    let uuid = new_uuid();
    let document = render_skill_document(request, uuid.as_str());
    Ok((document, uuid))
}

/// The frontmatter line `name: <n>`.
pub open spec fn name_line(n: Seq<char>) -> Seq<char> {
    seq!['n', 'a', 'm', 'e', ':', ' '] + n
}

/// Facts about the line `name: <n>` for a standard name.
proof fn lemma_name_line(n: Seq<char>)
    requires
        is_standard_name(n),
    ensures
        trim(name_line(n)) == name_line(n),
        line_key(name_line(n)) == Some(name_key()),
        line_value(name_line(n)) == seq![' '] + n,
        unquote(seq![' '] + n) == n,
        !is_indented(name_line(n)),
        no_lf(name_line(n)),
        !ends_cr(name_line(n)),
        trim(name_line(n)) != dashes(),
        name_line(n)[0] == 'n',
{
    let l = name_line(n);
    assert(n[0] == n[0]);
    assert(n.last() == n[n.len() - 1]);
    assert(l.last() == n.last());
    assert(!is_ws(n[0]));
    assert(!is_ws(n.last()));
    lemma_trim_unpadded(l);
    lemma_trim_one_space(n);
    assert(l[4] == ':');
    assert forall|k: int| 0 <= k < 4 implies #[trigger] l[k] != ':' by {}
    lemma_index_from_unique(l, ':', 0, 4);
    assert(l.subrange(0, 4) =~= name_key());
    lemma_trim_unpadded(name_key());
    assert(l.subrange(5, l.len() as int) =~= seq![' '] + n);
    assert forall|k: int| 0 <= k < l.len() implies #[trigger] l[k] != '\n' by {
        if k >= 6 {
            assert(l[k] == n[k - 6]);
        }
    }
    assert(n[0] != '"' && n[0] != '\'');
    assert(l.len() != 3);
}

/// A created skill carries the identity and name it was created with: its
/// document records the UUID (when the UUID is in canonical form) and the
/// trimmed name where `SKILL.md` readers look for them.
pub proof fn law_created_skill_identity(name: Seq<char>, uuid: Seq<char>, description: Seq<char>, body: Seq<char>)
    requires
        create_error(name, description, body) is None,
        is_canonical_uuid_shape(uuid),
        uuid_canonical(uuid) == Some(uuid),
    ensures
        skill_uuid_of(skill_document(name, uuid, description, body)) == Some(uuid),
        skill_name_of(skill_document(name, uuid, description, body)) == Some(trim(name)),
{
    reveal_strlit("---\nname: ");
    reveal_strlit("\nuuid: ");
    reveal_strlit("\ndescription: |-\n");
    let n = trim(name);
    let doc = skill_document(name, uuid, description, body);
    let d = "\ndescription: |-\n"@;
    let rest = d.drop_first() + join(indented_lines(description), "\n"@) + "\n---\n\n"@ + trim(body)
        + "\n"@;
    let r2 = uuid_line(uuid) + seq!['\n'] + rest;
    let r1 = name_line(n) + seq!['\n'] + r2;
    assert(d =~= seq!['\n'] + d.drop_first());
    assert(doc =~= dashes() + seq!['\n'] + r1);
    lemma_name_line(n);
    lemma_uuid_line(uuid);
    assert(no_lf(dashes()));
    lemma_lines_cons(dashes(), seq!['\n'], r1);
    lemma_lines_cons(name_line(n), seq!['\n'], r2);
    lemma_lines_cons(uuid_line(uuid), seq!['\n'], rest);
    assert(doc[0] == '-');
    assert(strip_bom(doc) == doc);
    let ls = lines(doc);
    assert(ls =~= seq![dashes()] + (seq![name_line(n)] + (seq![uuid_line(uuid)] + lines(rest))));
    assert(ls[0] == dashes());
    assert(ls[1] == name_line(n));
    assert(ls[2] == uuid_line(uuid));
    lemma_trim_unpadded(dashes());
    assert(name_key() != uuid_key()) by {
        assert(name_key()[0] != uuid_key()[0]);
    }
    assert(crate::identity::field_value(ls, uuid_key(), 2) == Some(seq![' '] + uuid));
    assert(crate::identity::field_value(ls, uuid_key(), 1) == Some(seq![' '] + uuid));
    assert(crate::identity::field_value(ls, name_key(), 1) == Some(seq![' '] + n));
}

} // verus!
