//! What a discovered `SKILL.md` is: which tool it belongs to, judging by its
//! directory, and how far it follows the Agent Skills format.
use crate::document::{
    doc_fields, doc_has_frontmatter, is_standard_name, is_standard_name_chars,
    parse_skill_document, DocFields,
};
use crate::text::{
    ascii_lower_char, chars_contains, chars_eq, chars_of, char_to_ascii_lower, contains_text,
    trim, trim_chars,
};
use crate::packages::string_views;
use crate::types::DiscoveredSkill;
use vstd::prelude::*;

verus! {

/// A directory path with `\` turned into `/` and ASCII letters lowered.
pub open spec fn normalize_dir(s: Seq<char>) -> Seq<char> {
    s.map_values(|c: char| ascii_lower_char(if c == '\\' { '/' } else { c }))
}

/// The tool a skill directory belongs to: the first known tool directory that
/// occurs in the normalized path.
pub open spec fn provider_label(norm: Seq<char>) -> Seq<char> {
    if contains_text(norm, "/.codex/"@) {
        "Codex"@
    } else if contains_text(norm, "/.cursor/"@) {
        "Cursor"@
    } else if contains_text(norm, "/.gemini/"@) {
        "Gemini / Antigravity"@
    } else if contains_text(norm, "/.github/skills/"@) {
        "VS Code / GitHub Copilot"@
    } else if contains_text(norm, "/.windsurf/"@) {
        "Windsurf"@
    } else if contains_text(norm, "/.qoder/"@) {
        "Qoder"@
    } else if contains_text(norm, "/.trae/"@) {
        "Trae"@
    } else if contains_text(norm, "/.kiro/"@) {
        "Kiro"@
    } else if contains_text(norm, "/.codebuddy/"@) {
        "CodeBuddy"@
    } else if contains_text(norm, "/.openclaw/"@) {
        "OpenClaw"@
    } else if contains_text(norm, "/.opencode/"@) || contains_text(norm, "/.config/opencode/"@) {
        "OpenCode"@
    } else if contains_text(norm, "/.agents/skills/"@) {
        "Agent Skills"@
    } else {
        "Generic SKILL.md"@
    }
}

/// Each tool directory in a skill's path names its tool: the label is that
/// of the first of the tool markers (in the table's order) that occurs in
/// the path, lower-cased with `\\` read as `/`; a path holding any marker
/// never gets the generic label, and one holding none always does.
pub proof fn law_provider_markers_name_their_tool(dir: Seq<char>)
    ensures
        ({
            let n = normalize_dir(dir);
            let seen = |m: Seq<char>| contains_text(n, m);
            let label = provider_label(n);
            &&& seen("/.codex/"@) ==> label == "Codex"@
            &&& !seen("/.codex/"@) && seen("/.cursor/"@) ==> label == "Cursor"@
            &&& !seen("/.codex/"@) && !seen("/.cursor/"@) && seen("/.gemini/"@) ==> label == "Gemini / Antigravity"@
            &&& !seen("/.codex/"@) && !seen("/.cursor/"@) && !seen("/.gemini/"@) && seen("/.github/skills/"@) ==> label == "VS Code / GitHub Copilot"@
            &&& !seen("/.codex/"@) && !seen("/.cursor/"@) && !seen("/.gemini/"@) && !seen("/.github/skills/"@) && seen("/.windsurf/"@) ==> label == "Windsurf"@
            &&& !seen("/.codex/"@) && !seen("/.cursor/"@) && !seen("/.gemini/"@) && !seen("/.github/skills/"@) && !seen("/.windsurf/"@) && seen("/.qoder/"@) ==> label == "Qoder"@
            &&& !seen("/.codex/"@) && !seen("/.cursor/"@) && !seen("/.gemini/"@) && !seen("/.github/skills/"@) && !seen("/.windsurf/"@) && !seen("/.qoder/"@) && seen("/.trae/"@) ==> label == "Trae"@
            &&& !seen("/.codex/"@) && !seen("/.cursor/"@) && !seen("/.gemini/"@) && !seen("/.github/skills/"@) && !seen("/.windsurf/"@) && !seen("/.qoder/"@) && !seen("/.trae/"@) && seen("/.kiro/"@) ==> label == "Kiro"@
            &&& !seen("/.codex/"@) && !seen("/.cursor/"@) && !seen("/.gemini/"@) && !seen("/.github/skills/"@) && !seen("/.windsurf/"@) && !seen("/.qoder/"@) && !seen("/.trae/"@) && !seen("/.kiro/"@) && seen("/.codebuddy/"@) ==> label == "CodeBuddy"@
            &&& !seen("/.codex/"@) && !seen("/.cursor/"@) && !seen("/.gemini/"@) && !seen("/.github/skills/"@) && !seen("/.windsurf/"@) && !seen("/.qoder/"@) && !seen("/.trae/"@) && !seen("/.kiro/"@) && !seen("/.codebuddy/"@) && seen("/.openclaw/"@) ==> label == "OpenClaw"@
            &&& !seen("/.codex/"@) && !seen("/.cursor/"@) && !seen("/.gemini/"@) && !seen("/.github/skills/"@) && !seen("/.windsurf/"@) && !seen("/.qoder/"@) && !seen("/.trae/"@) && !seen("/.kiro/"@) && !seen("/.codebuddy/"@) && !seen("/.openclaw/"@) && seen("/.opencode/"@) ==> label == "OpenCode"@
            &&& !seen("/.codex/"@) && !seen("/.cursor/"@) && !seen("/.gemini/"@) && !seen("/.github/skills/"@) && !seen("/.windsurf/"@) && !seen("/.qoder/"@) && !seen("/.trae/"@) && !seen("/.kiro/"@) && !seen("/.codebuddy/"@) && !seen("/.openclaw/"@) && seen("/.config/opencode/"@) ==> label == "OpenCode"@
            &&& !seen("/.codex/"@) && !seen("/.cursor/"@) && !seen("/.gemini/"@) && !seen("/.github/skills/"@) && !seen("/.windsurf/"@) && !seen("/.qoder/"@) && !seen("/.trae/"@) && !seen("/.kiro/"@) && !seen("/.codebuddy/"@) && !seen("/.openclaw/"@) && !seen("/.opencode/"@) && !seen("/.config/opencode/"@) && seen("/.agents/skills/"@) ==> label == "Agent Skills"@
            &&& (seen("/.codex/"@) || seen("/.cursor/"@) || seen("/.gemini/"@) || seen("/.github/skills/"@) || seen("/.windsurf/"@) || seen("/.qoder/"@) || seen("/.trae/"@) || seen("/.kiro/"@) || seen("/.codebuddy/"@) || seen("/.openclaw/"@) || seen("/.opencode/"@) || seen("/.config/opencode/"@) || seen("/.agents/skills/"@)) ==> label != "Generic SKILL.md"@
            &&& !(seen("/.codex/"@) || seen("/.cursor/"@) || seen("/.gemini/"@) || seen("/.github/skills/"@) || seen("/.windsurf/"@) || seen("/.qoder/"@) || seen("/.trae/"@) || seen("/.kiro/"@) || seen("/.codebuddy/"@) || seen("/.openclaw/"@) || seen("/.opencode/"@) || seen("/.config/opencode/"@) || seen("/.agents/skills/"@)) ==> label == "Generic SKILL.md"@
        }),
{
    reveal_strlit("Agent Skills");
    reveal_strlit("CodeBuddy");
    reveal_strlit("Codex");
    reveal_strlit("Cursor");
    reveal_strlit("Gemini / Antigravity");
    reveal_strlit("Kiro");
    reveal_strlit("OpenClaw");
    reveal_strlit("OpenCode");
    reveal_strlit("Qoder");
    reveal_strlit("Trae");
    reveal_strlit("VS Code / GitHub Copilot");
    reveal_strlit("Windsurf");
    reveal_strlit("Generic SKILL.md");
    assert("Agent Skills"@.len() != "Generic SKILL.md"@.len());
    assert("CodeBuddy"@.len() != "Generic SKILL.md"@.len());
    assert("Codex"@.len() != "Generic SKILL.md"@.len());
    assert("Cursor"@.len() != "Generic SKILL.md"@.len());
    assert("Gemini / Antigravity"@.len() != "Generic SKILL.md"@.len());
    assert("Kiro"@.len() != "Generic SKILL.md"@.len());
    assert("OpenClaw"@.len() != "Generic SKILL.md"@.len());
    assert("OpenCode"@.len() != "Generic SKILL.md"@.len());
    assert("Qoder"@.len() != "Generic SKILL.md"@.len());
    assert("Trae"@.len() != "Generic SKILL.md"@.len());
    assert("VS Code / GitHub Copilot"@.len() != "Generic SKILL.md"@.len());
    assert("Windsurf"@.len() != "Generic SKILL.md"@.len());
}

fn contains_str(hay: &Vec<char>, pattern: &str) -> (r: bool)
    ensures
        r == contains_text(hay@, pattern@),
{
    let p = chars_of(pattern);
    chars_contains(hay, &p)
}

fn normalize_dir_chars(dir: &str) -> (r: Vec<char>)
    ensures
        r@ == normalize_dir(dir@),
{
    let v = chars_of(dir);
    let mut out: Vec<char> = Vec::new();
    let mut i: usize = 0;
    while i < v.len()
        invariant
            i <= v.len(),
            out@ == normalize_dir(v@.subrange(0, i as int)),
        decreases v.len() - i,
    {
        let c = v[i];
        let d = if c == '\\' {
            '/'
        } else {
            c
        };
        out.push(char_to_ascii_lower(d));
        assert(v@.subrange(0, i + 1) == v@.subrange(0, i as int).push(c));
        i += 1;
    }
    assert(v@.subrange(0, v.len() as int) == v@);
    out
}

/// The tool that a skill directory belongs to (`Generic SKILL.md` when the
/// path names none of the known tool directories).
pub fn detect_skill_provider(skill_dir: &str) -> (r: String)
    ensures
        r@ == provider_label(normalize_dir(skill_dir@)),
{
    let n = normalize_dir_chars(skill_dir);
    let label = if contains_str(&n, "/.codex/") {
        "Codex"
    } else if contains_str(&n, "/.cursor/") {
        "Cursor"
    } else if contains_str(&n, "/.gemini/") {
        "Gemini / Antigravity"
    } else if contains_str(&n, "/.github/skills/") {
        "VS Code / GitHub Copilot"
    } else if contains_str(&n, "/.windsurf/") {
        "Windsurf"
    } else if contains_str(&n, "/.qoder/") {
        "Qoder"
    } else if contains_str(&n, "/.trae/") {
        "Trae"
    } else if contains_str(&n, "/.kiro/") {
        "Kiro"
    } else if contains_str(&n, "/.codebuddy/") {
        "CodeBuddy"
    } else if contains_str(&n, "/.openclaw/") {
        "OpenClaw"
    } else if contains_str(&n, "/.opencode/") || contains_str(&n, "/.config/opencode/") {
        "OpenCode"
    } else if contains_str(&n, "/.agents/skills/") {
        "Agent Skills"
    } else {
        "Generic SKILL.md"
    };
    String::from_str(label)
}

/// The issues of the name field against the directory it lives in.
pub open spec fn name_issues(name: Option<Seq<char>>, dir_name: Seq<char>) -> Seq<Seq<char>> {
    match name {
        Some(n) if trim(n).len() > 0 => {
            (if is_standard_name(trim(n)) {
                seq![]
            } else {
                seq!["invalid_name"@]
            }) + (if dir_name == trim(n) {
                seq![]
            } else {
                seq!["directory_name_mismatch"@]
            })
        },
        _ => seq!["missing_name"@],
    }
}

/// The issues of the description field: missing, blank, or over 1024
/// characters once trimmed.
pub open spec fn description_issues(description: Option<Seq<char>>) -> Seq<Seq<char>> {
    match description {
        Some(d) if trim(d).len() > 0 => {
            if trim(d).len() > 1024 {
                seq!["description_too_long"@]
            } else {
                seq![]
            }
        },
        _ => seq!["missing_description"@],
    }
}

/// Everything in which a document falls short of the Agent Skills format,
/// in the order the checks are made.
pub open spec fn discovered_issues(fields: DocFields, has_frontmatter: bool, dir_name: Seq<
    char,
>) -> Seq<Seq<char>> {
    (if has_frontmatter {
        seq![]
    } else {
        seq!["missing_frontmatter"@]
    }) + name_issues(fields.name, dir_name) + description_issues(fields.description)
}

/// The displayed name: the frontmatter name when it is not blank, else the
/// directory's name.
pub open spec fn display_name(name: Option<Seq<char>>, dir_name: Seq<char>) -> Seq<char> {
    match name {
        Some(n) if trim(n).len() > 0 => n,
        _ => dir_name,
    }
}

fn push_issue(issues: &mut Vec<String>, issue: &str)
    ensures
        string_views(final(issues)@) == string_views(old(issues)@).push(issue@),
{
    issues.push(String::from_str(issue));
    assert(string_views(issues@) =~= string_views(old(issues)@).push(issue@));
}

/// Describes the `SKILL.md` found in `skill_dir` (whose last component is
/// `directory_name`) with content `content`: its identity, name, tool and
/// the ways in which it departs from the Agent Skills format.
pub fn describe_discovered_skill(
    directory_name: &str,
    skill_dir: &str,
    skill_md_path: &str,
    content: &str,
) -> (r: DiscoveredSkill)
    ensures
        r.id@ == (match doc_fields(content@).uuid {
            Some(u) => u,
            None => skill_dir@,
        }),
        crate::document::opt_string_view(r.uuid) == doc_fields(content@).uuid,
        r.name@ == display_name(doc_fields(content@).name, directory_name@),
        r.description@ == (match doc_fields(content@).description {
            Some(d) => d,
            None => Seq::<char>::empty(),
        }),
        r.path@ == skill_dir@,
        r.skill_md_path@ == skill_md_path@,
        r.provider@ == provider_label(normalize_dir(skill_dir@)),
        string_views(r.issues@) == discovered_issues(
            doc_fields(content@),
            doc_has_frontmatter(content@),
            directory_name@,
        ),
        r.is_standard == (r.issues@.len() == 0),
        !r.is_duplicate,
{
    let meta = parse_skill_document(content);
    let dir_chars = chars_of(directory_name);
    let mut issues: Vec<String> = Vec::new();
    if !meta.has_frontmatter {
        push_issue(&mut issues, "missing_frontmatter");
    }
    let ghost after_frontmatter = string_views(issues@);
    let name = match &meta.name {
        Some(n) => {
            let t = trim_chars(&chars_of(n.as_str()));
            if t.len() == 0 {
                push_issue(&mut issues, "missing_name");
                String::from_str(directory_name)
            } else {
                if !is_standard_name_chars(&t) {
                    push_issue(&mut issues, "invalid_name");
                }
                if !chars_eq(&dir_chars, &t) {
                    push_issue(&mut issues, "directory_name_mismatch");
                }
                n.clone()
            }
        },
        None => {
            push_issue(&mut issues, "missing_name");
            String::from_str(directory_name)
        },
    };
    assert(string_views(issues@) =~= after_frontmatter + name_issues(
        doc_fields(content@).name,
        directory_name@,
    ));
    let ghost after_name = string_views(issues@);
    let description = match &meta.description {
        Some(d) => {
            let t = trim_chars(&chars_of(d.as_str()));
            if t.len() == 0 {
                push_issue(&mut issues, "missing_description");
            } else if t.len() > 1024 {
                push_issue(&mut issues, "description_too_long");
            }
            d.clone()
        },
        None => {
            push_issue(&mut issues, "missing_description");
            String::new()
        },
    };
    assert(string_views(issues@) =~= after_name + description_issues(
        doc_fields(content@).description,
    ));
    let id = match &meta.uuid {
        Some(u) => u.clone(),
        None => String::from_str(skill_dir),
    };
    let is_standard = issues.len() == 0;
    DiscoveredSkill {
        id,
        uuid: meta.uuid,
        name,
        description,
        path: String::from_str(skill_dir),
        skill_md_path: String::from_str(skill_md_path),
        provider: detect_skill_provider(skill_dir),
        is_standard,
        is_duplicate: false,
        issues,
    }
}

/// A skill's name and description for listings, from its `SKILL.md`
/// (`content`, where the file exists): the displayed name, and the
/// description or nothing; without a `SKILL.md`, the directory's name.
pub fn skill_metadata(directory_name: &str, content: Option<&str>) -> (r: (String, String))
    ensures
        match content {
            None => r.0@ == directory_name@ && r.1@ == Seq::<char>::empty(),
            Some(c) => r.0@ == display_name(doc_fields(c@).name, directory_name@) && r.1@ == (
            match doc_fields(c@).description {
                Some(d) => d,
                None => Seq::<char>::empty(),
            }),
        },
{
    match content {
        None => (String::from_str(directory_name), String::new()),
        Some(c) => {
            let meta = parse_skill_document(c);
            let name = match meta.name {
                Some(n) => {
                    let t = trim_chars(&chars_of(n.as_str()));
                    if t.len() == 0 {
                        String::from_str(directory_name)
                    } else {
                        n
                    }
                },
                None => String::from_str(directory_name),
            };
            let description = match meta.description {
                Some(d) => d,
                None => String::new(),
            };
            (name, description)
        },
    }
}

} // verus!
