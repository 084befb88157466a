//! Backup of the managed skills to a GitHub repository: the binding rules,
//! which files are never uploaded, the git blob hash of a file, the guard
//! against overwriting a backup that changed remotely, and the decisions
//! around a sync run.
use crate::market::{split_chars, split_on};
use crate::text::{
    chars_eq, chars_of, chars_ends_with, chars_starts_with, char_is_ws, contains_text, ends_with,
    starts_with, string_of, trim, trim_chars, views,
};
use vstd::prelude::*;

verus! {

/// Where and how the backup is made, and what was last uploaded.
#[derive(Debug)]
pub struct SyncConfig {
    pub repository: String,
    pub branch: String,
    pub automatic: bool,
    pub last_tree: String,
    pub last_success: Option<u64>,
}

/// The state of the last or current sync.
#[derive(Debug)]
pub struct SyncStatus {
    pub busy: bool,
    pub message: String,
    pub error: Option<String>,
    pub files: usize,
}

/// The configuration with the sync state.
#[derive(Debug)]
pub struct SyncView {
    pub config: SyncConfig,
    pub status: SyncStatus,
}

/// A request to bind (or, with an empty repository, unbind) a repository.
#[derive(Debug)]
pub struct BindRequest {
    pub repository: String,
    pub branch: String,
    pub automatic: bool,
}

pub open spec fn repository_message() -> Seq<char> {
    "Repository must be owner/repository, for example alice/my-skills"@
}

pub open spec fn branch_message() -> Seq<char> {
    "Invalid branch name"@
}

/// A character allowed in a repository name part.
pub open spec fn is_repo_char(c: char) -> bool {
    crate::text::is_ascii_alnum(c) || c == '-' || c == '_' || c == '.'
}

/// A valid part of `owner/repository`: not empty, not `.` or `..`, not
/// starting with `-`, made of ASCII letters, digits, `-`, `_` and `.`.
pub open spec fn is_repo_part(p: Seq<char>) -> bool {
    &&& p.len() > 0
    &&& p != "."@
    &&& p != ".."@
    &&& p[0] != '-'
    &&& forall|i: int| 0 <= i < p.len() ==> is_repo_char(#[trigger] p[i])
}

/// A valid piece of a branch name between `/`: not empty, not starting or
/// ending with `.`, not ending with `.lock`.
pub open spec fn is_branch_piece(p: Seq<char>) -> bool {
    p.len() > 0 && p[0] != '.' && p.last() != '.' && !ends_with(p, ".lock"@)
}

/// A valid branch name: 1 to 200 characters of ASCII letters, digits, `-`,
/// `_`, `.` and `/`, not starting with `-`, without `..`, every piece valid.
pub open spec fn is_branch_name(b: Seq<char>) -> bool {
    &&& b.len() > 0
    &&& b.len() <= 200
    &&& b[0] != '-'
    &&& !contains_text(b, ".."@)
    &&& forall|k: int| 0 <= k < split_on(b, '/').len() ==> is_branch_piece(#[trigger] split_on(b, '/')[k])
    &&& forall|i: int| 0 <= i < b.len() ==> is_repo_char(#[trigger] b[i]) || b[i] == '/'
}

/// Why a binding is refused: the repository must be `owner/repository`
/// with valid parts, and the branch a valid branch name.
pub open spec fn binding_error(repository: Seq<char>, branch: Seq<char>) -> Option<Seq<char>> {
    let parts = split_on(repository, '/');
    if !(parts.len() == 2 && forall|k: int| 0 <= k < parts.len() ==> is_repo_part(#[trigger] parts[k])) {
        Some(repository_message())
    } else if !is_branch_name(branch) {
        Some(branch_message())
    } else {
        None
    }
}

fn all_chars(v: &Vec<char>, slash: bool) -> (r: bool)
    ensures
        r == forall|i: int| 0 <= i < v@.len() ==> is_repo_char(#[trigger] v@[i]) || (slash && v@[i] == '/'),
{
    let mut i: usize = 0;
    while i < v.len()
        invariant
            i <= v.len(),
            forall|k: int| 0 <= k < i ==> is_repo_char(#[trigger] v@[k]) || (slash && v@[k] == '/'),
        decreases v.len() - i,
    {
        let c = v[i];
        if !(('0' <= c && c <= '9') || ('a' <= c && c <= 'z') || ('A' <= c && c <= 'Z') || c == '-'
            || c == '_' || c == '.' || (slash && c == '/')) {
            return false;
        }
        i += 1;
    }
    true
}

fn repo_part(p: &Vec<char>) -> (r: bool)
    ensures
        r == is_repo_part(p@),
{
    let dot = chars_of(".");
    let dots = chars_of("..");
    p.len() > 0 && !chars_eq(p, &dot) && !chars_eq(p, &dots) && p[0] != '-' && all_chars(p, false)
}

fn branch_piece(p: &Vec<char>) -> (r: bool)
    ensures
        r == is_branch_piece(p@),
{
    let lock = chars_of(".lock");
    p.len() > 0 && p[0] != '.' && p[p.len() - 1] != '.' && !chars_ends_with(p, &lock)
}

/// Checks a repository binding (see `binding_error`).
pub fn validate_binding(repository: &str, branch: &str) -> (r: Result<(), String>)
    ensures
        match r {
            Ok(()) => binding_error(repository@, branch@) is None,
            Err(e) => binding_error(repository@, branch@) == Some(e@),
        },
{
    let parts = split_chars(&chars_of(repository), '/');
    let ghost pv = views(parts@);
    let mut ok = parts.len() == 2;
    let mut k: usize = 0;
    while ok && k < parts.len()
        invariant
            k <= parts.len(),
            pv == views(parts@),
            ok == (parts.len() == 2 && forall|j: int| 0 <= j < k ==> is_repo_part(#[trigger] pv[j])),
        decreases parts.len() - k,
    {
        assert(pv[k as int] == parts@[k as int]@);
        if !repo_part(&parts[k]) {
            ok = false;
        }
        k += 1;
    }
    if !ok {
        return Err(
            String::from_str("Repository must be owner/repository, for example alice/my-skills"),
        );
    }
    let b = chars_of(branch);
    let dots = chars_of("..");
    let mut valid = b.len() > 0 && b.len() <= 200 && b[0] != '-' && !crate::text::chars_contains(
        &b,
        &dots,
    );
    if valid {
        let pieces = split_chars(&b, '/');
        let ghost bv = views(pieces@);
        let mut j: usize = 0;
        while valid && j < pieces.len()
            invariant
                j <= pieces.len(),
                bv == views(pieces@),
                valid == forall|x: int| 0 <= x < j ==> is_branch_piece(#[trigger] bv[x]),
            decreases pieces.len() - j,
        {
            assert(bv[j as int] == pieces@[j as int]@);
            if !branch_piece(&pieces[j]) {
                valid = false;
            }
            j += 1;
        }
        valid = valid && all_chars(&b, true);
    }
    if !valid {
        return Err(String::from_str("Invalid branch name"));
    }
    Ok(())
}

/// `s` without its trailing `c` characters.
pub open spec fn trim_end_char(s: Seq<char>, c: char) -> Seq<char>
    decreases s.len(),
{
    if s.len() > 0 && s.last() == c {
        trim_end_char(s.drop_last(), c)
    } else {
        s
    }
}

/// `s` without the prefix `p`, as often as it occurs (`trim_start_matches`).
pub open spec fn trim_start_text(s: Seq<char>, p: Seq<char>) -> Seq<char>
    decreases s.len(),
{
    if p.len() > 0 && starts_with(s, p) {
        trim_start_text(s.subrange(p.len() as int, s.len() as int), p)
    } else {
        s
    }
}

/// `s` without the suffix `p`, as often as it occurs (`trim_end_matches`).
pub open spec fn trim_end_text(s: Seq<char>, p: Seq<char>) -> Seq<char>
    decreases s.len(),
{
    if p.len() > 0 && ends_with(s, p) {
        trim_end_text(s.subrange(0, s.len() - p.len()), p)
    } else {
        s
    }
}

/// The repository a user typed, reduced to `owner/repository`: trimmed,
/// trailing `/` removed, a `https://github.com/` prefix and `.git` suffix
/// removed (each as often as it repeats).
pub open spec fn repository_input(s: Seq<char>) -> Seq<char> {
    trim_end_text(
        trim_start_text(trim_end_char(trim(s), '/'), "https://github.com/"@),
        ".git"@,
    )
}

fn trim_end_char_chars(v: &Vec<char>, c: char) -> (r: Vec<char>)
    ensures
        r@ == trim_end_char(v@, c),
{
    let mut n = v.len();
    assert(v@.subrange(0, n as int) =~= v@);
    while n > 0 && v[n - 1] == c
        invariant
            n <= v.len(),
            trim_end_char(v@, c) == trim_end_char(v@.subrange(0, n as int), c),
        decreases n,
    {
        assert(v@.subrange(0, n as int).drop_last() =~= v@.subrange(0, n - 1));
        n -= 1;
    }
    crate::text::slice_chars(v, 0, n)
}

fn trim_start_text_chars(v: &Vec<char>, p: &Vec<char>) -> (r: Vec<char>)
    ensures
        r@ == trim_start_text(v@, p@),
{
    let mut cur = v.clone();
    if p.len() == 0 {
        return cur;
    }
    while chars_starts_with(&cur, p)
        invariant
            p@.len() > 0,
            trim_start_text(v@, p@) == trim_start_text(cur@, p@),
        decreases cur@.len(),
    {
        cur = crate::text::slice_chars(&cur, p.len(), cur.len());
    }
    cur
}

fn trim_end_text_chars(v: &Vec<char>, p: &Vec<char>) -> (r: Vec<char>)
    ensures
        r@ == trim_end_text(v@, p@),
{
    let mut cur = v.clone();
    if p.len() == 0 {
        return cur;
    }
    while chars_ends_with(&cur, p)
        invariant
            p@.len() > 0,
            trim_end_text(v@, p@) == trim_end_text(cur@, p@),
        decreases cur@.len(),
    {
        cur = crate::text::slice_chars(&cur, 0, cur.len() - p.len());
    }
    cur
}

/// The repository a user typed, reduced to `owner/repository` (see
/// `repository_input`).
pub fn normalize_repository(input: &str) -> (r: String)
    ensures
        r@ == repository_input(input@),
{
    let t = trim_chars(&chars_of(input));
    let a = trim_end_char_chars(&t, '/');
    let b = trim_start_text_chars(&a, &chars_of("https://github.com/"));
    let c = trim_end_text_chars(&b, &chars_of(".git"));
    string_of(&c)
}

/// A configuration with nothing bound.
pub open spec fn is_unbound(c: SyncConfig) -> bool {
    c.repository@.len() == 0 && c.branch@.len() == 0 && !c.automatic && c.last_tree@.len() == 0
        && c.last_success is None
}

/// The configuration with nothing bound.
pub fn unbound_config() -> (r: SyncConfig)
    ensures
        is_unbound(r),
{
    SyncConfig {
        repository: String::new(),
        branch: String::new(),
        automatic: false,
        last_tree: String::new(),
        last_success: None,
    }
}

/// Binds a repository (see `binding_error`): an empty repository unbinds;
/// a new repository or branch starts a fresh record of what was uploaded;
/// the same one keeps it; the automatic setting is taken from the request.
pub fn apply_binding(current: &SyncConfig, request: &BindRequest) -> (r: Result<SyncConfig, String>)
    ensures
        ({
            let repository = repository_input(request.repository@);
            let branch = trim(request.branch@);
            if repository.len() == 0 {
                r matches Ok(c) && is_unbound(c)
            } else {
                match binding_error(repository, branch) {
                    Some(e) => r matches Err(m) && m@ == e,
                    None => r matches Ok(c) && c.repository@ == repository && c.branch@ == branch
                        && c.automatic == request.automatic && if current.repository@ == repository
                        && current.branch@ == branch {
                        c.last_tree@ == current.last_tree@ && c.last_success
                            == current.last_success
                    } else {
                        c.last_tree@.len() == 0 && c.last_success is None
                    },
                }
            }
        }),
{
    let repository = normalize_repository(request.repository.as_str());
    let branch = string_of(&trim_chars(&chars_of(request.branch.as_str())));
    let repository_chars = chars_of(repository.as_str());
    if repository_chars.len() == 0 {
        return Ok(unbound_config());
    }
    match validate_binding(repository.as_str(), branch.as_str()) {
        Err(e) => Err(e),
        Ok(()) => {
            let same = current.repository == repository && current.branch == branch;
            Ok(
                SyncConfig {
                    repository,
                    branch,
                    automatic: request.automatic,
                    last_tree: if same {
                        current.last_tree.clone()
                    } else {
                        String::new()
                    },
                    last_success: if same {
                        current.last_success
                    } else {
                        None
                    },
                },
            )
        },
    }
}

pub open spec fn changed_remote_message() -> Seq<char> {
    "Remote SkillManager folder changed or belongs to another backup. Sync stopped to protect remote data; reconcile manually or bind a different repository/branch."@
}

/// The remote backup may be replaced only if it is already what is to be
/// uploaded, or it is the one this app uploaded last (none counting as
/// empty).
pub open spec fn remote_is_ours(remote: Option<Seq<char>>, previous: Seq<char>, desired: Seq<char>) -> bool {
    remote == Some(desired) || (match remote {
        Some(r) => r,
        None => Seq::<char>::empty(),
    }) == previous
}

/// Refuses to replace a remote backup that changed or is another's (see
/// `remote_is_ours`).
pub fn check_remote(remote: Option<&str>, previous: &str, desired: &str) -> (r: Result<(), String>)
    ensures
        r is Ok <==> remote_is_ours(
            match remote {
                Some(s) => Some(s@),
                None => None,
            },
            previous@,
            desired@,
        ),
        r matches Err(e) ==> e@ == changed_remote_message(),
{
    let prev = chars_of(previous);
    let want = chars_of(desired);
    let ok = match remote {
        Some(s) => {
            let rv = chars_of(s);
            chars_eq(&rv, &want) || chars_eq(&rv, &prev)
        },
        None => {
            assert(prev@.len() == 0 ==> prev@ =~= Seq::<char>::empty());
            prev.len() == 0
        },
    };
    if ok {
        Ok(())
    } else {
        Err(
            String::from_str(
                "Remote SkillManager folder changed or belongs to another backup. Sync stopped to protect remote data; reconcile manually or bind a different repository/branch.",
            ),
        )
    }
}

/// The lowercase form of a text, as `str::to_lowercase` gives it (Unicode
/// lowercase mapping, the same on every machine).
pub uninterp spec fn lowercase(s: Seq<char>) -> Seq<char>;

/// Whether every character of a text is ASCII.
pub open spec fn all_ascii(s: Seq<char>) -> bool {
    forall|i: int| 0 <= i < s.len() ==> (#[trigger] s[i] as u32) < 128
}

/// `str::to_lowercase`.
///
/// Trusted: the result is the named lowercase form of the text; it depends
/// on the text alone; on ASCII text it is the ASCII lowercase form (the
/// Unicode lowercase mapping sends `A`..`Z` to `a`..`z` and leaves every
/// other ASCII character as it is).
#[verifier::external_body]
pub(crate) fn to_lowercase(s: &str) -> (r: String)
    ensures
        r@ == lowercase(s@),
        all_ascii(s@) ==> r@ == crate::text::ascii_lower(s@),
{
    s.to_lowercase()
}

/// A path component that is never uploaded (compared in lowercase): tool
/// state (`.git`, `node_modules`, `__pycache__`, `.venv`), keys and
/// credentials (`id_rsa`, `id_ed25519`, `credentials.json`, `.env*`,
/// `*.pem`, `*.key`, `*.p12`, `*.pfx`).
pub open spec fn is_excluded_name(n: Seq<char>) -> bool {
    ||| n == ".git"@
    ||| n == "node_modules"@
    ||| n == "__pycache__"@
    ||| n == ".venv"@
    ||| n == "id_rsa"@
    ||| n == "id_ed25519"@
    ||| n == "credentials.json"@
    ||| starts_with(n, ".env"@)
    ||| ends_with(n, ".pem"@)
    ||| ends_with(n, ".key"@)
    ||| ends_with(n, ".p12"@)
    ||| ends_with(n, ".pfx"@)
}

/// Whether a relative path (components separated by `/`) has a component
/// that is never uploaded.
pub open spec fn is_excluded_path(path: Seq<char>) -> bool {
    let parts = crate::download::pieces(path);
    exists|k: int| 0 <= k < parts.len() && is_excluded_name(lowercase(#[trigger] parts[k]))
}

fn is_str(v: &Vec<char>, t: &str) -> (r: bool)
    ensures
        r == (v@ == t@),
{
    let w = chars_of(t);
    chars_eq(v, &w)
}

fn excluded_name(n: &Vec<char>) -> (r: bool)
    ensures
        r == is_excluded_name(n@),
{
    is_str(n, ".git") || is_str(n, "node_modules") || is_str(n, "__pycache__") || is_str(n, ".venv")
        || is_str(n, "id_rsa") || is_str(n, "id_ed25519") || is_str(n, "credentials.json")
        || chars_starts_with(n, &chars_of(".env")) || chars_ends_with(n, &chars_of(".pem"))
        || chars_ends_with(n, &chars_of(".key")) || chars_ends_with(n, &chars_of(".p12"))
        || chars_ends_with(n, &chars_of(".pfx"))
}

/// Whether a relative path is never uploaded (see `is_excluded_path`);
/// for ASCII components the comparison ignores ASCII case.
pub fn excluded(path: &str) -> (r: bool)
    ensures
        r == is_excluded_path(path@),
        (forall|k: int|
            0 <= k < crate::download::pieces(path@).len() ==> all_ascii(
                #[trigger] crate::download::pieces(path@)[k],
            )) ==> (r == exists|k: int|
            0 <= k < crate::download::pieces(path@).len() && is_excluded_name(
                crate::text::ascii_lower(#[trigger] crate::download::pieces(path@)[k]),
            )),
{
    let parts = crate::download::split_pieces(&chars_of(path));
    let ghost pv = views(parts@);
    let mut k: usize = 0;
    while k < parts.len()
        invariant
            k <= parts.len(),
            pv == views(parts@),
            pv == crate::download::pieces(path@),
            forall|j: int| 0 <= j < k ==> !is_excluded_name(lowercase(#[trigger] pv[j])),
            forall|j: int|
                0 <= j < k ==> all_ascii(#[trigger] pv[j]) ==> lowercase(pv[j])
                    == crate::text::ascii_lower(pv[j]),
        decreases parts.len() - k,
    {
        assert(pv[k as int] == parts@[k as int]@);
        let name = string_of(&parts[k]);
        let lower = to_lowercase(name.as_str());
        if excluded_name(&chars_of(lower.as_str())) {
            assert(is_excluded_name(lowercase(pv[k as int])));
            return true;
        }
        k += 1;
    }
    proof {
        if forall|j: int| 0 <= j < pv.len() ==> all_ascii(#[trigger] pv[j]) {
            assert forall|j: int| 0 <= j < pv.len() implies !is_excluded_name(
                crate::text::ascii_lower(#[trigger] pv[j]),
            ) by {
                assert(lowercase(pv[j]) == crate::text::ascii_lower(pv[j]));
            }
        }
    }
    false
}

/// A backup leaves out every path with a component that is tool state or a
/// secret, whatever its case: when some component's lowercase form is
/// `.git`, `node_modules`, `__pycache__`, `.venv`, `id_rsa`, `id_ed25519` or
/// `credentials.json`, starts with `.env`, or ends with `.pem`, `.key`,
/// `.p12` or `.pfx`, the path is excluded.
pub proof fn law_tool_state_and_secrets_are_excluded(path: Seq<char>, k: int)
    requires
        0 <= k < crate::download::pieces(path).len(),
    ensures
        ({
            let n = lowercase(crate::download::pieces(path)[k]);
            let suffix = |t: Seq<char>| t.len() <= n.len() && n.subrange(
                n.len() - t.len(),
                n.len() as int,
            ) == t;
            (n == ".git"@ || n == "node_modules"@ || n == "__pycache__"@ || n == ".venv"@ || n
                == "id_rsa"@ || n == "id_ed25519"@ || n == "credentials.json"@ || (4 <= n.len()
                && n.subrange(0, 4) == ".env"@) || suffix(".pem"@) || suffix(".key"@) || suffix(
                ".p12"@,
            ) || suffix(".pfx"@)) ==> is_excluded_path(path)
        }),
{
    let n = lowercase(crate::download::pieces(path)[k]);
    reveal_strlit(".env");
    reveal_strlit(".pem");
    reveal_strlit(".key");
    reveal_strlit(".p12");
    reveal_strlit(".pfx");
    if is_excluded_name(n) {
        assert(is_excluded_path(path));
    }
}

/// The SHA-1 digest of some bytes.
pub uninterp spec fn sha1_digest(data: Seq<u8>) -> Seq<u8>;

/// `Sha1::digest`, as a vector.
///
/// Trusted: the result is the named SHA-1 digest of the bytes, 20 bytes
/// long.
#[verifier::external_body]
fn sha1_of(data: &[u8]) -> (r: Vec<u8>)
    ensures
        r@ == sha1_digest(data@),
        r@.len() == 20,
{
    <sha1::Sha1 as sha1::Digest>::digest(data).to_vec()
}

/// The ASCII digit of a number below 10.
pub open spec fn digit_byte(d: nat) -> u8 {
    (48 + d) as u8
}

/// The decimal digits of a number, as ASCII bytes.
pub open spec fn decimal(n: nat) -> Seq<u8>
    decreases n,
{
    if n < 10 {
        seq![digit_byte(n)]
    } else {
        decimal(n / 10).push(digit_byte(n % 10))
    }
}

/// The header git puts before a file's bytes: `blob <length>` and a NUL.
pub open spec fn blob_header(len: nat) -> Seq<u8> {
    seq![98u8, 108u8, 111u8, 98u8, 32u8] + decimal(len) + seq![0u8]
}

/// A lowercase hexadecimal digit.
pub open spec fn hex_char(d: u8) -> char {
    if d < 10 {
        ((48 + d) as u8) as char
    } else {
        ((87 + d) as u8) as char
    }
}

/// Bytes in lowercase hexadecimal, two digits each.
pub open spec fn hex_lower(bs: Seq<u8>) -> Seq<char>
    decreases bs.len(),
{
    if bs.len() == 0 {
        seq![]
    } else {
        hex_lower(bs.drop_last()) + seq![hex_char(bs.last() / 16), hex_char(bs.last() % 16)]
    }
}

/// The git object id of a file's content.
pub open spec fn git_blob_id(data: Seq<u8>) -> Seq<char> {
    hex_lower(sha1_digest(blob_header(data.len()) + data))
}

fn decimal_bytes(n: usize) -> (r: Vec<u8>)
    ensures
        r@ == decimal(n as nat),
    decreases n,
{
    if n < 10 {
        vec![(48 + n) as u8]
    } else {
        let mut v = decimal_bytes(n / 10);
        v.push((48 + n % 10) as u8);
        v
    }
}

fn hex_digit_char(d: u8) -> (r: char)
    requires
        d < 16,
    ensures
        r == hex_char(d),
{
    if d < 10 {
        ((48 + d) as u8) as char
    } else {
        ((87 + d) as u8) as char
    }
}

/// The git object id of a file's content: the lowercase hexadecimal SHA-1
/// of `blob <length>`, a NUL and the bytes.
pub fn blob_sha(bytes: &[u8]) -> (r: String)
    ensures
        r@ == git_blob_id(bytes@),
{
    let mut data: Vec<u8> = vec![98u8, 108u8, 111u8, 98u8, 32u8];
    let digits = decimal_bytes(bytes.len());
    let mut i: usize = 0;
    let ghost start = data@;
    while i < digits.len()
        invariant
            i <= digits.len(),
            data@ == start + digits@.subrange(0, i as int),
        decreases digits.len() - i,
    {
        data.push(digits[i]);
        assert(digits@.subrange(0, i + 1) == digits@.subrange(0, i as int).push(digits@[i as int]));
        i += 1;
    }
    assert(digits@.subrange(0, digits.len() as int) =~= digits@);
    data.push(0u8);
    let ghost header = data@;
    assert(header =~= blob_header(bytes@.len()));
    let mut j: usize = 0;
    while j < bytes.len()
        invariant
            j <= bytes@.len(),
            data@ == header + bytes@.subrange(0, j as int),
        decreases bytes.len() - j,
    {
        data.push(bytes[j]);
        assert(bytes@.subrange(0, j + 1) == bytes@.subrange(0, j as int).push(bytes@[j as int]));
        j += 1;
    }
    assert(bytes@.subrange(0, bytes@.len() as int) =~= bytes@);
    let digest = sha1_of(data.as_slice());
    let mut out: Vec<char> = Vec::new();
    let mut k: usize = 0;
    assert(digest@.subrange(0, 0) =~= Seq::<u8>::empty());
    while k < digest.len()
        invariant
            k <= digest.len(),
            out@ == hex_lower(digest@.subrange(0, k as int)),
        decreases digest.len() - k,
    {
        let b = digest[k];
        out.push(hex_digit_char(b / 16));
        out.push(hex_digit_char(b % 16));
        assert(digest@.subrange(0, k + 1).drop_last() =~= digest@.subrange(0, k as int));
        k += 1;
    }
    assert(digest@.subrange(0, digest.len() as int) =~= digest@);
    string_of(&out)
}

/// What a sync run does first.
#[derive(Debug, Clone, Copy, PartialEq, Eq, Structural)]
pub enum SyncStart {
    /// An automatic run with automatic upload off: only report the state.
    ReportOnly,
    /// Upload the managed skills.
    Upload,
}

pub open spec fn unbound_message() -> Seq<char> {
    "Bind a GitHub repository first"@
}

/// Decides how a sync run starts: an automatic run does nothing when
/// automatic upload is off; a run needs a bound repository.
pub fn sync_start(automatic: bool, config: &SyncConfig) -> (r: Result<SyncStart, String>)
    ensures
        automatic && !config.automatic ==> r == Ok::<SyncStart, String>(SyncStart::ReportOnly),
        !(automatic && !config.automatic) && config.repository@.len() == 0 ==> (r matches Err(e)
            && e@ == unbound_message()),
        !(automatic && !config.automatic) && config.repository@.len() > 0 ==> r
            == Ok::<SyncStart, String>(SyncStart::Upload),
{
    if automatic && !config.automatic {
        return Ok(SyncStart::ReportOnly);
    }
    if chars_of(config.repository.as_str()).len() == 0 {
        return Err(String::from_str("Bind a GitHub repository first"));
    }
    Ok(SyncStart::Upload)
}

/// The state shown while an upload runs.
pub fn uploading_status() -> (r: SyncStatus)
    ensures
        r.busy,
        r.message@ == "Uploading managed Skills…"@,
        r.error is None,
        r.files == 0,
{
    SyncStatus {
        busy: true,
        message: String::from_str("Uploading managed Skills…"),
        error: None,
        files: 0,
    }
}

/// The state shown after an upload: the number of files backed up, or the
/// error.
pub fn finished_status(result: Result<usize, String>) -> (r: SyncStatus)
    ensures
        !r.busy,
        match result {
            Ok(n) => r.files == n && r.message@ == "Backup is up to date"@ && r.error is None,
            Err(e) => r.files == 0 && r.message@.len() == 0 && (r.error matches Some(m) && m@ == e@),
        },
{
    match result {
        Ok(files) => SyncStatus {
            busy: false,
            message: String::from_str("Backup is up to date"),
            error: None,
            files,
        },
        Err(error) => SyncStatus { busy: false, message: String::new(), error: Some(error), files: 0 },
    }
}

/// Whether the background worker reports a failed run: not while another
/// run is shown as busy.
pub fn worker_reports_error(current: &Option<SyncStatus>) -> (r: bool)
    ensures
        r == !(current matches Some(s) && s.busy),
{
    match current {
        Some(s) => !s.busy,
        None => true,
    }
}

} // verus!
