//! Translation settings: which providers may be chosen, which endpoints may
//! be used, and how the texts and session keys of a request are checked.
use crate::text::{chars_eq, chars_of, concat2, ends_with, starts_with, trim, trim_chars};
use vstd::prelude::*;

verus! {

/// The settings of the basic (machine translation) provider.
#[derive(Debug)]
pub struct BasicTranslationConfig {
    pub provider: String,
    pub endpoint: String,
    pub region: String,
    pub source_language: String,
    pub target_language: String,
}

impl Default for BasicTranslationConfig {
    fn default() -> (r: Self)
        ensures
            r.provider@ == "azure"@,
            r.endpoint@ == "https://api.cognitive.microsofttranslator.com"@,
            r.region@.len() == 0,
            r.source_language@ == "auto"@,
            r.target_language@ == "zh-CN"@,
    {
        BasicTranslationConfig {
            provider: String::from_str("azure"),
            endpoint: String::from_str("https://api.cognitive.microsofttranslator.com"),
            region: String::new(),
            source_language: String::from_str("auto"),
            target_language: String::from_str("zh-CN"),
        }
    }
}

/// The length of a text in UTF-8 bytes, as `str::len` gives it.
pub open spec fn byte_len(s: Seq<char>) -> usize {
    vstd::utf8::encode_utf8(s).len() as usize
}

/// Why a settings text is refused: a required one is blank; any one is
/// longer than `max` bytes or holds a carriage return, line feed or NUL.
pub open spec fn text_error(value: Seq<char>, field: Seq<char>, max: usize, required: bool) -> Option<
    Seq<char>,
> {
    if required && trim(value).len() == 0 {
        Some(field + " is required"@)
    } else if byte_len(value) > max || crate::market::has_char(value, '\r') || crate::market::has_char(
        value,
        '\n',
    ) || crate::market::has_char(value, '\0') {
        Some("Invalid "@ + field)
    } else {
        None
    }
}

/// Checks a settings text (see `text_error`).
pub fn check_text(value: &str, field: &str, max: usize, required: bool) -> (r: Result<(), String>)
    ensures
        match r {
            Ok(()) => text_error(value@, field@, max, required) is None,
            Err(e) => text_error(value@, field@, max, required) == Some(e@),
        },
{
    let v = chars_of(value);
    if required && trim_chars(&v).len() == 0 {
        return Err(concat2(field, " is required"));
    }
    let mut bad = false;
    let mut i: usize = 0;
    while i < v.len()
        invariant
            i <= v.len(),
            bad == exists|k: int| 0 <= k < i && (#[trigger] v@[k] == '\r' || v@[k] == '\n' || v@[k]
                == '\0'),
        decreases v.len() - i,
    {
        if v[i] == '\r' || v[i] == '\n' || v[i] == '\0' {
            bad = true;
        }
        i += 1;
    }
    proof {
        if bad {
            let k = choose|k: int| 0 <= k < v@.len() && (#[trigger] v@[k] == '\r' || v@[k] == '\n'
                || v@[k] == '\0');
            if v@[k] == '\r' {
                assert(crate::market::has_char(value@, '\r'));
            } else if v@[k] == '\n' {
                assert(crate::market::has_char(value@, '\n'));
            } else {
                assert(crate::market::has_char(value@, '\0'));
            }
        }
    }
    if value.len() > max || bad {
        return Err(concat2("Invalid ", field));
    }
    Ok(())
}

pub open spec fn endpoint_message() -> Seq<char> {
    "Endpoint must use HTTPS; only local LibreTranslate may use HTTP"@
}

/// `s` without its trailing `/` characters.
pub open spec fn without_trailing_slashes(s: Seq<char>) -> Seq<char>
    decreases s.len(),
{
    if s.len() > 0 && s.last() == '/' {
        without_trailing_slashes(s.drop_last())
    } else {
        s
    }
}

/// Whether an endpoint may be used: none at all, an HTTPS one, or — when
/// local HTTP is allowed — one on the local machine (`localhost`,
/// `127.0.0.1`, `[::1]`).
pub open spec fn endpoint_allowed(value: Seq<char>, allow_local_http: bool) -> bool {
    let e = without_trailing_slashes(trim(value));
    ||| e.len() == 0
    ||| starts_with(e, "https://"@)
    ||| allow_local_http && (starts_with(e, "http://localhost"@) || starts_with(
        e,
        "http://127.0.0.1"@,
    ) || starts_with(e, "http://[::1]"@))
}

/// Checks an endpoint (see `endpoint_allowed`).
pub fn validate_endpoint(value: &str, allow_local_http: bool) -> (r: Result<(), String>)
    ensures
        r is Ok <==> endpoint_allowed(value@, allow_local_http),
        r matches Err(e) ==> e@ == endpoint_message(),
{
    let t = trim_chars(&chars_of(value));
    let mut n = t.len();
    assert(t@.subrange(0, n as int) =~= t@);
    while n > 0 && t[n - 1] == '/'
        invariant
            n <= t.len(),
            without_trailing_slashes(t@) == without_trailing_slashes(t@.subrange(0, n as int)),
        decreases n,
    {
        assert(t@.subrange(0, n as int).drop_last() =~= t@.subrange(0, n - 1));
        n -= 1;
    }
    let e = crate::text::slice_chars(&t, 0, n);
    assert(without_trailing_slashes(e@) == e@);
    if e.len() == 0 || crate::text::chars_starts_with(&e, &chars_of("https://")) {
        return Ok(());
    }
    if allow_local_http && (crate::text::chars_starts_with(&e, &chars_of("http://localhost"))
        || crate::text::chars_starts_with(&e, &chars_of("http://127.0.0.1"))
        || crate::text::chars_starts_with(&e, &chars_of("http://[::1]"))) {
        return Ok(());
    }
    Err(String::from_str("Endpoint must use HTTPS; only local LibreTranslate may use HTTP"))
}

/// The basic providers that may be chosen.
pub open spec fn is_basic_provider(p: Seq<char>) -> bool {
    p == "azure"@ || p == "deepl"@ || p == "google"@ || p == "mymemory"@ || p
        == "libretranslate"@
}

/// The advanced (model) providers that may be chosen.
pub open spec fn is_advanced_provider(p: Seq<char>) -> bool {
    p == "gemini"@ || p == "openai-compatible"@
}

/// Whether an API key may be kept for the session: at most 4096 bytes,
/// without NUL.
pub open spec fn key_ok(key: Option<String>) -> bool {
    match key {
        Some(k) => !(byte_len(k@) > 4096 || crate::market::has_char(k@, '\0')),
        None => true,
    }
}

/// Why a settings request is refused, in the order the checks are made: a
/// stale revision, an unknown provider, an endpoint that may not be used,
/// an invalid text, a temperature outside `0..=1` (`temperature_in_range`
/// tells, as the caller computes it), an invalid API key.
pub open spec fn settings_error(
    revision: u64,
    current_revision: u64,
    basic: BasicTranslationConfig,
    advanced_provider: Seq<char>,
    advanced_base_url: Seq<char>,
    advanced_model: Seq<char>,
    temperature_in_range: bool,
    basic_api_key: Option<String>,
    advanced_api_key: Option<String>,
) -> Option<Seq<char>> {
    if revision != current_revision {
        Some("Translation settings changed elsewhere; reload and try again"@)
    } else if !is_basic_provider(basic.provider@) {
        Some("Unsupported basic translation provider"@)
    } else if !is_advanced_provider(advanced_provider) {
        Some("Unsupported advanced model provider"@)
    } else if !endpoint_allowed(basic.endpoint@, basic.provider@ == "libretranslate"@) {
        Some(endpoint_message())
    } else if !endpoint_allowed(advanced_base_url, false) {
        Some(endpoint_message())
    } else if text_error(basic.region@, "region"@, 128, false) is Some {
        text_error(basic.region@, "region"@, 128, false)
    } else if text_error(basic.source_language@, "source language"@, 32, true) is Some {
        text_error(basic.source_language@, "source language"@, 32, true)
    } else if text_error(basic.target_language@, "target language"@, 32, true) is Some {
        text_error(basic.target_language@, "target language"@, 32, true)
    } else if text_error(advanced_model, "model"@, 160, true) is Some {
        text_error(advanced_model, "model"@, 160, true)
    } else if !temperature_in_range {
        Some("Temperature must be between 0 and 1"@)
    } else if !key_ok(basic_api_key) || !key_ok(advanced_api_key) {
        Some("Invalid API key"@)
    } else {
        None
    }
}

fn is_one_of(p: &String, options: &Vec<&str>) -> (r: bool)
    ensures
        r == exists|k: int| 0 <= k < options@.len() && p@ == (#[trigger] options@[k])@,
{
    let pv = chars_of(p.as_str());
    let mut k: usize = 0;
    while k < options.len()
        invariant
            k <= options.len(),
            pv@ == p@,
            forall|j: int| 0 <= j < k ==> p@ != (#[trigger] options@[j])@,
        decreases options.len() - k,
    {
        if chars_eq(&pv, &chars_of(options[k])) {
            return true;
        }
        k += 1;
    }
    false
}

fn check_key(key: &Option<String>) -> (r: bool)
    ensures
        r == key_ok(*key),
{
    match key {
        Some(k) => {
            let v = chars_of(k.as_str());
            let mut nul = false;
            let mut i: usize = 0;
            while i < v.len()
                invariant
                    i <= v.len(),
                    nul == exists|j: int| 0 <= j < i && #[trigger] v@[j] == '\0',
                decreases v.len() - i,
            {
                if v[i] == '\0' {
                    nul = true;
                }
                i += 1;
            }
            !(k.as_str().len() > 4096 || nul)
        },
        None => true,
    }
}

/// Checks a translation settings request (see `settings_error`).
pub fn check_settings_request(
    revision: u64,
    current_revision: u64,
    basic: &BasicTranslationConfig,
    advanced_provider: &String,
    advanced_base_url: &String,
    advanced_model: &String,
    temperature_in_range: bool,
    basic_api_key: &Option<String>,
    advanced_api_key: &Option<String>,
) -> (r: Result<(), String>)
    ensures
        match r {
            Ok(()) => settings_error(
                revision,
                current_revision,
                *basic,
                advanced_provider@,
                advanced_base_url@,
                advanced_model@,
                temperature_in_range,
                *basic_api_key,
                *advanced_api_key,
            ) is None,
            Err(e) => settings_error(
                revision,
                current_revision,
                *basic,
                advanced_provider@,
                advanced_base_url@,
                advanced_model@,
                temperature_in_range,
                *basic_api_key,
                *advanced_api_key,
            ) == Some(e@),
        },
{
    if revision != current_revision {
        return Err(String::from_str("Translation settings changed elsewhere; reload and try again"));
    }
    let basic_options = vec!["azure", "deepl", "google", "mymemory", "libretranslate"];
    if !is_one_of(&basic.provider, &basic_options) {
        return Err(String::from_str("Unsupported basic translation provider"));
    }
    let advanced_options = vec!["gemini", "openai-compatible"];
    if !is_one_of(advanced_provider, &advanced_options) {
        return Err(String::from_str("Unsupported advanced model provider"));
    }
    let libre = chars_eq(&chars_of(basic.provider.as_str()), &chars_of("libretranslate"));
    validate_endpoint(basic.endpoint.as_str(), libre)?;
    validate_endpoint(advanced_base_url.as_str(), false)?;
    check_text(basic.region.as_str(), "region", 128, false)?;
    check_text(basic.source_language.as_str(), "source language", 32, true)?;
    check_text(basic.target_language.as_str(), "target language", 32, true)?;
    check_text(advanced_model.as_str(), "model", 160, true)?;
    if !temperature_in_range {
        return Err(String::from_str("Temperature must be between 0 and 1"));
    }
    if !check_key(basic_api_key) || !check_key(advanced_api_key) {
        return Err(String::from_str("Invalid API key"));
    }
    Ok(())
}

/// The session key a request gives: a blank key counts as none.
pub fn session_key(key: Option<String>) -> (r: Option<String>)
    ensures
        match key {
            Some(k) => if trim(k@).len() == 0 {
                r is None
            } else {
                r matches Some(s) && s@ == k@
            },
            None => r is None,
        },
{
    match key {
        Some(k) => if trim_chars(&chars_of(k.as_str())).len() == 0 {
            None
        } else {
            Some(k)
        },
        None => None,
    }
}

/// Which session key a request names.
#[derive(Debug, Clone, Copy, PartialEq, Eq, Structural)]
pub enum KeyKind {
    Basic,
    Advanced,
}

/// The session key named `basic` or `advanced`.
pub fn key_kind(kind: &str) -> (r: Result<KeyKind, String>)
    ensures
        kind@ == "basic"@ ==> r == Ok::<KeyKind, String>(KeyKind::Basic),
        kind@ == "advanced"@ ==> r == Ok::<KeyKind, String>(KeyKind::Advanced),
        kind@ != "basic"@ && kind@ != "advanced"@ ==> (r matches Err(e) && e@
            == "Unknown translation key kind"@),
{
    let v = chars_of(kind);
    proof {
        reveal_strlit("basic");
        reveal_strlit("advanced");
        assert("basic"@.len() != "advanced"@.len());
    }
    if chars_eq(&v, &chars_of("basic")) {
        Ok(KeyKind::Basic)
    } else if chars_eq(&v, &chars_of("advanced")) {
        Ok(KeyKind::Advanced)
    } else {
        Err(String::from_str("Unknown translation key kind"))
    }
}

/// A settings save is accepted only against the current revision: a stale
/// request is refused as changed elsewhere whatever else it holds, and a
/// request that passes every check was made against the current revision.
pub proof fn law_settings_saved_only_at_current_revision(
    revision: u64,
    current_revision: u64,
    basic: BasicTranslationConfig,
    advanced_provider: Seq<char>,
    advanced_base_url: Seq<char>,
    advanced_model: Seq<char>,
    temperature_in_range: bool,
    basic_api_key: Option<String>,
    advanced_api_key: Option<String>,
)
    ensures
        revision != current_revision ==> settings_error(
            revision,
            current_revision,
            basic,
            advanced_provider,
            advanced_base_url,
            advanced_model,
            temperature_in_range,
            basic_api_key,
            advanced_api_key,
        ) == Some("Translation settings changed elsewhere; reload and try again"@),
        settings_error(
            revision,
            current_revision,
            basic,
            advanced_provider,
            advanced_base_url,
            advanced_model,
            temperature_in_range,
            basic_api_key,
            advanced_api_key,
        ) is None ==> revision == current_revision && temperature_in_range && key_ok(basic_api_key)
            && key_ok(advanced_api_key),
{
}


} // verus!
