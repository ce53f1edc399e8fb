//! Every call this library makes into code it does not verify: outside
//! crates and the few `std` functions that `vstd` does not specify. Each
//! item's contract is believed, not proved; its doc comment says what it
//! claims.

use vstd::prelude::*;

verus! {

/// The user's home directory as `dirs::home_dir` finds it (`$HOME`, else
/// the password database), where it is valid UTF-8. It depends on the
/// environment, so nothing is stated of it.
#[verifier::external_body]
pub(crate) fn home_dir() -> (r: Option<String>) {
    match dirs::home_dir() {
        Some(p) => p.into_os_string().into_string().ok(),
        None => None,
    }
}

/// Tilde expansion as `shellexpand::tilde_with_context` does it with the
/// home directory `home`: where `input` is `~` alone or starts with `~/`
/// and a home directory is given, the `~` is replaced by it; otherwise the
/// input is returned unchanged.
pub open spec fn tilde_expansion(input: Seq<char>, home: Option<Seq<char>>) -> Seq<char> {
    if input.len() > 0 && input[0] == '~' && (input.len() == 1 || input[1] == '/') {
        match home {
            Some(h) => h + input.drop_first(),
            None => input,
        }
    } else {
        input
    }
}

/// `shellexpand::tilde_with_context(input, || home)`: the source replaces
/// a leading `~` that is alone or followed by `/` with the home directory
/// given, and returns anything else unchanged.
#[verifier::external_body]
pub(crate) fn expand_tilde(input: &str, home: Option<String>) -> (r: String)
    ensures
        r@ == tilde_expansion(
            input@,
            match home {
                Some(h) => Some(h@),
                None => None,
            },
        ),
{
    shellexpand::tilde_with_context(input, || home).into_owned()
}

/// What `Path::strip_prefix` leaves of `path` once the components of
/// `base` are taken off its front, or none where they do not begin it.
pub uninterp spec fn stripped_path(path: Seq<char>, base: Seq<char>) -> Option<Seq<char>>;

/// `Path::new(path).strip_prefix(base)`, the remainder as text. The
/// remainder of a UTF-8 path is itself UTF-8, so the conversion loses
/// nothing. Component matching is left to `std` and only named here.
#[verifier::external_body]
pub(crate) fn strip_path_prefix(path: &str, base: &str) -> (r: Option<String>)
    ensures
        match r {
            Some(s) => stripped_path(path@, base@) == Some(s@),
            None => stripped_path(path@, base@) is None,
        },
{
    std::path::Path::new(path).strip_prefix(base).ok().map(|p| p.to_string_lossy().into_owned())
}

/// `String::push`: the character is appended to the string.
#[verifier::external_body]
pub(crate) fn push_char(s: &mut String, c: char)
    ensures
        final(s)@ == old(s)@.push(c),
{
    s.push(c);
}

/// Sixteen random bytes from `rand::random`. Nothing is stated of them.
#[verifier::external_body]
pub(crate) fn random_bytes() -> (r: [u8; 16]) {
    rand::random::<[u8; 16]>()
}

/// The string held by the top-level field `id` of a JSON document, as
/// `serde_json` parses it; none where the text is not JSON, not an object,
/// or has no such string field.
pub uninterp spec fn json_id_field(text: Seq<char>) -> Option<Seq<char>>;

/// Parses `text` with `serde_json::from_str::<serde_json::Value>` and
/// takes `id` with `Value::get` and `Value::as_str`. The grammar of JSON is
/// left to `serde_json` and only named here.
#[verifier::external_body]
pub(crate) fn json_id(text: &str) -> (r: Option<String>)
    ensures
        match r {
            Some(s) => json_id_field(text@) == Some(s@),
            None => json_id_field(text@) is None,
        },
{
    serde_json::from_str::<serde_json::Value>(text).ok().and_then(
        |v| v.get("id").and_then(|x| x.as_str()).map(|s| s.to_string()),
    )
}

/// The Unicode lower-case form of a text, as `str::to_lowercase` maps it.
pub uninterp spec fn lowercased(s: Seq<char>) -> Seq<char>;

/// The ASCII lower-case form of `c`.
pub open spec fn ascii_lower(c: char) -> char {
    if 'A' <= c && c <= 'Z' {
        ((c as u32) + 32) as char
    } else {
        c
    }
}

/// `str::to_lowercase`. The Unicode case tables are left to `std` and only
/// named here; of a text made of ASCII characters alone the documentation
/// shows that each upper-case letter becomes its lower-case letter and
/// every other character stays.
#[verifier::external_body]
pub(crate) fn to_lowercase(s: &str) -> (r: String)
    ensures
        r@ == lowercased(s@),
        vstd::utf8::is_ascii_chars(s@) ==> r@ == s@.map_values(|c: char| ascii_lower(c)),
{
    s.to_lowercase()
}

/// What `Regex::replace` gives for the pattern `pattern` on `text` with
/// the replacement `rep`: the leftmost-first match replaced by `rep` with
/// its `$name`, `${name}` and `$$` references expanded, the text unchanged
/// where nothing matches; none where the pattern does not compile.
pub uninterp spec fn regex_replaced(pattern: Seq<char>, text: Seq<char>, rep: Seq<char>) -> Option<
    Seq<char>,
>;

/// `Regex::new(pattern)` and then `Regex::replace(text, rep)`. The regular
/// expression engine and its replacement syntax are left to `regex` and
/// only named here.
#[verifier::external_body]
pub(crate) fn regex_replace(pattern: &str, text: &str, rep: &str) -> (r: Option<String>)
    ensures
        match r {
            Some(t) => regex_replaced(pattern@, text@, rep@) == Some(t@),
            None => regex_replaced(pattern@, text@, rep@) is None,
        },
{
    regex::Regex::new(pattern).ok().map(|re| re.replace(text, rep).into_owned())
}

} // verus!
