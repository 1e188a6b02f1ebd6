//! Calls into other crates and into std that the verified code builds on.
//! Each function here is taken on trust: its body makes one outside call,
//! and its contract says what that call's documentation promises.
use vstd::prelude::*;

verus! {

/// The text of a string, or nothing.
pub open spec fn opt_view(o: Option<String>) -> Option<Seq<char>> {
    match o {
        Some(s) => Some(s@),
        None => None,
    }
}

/// `c` is an ASCII letter or digit.
pub open spec fn is_ascii_alnum(c: char) -> bool {
    ('a' <= c && c <= 'z') || ('A' <= c && c <= 'Z') || ('0' <= c && c <= '9')
}

/// The serialization of `text` parsed as an absolute URL, if it parses.
pub uninterp spec fn url_parse_text(text: Seq<char>) -> Option<Seq<char>>;

/// The serialization of `reference` resolved against the URL `base`, if both parse.
pub uninterp spec fn url_join_text(base: Seq<char>, reference: Seq<char>) -> Option<Seq<char>>;

/// The path `rel` joined onto the path `base`, as `Path::join` does on Unix:
/// an absolute `rel` replaces `base`; otherwise one slash separates the two,
/// unless `base` is empty or already ends in a slash.
pub open spec fn path_join_text(base: Seq<char>, rel: Seq<char>) -> Seq<char> {
    if rel.len() > 0 && rel[0] == '/' {
        rel
    } else if base.len() == 0 || base.last() == '/' {
        base + rel
    } else {
        base.push('/') + rel
    }
}

/// Whether the regular expression `pattern` finds a match in `text`; none if it does not compile.
pub uninterp spec fn regex_match(pattern: Seq<char>, text: Seq<char>) -> Option<bool>;

/// Relies on url::Url::parse, which returns the same URL for the same text,
/// and on Url's serialization.
#[verifier::external_body]
pub(crate) fn parse_url(text: &str) -> (r: Option<String>)
    ensures
        opt_view(r) == url_parse_text(text@),
{
    url::Url::parse(text).ok().map(|u| u.to_string())
}

/// Relies on url::Url::join, applied to `base` parsed by url::Url::parse:
/// the result depends on the two texts alone.
#[verifier::external_body]
pub(crate) fn join_url(base: &str, reference: &str) -> (r: Option<String>)
    ensures
        opt_view(r) == url_join_text(base@, reference@),
{
    url::Url::parse(base).ok().and_then(|b| b.join(reference).ok()).map(|u| u.to_string())
}

/// Relies on std::path::Path::join on Unix, whose documentation gives the
/// rule above; both paths are UTF-8, so the result is too.
#[verifier::external_body]
pub(crate) fn join_path(base: &str, rel: &str) -> (r: String)
    ensures
        r@ == path_join_text(base@, rel@),
{
    std::path::Path::new(base).join(rel).to_string_lossy().into_owned()
}

/// Relies on regex::Regex::new and regex::Regex::is_match: whether the
/// pattern compiles, and whether it matches, depend on the two texts alone.
#[verifier::external_body]
pub(crate) fn regex_is_match(pattern: &str, text: &str) -> (r: Option<bool>)
    ensures
        r == regex_match(pattern@, text@),
{
    regex::Regex::new(pattern).ok().map(|re| re.is_match(text))
}

/// Relies on rand's `Alphanumeric` distribution, which samples ASCII letters
/// and digits, drawn `len` times from `thread_rng`.
#[verifier::external_body]
pub(crate) fn random_alphanumeric(len: usize) -> (r: String)
    ensures
        r@.len() == len,
        forall|i: int| 0 <= i < r@.len() ==> is_ascii_alnum(#[trigger] r@[i]),
{
    rand::Rng::sample_iter(rand::thread_rng(), &rand::distributions::Alphanumeric).take(len).collect()
}

/// Relies on str::chars: the characters of the text, in order.
#[verifier::external_body]
pub(crate) fn chars_of(s: &str) -> (r: Vec<char>)
    ensures
        r@ == s@,
{
    s.chars().collect()
}

/// Relies on String's FromIterator<&char>: the text made of these characters.
#[verifier::external_body]
pub(crate) fn string_from_chars(cs: &Vec<char>) -> (r: String)
    ensures
        r@ == cs@,
{
    cs.iter().collect()
}

} // verus!
