//! The calls into other crates, each behind a function of its own.

use crate::plugin_engine::accounts::hex_digit;
use vstd::prelude::*;

verus! {

/// The time that an RFC 3339 text stands for, in nanoseconds since the beginning of 1970,
/// where it is one.
pub uninterp spec fn rfc3339_nanos(text: Seq<char>) -> Option<i128>;

/// The SHA-256 digest of a message.
pub uninterp spec fn sha256_digest(message: Seq<u8>) -> Seq<u8>;

/// `time::OffsetDateTime::parse` with the RFC 3339 format: whether a text is such a time,
/// and which one, depends on the text alone. The time is given as
/// `OffsetDateTime::unix_timestamp_nanos` has it. The format has four digits for the year,
/// so that every such time lies within a trillion seconds of the beginning of 1970.
#[verifier::external_body]
pub(crate) fn parse_rfc3339(text: &str) -> (r: Option<i128>)
    ensures
        r == rfc3339_nanos(text@),
        r matches Some(nanos) ==> -1_000_000_000_000_000_000_000 <= nanos
            <= 1_000_000_000_000_000_000_000,
{
    time::OffsetDateTime::parse(text, &time::format_description::well_known::Rfc3339)
        .ok()
        .map(|time| time.unix_timestamp_nanos())
}

/// `sha2::Sha256::digest`: the digest depends on the message alone and has 32 bytes.
#[verifier::external_body]
pub(crate) fn sha256(message: &[u8]) -> (r: Vec<u8>)
    ensures
        r@ == sha256_digest(message@),
        r@.len() == 32,
{
    <sha2::Sha256 as sha2::Digest>::digest(message).to_vec()
}

/// A character as it stands in a JSON string: quotation marks, backslashes and the characters
/// below the space are escaped.
pub open spec fn json_char(c: char) -> Seq<char> {
    let n = c as int;
    if c == '"' {
        seq!['\\', '"']
    } else if c == '\\' {
        seq!['\\', '\\']
    } else if n == 0x8 {
        seq!['\\', 'b']
    } else if n == 0x9 {
        seq!['\\', 't']
    } else if n == 0xa {
        seq!['\\', 'n']
    } else if n == 0xc {
        seq!['\\', 'f']
    } else if n == 0xd {
        seq!['\\', 'r']
    } else if n < 0x20 {
        seq!['\\', 'u', '0', '0', hex_digit(n / 16), hex_digit(n % 16)]
    } else {
        seq![c]
    }
}

/// The characters of a text as they stand in a JSON string.
pub open spec fn json_chars(text: Seq<char>) -> Seq<char>
    decreases text.len(),
{
    if text.len() == 0 {
        Seq::empty()
    } else {
        json_chars(text.drop_last()) + json_char(text.last())
    }
}

/// A text as a JSON string, with its quotation marks.
pub open spec fn json_string_text(text: Seq<char>) -> Seq<char> {
    seq!['"'] + json_chars(text) + seq!['"']
}

/// `serde_json::to_string` of a text, which does not fail: the text between quotation marks,
/// with quotation marks, backslashes and control characters escaped, the latter in their
/// short form where JSON has one and else by their number in four small hexadecimal digits.
#[verifier::external_body]
pub(crate) fn json_string(text: &str) -> (r: String)
    ensures
        r@ == json_string_text(text@),
{
    serde_json::to_string(text).unwrap_or_default()
}

/// The host that a URI names, where the text is a URI that names one.
pub uninterp spec fn uri_host_text(text: Seq<char>) -> Option<Seq<char>>;

/// `axum::http::Uri` parsed from a text, and its `host`: whether the text is a URI with a
/// host, and which, depends on the text alone.
#[verifier::external_body]
pub(crate) fn uri_host(text: &str) -> (r: Option<String>)
    ensures
        crate::text::opt_view(r) == uri_host_text(text@),
{
    let uri = text.parse::<axum::http::Uri>().ok()?;
    uri.host().map(|host| host.to_string())
}

/// `globset::GlobSetBuilder`.
#[verifier::external_type_specification]
#[verifier::external_body]
pub struct ExGlobSetBuilder(globset::GlobSetBuilder);

/// `globset::GlobSet`.
#[verifier::external_type_specification]
#[verifier::external_body]
pub struct ExGlobSet(globset::GlobSet);

/// The masks that were put into a builder.
pub uninterp spec fn builder_masks(builder: globset::GlobSetBuilder) -> Seq<Seq<char>>;

/// The masks that a set was built of.
pub uninterp spec fn set_masks(set: globset::GlobSet) -> Seq<Seq<char>>;

/// Why a text is no glob mask; nothing where it is one.
pub uninterp spec fn glob_problem(mask: Seq<char>) -> Option<Seq<char>>;

/// True if a glob mask matches a text.
pub uninterp spec fn glob_matches(mask: Seq<char>, text: Seq<char>) -> bool;

/// True if masks can be compiled into one set on a machine whose words have so many bits.
pub uninterp spec fn masks_compile(masks: Seq<Seq<char>>, word_bits: int) -> bool;

/// `globset::GlobSetBuilder::new`: it holds no mask.
#[verifier::external_body]
pub(crate) fn new_glob_builder() -> (r: globset::GlobSetBuilder)
    ensures
        builder_masks(r) == Seq::<Seq<char>>::empty(),
{
    globset::GlobSetBuilder::new()
}

/// `globset::GlobSetBuilder::add` of a `globset::Glob::new`: whether a text is a mask, and
/// the text of the `globset::Error` where it is none, depends on the text alone. A mask is
/// added behind those that are there; a text that is none changes nothing.
#[verifier::external_body]
pub(crate) fn add_glob_mask(builder: &mut globset::GlobSetBuilder, mask: &str) -> (r: Result<
    (),
    String,
>)
    ensures
        r is Ok == (glob_problem(mask@) is None),
        r matches Err(problem) ==> Some(problem@) == glob_problem(mask@),
        r is Ok ==> builder_masks(*final(builder)) == builder_masks(*old(builder)).push(mask@),
        r is Err ==> builder_masks(*final(builder)) == builder_masks(*old(builder)),
{
    builder.add(globset::Glob::new(mask).map_err(|err| err.to_string())?);
    Ok(())
}

/// `globset::GlobSetBuilder::build`: a set that is built has the masks of the builder. The
/// one step that may fail is the compilation of the masks to regular expressions, whose size
/// is limited; it is counted in states and their size, so that whether a set is built depends
/// on the masks and on the width of a word. The text of the `globset::Error` is that of the
/// first compilation that fails; which one that is depends on the order in which a hash map
/// is walked, and nothing is said of it.
#[verifier::external_body]
pub(crate) fn build_glob_set(builder: &globset::GlobSetBuilder) -> (r: Result<
    globset::GlobSet,
    String,
>)
    ensures
        r is Ok == masks_compile(builder_masks(*builder), usize::BITS as int),
        r matches Ok(set) ==> set_masks(set) == builder_masks(*builder),
{
    builder.build().map_err(|err| err.to_string())
}

/// `globset::GlobSet::is_match`: true if any mask of the set matches. Which texts a mask
/// matches is that of the systems where a slash parts the components of a path.
#[verifier::external_body]
pub(crate) fn glob_set_matches(set: &globset::GlobSet, text: &str) -> (r: bool)
    ensures
        r == (exists|i: int|
            0 <= i < set_masks(*set).len() && glob_matches(#[trigger] set_masks(*set)[i], text@)),
{
    set.is_match(text)
}

/// A list of texts as it is written for a developer.
pub uninterp spec fn debug_list_text(list: Seq<Seq<char>>) -> Seq<char>;

/// The `Debug` format of a list of texts: what is written depends on the texts alone.
#[verifier::external_body]
pub(crate) fn debug_list(list: &Vec<String>) -> (r: String)
    ensures
        r@ == debug_list_text(crate::text::views(list@)),
{
    format!("{:?}", list)
}

/// What a text is as JSON: nothing if it is not JSON; otherwise, if it is an array, for each
/// entry whether it is an object.
pub uninterp spec fn json_entries(text: Seq<char>) -> Option<Option<Seq<bool>>>;

/// The view of such a finding.
pub open spec fn entries_view(found: Option<Option<Vec<bool>>>) -> Option<Option<Seq<bool>>> {
    match found {
        None => None,
        Some(None) => Some(None),
        Some(Some(flags)) => Some(Some(flags@)),
    }
}

/// `serde_json::from_str` to a `serde_json::Value`, its `as_array`, and `is_object` of each
/// entry: what is found depends on the text alone.
#[verifier::external_body]
pub(crate) fn read_json_entries(text: &str) -> (r: Option<Option<Vec<bool>>>)
    ensures
        entries_view(r) == json_entries(text@),
{
    let value = serde_json::from_str::<serde_json::Value>(text).ok()?;
    Some(value.as_array().map(|entries| entries.iter().map(|entry| entry.is_object()).collect()))
}

/// `reqwest::Proxy`.
#[verifier::external_type_specification]
#[verifier::external_body]
pub struct ExProxy(reqwest::Proxy);

/// The proxy for all requests but those to some hosts, where the text is the URL of one.
pub uninterp spec fn proxy_made(url: Seq<char>, exceptions: Seq<char>) -> Option<reqwest::Proxy>;

/// `reqwest::Proxy::all`, with the exceptions of `reqwest::NoProxy::from_string`: whether
/// there is such a proxy, and which, depends on the two texts alone.
#[verifier::external_body]
pub(crate) fn make_proxy(url: &str, exceptions: &str) -> (r: Option<reqwest::Proxy>)
    ensures
        r == proxy_made(url@, exceptions@),
{
    let proxy = reqwest::Proxy::all(url).ok()?;
    Some(proxy.no_proxy(reqwest::NoProxy::from_string(exceptions)))
}

} // verus!
