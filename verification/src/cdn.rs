//! Where a finished dictionary is uploaded to: the bucket, region and
//! endpoint that the address of the content delivery network names.

use crate::text::{chars_of, string_of, word_views};
use vstd::prelude::*;
use vstd::string::StringExecFns;

verus! {

/// Why a string is no absolute URL.
#[verifier::external_type_specification]
#[verifier::external_body]
pub struct ExUrlParseError(url::ParseError);

/// What `url::Url::parse` and `Url::host_str` make of a text: nothing where
/// the text is no absolute URL, else the host that the URL names, if it
/// names one.
pub uninterp spec fn url_host(text: Seq<char>) -> Option<Option<Seq<char>>>;

/// `url::Url::parse` reads `text` as an absolute URL, and `Url::host_str`
/// gives the host of that URL as text, or nothing where it has none. Both
/// depend on `text` alone.
#[verifier::external_body]
pub(crate) fn host_of_url(text: &str) -> (r: Result<Option<String>, url::ParseError>)
    ensures
        match r {
            Ok(Some(host)) => url_host(text@) == Some(Some(host@)),
            Ok(None) => url_host(text@) == Some(None::<Seq<char>>),
            Err(_) => url_host(text@) is None,
        },
{
    url::Url::parse(text).map(|parsed| parsed.host_str().map(|host| host.to_string()))
}

/// The fewest parts, between dots, that the host of the address must have.
pub const MIN_HOST_PARTS: usize = 3;

/// The first status code that tells of a failed upload.
pub const FIRST_FAILURE_STATUS: u16 = 300;

/// Where to upload to.
pub struct CdnTarget {
    /// Name of the bucket.
    pub bucket: String,
    /// Name of the region.
    pub region: String,
    /// Address of the region's endpoint.
    pub endpoint: String,
}

/// Why an address names no upload target.
#[derive(Debug, Clone, Copy, PartialEq, Eq, Structural)]
pub enum CdnUrlError {
    /// The address is no absolute URL.
    InvalidUrl,
    /// The address names no host.
    MissingHost,
    /// The host does not have the form `{bucket}.{region}.digitaloceanspaces.com`.
    UnexpectedHost,
}

/// The parts of `s` between its dots; two dots in a row, or a dot at either
/// end, give an empty part.
pub open spec fn split_at_dots(s: Seq<char>) -> Seq<Seq<char>>
    decreases s.len(),
{
    if s.len() == 0 {
        seq![Seq::empty()]
    } else {
        let before = split_at_dots(s.drop_last());
        if s.last() == '.' {
            before.push(Seq::empty())
        } else {
            before.drop_last().push(before.last().push(s.last()))
        }
    }
}

/// The endpoint of a region.
pub open spec fn endpoint_of(region: Seq<char>) -> Seq<char> {
    "https://"@ + region + ".digitaloceanspaces.com"@
}

/// The name under which the dictionary of a language is uploaded.
pub open spec fn cdn_key_of(language: Seq<char>) -> Seq<char> {
    language + "-dict.db.zst"@
}

/// What `cdn_target` makes of an address, given the host that the address
/// names.
pub open spec fn target_of(host: Option<Option<Seq<char>>>) -> Result<
    (Seq<char>, Seq<char>, Seq<char>),
    CdnUrlError,
> {
    match host {
        None => Err(CdnUrlError::InvalidUrl),
        Some(None) => Err(CdnUrlError::MissingHost),
        Some(Some(name)) => {
            let parts = split_at_dots(name);
            if parts.len() < MIN_HOST_PARTS {
                Err(CdnUrlError::UnexpectedHost)
            } else {
                Ok((parts[0], parts[1], endpoint_of(parts[1])))
            }
        },
    }
}

/// There is always at least one part.
pub proof fn lemma_split_at_dots_nonempty(s: Seq<char>)
    ensures
        split_at_dots(s).len() >= 1,
    decreases s.len(),
{
    if s.len() > 0 {
        lemma_split_at_dots_nonempty(s.drop_last());
    }
}

/// The parts of `host` between its dots.
pub fn host_parts(host: &str) -> (parts: Vec<Vec<char>>)
    ensures
        word_views(parts@) == split_at_dots(host@),
        parts@.len() >= 1,
{
    let chars = chars_of(host);
    let mut parts: Vec<Vec<char>> = Vec::new();
    let mut current: Vec<char> = Vec::new();
    let n = chars.len();
    let mut i: usize = 0;
    proof {
        assert(chars@.take(0) =~= Seq::empty());
        assert(word_views(parts@).push(current@) =~= seq![Seq::<char>::empty()]);
    }
    while i < n
        invariant
            i <= n,
            n == chars.len(),
            chars@ == host@,
            split_at_dots(chars@.take(i as int)) == word_views(parts@).push(current@),
        decreases n - i,
    {
        let c = chars[i];
        let ghost done = word_views(parts@);
        let ghost word = current@;
        proof {
            assert(chars@.take(i + 1).drop_last() =~= chars@.take(i as int));
            assert(done.push(word).drop_last() =~= done);
        }
        if c == '.' {
            parts.push(current);
            current = Vec::new();
            proof {
                assert(word_views(parts@) =~= done.push(word));
            }
        } else {
            current.push(c);
        }
        i += 1;
    }
    let ghost done = word_views(parts@);
    let ghost word = current@;
    parts.push(current);
    proof {
        assert(chars@.take(n as int) =~= chars@);
        assert(word_views(parts@) =~= done.push(word));
    }
    parts
}

/// The upload target that the host `host` names.
pub fn target_of_host(host: &str) -> (r: Result<CdnTarget, CdnUrlError>)
    ensures
        match r {
            Ok(target) => target_of(Some(Some(host@))) == Ok::<
                (Seq<char>, Seq<char>, Seq<char>),
                CdnUrlError,
            >((target.bucket@, target.region@, target.endpoint@)),
            Err(e) => target_of(Some(Some(host@))) == Err::<
                (Seq<char>, Seq<char>, Seq<char>),
                CdnUrlError,
            >(e),
        },
{
    let parts = host_parts(host);
    if parts.len() < MIN_HOST_PARTS {
        return Err(CdnUrlError::UnexpectedHost);
    }
    let bucket_len = parts[0].len();
    let region_len = parts[1].len();
    let bucket = string_of(&parts[0], 0, bucket_len);
    let region = string_of(&parts[1], 0, region_len);
    let endpoint = String::from_str("https://").concat(region.as_str()).concat(
        ".digitaloceanspaces.com",
    );
    proof {
        assert(parts@[0]@.subrange(0, bucket_len as int) =~= parts@[0]@);
        assert(parts@[1]@.subrange(0, region_len as int) =~= parts@[1]@);
        assert(word_views(parts@)[0] == parts@[0]@);
        assert(word_views(parts@)[1] == parts@[1]@);
    }
    Ok(CdnTarget { bucket, region, endpoint })
}

/// The upload target that the address `cdn_url` names: the first part of its
/// host is the bucket, the second the region.
pub fn cdn_target(cdn_url: &str) -> (r: Result<CdnTarget, CdnUrlError>)
    ensures
        match r {
            Ok(target) => target_of(url_host(cdn_url@)) == Ok::<
                (Seq<char>, Seq<char>, Seq<char>),
                CdnUrlError,
            >((target.bucket@, target.region@, target.endpoint@)),
            Err(e) => target_of(url_host(cdn_url@)) == Err::<
                (Seq<char>, Seq<char>, Seq<char>),
                CdnUrlError,
            >(e),
        },
{
    match host_of_url(cdn_url) {
        Err(_) => Err(CdnUrlError::InvalidUrl),
        Ok(None) => Err(CdnUrlError::MissingHost),
        Ok(Some(host)) => target_of_host(host.as_str()),
    }
}

/// The name under which the dictionary of `language` is uploaded.
pub fn cdn_key(language: &str) -> (key: String)
    ensures
        key@ == cdn_key_of(language@),
{
    String::from_str(language).concat("-dict.db.zst")
}

/// Whether the status code of an upload tells of success.
pub fn upload_succeeded(status: u16) -> (ok: bool)
    ensures
        ok == (status < FIRST_FAILURE_STATUS),
{
    status < FIRST_FAILURE_STATUS
}

} // verus!
