use vstd::prelude::*;
use vstd::string::*;
use vstd::utf8::encode_utf8;

use crate::database::CommitRecord;

verus! {

/// `s` begins with `prefix`.
pub open spec fn has_prefix(s: Seq<char>, prefix: Seq<char>) -> bool {
    prefix.len() <= s.len() && s.subrange(0, prefix.len() as int) == prefix
}

/// `s` ends with `suffix`.
pub open spec fn has_suffix(s: Seq<char>, suffix: Seq<char>) -> bool {
    suffix.len() <= s.len() && s.subrange(s.len() - suffix.len(), s.len() as int) == suffix
}

/// Index of the first `/` in `s`, or -1.
pub open spec fn first_slash(s: Seq<char>) -> int
    decreases s.len(),
{
    if s.len() == 0 {
        -1
    } else if s.last() == '/' && first_slash(s.drop_last()) < 0 {
        s.len() - 1
    } else {
        first_slash(s.drop_last())
    }
}

/// `path` without a trailing `.git`, unless nothing would be left.
pub open spec fn strip_git(path: Seq<char>) -> Seq<char> {
    if path.len() > 4 && has_suffix(path, ".git"@) {
        path.subrange(0, path.len() - 4)
    } else {
        path
    }
}

/// The host and repository path of an origin of the shape
/// `https://<host>/<path>[.git]`: the host is non-empty and runs up to the
/// first `/`, the path is the non-empty rest less a trailing `.git`.
pub open spec fn origin_parts(origin: Seq<char>) -> Option<(Seq<char>, Seq<char>)> {
    if !has_prefix(origin, "https://"@) {
        None
    } else {
        let rest = origin.subrange(8, origin.len() as int);
        let j = first_slash(rest);
        if j <= 0 || j + 1 >= rest.len() {
            None
        } else {
            Some((rest.subrange(0, j), strip_git(rest.subrange(j + 1, rest.len() as int))))
        }
    }
}

fn starts_with(s: &str, prefix: &str) -> (r: bool)
    ensures
        r == has_prefix(s@, prefix@),
{
    let n = s.unicode_len();
    let m = prefix.unicode_len();
    if m > n {
        return false;
    }
    let mut i: usize = 0;
    while i < m
        invariant
            i <= m <= n,
            n == s@.len(),
            m == prefix@.len(),
            forall|j: int| 0 <= j < i ==> s@[j] == prefix@[j],
        decreases m - i,
    {
        if s.get_char(i) != prefix.get_char(i) {
            assert(s@.subrange(0, m as int)[i as int] != prefix@[i as int]);
            return false;
        }
        i = i + 1;
    }
    assert(s@.subrange(0, m as int) =~= prefix@);
    true
}

fn ends_with(s: &str, suffix: &str) -> (r: bool)
    ensures
        r == has_suffix(s@, suffix@),
{
    let n = s.unicode_len();
    let m = suffix.unicode_len();
    if m > n {
        return false;
    }
    let start = n - m;
    let mut i: usize = 0;
    while i < m
        invariant
            i <= m <= n,
            start == n - m,
            n == s@.len(),
            m == suffix@.len(),
            forall|j: int| 0 <= j < i ==> s@[start + j] == suffix@[j],
        decreases m - i,
    {
        if s.get_char(start + i) != suffix.get_char(i) {
            assert(s@.subrange(start as int, n as int)[i as int] != suffix@[i as int]);
            return false;
        }
        i = i + 1;
    }
    assert(s@.subrange(start as int, n as int) =~= suffix@);
    true
}

proof fn lemma_first_slash(s: Seq<char>)
    ensures
        -1 <= first_slash(s) < s.len(),
        first_slash(s) >= 0 ==> s[first_slash(s)] == '/',
        forall|j: int|
            0 <= j < s.len() && (first_slash(s) < 0 || j < first_slash(s)) ==> #[trigger] s[j]
                != '/',
    decreases s.len(),
{
    if s.len() > 0 {
        let init = s.drop_last();
        lemma_first_slash(init);
        assert forall|j: int|
            0 <= j < s.len() && (first_slash(s) < 0 || j < first_slash(s)) implies #[trigger] s[j]
                != '/' by {
            if j < init.len() {
                assert(init[j] == s[j]);
            }
        }
    }
}

fn find_slash(s: &str) -> (r: Option<usize>)
    ensures
        match r {
            Some(j) => j == first_slash(s@) && j < s@.len(),
            None => first_slash(s@) == -1,
        },
{
    proof {
        lemma_first_slash(s@);
    }
    let n = s.unicode_len();
    let mut i: usize = 0;
    while i < n
        invariant
            i <= n == s@.len(),
            forall|j: int| 0 <= j < i ==> s@[j] != '/',
            -1 <= first_slash(s@) < s@.len(),
            first_slash(s@) >= 0 ==> s@[first_slash(s@)] == '/',
            forall|j: int|
                0 <= j < s@.len() && (first_slash(s@) < 0 || j < first_slash(s@)) ==> #[trigger] s@[j]
                    != '/',
        decreases n - i,
    {
        if s.get_char(i) == '/' {
            return Some(i);
        }
        i = i + 1;
    }
    None
}

/// The host and repository path of an origin.
pub struct OriginParts {
    pub host: String,
    pub path: String,
}

/// Splits an origin into host and repository path; see `origin_parts`.
pub fn parse_origin(origin: &str) -> (r: Option<OriginParts>)
    ensures
        match r {
            Some(parts) => origin_parts(origin@) == Some((parts.host@, parts.path@)),
            None => origin_parts(origin@) is None,
        },
{
    proof {
        reveal_strlit("https://");
    }
    if !starts_with(origin, "https://") {
        return None;
    }
    let n = origin.unicode_len();
    let rest = origin.substring_char(8, n);
    let j = match find_slash(rest) {
        Some(j) => j,
        None => return None,
    };
    let m = rest.unicode_len();
    if j == 0 || j >= m - 1 {
        return None;
    }
    let host = rest.substring_char(0, j);
    let tail = rest.substring_char(j + 1, m);
    let t = tail.unicode_len();
    let path = if t > 4 && ends_with(tail, ".git") {
        tail.substring_char(0, t - 4)
    } else {
        tail
    };
    Some(OriginParts { host: String::from_str(host), path: String::from_str(path) })
}


/// The hexadecimal digit of `d`, upper case.
pub open spec fn hex_digit(d: u8) -> char {
    if d < 10 {
        digit_of(d)
    } else if d == 10 { 'A' }
    else if d == 11 { 'B' }
    else if d == 12 { 'C' }
    else if d == 13 { 'D' }
    else if d == 14 { 'E' }
    else { 'F' }
}

pub open spec fn digit_of(d: u8) -> char {
    crate::text::digit_char(d as nat)
}

/// An ASCII letter or digit.
pub open spec fn is_ascii_alphanumeric(b: u8) -> bool {
    (48 <= b <= 57) || (65 <= b <= 90) || (97 <= b <= 122)
}

/// A letter or digit stands for itself; any other byte becomes `%` and its two
/// hexadecimal digits.
pub open spec fn encode_byte(b: u8) -> Seq<char> {
    if is_ascii_alphanumeric(b) {
        seq![b as char]
    } else {
        seq!['%', hex_digit(b / 16), hex_digit(b % 16)]
    }
}

/// The percent-encoding of `bytes`, byte by byte.
pub open spec fn percent_encoded(bytes: Seq<u8>) -> Seq<char>
    decreases bytes.len(),
{
    if bytes.len() == 0 {
        Seq::empty()
    } else {
        percent_encoded(bytes.drop_last()) + encode_byte(bytes.last())
    }
}

/// Relies on percent_encoding's `utf8_percent_encode` with the
/// `NON_ALPHANUMERIC` set: each byte of the UTF-8 form that is not an ASCII
/// letter or digit is written as `%` and two upper-case hexadecimal digits.
#[verifier::external_body]
fn percent_encode(s: &str) -> (r: String)
    ensures
        r@ == percent_encoded(encode_utf8(s@)),
{
    percent_encoding::utf8_percent_encode(s, percent_encoding::NON_ALPHANUMERIC).to_string()
}

/// The two known code-hosting providers.
#[derive(Clone, Copy, Debug, PartialEq, Eq, Structural)]
pub enum Provider {
    GitHub,
    GitLab,
}

/// The provider that serves `host`, if it is known.
pub open spec fn provider_of(host: Seq<char>) -> Option<Provider> {
    if host == "github.com"@ {
        Some(Provider::GitHub)
    } else if host == "gitlab.com"@ {
        Some(Provider::GitLab)
    } else {
        None
    }
}

/// The provider that serves `host`, if it is known.
pub fn provider_for_host(host: &String) -> (r: Option<Provider>)
    ensures
        r == provider_of(host@),
{
    if *host == String::from_str("github.com") {
        Some(Provider::GitHub)
    } else if *host == String::from_str("gitlab.com") {
        Some(Provider::GitLab)
    } else {
        None
    }
}

/// The two requests that fetch a commit: its message and its diff, both sent
/// with the same authentication header.
#[derive(Clone, Debug)]
pub struct FetchRequest {
    pub message_url: String,
    pub diff_url: String,
    pub auth_header: String,
    pub auth_value: String,
}

/// Why a commit's origin cannot be fetched from. Both end the session.
#[derive(Clone, Debug, PartialEq, Eq)]
pub enum OriginError {
    /// The origin is not of the shape `https://<host>/<path>[.git]`.
    Malformed,
    /// The host is neither of the known providers.
    UnsupportedHost(String),
}

/// The requests for commit `hash` of repository `path` at `provider`.
pub open spec fn request_matches(
    r: FetchRequest,
    provider: Provider,
    path: Seq<char>,
    hash: Seq<char>,
    github_token: Seq<char>,
    gitlab_token: Seq<char>,
) -> bool {
    match provider {
        Provider::GitHub => {
            &&& r.message_url@ == "https://api.github.com/repos/"@ + path + "/git/commits/"@ + hash
            &&& r.diff_url@ == "https://github.com/"@ + path + "/commit/"@ + hash + ".diff"@
            &&& r.auth_header@ == "Authorization"@
            &&& r.auth_value@ == "token "@ + github_token
        },
        Provider::GitLab => {
            &&& r.message_url@ == "https://gitlab.com/api/v4/projects/"@ + percent_encoded(
                encode_utf8(path),
            ) + "/repository/commits/"@ + hash
            &&& r.diff_url@ == "https://gitlab.com/"@ + path + "/-/commit/"@ + hash + ".diff"@
            &&& r.auth_header@ == "PRIVATE-TOKEN"@
            &&& r.auth_value@ == gitlab_token
        },
    }
}

/// The requests that fetch `commit`: its origin gives host and path, the host
/// gives the provider, and the provider gives the endpoints and the header.
pub fn plan_fetch(commit: &CommitRecord, github_token: &str, gitlab_token: &str) -> (r: Result<
    FetchRequest,
    OriginError,
>)
    ensures
        match origin_parts(commit@.origin) {
            None => r == Err::<FetchRequest, OriginError>(OriginError::Malformed),
            Some((host, path)) => match provider_of(host) {
                None => r matches Err(OriginError::UnsupportedHost(h)) && h@ == host,
                Some(provider) => r matches Ok(req) && request_matches(
                    req,
                    provider,
                    path,
                    commit@.commit,
                    github_token@,
                    gitlab_token@,
                ),
            },
        },
{
    let parts = match parse_origin(commit.origin.as_str()) {
        Some(parts) => parts,
        None => return Err(OriginError::Malformed),
    };
    let provider = match provider_for_host(&parts.host) {
        Some(p) => p,
        None => return Err(OriginError::UnsupportedHost(parts.host)),
    };
    let path = parts.path.as_str();
    let hash = commit.commit.as_str();
    match provider {
        Provider::GitHub => {
            let mut message_url = String::from_str("https://api.github.com/repos/");
            message_url.append(path);
            message_url.append("/git/commits/");
            message_url.append(hash);
            let mut diff_url = String::from_str("https://github.com/");
            diff_url.append(path);
            diff_url.append("/commit/");
            diff_url.append(hash);
            diff_url.append(".diff");
            let mut auth_value = String::from_str("token ");
            auth_value.append(github_token);
            Ok(FetchRequest {
                message_url,
                diff_url,
                auth_header: String::from_str("Authorization"),
                auth_value,
            })
        },
        Provider::GitLab => {
            let encoded = percent_encode(path);
            let mut message_url = String::from_str("https://gitlab.com/api/v4/projects/");
            message_url.append(encoded.as_str());
            message_url.append("/repository/commits/");
            message_url.append(hash);
            let mut diff_url = String::from_str("https://gitlab.com/");
            diff_url.append(path);
            diff_url.append("/-/commit/");
            diff_url.append(hash);
            diff_url.append(".diff");
            Ok(FetchRequest {
                message_url,
                diff_url,
                auth_header: String::from_str("PRIVATE-TOKEN"),
                auth_value: String::from_str(gitlab_token),
            })
        },
    }
}

/// What is shown in place of the message when the commit's metadata holds none.
pub open spec fn missing_message_text() -> Seq<char> {
    "!! Commit message not available !!"@
}

/// The text shown for a fetched commit message: the message itself, a notice
/// when the metadata held none, or the error of a failed fetch.
pub fn message_text(fetched: Result<Option<String>, String>) -> (r: String)
    ensures
        r@ == (match fetched {
            Ok(Some(m)) => m@,
            Ok(None) => missing_message_text(),
            Err(e) => e@,
        }),
{
    match fetched {
        Ok(Some(m)) => m,
        Ok(None) => String::from_str("!! Commit message not available !!"),
        Err(e) => e,
    }
}

/// The text shown for a fetched diff: the diff, or the error of a failed fetch.
pub fn diff_text(fetched: Result<String, String>) -> (r: String)
    ensures
        r@ == (match fetched {
            Ok(d) => d@,
            Err(e) => e@,
        }),
{
    match fetched {
        Ok(d) => d,
        Err(e) => e,
    }
}

} // verus!
