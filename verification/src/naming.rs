//! The service naming rule of the control plane: a fully qualified
//! service name `app.id.part/service[/sub...]` is split into the
//! application id, the service path, and the descriptor file path
//! `app.id.part/service....rsc`.
//!
//! The application id must hold at least three dot-separated parts. The
//! file part of the service path — what follows its last slash — may
//! carry the `.rsc` suffix already, and no other: a suffix after the
//! file part's last dot counts as an extension unless the dot begins the
//! file part.

use vstd::prelude::*;
use vstd::string::StrSliceExecFns;
use vstd::string::StringExecFns;

verus! {

/// Why a service name was rejected.
#[derive(Debug, Clone, Copy, PartialEq, Eq, Structural)]
pub enum ParseServiceError {
    /// No slash: the name carries no service part.
    InvalidFormat,
    /// The application id has fewer than three dot-separated parts.
    InvalidAppId,
    /// The service part is empty.
    EmptyServiceName,
    /// The file part carries an extension other than `rsc`.
    InvalidExtension,
}

/// The first position at or after `i` holding `c`, or the length.
pub open spec fn find_from(s: Seq<char>, i: int, c: char) -> int
    decreases s.len() - i,
{
    if i < 0 || i >= s.len() {
        s.len() as int
    } else if s[i] == c {
        i
    } else {
        find_from(s, i + 1, c)
    }
}

/// The last position at or before `i` holding `c`, or `-1`.
pub open spec fn rfind_upto(s: Seq<char>, i: int, c: char) -> int
    decreases i + 1,
{
    if i < 0 || i >= s.len() {
        -1
    } else if s[i] == c {
        i
    } else {
        rfind_upto(s, i - 1, c)
    }
}

/// How often `c` occurs at or after `i`.
pub open spec fn count_from(s: Seq<char>, i: int, c: char) -> int
    decreases s.len() - i,
{
    if i < 0 || i >= s.len() {
        0
    } else if s[i] == c {
        1 + count_from(s, i + 1, c)
    } else {
        count_from(s, i + 1, c)
    }
}

/// Whether `s` ends with `suffix`.
pub open spec fn ends_with(s: Seq<char>, suffix: Seq<char>) -> bool {
    s.len() >= suffix.len() && s.subrange(s.len() - suffix.len(), s.len() as int) == suffix
}

/// What `parse_service` returns on each input, over character sequences:
/// the application id before the first slash, the service part after it,
/// and the descriptor file path, or the reason the name was rejected.
pub open spec fn spec_parse_service(s: Seq<char>) -> Result<
    (Seq<char>, Seq<char>, Seq<char>),
    ParseServiceError,
> {
    let slash = find_from(s, 0, '/');
    if slash == s.len() {
        Err(ParseServiceError::InvalidFormat)
    } else {
        let app_id = s.subrange(0, slash);
        let service = s.subrange(slash + 1, s.len() as int);
        if count_from(app_id, 0, '.') < 2 {
            Err(ParseServiceError::InvalidAppId)
        } else if service.len() == 0 {
            Err(ParseServiceError::EmptyServiceName)
        } else {
            let fstart = rfind_upto(service, service.len() - 1, '/') + 1;
            let f = service.subrange(fstart, service.len() as int);
            let dot = rfind_upto(f, f.len() - 1, '.');
            if dot >= 1 && f.subrange(dot + 1, f.len() as int) != "rsc"@ {
                Err(ParseServiceError::InvalidExtension)
            } else if ends_with(service, ".rsc"@) {
                if service == ".rsc"@ || ends_with(service, "/.rsc"@) {
                    Err(ParseServiceError::EmptyServiceName)
                } else {
                    Ok((app_id, service, app_id + "/"@ + service))
                }
            } else {
                Ok((app_id, service, app_id + "/"@ + service + ".rsc"@))
            }
        }
    }
}

/// The first position of `c` in `t`, or `t`'s length.
fn find_char(t: &str, c: char) -> (r: usize)
    ensures
        r as int == find_from(t@, 0, c),
        r <= t@.len(),
{
    let n = t.unicode_len();
    let mut i: usize = 0;
    while i < n
        invariant
            n == t@.len(),
            i <= n,
            find_from(t@, 0, c) == find_from(t@, i as int, c),
        decreases n - i,
    {
        if t.get_char(i) == c {
            return i;
        }
        i += 1;
    }
    n
}

/// The last position of `c` in `t`, if any.
fn rfind_char(t: &str, c: char) -> (r: Option<usize>)
    ensures
        match r {
            Some(j) => j < t@.len() && rfind_upto(t@, t@.len() - 1, c) == j as int,
            None => rfind_upto(t@, t@.len() - 1, c) == -1,
        },
{
    let n = t.unicode_len();
    let mut j: usize = n;
    while j > 0
        invariant
            n == t@.len(),
            j <= n,
            rfind_upto(t@, n as int - 1, c) == rfind_upto(t@, j as int - 1, c),
        decreases j,
    {
        if t.get_char(j - 1) == c {
            return Some(j - 1);
        }
        j -= 1;
    }
    None
}

/// How often `c` occurs in `t`.
fn count_char(t: &str, c: char) -> (r: usize)
    ensures
        r as int == count_from(t@, 0, c),
{
    let n = t.unicode_len();
    let mut i: usize = 0;
    let mut cnt: usize = 0;
    while i < n
        invariant
            n == t@.len(),
            i <= n,
            cnt <= i,
            count_from(t@, 0, c) == cnt + count_from(t@, i as int, c),
        decreases n - i,
    {
        if t.get_char(i) == c {
            cnt += 1;
        }
        i += 1;
    }
    proof {
        assert(count_from(t@, n as int, c) == 0);
    }
    cnt
}

/// Splits a fully qualified service name into application id, service
/// part, and descriptor file path; rejects a name that carries no
/// service, a short application id, or a foreign extension.
pub fn parse_service(service_name: &str) -> (r: Result<
    (String, String, String),
    ParseServiceError,
>)
    ensures
        match r {
            Ok((a, sv, p)) => spec_parse_service(service_name@) == Ok::<
                (Seq<char>, Seq<char>, Seq<char>),
                ParseServiceError,
            >((a@, sv@, p@)),
            Err(e) => spec_parse_service(service_name@) == Err::<
                (Seq<char>, Seq<char>, Seq<char>),
                ParseServiceError,
            >(e),
        },
{
    let n = service_name.unicode_len();
    let slash = find_char(service_name, '/');
    if slash == n {
        return Err(ParseServiceError::InvalidFormat);
    }
    let app_id = service_name.substring_char(0, slash);
    let service = service_name.substring_char(slash + 1, n);
    if count_char(app_id, '.') < 2 {
        return Err(ParseServiceError::InvalidAppId);
    }
    let m = service.unicode_len();
    if m == 0 {
        return Err(ParseServiceError::EmptyServiceName);
    }
    let fstart = match rfind_char(service, '/') {
        Some(p) => p + 1,
        None => 0,
    };
    let f = service.substring_char(fstart, m);
    let dot = rfind_char(f, '.');
    if let Some(d) = dot {
        if d >= 1 {
            let flen = f.unicode_len();
            let ext = f.substring_char(d + 1, flen).to_owned();
            if !ext.eq(&"rsc".to_owned()) {
                return Err(ParseServiceError::InvalidExtension);
            }
        }
    }
    proof {
        reveal_strlit(".rsc");
        reveal_strlit("/.rsc");
    }
    let has_rsc_suffix = m >= 4 && service.substring_char(m - 4, m).to_owned().eq(
        &".rsc".to_owned(),
    );
    if has_rsc_suffix {
        let bare = service.to_owned().eq(&".rsc".to_owned());
        let hidden = m >= 5 && service.substring_char(m - 5, m).to_owned().eq(
            &"/.rsc".to_owned(),
        );
        if bare || hidden {
            return Err(ParseServiceError::EmptyServiceName);
        }
        let path = app_id.to_owned().concat("/").concat(service);
        Ok((app_id.to_owned(), service.to_owned(), path))
    } else {
        let path = app_id.to_owned().concat("/").concat(service).concat(".rsc");
        Ok((app_id.to_owned(), service.to_owned(), path))
    }
}

} // verus!
