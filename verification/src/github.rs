//! Talking to GitHub: the repository's name there and the API's URLs.
//!
//! The HTTP requests themselves are made outside this crate.

use vstd::prelude::*;

use crate::env::require_var;
use crate::errors::Error;
use crate::text::{
    all_digits, append_chars, chars_to_string, contains, contains_seq, decimal, digits_value, find_first, first_index_of,
    is_digit, lemma_digits_value_push, matches_at, occurs_at, is_ascii_text, owned, slice_chars, str_to_chars, usize_to_chars,
};

verus! {

/// The owner and repository name that `git_url_parse` reads from a Git URL
/// with its generic provider, or `None` where it cannot read them.
pub uninterp spec fn git_url_owner_repo(url: Seq<char>) -> Option<(Seq<char>, Seq<char>)>;

/// Calls `git_url_parse::GitUrl::parse` on the URL and then
/// `provider_info::<GenericProvider>` on what it read, and gives the
/// provider's owner and repository names; the result is named
/// `git_url_owner_repo`. A URL that either step rejects gives `None`.
///
/// The parser slices a path that it judges ssh-like from its second byte.
/// That panics where the path is empty or its first character takes more
/// than one byte, so only URLs that `url_parser_safe` admits are handed to
/// it. An ASCII URL without a scheme containing `ssh` is judged ssh-like
/// only when its path starts with `:`. For an `ssh` scheme, the authority
/// (an optional user of unreserved characters and `@`, then a host of
/// unreserved characters starting with a letter or digit) is followed by
/// `/`, so the parser reads a path starting with `/`.
#[verifier::external_body]
fn url_owner_repo(url: &str) -> (res: Option<(String, String)>)
    requires
        url_parser_safe(url@),
    ensures
        match res {
            Some((o, r)) => git_url_owner_repo(url@) == Some((o@, r@)),
            None => git_url_owner_repo(url@) is None,
        },
{
    let parsed = git_url_parse::GitUrl::parse(url).ok()?;
    let p: git_url_parse::types::provider::GenericProvider = parsed.provider_info().ok()?;
    Some((p.owner().clone(), p.repo().clone()))
}

/// A character allowed in a URL scheme after its first letter.
pub open spec fn is_scheme_char(c: char) -> bool {
    ('a' <= c && c <= 'z') || ('A' <= c && c <= 'Z') || ('0' <= c && c <= '9') || c == '+' || c == '-'
        || c == '.'
}

/// An ASCII letter or digit.
pub open spec fn is_ascii_alnum_char(c: char) -> bool {
    ('a' <= c && c <= 'z') || ('A' <= c && c <= 'Z') || ('0' <= c && c <= '9')
}

/// An unreserved URL character.
pub open spec fn is_unreserved(c: char) -> bool {
    is_ascii_alnum_char(c) || c == '-' || c == '.' || c == '_' || c == '~'
}

pub open spec fn scheme_run_from(t: Seq<char>, i: int) -> int
    decreases t.len() - i,
{
    if 0 <= i < t.len() && is_scheme_char(t[i]) {
        scheme_run_from(t, i + 1)
    } else {
        i
    }
}

/// The length of the run of scheme characters that starts a URL with a
/// letter; 0 where it does not start with a letter.
pub open spec fn scheme_len(t: Seq<char>) -> int {
    if t.len() > 0 && (('a' <= t[0] && t[0] <= 'z') || ('A' <= t[0] && t[0] <= 'Z')) {
        scheme_run_from(t, 0)
    } else {
        0
    }
}

/// Whether a URL has a scheme, followed by `://`, that contains `ssh`.
pub open spec fn ssh_scheme(t: Seq<char>) -> bool {
    let i = scheme_len(t);
    i > 0 && occurs_at(t, seq![':', '/', '/'], i) && contains_seq(t.take(i), seq!['s', 's', 'h'])
}

/// A host: unreserved characters, the first a letter or digit.
pub open spec fn host_ok(h: Seq<char>) -> bool {
    h.len() > 0 && is_ascii_alnum_char(h[0]) && forall|j: int| 0 <= j < h.len() ==> is_unreserved(#[trigger] h[j])
}

/// A port: one to five decimal digits whose value fits in 16 bits.
pub open spec fn port_ok(p: Seq<char>) -> bool {
    1 <= p.len() <= 5 && all_digits(p) && digits_value(p) <= 65535
}

/// A host, optionally followed by `:` and a port.
pub open spec fn host_port_ok(h: Seq<char>) -> bool {
    match first_index_of(h, ':') {
        None => host_ok(h),
        Some(c) => host_ok(h.take(c)) && port_ok(h.skip(c + 1)),
    }
}

/// An authority: a host with an optional port, optionally preceded by a
/// user of unreserved characters and `@`.
pub open spec fn authority_ok(x: Seq<char>) -> bool {
    match first_index_of(x, '@') {
        None => host_port_ok(x),
        Some(b) => b > 0 && (forall|j: int| 0 <= j < b ==> is_unreserved(#[trigger] x[j])) && host_port_ok(
            x.skip(b + 1),
        ),
    }
}

/// The text after `://`: an authority, then `/`.
pub open spec fn after_scheme_ok(r: Seq<char>) -> bool {
    match first_index_of(r, '/') {
        Some(a) => authority_ok(r.take(a)),
        None => false,
    }
}

/// The URLs that `git_url_parse` reads without panicking, as far as this
/// crate relies on: ASCII text whose `ssh` scheme, if it has one, is
/// followed by an authority (user, host and port) and `/`.
pub open spec fn url_parser_safe(t: Seq<char>) -> bool {
    is_ascii_text(t) && (ssh_scheme(t) ==> after_scheme_ok(t.skip(scheme_len(t) + 3)))
}

fn is_unreserved_exec(c: char) -> (r: bool)
    ensures
        r == is_unreserved(c),
{
    ('a' <= c && c <= 'z') || ('A' <= c && c <= 'Z') || ('0' <= c && c <= '9') || c == '-' || c == '.' || c
        == '_' || c == '~'
}

fn all_unreserved(v: &Vec<char>, from: usize, to: usize) -> (r: bool)
    requires
        from <= to <= v@.len(),
    ensures
        r == forall|j: int| from <= j < to ==> is_unreserved(#[trigger] v@[j]),
{
    let mut i = from;
    while i < to
        invariant
            from <= i <= to,
            to <= v@.len(),
            forall|j: int| from <= j < i ==> is_unreserved(#[trigger] v@[j]),
        decreases to - i,
    {
        if !is_unreserved_exec(v[i]) {
            return false;
        }
        i = i + 1;
    }
    true
}

fn host_ok_exec(h: &Vec<char>) -> (r: bool)
    ensures
        r == host_ok(h@),
{
    if h.len() == 0 {
        return false;
    }
    let c = h[0];
    if !(('a' <= c && c <= 'z') || ('A' <= c && c <= 'Z') || ('0' <= c && c <= '9')) {
        return false;
    }
    all_unreserved(h, 0, h.len())
}

/// Ten to the power `n`.
pub open spec fn ten_pow(n: nat) -> nat
    decreases n,
{
    if n == 0 {
        1
    } else {
        10 * ten_pow((n - 1) as nat)
    }
}

fn port_ok_exec(p: &Vec<char>) -> (r: bool)
    ensures
        r == port_ok(p@),
{
    if p.len() == 0 || p.len() > 5 {
        return false;
    }
    let mut v: u32 = 0;
    let mut i: usize = 0;
    while i < p.len()
        invariant
            i <= p@.len() <= 5,
            all_digits(p@.take(i as int)),
            v as int == digits_value(p@.take(i as int)),
            v < ten_pow(i as nat),
        decreases p@.len() - i,
    {
        let c = p[i];
        if !('0' <= c && c <= '9') {
            proof {
                assert(!is_digit(p@[i as int]));
            }
            return false;
        }
        proof {
            lemma_digits_value_push(p@.take(i as int), c);
            assert(p@.take(i as int).push(c) =~= p@.take(i + 1));
            assert(ten_pow((i + 1) as nat) == 10 * ten_pow(i as nat));
            assert(ten_pow(i as nat) <= 10000) by {
                reveal_with_fuel(ten_pow, 5);
            }
            assert(is_digit(c));
            assert(v * 10 + 9 < 10 * ten_pow(i as nat)) by (nonlinear_arith)
                requires
                    v < ten_pow(i as nat),
            ;
        }
        v = v * 10 + (c as u32 - '0' as u32);
        i = i + 1;
    }
    proof {
        assert(p@.take(p@.len() as int) =~= p@);
    }
    v <= 65535
}

fn host_port_ok_exec(h: &Vec<char>) -> (r: bool)
    ensures
        r == host_port_ok(h@),
{
    match find_first(h, ':') {
        None => host_ok_exec(h),
        Some(c) => {
            assert(crate::text::is_first_index(h@, ':', c as int));
            assert(c < h.len());
            let host = slice_chars(h, 0, c);
            assert(host@ =~= h@.take(c as int));
            let port = slice_chars(h, c + 1, h.len());
            assert(port@ =~= h@.skip(c + 1));
            host_ok_exec(&host) && port_ok_exec(&port)
        },
    }
}

fn authority_ok_exec(x: &Vec<char>) -> (r: bool)
    ensures
        r == authority_ok(x@),
{
    match find_first(x, '@') {
        None => host_port_ok_exec(x),
        Some(b) => {
            assert(crate::text::is_first_index(x@, '@', b as int));
            assert(b < x.len());
            if b == 0 || !all_unreserved(x, 0, b) {
                return false;
            }
            let rest = slice_chars(x, b + 1, x.len());
            assert(rest@ =~= x@.skip(b + 1));
            host_port_ok_exec(&rest)
        },
    }
}

/// Decides whether a URL can be handed to `git_url_parse`.
fn url_parser_safe_exec(url: &str) -> (r: bool)
    ensures
        r == url_parser_safe(url@),
{
    if !ascii_only(url) {
        return false;
    }
    let t = str_to_chars(url);
    let starts_letter = t.len() > 0 && (('a' <= t[0] && t[0] <= 'z') || ('A' <= t[0] && t[0] <= 'Z'));
    let mut i: usize = 0;
    if starts_letter {
        while i < t.len() && (('a' <= t[i] && t[i] <= 'z') || ('A' <= t[i] && t[i] <= 'Z') || ('0' <= t[i]
            && t[i] <= '9') || t[i] == '+' || t[i] == '-' || t[i] == '.')
            invariant
                i <= t@.len(),
                t@ == url@,
                scheme_run_from(t@, 0) == scheme_run_from(t@, i as int),
            decreases t@.len() - i,
        {
            i = i + 1;
        }
    }
    assert(i as int == scheme_len(t@));
    if i == 0 || !matches_at(&t, &vec![':', '/', '/'], i) {
        return true;
    }
    let head = slice_chars(&t, 0, i);
    assert(head@ =~= t@.take(i as int));
    if !contains(&head, &vec!['s', 's', 'h']) {
        return true;
    }
    let rest = slice_chars(&t, i + 3, t.len());
    assert(rest@ =~= t@.skip(i + 3));
    match find_first(&rest, '/') {
        None => false,
        Some(a) => {
            let auth = slice_chars(&rest, 0, a);
            assert(auth@ =~= rest@.take(a as int));
            authority_ok_exec(&auth)
        },
    }
}


fn ascii_only(t: &str) -> (res: bool)
    ensures
        res == is_ascii_text(t@),
{
    let v = str_to_chars(t);
    let mut i: usize = 0;
    while i < v.len()
        invariant
            i <= v@.len(),
            v@ == t@,
            forall|j: int| 0 <= j < i ==> (v@[j] as u32) < 128,
        decreases v@.len() - i,
    {
        if (v[i] as u32) >= 128 {
            return false;
        }
        i = i + 1;
    }
    true
}

/// What GitHub calls a repository: `owner/repo`.
pub open spec fn spec_slug(owner: Seq<char>, repo: Seq<char>) -> Seq<char> {
    owner + "/"@ + repo
}

/// Where the API of GitHub is reached for a repository.
pub open spec fn spec_api_url(slug: Seq<char>, rest: Seq<char>) -> Seq<char> {
    "https://api.github.com/repos/"@ + slug + "/"@ + rest
}

/// The repository on GitHub and the token that logs in to it.
#[derive(Debug)]
pub struct GitHubInformation {
    /// The repository's `owner/repo` name.
    pub slug: String,
    /// The API token.
    pub token: String,
}

impl GitHubInformation {
    /// Gathers the information from the lookup of `$GITHUB_TOKEN` and the URL
    /// of the upstream remote. A URL that `url_parser_safe` does not admit
    /// is refused as unreadable.
    pub fn new(token_lookup: Option<Option<String>>, upstream_url: &str) -> (res: Result<
        GitHubInformation,
        Error,
    >)
        ensures
            match require_var_result(token_lookup) {
                None => res matches Err(e) && (e is MissingEnvVar || e is EnvVarNotUnicode),
                Some(t) => if !url_parser_safe(upstream_url@) {
                    res matches Err(Error::UpstreamUrl(u)) && u@ == upstream_url@
                } else { match git_url_owner_repo(upstream_url@) {
                    None => res matches Err(Error::UpstreamUrl(u)) && u@ == upstream_url@,
                    Some((o, r)) => res matches Ok(info) && info.token@ == t && info.slug@ == spec_slug(
                        o,
                        r,
                    ),
                } },
            },
    {
        let token = match require_var("GITHUB_TOKEN", token_lookup) {
            Ok(t) => t,
            Err(e) => return Err(e),
        };
        if !url_parser_safe_exec(upstream_url) {
            return Err(Error::UpstreamUrl(owned(upstream_url)));
        }
        match url_owner_repo(upstream_url) {
            None => Err(Error::UpstreamUrl(owned(upstream_url))),
            Some((o, r)) => {
                let mut v = str_to_chars(o.as_str());
                v.push('/');
                append_chars(&mut v, &str_to_chars(r.as_str()));
                proof {
                    reveal_strlit("/");
                    assert(v@ =~= spec_slug(o@, r@));
                }
                Ok(GitHubInformation { slug: chars_to_string(&v), token })
            },
        }
    }

    /// The URL of an API endpoint of the repository.
    pub fn api_url(&self, rest: &str) -> (res: String)
        ensures
            res@ == spec_api_url(self.slug@, rest@),
    {
        let mut v = str_to_chars("https://api.github.com/repos/");
        append_chars(&mut v, &str_to_chars(self.slug.as_str()));
        v.push('/');
        append_chars(&mut v, &str_to_chars(rest));
        proof {
            reveal_strlit("/");
            assert(v@ =~= spec_api_url(self.slug@, rest@));
        }
        chars_to_string(&v)
    }
}

/// The token that a lookup of an environment variable gives, where it gives
/// a non-empty Unicode value.
pub open spec fn require_var_result(lookup: Option<Option<String>>) -> Option<Seq<char>> {
    match lookup {
        Some(Some(v)) => if v@.len() > 0 {
            Some(v@)
        } else {
            None
        },
        _ => None,
    }
}

/// The name of the GitHub release of a project version: the project's name,
/// a space and the version.
pub fn release_name(name: &str, version: &str) -> (res: String)
    ensures
        res@ == name@ + " "@ + version@,
{
    let mut v = str_to_chars(name);
    v.push(' ');
    append_chars(&mut v, &str_to_chars(version));
    proof {
        reveal_strlit(" ");
        assert(v@ =~= name@ + " "@ + version@);
    }
    chars_to_string(&v)
}

/// The upload URL of a release without the URI template that GitHub appends
/// to it: the text before the first `{`.
pub open spec fn spec_upload_base(url: Seq<char>) -> Seq<char> {
    match first_index_of(url, '{') {
        Some(i) => url.take(i),
        None => url,
    }
}

/// Strips the URI template from the upload URL of a release.
pub fn upload_base(url: &str) -> (res: String)
    ensures
        res@ == spec_upload_base(url@),
{
    let v = str_to_chars(url);
    match find_first(&v, '{') {
        Some(i) => chars_to_string(&slice_chars(&v, 0, i)),
        None => owned(url),
    }
}

/// The identifiers of the assets of a release, given as `(name, id)`
/// pairs, whose name is `name`: those that an upload with overwriting
/// deletes first.
pub open spec fn spec_assets_named(assets: Seq<(String, String)>, name: Seq<char>) -> Seq<Seq<char>>
    decreases assets.len(),
{
    if assets.len() == 0 {
        Seq::empty()
    } else {
        let rest = spec_assets_named(assets.drop_last(), name);
        if assets.last().0@ == name {
            rest.push(assets.last().1@)
        } else {
            rest
        }
    }
}

/// Picks the identifiers of the assets with a given name.
pub fn assets_named(assets: &Vec<(String, String)>, name: &str) -> (res: Vec<String>)
    ensures
        crate::pypa::lines_view(res@) == spec_assets_named(assets@, name@),
{
    let mut out: Vec<String> = Vec::new();
    let mut i: usize = 0;
    let target = owned(name);
    while i < assets.len()
        invariant
            i <= assets@.len(),
            target@ == name@,
            crate::pypa::lines_view(out@) == spec_assets_named(assets@.take(i as int), name@),
        decreases assets@.len() - i,
    {
        proof {
            assert(assets@.take(i + 1).drop_last() =~= assets@.take(i as int));
        }
        if assets[i].0 == target {
            out.push(assets[i].1.clone());
            proof {
                assert(crate::pypa::lines_view(out@) =~= spec_assets_named(assets@.take(i as int), name@).push(
                    assets@[i as int].1@,
                ));
            }
        }
        i = i + 1;
    }
    proof {
        assert(assets@.take(assets@.len() as int) =~= assets@);
    }
    out
}

/// The closing report of `cranko github create-releases`, if any, after
/// releases were created for `n_released` of `n_selected` selected
/// projects, with `true` where the report is a warning.
pub open spec fn spec_release_summary(no_names: bool, n_released: nat, n_selected: nat) -> Option<(Seq<char>, bool)> {
    if no_names && n_released != 1 {
        Some(("created GitHub releases for "@ + decimal(n_released) + " of "@ + decimal(n_selected) + " projects"@, false))
    } else if n_released != n_selected {
        Some(
            (
                "created GitHub releases for "@ + decimal(n_released) + " of "@ + decimal(n_selected)
                    + " selected projects"@,
                true,
            ),
        )
    } else {
        None
    }
}

/// Writes the closing report of `cranko github create-releases`.
pub fn release_summary(no_names: bool, n_released: usize, n_selected: usize) -> (res: Option<(String, bool)>)
    ensures
        match res {
            Some((t, w)) => spec_release_summary(no_names, n_released as nat, n_selected as nat) == Some((t@, w)),
            None => spec_release_summary(no_names, n_released as nat, n_selected as nat) is None,
        },
{
    if (no_names && n_released != 1) || n_released != n_selected {
        let mut v = str_to_chars("created GitHub releases for ");
        append_chars(&mut v, &usize_to_chars(n_released));
        append_chars(&mut v, &str_to_chars(" of "));
        append_chars(&mut v, &usize_to_chars(n_selected));
        let warn = !(no_names && n_released != 1);
        if warn {
            append_chars(&mut v, &str_to_chars(" selected projects"));
        } else {
            append_chars(&mut v, &str_to_chars(" projects"));
        }
        Some((chars_to_string(&v), warn))
    } else {
        None
    }
}

} // verus!
