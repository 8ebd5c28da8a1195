//! Release versions: reading a tag such as `v1.2.3` and deciding whether a
//! release is newer than the running one.

use crate::text::{has_prefix, parse_u32, parsed_u32, split_char, split_on, starts_with, skip_chars, views, same_text, lemma_split_on_nonempty};
use crate::external::{json_str_at, json_string_at};
use crate::text::opt_string_view;
use vstd::prelude::*;

verus! {

/// `s` without the one `v` that may lead it.
pub open spec fn without_v(s: Seq<char>) -> Seq<char> {
    if has_prefix(s, "v"@) {
        s.drop_first()
    } else {
        s
    }
}

/// The (major, minor, patch) a tag names: after an optional leading `v`,
/// at least three `.`-separated parts, the first two numbers and the third
/// a number up to any `-`. Anything else names no version.
pub open spec fn version_of(s: Seq<char>) -> Option<(u32, u32, u32)> {
    let parts = split_on(without_v(s), '.');
    if parts.len() >= 3 {
        match (parsed_u32(parts[0]), parsed_u32(parts[1]), parsed_u32(split_on(parts[2], '-')[0])) {
            (Some(a), Some(b), Some(c)) => Some((a, b, c)),
            _ => None,
        }
    } else {
        None
    }
}

/// Reads the version a release tag names, as [`version_of`] states it.
pub fn parse_version(s: &str) -> (r: Option<(u32, u32, u32)>)
    ensures
        r == version_of(s@),
{
    proof {
        reveal_strlit("v");
    }
    let t: &str = if starts_with(s, "v") {
        skip_chars(s, 1)
    } else {
        s
    };
    assert(t@ == without_v(s@));
    let parts = split_char(t, '.');
    if parts.len() < 3 {
        return None;
    }
    assert(views(parts@)[0] == parts@[0]@);
    assert(views(parts@)[1] == parts@[1]@);
    assert(views(parts@)[2] == parts@[2]@);
    let major = match parse_u32(parts[0].as_str()) {
        Some(v) => v,
        None => return None,
    };
    let minor = match parse_u32(parts[1].as_str()) {
        Some(v) => v,
        None => return None,
    };
    let patch_parts = split_char(parts[2].as_str(), '-');
    proof {
        lemma_split_on_nonempty(parts@[2]@, '-');
    }
    assert(views(patch_parts@)[0] == patch_parts@[0]@);
    let patch = match parse_u32(patch_parts[0].as_str()) {
        Some(v) => v,
        None => return None,
    };
    Some((major, minor, patch))
}

/// Whether version `l` comes after version `c`: by major, then minor, then
/// patch number.
pub open spec fn later(l: (u32, u32, u32), c: (u32, u32, u32)) -> bool {
    l.0 > c.0 || (l.0 == c.0 && (l.1 > c.1 || (l.1 == c.1 && l.2 > c.2)))
}

/// Whether the release tagged `latest` is newer than `current`. Where
/// either tag names no version, any difference counts as newer.
pub open spec fn newer(latest: Seq<char>, current: Seq<char>) -> bool {
    match (version_of(latest), version_of(current)) {
        (Some(l), Some(c)) => later(l, c),
        _ => latest != current,
    }
}

/// Whether the release tagged `latest` is newer than `current`.
pub fn is_newer(latest: &str, current: &str) -> (r: bool)
    ensures
        r == newer(latest@, current@),
{
    match (parse_version(latest), parse_version(current)) {
        (Some(l), Some(c)) => {
            if l.0 != c.0 {
                return l.0 > c.0;
            }
            if l.1 != c.1 {
                return l.1 > c.1;
            }
            l.2 > c.2
        },
        _ => !same_text(latest, current),
    }
}

/// Between two tags that name versions, the higher major number is the
/// newer release; with equal majors, the higher minor number; with equal
/// majors and minors, the higher patch number; and with all three equal,
/// neither is newer.
pub proof fn law_newer_goes_by_major_minor_patch(latest: Seq<char>, current: Seq<char>, a: u32, b: u32, p: u32, x: u32, y: u32, q: u32)
    requires
        version_of(latest) == Some((a, b, p)),
        version_of(current) == Some((x, y, q)),
    ensures
        a > x ==> newer(latest, current),
        a < x ==> !newer(latest, current),
        a == x && b > y ==> newer(latest, current),
        a == x && b < y ==> !newer(latest, current),
        a == x && b == y ==> (newer(latest, current) <==> p > q),
{
}

/// A release is never newer than itself.
pub proof fn law_no_release_is_newer_than_itself(v: Seq<char>)
    ensures
        !newer(v, v),
{
}

/// Of two releases that both name a version, at most one is newer than the
/// other.
pub proof fn law_newer_is_one_way(a: Seq<char>, b: Seq<char>)
    requires
        version_of(a) is Some,
        version_of(b) is Some,
    ensures
        !(newer(a, b) && newer(b, a)),
{
}

/// Among tags that name versions, newer than newer is newer.
pub proof fn law_newer_is_transitive(a: Seq<char>, b: Seq<char>, c: Seq<char>)
    requires
        version_of(a) is Some,
        version_of(b) is Some,
        version_of(c) is Some,
        newer(a, b),
        newer(b, c),
    ensures
        newer(a, c),
{
}

/// The address of the latest release's description in the GitHub API.
pub open spec fn latest_release_api(user: Seq<char>, repo: Seq<char>) -> Seq<char> {
    "https://api.github.com/repos/"@ + user + "/"@ + repo + "/releases/latest"@
}

/// The page of the latest release on GitHub.
pub open spec fn latest_release_page(user: Seq<char>, repo: Seq<char>) -> Seq<char> {
    "https://github.com/"@ + user + "/"@ + repo + "/releases/latest"@
}

/// The address to ask for the latest release of `user/repo`.
pub fn latest_release_url(user: &str, repo: &str) -> (r: String)
    ensures
        r@ == latest_release_api(user@, repo@),
{
    let mut u = String::from_str("https://api.github.com/repos/");
    u.append(user);
    u.append("/");
    u.append(repo);
    u.append("/releases/latest");
    u
}

/// What a release description means for the running version.
#[derive(Debug)]
pub enum UpdateOutcome {
    /// A newer release, with the page to open for it.
    Offer { tag: String, page: String },
    /// The running version is the latest.
    UpToDate,
    /// The description names no release.
    Unknown,
}

/// What the release tagged `tag` (with page `html_url`, if given) means
/// for the running version `current` of `user/repo`: a newer release is
/// offered with its page, or the release list's page when it gives none.
pub fn update_outcome(tag: Option<&str>, html_url: Option<&str>, current: &str, user: &str, repo: &str) -> (r: UpdateOutcome)
    ensures
        match tag {
            None => r is Unknown,
            Some(t) => if newer(t@, current@) {
                r matches UpdateOutcome::Offer { tag: g, page } && g@ == t@ && page@ == match html_url {
                    Some(h) => h@,
                    None => latest_release_page(user@, repo@),
                }
            } else {
                r is UpToDate
            },
        },
{
    match tag {
        None => UpdateOutcome::Unknown,
        Some(t) => {
            if is_newer(t, current) {
                let page = match html_url {
                    Some(h) => String::from_str(h),
                    None => {
                        let mut u = String::from_str("https://github.com/");
                        u.append(user);
                        u.append("/");
                        u.append(repo);
                        u.append("/releases/latest");
                        u
                    },
                };
                UpdateOutcome::Offer { tag: String::from_str(t), page }
            } else {
                UpdateOutcome::UpToDate
            }
        },
    }
}

/// The tag and page of the release a GitHub release reply `body`
/// describes: its `tag_name` and `html_url` strings, where it has them.
pub fn release_of_reply(body: &str) -> (r: (Option<String>, Option<String>))
    ensures
        opt_string_view(r.0) == json_str_at(body@, "/tag_name"@),
        opt_string_view(r.1) == json_str_at(body@, "/html_url"@),
{
    (json_string_at(body, "/tag_name"), json_string_at(body, "/html_url"))
}

} // verus!
