//! The texts of the notifications and dialogs, filled in from their
//! templates. A template names its blanks (`{text}`, `{short_url}`, …) or
//! leaves them anonymous (`{}`), to be filled in order.

use crate::text::{replace_text, replaced, replaced_first};
use vstd::prelude::*;

verus! {

/// `template` with the named blanks `n1` and `n2` filled with `v1` and
/// `v2`, then its first two anonymous blanks filled with `v1` and `v2` in
/// that order.
pub open spec fn filled_pair(template: Seq<char>, n1: Seq<char>, v1: Seq<char>, n2: Seq<char>, v2: Seq<char>) -> Seq<char> {
    replaced_first(replaced_first(replaced(replaced(template, n1, v1), n2, v2), "{}"@, v1), "{}"@, v2)
}

fn fill_pair(template: &str, n1: &str, v1: &str, n2: &str, v2: &str) -> (r: String)
    requires
        n1@.len() > 0,
        n2@.len() > 0,
    ensures
        r@ == filled_pair(template@, n1@, v1@, n2@, v2@),
{
    proof {
        reveal_strlit("{}");
    }
    let a = replace_text(template, n1, v1, true);
    let b = replace_text(a.as_str(), n2, v2, true);
    let c = replace_text(b.as_str(), "{}", v1, false);
    replace_text(c.as_str(), "{}", v2, false)
}

/// The notice that `text` on the clipboard was replaced by `response`.
pub fn shortened_notice(template: &str, text: &str, response: &str) -> (r: String)
    ensures
        r@ == filled_pair(template@, "{text}"@, text@, "{response}"@, response@),
{
    proof {
        reveal_strlit("{text}");
        reveal_strlit("{response}");
    }
    fill_pair(template, "{text}", text, "{response}", response)
}

/// The notice that `short_url` was deleted and `long_url` restored.
pub fn restored_notice(template: &str, short_url: &str, long_url: &str) -> (r: String)
    ensures
        r@ == filled_pair(template@, "{short_url}"@, short_url@, "{long_url}"@, long_url@),
{
    proof {
        reveal_strlit("{short_url}");
        reveal_strlit("{long_url}");
    }
    fill_pair(template, "{short_url}", short_url, "{long_url}", long_url)
}

/// The notice that `short_url` was copied from the history: every blank,
/// named or not, is filled with it.
pub fn copied_notice(template: &str, short_url: &str) -> (r: String)
    ensures
        r@ == replaced(replaced(template@, "{short_url}"@, short_url@), "{}"@, short_url@),
{
    proof {
        reveal_strlit("{short_url}");
        reveal_strlit("{}");
    }
    let a = replace_text(template, "{short_url}", short_url, true);
    replace_text(a.as_str(), "{}", short_url, true)
}

/// The question whether to open the release `tag`, newer than `current`:
/// the named blanks, then every anonymous blank with the tag (so that a
/// further fill with the current version finds none left).
pub fn new_release_notice(template: &str, tag: &str, current: &str) -> (r: String)
    ensures
        r@ == replaced_first(
            replaced(
                replaced(replaced(template@, "{tag_name}"@, tag@), "{current_version}"@, current@),
                "{}"@,
                tag@,
            ),
            "{}"@,
            current@,
        ),
{
    proof {
        reveal_strlit("{tag_name}");
        reveal_strlit("{current_version}");
        reveal_strlit("{}");
    }
    let a = replace_text(template, "{tag_name}", tag, true);
    let b = replace_text(a.as_str(), "{current_version}", current, true);
    let c = replace_text(b.as_str(), "{}", tag, true);
    replace_text(c.as_str(), "{}", current, false)
}

/// The message that `current` is the latest version.
pub fn up_to_date_notice(template: &str, current: &str) -> (r: String)
    ensures
        r@ == replaced(replaced(template@, "{current_version}"@, current@), "{}"@, current@),
{
    proof {
        reveal_strlit("{current_version}");
        reveal_strlit("{}");
    }
    let a = replace_text(template, "{current_version}", current, true);
    replace_text(a.as_str(), "{}", current, true)
}

} // verus!
