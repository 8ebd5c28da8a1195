//! The recent links of every server, merged into one list for the menu:
//! each server's links newest first, taken in turns, each long URL once,
//! with the selected server's short URL wherever it has one.

use crate::external::{json_keys_at, json_object_keys_at, json_str_at, json_string_at};
use crate::text::{has_prefix, opt_string_view, views, parse_u32, parsed_u32, same_text, skip_chars, starts_with};
use vstd::prelude::*;

verus! {

/// A link as (long URL, short URL).
pub type LinkView = (Seq<char>, Seq<char>);

/// The number a `links` key of the stats API carries: `link_<n>` gives
/// `n`; anything else, or a number that does not fit, gives 0.
pub open spec fn link_number(key: Seq<char>) -> u32 {
    if has_prefix(key, "link_"@) {
        match parsed_u32(key.skip("link_"@.len() as int)) {
            Some(n) => n,
            None => 0,
        }
    } else {
        0
    }
}

/// The number of the stats entry under `key`.
pub fn link_id(key: &str) -> (r: u32)
    ensures
        r == link_number(key@),
{
    if starts_with(key, "link_") {
        match parse_u32(skip_chars(key, "link_".unicode_len())) {
            Some(n) => n,
            None => 0,
        }
    } else {
        0
    }
}

/// The views of a list of links.
pub open spec fn link_views(v: Seq<(String, String)>) -> Seq<LinkView> {
    v.map_values(|p: (String, String)| (p.0@, p.1@))
}

/// The views of numbered links.
pub open spec fn entry_views(v: Seq<(u32, String, String)>) -> Seq<(u32, Seq<char>, Seq<char>)> {
    v.map_values(|e: (u32, String, String)| (e.0, e.1@, e.2@))
}

/// `sorted`, which is in decreasing order of number, with `e` placed after
/// every entry whose number is at least its own.
pub open spec fn insert_newest_first(sorted: Seq<(u32, Seq<char>, Seq<char>)>, e: (u32, Seq<char>, Seq<char>)) -> Seq<(u32, Seq<char>, Seq<char>)>
    decreases sorted.len(),
{
    if sorted.len() == 0 {
        seq![e]
    } else if sorted[0].0 >= e.0 {
        seq![sorted[0]] + insert_newest_first(sorted.drop_first(), e)
    } else {
        seq![e] + sorted
    }
}

/// `s` in decreasing order of number, entries with equal numbers in their
/// order in `s`: a stable sort, newest link first.
pub open spec fn newest_first(s: Seq<(u32, Seq<char>, Seq<char>)>) -> Seq<(u32, Seq<char>, Seq<char>)>
    decreases s.len(),
{
    if s.len() == 0 {
        s
    } else {
        insert_newest_first(newest_first(s.drop_last()), s.last())
    }
}

proof fn lemma_insert_at(sorted: Seq<(u32, Seq<char>, Seq<char>)>, e: (u32, Seq<char>, Seq<char>), j: int)
    requires
        0 <= j <= sorted.len(),
        forall|k: int| 0 <= k < j ==> #[trigger] sorted[k].0 >= e.0,
        j < sorted.len() ==> sorted[j].0 < e.0,
    ensures
        insert_newest_first(sorted, e) == sorted.insert(j, e),
    decreases sorted.len(),
{
    if sorted.len() == 0 {
        assert(sorted.insert(j, e) =~= seq![e]);
    } else if j == 0 {
        assert(sorted.insert(0, e) =~= seq![e] + sorted);
    } else {
        let t = sorted.drop_first();
        assert forall|k: int| 0 <= k < j - 1 implies #[trigger] t[k].0 >= e.0 by {
            assert(t[k] == sorted[k + 1]);
        }
        lemma_insert_at(t, e, j - 1);
        assert(sorted.insert(j, e) =~= seq![sorted[0]] + t.insert(j - 1, e));
    }
}

/// Whether `s` is in decreasing order of number.
pub open spec fn is_newest_first(s: Seq<(u32, Seq<char>, Seq<char>)>) -> bool {
    forall|i: int, j: int| 0 <= i < j < s.len() ==> #[trigger] s[i].0 >= #[trigger] s[j].0
}

/// Whether an entry carries the number `n`.
pub open spec fn numbered_as(n: u32) -> spec_fn((u32, Seq<char>, Seq<char>)) -> bool {
    |e: (u32, Seq<char>, Seq<char>)| e.0 == n
}

proof fn lemma_none_numbered(s: Seq<(u32, Seq<char>, Seq<char>)>, n: u32)
    requires
        forall|k: int| 0 <= k < s.len() ==> #[trigger] s[k].0 != n,
    ensures
        s.filter(numbered_as(n)) == Seq::<(u32, Seq<char>, Seq<char>)>::empty(),
{
    let f = s.filter(numbered_as(n));
    if f.len() > 0 {
        s.lemma_filter_pred(numbered_as(n), 0);
        assert(f.contains(f[0]));
        s.lemma_filter_contains_rev(numbered_as(n), f[0]);
        let k = choose|k: int| 0 <= k < s.len() && s[k] == f[0];
        assert(s[k].0 != n);
    }
    assert(f =~= Seq::<(u32, Seq<char>, Seq<char>)>::empty());
}

proof fn lemma_filter_single(e: (u32, Seq<char>, Seq<char>), n: u32)
    ensures
        seq![e].filter(numbered_as(n)) == if e.0 == n {
            seq![e]
        } else {
            Seq::<(u32, Seq<char>, Seq<char>)>::empty()
        },
{
    reveal_with_fuel(Seq::<_>::filter, 2);
    assert(seq![e].drop_last() =~= Seq::<(u32, Seq<char>, Seq<char>)>::empty());
    if e.0 == n {
        assert(Seq::<(u32, Seq<char>, Seq<char>)>::empty().push(e) =~= seq![e]);
    }
}

proof fn lemma_insert_newest_first(sorted: Seq<(u32, Seq<char>, Seq<char>)>, e: (u32, Seq<char>, Seq<char>))
    requires
        is_newest_first(sorted),
    ensures
        insert_newest_first(sorted, e).len() == sorted.len() + 1,
        insert_newest_first(sorted, e)[0] == e || (sorted.len() > 0 && insert_newest_first(sorted, e)[0] == sorted[0]),
        is_newest_first(insert_newest_first(sorted, e)),
        forall|n: u32| #[trigger] insert_newest_first(sorted, e).filter(numbered_as(n)) == if e.0 == n {
            sorted.filter(numbered_as(n)).push(e)
        } else {
            sorted.filter(numbered_as(n))
        },
    decreases sorted.len(),
{
    broadcast use Seq::filter_distributes_over_add;
    let r = insert_newest_first(sorted, e);
    if sorted.len() == 0 {
        assert forall|n: u32| #[trigger] r.filter(numbered_as(n)) == if e.0 == n {
            sorted.filter(numbered_as(n)).push(e)
        } else {
            sorted.filter(numbered_as(n))
        } by {
            lemma_filter_single(e, n);
            reveal_with_fuel(Seq::<_>::filter, 1);
            assert(sorted.filter(numbered_as(n)) =~= Seq::<(u32, Seq<char>, Seq<char>)>::empty());
            assert(Seq::<(u32, Seq<char>, Seq<char>)>::empty().push(e) =~= seq![e]);
        }
    } else if sorted[0].0 >= e.0 {
        let rest = sorted.drop_first();
        assert(is_newest_first(rest)) by {
            assert forall|i: int, j: int| 0 <= i < j < rest.len() implies #[trigger] rest[i].0 >= #[trigger] rest[j].0 by {
                assert(rest[i] == sorted[i + 1] && rest[j] == sorted[j + 1]);
            }
        }
        lemma_insert_newest_first(rest, e);
        let t = insert_newest_first(rest, e);
        assert(r == seq![sorted[0]] + t);
        assert(t[0].0 <= sorted[0].0) by {
            if t[0] != e {
                assert(t[0] == rest[0] && rest[0] == sorted[1]);
            }
        }
        assert forall|i: int, j: int| 0 <= i < j < r.len() implies #[trigger] r[i].0 >= #[trigger] r[j].0 by {
            if i == 0 {
                if j > 1 {
                    assert(t[0].0 >= t[j - 1].0);
                }
                assert(r[j] == t[j - 1]);
            } else {
                assert(r[i] == t[i - 1] && r[j] == t[j - 1]);
            }
        }
        assert(sorted =~= seq![sorted[0]] + rest);
        assert forall|n: u32| #[trigger] r.filter(numbered_as(n)) == if e.0 == n {
            sorted.filter(numbered_as(n)).push(e)
        } else {
            sorted.filter(numbered_as(n))
        } by {
            let head = seq![sorted[0]].filter(numbered_as(n));
            assert(r.filter(numbered_as(n)) == head + t.filter(numbered_as(n)));
            assert(sorted.filter(numbered_as(n)) == head + rest.filter(numbered_as(n)));
            if e.0 == n {
                assert(head + rest.filter(numbered_as(n)).push(e) =~= (head + rest.filter(numbered_as(n))).push(e));
            }
        }
    } else {
        assert(r == seq![e] + sorted);
        assert forall|i: int, j: int| 0 <= i < j < r.len() implies #[trigger] r[i].0 >= #[trigger] r[j].0 by {
            if i == 0 {
                assert(r[j] == sorted[j - 1]);
                if j > 1 {
                    assert(sorted[0].0 >= sorted[j - 1].0);
                }
            } else {
                assert(r[i] == sorted[i - 1] && r[j] == sorted[j - 1]);
            }
        }
        assert forall|n: u32| #[trigger] r.filter(numbered_as(n)) == if e.0 == n {
            sorted.filter(numbered_as(n)).push(e)
        } else {
            sorted.filter(numbered_as(n))
        } by {
            lemma_filter_single(e, n);
            assert(r.filter(numbered_as(n)) == seq![e].filter(numbered_as(n)) + sorted.filter(numbered_as(n)));
            if e.0 == n {
                assert forall|k: int| 0 <= k < sorted.len() implies #[trigger] sorted[k].0 != n by {
                    if k > 0 {
                        assert(sorted[0].0 >= sorted[k].0);
                    }
                }
                lemma_none_numbered(sorted, n);
                assert(seq![e] + Seq::<(u32, Seq<char>, Seq<char>)>::empty() =~= Seq::<(u32, Seq<char>, Seq<char>)>::empty().push(e));
            } else {
                assert(Seq::<(u32, Seq<char>, Seq<char>)>::empty() + sorted.filter(numbered_as(n)) =~= sorted.filter(numbered_as(n)));
            }
        }
    }
}

/// A server's links come newest first: in decreasing order of number, and
/// the links of any one number exactly as they came, in the same order.
/// So the result holds every link given, each once, and nothing else.
pub proof fn law_links_are_newest_first_and_stable(s: Seq<(u32, Seq<char>, Seq<char>)>)
    ensures
        newest_first(s).len() == s.len(),
        is_newest_first(newest_first(s)),
        forall|n: u32| #[trigger] newest_first(s).filter(numbered_as(n)) == s.filter(numbered_as(n)),
    decreases s.len(),
{
    if s.len() == 0 {
        assert forall|n: u32| #[trigger] newest_first(s).filter(numbered_as(n)) == s.filter(numbered_as(n)) by {}
    } else {
        let d = s.drop_last();
        law_links_are_newest_first_and_stable(d);
        lemma_insert_newest_first(newest_first(d), s.last());
        assert forall|n: u32| #[trigger] newest_first(s).filter(numbered_as(n)) == s.filter(numbered_as(n)) by {
            reveal_with_fuel(Seq::<_>::filter, 1);
            assert(newest_first(d).filter(numbered_as(n)) == d.filter(numbered_as(n)));
        }
    }
}

/// The links of one server, newest first (highest number first, ties in
/// the order given), without their numbers.
pub fn order_links(entries: &Vec<(u32, String, String)>) -> (r: Vec<(String, String)>)
    ensures
        link_views(r@) == newest_first(entry_views(entries@)).map_values(
            |e: (u32, Seq<char>, Seq<char>)| (e.1, e.2),
        ),
{
    let ghost ev = entry_views(entries@);
    let n = entries.len();
    let mut order: Vec<(u32, usize)> = Vec::new();
    let mut i: usize = 0;
    assert(ev.take(0) =~= Seq::<(u32, Seq<char>, Seq<char>)>::empty());
    while i < n
        invariant
            i <= n,
            n == entries@.len(),
            ev == entry_views(entries@),
            order@.len() == i,
            forall|k: int| 0 <= k < i ==> #[trigger] order@[k].1 < n,
            forall|k: int| 0 <= k < i ==> #[trigger] order@[k].0 == ev[order@[k].1 as int].0,
            order@.map_values(|p: (u32, usize)| ev[p.1 as int]) == newest_first(ev.take(i as int)),
        decreases n - i,
    {
        let id = entries[i].0;
        assert(ev[i as int].0 == id);
        let ghost sorted = newest_first(ev.take(i as int));
        let ghost e = ev[i as int];
        let mut j: usize = 0;
        while j < order.len() && order[j].0 >= id
            invariant
                j <= order@.len(),
                order@.len() == i,
                id == e.0,
                e == ev[i as int],
                sorted == order@.map_values(|p: (u32, usize)| ev[p.1 as int]),
                forall|k: int| 0 <= k < i ==> #[trigger] order@[k].1 < n,
                forall|k: int| 0 <= k < i ==> #[trigger] order@[k].0 == ev[order@[k].1 as int].0,
                forall|k: int| 0 <= k < j ==> #[trigger] sorted[k].0 >= e.0,
                ev == entry_views(entries@),
                i < n,
                n == entries@.len(),
            decreases order@.len() - j,
        {
            assert(sorted[j as int] == ev[order@[j as int].1 as int]);
            j = j + 1;
        }
        proof {
            if j < order@.len() {
                assert(sorted[j as int] == ev[order@[j as int].1 as int]);
            }
            lemma_insert_at(sorted, e, j as int);
            assert(ev.take(i + 1).drop_last() =~= ev.take(i as int));
        }
        let ghost before = order@;
        order.insert(j, (id, i));
        assert(order@ == before.insert(j as int, (id, i)));
        assert(order@.map_values(|p: (u32, usize)| ev[p.1 as int]) =~= sorted.insert(j as int, e));
        i = i + 1;
    }
    assert(ev.take(n as int) =~= ev);
    let mut out: Vec<(String, String)> = Vec::new();
    let mut k: usize = 0;
    while k < n
        invariant
            k <= n,
            n == entries@.len(),
            order@.len() == n,
            ev == entry_views(entries@),
            forall|q: int| 0 <= q < n ==> #[trigger] order@[q].1 < n,
            order@.map_values(|p: (u32, usize)| ev[p.1 as int]) == newest_first(ev),
            link_views(out@) =~= newest_first(ev).take(k as int).map_values(
                |e: (u32, Seq<char>, Seq<char>)| (e.1, e.2),
            ),
        decreases n - k,
    {
        let idx = order[k].1;
        let long = entries[idx].1.clone();
        let short = entries[idx].2.clone();
        assert(newest_first(ev)[k as int] == ev[idx as int]);
        let ghost before = out@;
        out.push((long, short));
        assert(ev[idx as int] == (entries@[idx as int].0, entries@[idx as int].1@, entries@[idx as int].2@));
        assert(link_views(out@) =~= link_views(before).push((ev[idx as int].1, ev[idx as int].2)));
        assert(newest_first(ev).take(k + 1) =~= newest_first(ev).take(k as int).push(ev[idx as int]));
        k = k + 1;
    }
    assert(newest_first(ev).take(n as int) =~= newest_first(ev));
    out
}

/// The names of the servers that answered, in order.
pub open spec fn history_names(h: Seq<(String, Vec<(String, String)>)>) -> Seq<Seq<char>> {
    h.map_values(|e: (String, Vec<(String, String)>)| e.0@)
}

/// Their link lists, in order.
pub open spec fn history_lists(h: Seq<(String, Vec<(String, String)>)>) -> Seq<Seq<LinkView>> {
    h.map_values(|e: (String, Vec<(String, String)>)| link_views(e.1@))
}

/// The length of the longest list.
pub open spec fn longest(lists: Seq<Seq<LinkView>>) -> nat
    decreases lists.len(),
{
    if lists.len() == 0 {
        0
    } else {
        let m = longest(lists.drop_last());
        if lists.last().len() > m {
            lists.last().len()
        } else {
            m
        }
    }
}

/// The links at position `idx` of every list that is long enough, in the
/// order of the lists.
pub open spec fn round(lists: Seq<Seq<LinkView>>, idx: int) -> Seq<LinkView>
    decreases lists.len(),
{
    if lists.len() == 0 {
        Seq::empty()
    } else {
        let r = round(lists.drop_last(), idx);
        if idx < lists.last().len() {
            r.push(lists.last()[idx])
        } else {
            r
        }
    }
}

/// The first `k` rounds, one after the other.
pub open spec fn rounds(lists: Seq<Seq<LinkView>>, k: nat) -> Seq<LinkView>
    decreases k,
{
    if k == 0 {
        Seq::empty()
    } else {
        rounds(lists, (k - 1) as nat) + round(lists, k - 1)
    }
}

/// The lists taken in turns: every list's first link, then every list's
/// second, and so on.
pub open spec fn in_turns(lists: Seq<Seq<LinkView>>) -> Seq<LinkView> {
    rounds(lists, longest(lists))
}

/// The long URLs of `s`.
pub open spec fn longs(s: Seq<LinkView>) -> Seq<Seq<char>> {
    s.map_values(|p: LinkView| p.0)
}

/// `s` with each link whose long URL came earlier left out.
pub open spec fn first_of_each(s: Seq<LinkView>) -> Seq<LinkView>
    decreases s.len(),
{
    if s.len() == 0 {
        s
    } else {
        let d = first_of_each(s.drop_last());
        if longs(d).contains(s.last().0) {
            d
        } else {
            d.push(s.last())
        }
    }
}

/// The index of the first server named `name`.
pub open spec fn index_named(names: Seq<Seq<char>>, name: Seq<char>) -> Option<int>
    decreases names.len(),
{
    if names.len() == 0 {
        None
    } else if names[0] == name {
        Some(0)
    } else {
        match index_named(names.drop_first(), name) {
            Some(i) => Some(i + 1),
            None => None,
        }
    }
}

/// The links of the selected server, when one is selected by name and it
/// answered; else none.
pub open spec fn selected_links(names: Seq<Seq<char>>, lists: Seq<Seq<LinkView>>, selected: Seq<char>) -> Seq<LinkView> {
    if selected == "Random"@ {
        Seq::empty()
    } else {
        match index_named(names, selected) {
            Some(k) => lists[k],
            None => Seq::empty(),
        }
    }
}

/// The short URL that `links` first gives `long`, if any.
pub open spec fn short_for(links: Seq<LinkView>, long: Seq<char>) -> Option<Seq<char>>
    decreases links.len(),
{
    if links.len() == 0 {
        None
    } else if links[0].0 == long {
        Some(links[0].1)
    } else {
        short_for(links.drop_first(), long)
    }
}

/// `e` with the short URL that `preferred` gives its long URL, if any.
pub open spec fn with_preferred(e: LinkView, preferred: Seq<LinkView>) -> LinkView {
    match short_for(preferred, e.0) {
        Some(s) => (e.0, s),
        None => e,
    }
}

/// The merged history: the servers' lists in turns, each long URL once
/// (where it first appears), with the selected server's short URL for it
/// wherever the selected server has one.
pub open spec fn merged(names: Seq<Seq<char>>, lists: Seq<Seq<LinkView>>, selected: Seq<char>) -> Seq<LinkView> {
    let preferred = selected_links(names, lists, selected);
    first_of_each(in_turns(lists)).map_values(|e: LinkView| with_preferred(e, preferred))
}

proof fn lemma_longest_bound(lists: Seq<Seq<LinkView>>, i: int)
    requires
        0 <= i < lists.len(),
    ensures
        lists[i].len() <= longest(lists),
    decreases lists.len(),
{
    if i < lists.len() - 1 {
        lemma_longest_bound(lists.drop_last(), i);
    }
}

fn longest_list(histories: &Vec<(String, Vec<(String, String)>)>) -> (r: usize)
    ensures
        r == longest(history_lists(histories@)),
{
    let ghost lists = history_lists(histories@);
    let mut m: usize = 0;
    let mut j: usize = 0;
    while j < histories.len()
        invariant
            j <= histories@.len(),
            lists == history_lists(histories@),
            m == longest(lists.take(j as int)),
        decreases histories@.len() - j,
    {
        assert(lists.take(j + 1).drop_last() =~= lists.take(j as int));
        assert(lists[j as int].len() == histories@[j as int].1@.len());
        if histories[j].1.len() > m {
            m = histories[j].1.len();
        }
        j = j + 1;
    }
    assert(lists.take(histories@.len() as int) =~= lists);
    m
}

fn knows_long(out: &Vec<(String, String)>, long: &String) -> (r: bool)
    ensures
        r == longs(link_views(out@)).contains(long@),
{
    let mut k: usize = 0;
    while k < out.len()
        invariant
            k <= out@.len(),
            forall|q: int| 0 <= q < k ==> #[trigger] out@[q].0@ != long@,
        decreases out@.len() - k,
    {
        if out[k].0 == *long {
            assert(longs(link_views(out@))[k as int] == long@);
            return true;
        }
        k = k + 1;
    }
    proof {
        if longs(link_views(out@)).contains(long@) {
            let q = choose|q: int| 0 <= q < longs(link_views(out@)).len() && longs(link_views(out@))[q] == long@;
            assert(out@[q].0@ == long@);
        }
    }
    false
}

fn preferred_short(preferred: &Vec<(String, String)>, long: &String, fallback: &String) -> (r: String)
    ensures
        r@ == match short_for(link_views(preferred@), long@) {
            Some(s) => s,
            None => fallback@,
        },
{
    let ghost pv = link_views(preferred@);
    let mut k: usize = 0;
    assert(pv.skip(0) =~= pv);
    while k < preferred.len()
        invariant
            k <= preferred@.len(),
            pv == link_views(preferred@),
            short_for(pv, long@) == short_for(pv.skip(k as int), long@),
        decreases preferred@.len() - k,
    {
        assert(pv.skip(k as int)[0] == (preferred@[k as int].0@, preferred@[k as int].1@));
        if preferred[k].0 == *long {
            return preferred[k].1.clone();
        }
        assert(pv.skip(k as int).drop_first() =~= pv.skip(k + 1));
        k = k + 1;
    }
    fallback.clone()
}

/// Merges the recent links of the servers that answered, `histories` in
/// configured order, as [`merged`] states it.
pub fn merge_histories(histories: &Vec<(String, Vec<(String, String)>)>, selected_server: &str) -> (r: Vec<(String, String)>)
    ensures
        link_views(r@) == merged(history_names(histories@), history_lists(histories@), selected_server@),
{
    let ghost names = history_names(histories@);
    let ghost lists = history_lists(histories@);
    let empty: Vec<(String, String)> = Vec::new();
    let mut chosen: Option<usize> = None;
    if !same_text(selected_server, "Random") {
        let mut j: usize = 0;
        assert(names.skip(0) =~= names);
        while j < histories.len()
            invariant
                j <= histories@.len(),
                names == history_names(histories@),
                index_named(names, selected_server@) == match index_named(names.skip(j as int), selected_server@) {
                    Some(q) => Some(q + j),
                    None => None,
                },
            ensures
                j <= histories@.len(),
                j < histories@.len() ==> index_named(names, selected_server@) == Some(j as int),
                j == histories@.len() ==> index_named(names, selected_server@) is None,
            decreases histories@.len() - j,
        {
            assert(names.skip(j as int)[0] == histories@[j as int].0@);
            if same_text(histories[j].0.as_str(), selected_server) {
                break;
            }
            assert(names.skip(j as int).drop_first() =~= names.skip(j + 1));
            j = j + 1;
        }
        if j < histories.len() {
            chosen = Some(j);
        }
    }
    let preferred: &Vec<(String, String)> = match chosen {
        Some(j) => &histories[j].1,
        None => &empty,
    };
    let ghost pref = selected_links(names, lists, selected_server@);
    assert(link_views(preferred@) =~= pref);
    let total = longest_list(histories);
    let mut out: Vec<(String, String)> = Vec::new();
    let mut idx: usize = 0;
    while idx < total
        invariant
            idx <= total,
            total == longest(lists),
            names == history_names(histories@),
            lists == history_lists(histories@),
            link_views(preferred@) == pref,
            longs(link_views(out@)) == longs(first_of_each(rounds(lists, idx as nat))),
            link_views(out@) == first_of_each(rounds(lists, idx as nat)).map_values(|e: LinkView| with_preferred(e, pref)),
        decreases total - idx,
    {
        let mut j: usize = 0;
        let ghost base = rounds(lists, idx as nat);
        assert(round(lists.take(0), idx as int) =~= Seq::<LinkView>::empty());
        assert(base + round(lists.take(0), idx as int) =~= base);
        while j < histories.len()
            invariant
                j <= histories@.len(),
                idx < total,
                total == longest(lists),
                base == rounds(lists, idx as nat),
                lists == history_lists(histories@),
                link_views(preferred@) == pref,
                longs(link_views(out@)) == longs(first_of_each(base + round(lists.take(j as int), idx as int))),
                link_views(out@) == first_of_each(base + round(lists.take(j as int), idx as int)).map_values(|e: LinkView| with_preferred(e, pref)),
            decreases histories@.len() - j,
        {
            let ghost prev = base + round(lists.take(j as int), idx as int);
            assert(lists.take(j + 1).drop_last() =~= lists.take(j as int));
            assert(lists[j as int] == link_views(histories@[j as int].1@));
            if idx < histories[j].1.len() {
                let long = &histories[j].1[idx].0;
                let short = &histories[j].1[idx].1;
                let ghost e = (long@, short@);
                assert(lists[j as int][idx as int] == e);
                assert(base + round(lists.take(j + 1), idx as int) =~= prev.push(e));
                assert(prev.push(e).drop_last() =~= prev);
                if !knows_long(&out, long) {
                    let final_short = preferred_short(preferred, long, short);
                    let ghost before = out@;
                    out.push((long.clone(), final_short));
                    assert(link_views(out@) =~= link_views(before).push(with_preferred(e, pref)));
                    assert(longs(link_views(out@)) =~= longs(link_views(before)).push(long@));
                    assert(longs(first_of_each(prev).push(e)) =~= longs(first_of_each(prev)).push(long@));
                }
            } else {
                assert(base + round(lists.take(j + 1), idx as int) =~= prev);
            }
            j = j + 1;
        }
        assert(lists.take(histories@.len() as int) =~= lists);
        idx = idx + 1;
    }
    out
}

proof fn lemma_first_of_each(s: Seq<LinkView>)
    ensures
        longs(first_of_each(s)).no_duplicates(),
        forall|x: Seq<char>| longs(s).contains(x) <==> #[trigger] longs(first_of_each(s)).contains(x),
    decreases s.len(),
{
    if s.len() > 0 {
        let t = s.drop_last();
        lemma_first_of_each(t);
        let d = first_of_each(t);
        assert(longs(s) =~= longs(t).push(s.last().0));
        if !longs(d).contains(s.last().0) {
            assert(longs(d.push(s.last())) =~= longs(d).push(s.last().0));
        }
        assert forall|x: Seq<char>| longs(s).contains(x) <==> #[trigger] longs(first_of_each(s)).contains(x) by {
            if longs(s).contains(x) {
                if x != s.last().0 {
                    let k = choose|k: int| 0 <= k < longs(s).len() && longs(s)[k] == x;
                    assert(longs(t)[k] == x);
                    assert(longs(d).contains(x));
                }
                if longs(d).contains(x) {
                    let k = choose|k: int| 0 <= k < longs(d).len() && longs(d)[k] == x;
                    if !longs(d).contains(s.last().0) {
                        assert(longs(first_of_each(s)) =~= longs(d).push(s.last().0));
                        assert(longs(first_of_each(s))[k] == x);
                    }
                } else {
                    assert(x == s.last().0);
                    assert(longs(first_of_each(s)) =~= longs(d).push(s.last().0));
                    assert(longs(first_of_each(s))[longs(d).len() as int] == x);
                }
            }
            if longs(first_of_each(s)).contains(x) && x != s.last().0 {
                let k = choose|k: int| 0 <= k < longs(first_of_each(s)).len() && longs(first_of_each(s))[k] == x;
                if longs(d).contains(s.last().0) {
                    assert(longs(d).contains(x));
                } else {
                    assert(longs(first_of_each(s)) =~= longs(d).push(s.last().0));
                    assert(k < longs(d).len());
                    assert(longs(d)[k] == x);
                    assert(longs(d).contains(x));
                }
                assert(longs(t).contains(x));
                let k2 = choose|k2: int| 0 <= k2 < longs(t).len() && longs(t)[k2] == x;
                assert(longs(s)[k2] == x);
            }
            if x == s.last().0 {
                assert(longs(s)[s.len() - 1] == x);
            }
        }
    } else {
        assert(longs(first_of_each(s)).len() == 0);
    }
}

proof fn lemma_round_has(lists: Seq<Seq<LinkView>>, i: int, idx: int)
    requires
        0 <= i < lists.len(),
        0 <= idx < lists[i].len(),
    ensures
        round(lists, idx).contains(lists[i][idx]),
    decreases lists.len(),
{
    if i == lists.len() - 1 {
        let r = round(lists.drop_last(), idx);
        assert(round(lists, idx)[r.len() as int] == lists[i][idx]);
    } else {
        lemma_round_has(lists.drop_last(), i, idx);
        let r = round(lists.drop_last(), idx);
        let k = choose|k: int| 0 <= k < r.len() && r[k] == lists[i][idx];
        if idx < lists.last().len() {
            assert(round(lists, idx)[k] == r[k]);
        }
    }
}

proof fn lemma_rounds_have(lists: Seq<Seq<LinkView>>, k: nat, idx: int, e: LinkView)
    requires
        0 <= idx < k,
        round(lists, idx).contains(e),
    ensures
        rounds(lists, k).contains(e),
    decreases k,
{
    let prev = rounds(lists, (k - 1) as nat);
    if idx == k - 1 {
        let q = choose|q: int| 0 <= q < round(lists, idx).len() && round(lists, idx)[q] == e;
        assert(rounds(lists, k)[prev.len() + q] == e);
    } else {
        lemma_rounds_have(lists, (k - 1) as nat, idx, e);
        let q = choose|q: int| 0 <= q < prev.len() && prev[q] == e;
        assert(rounds(lists, k)[q] == e);
    }
}

/// No long URL appears twice in the merged history.
pub proof fn law_merged_history_has_each_long_url_once(names: Seq<Seq<char>>, lists: Seq<Seq<LinkView>>, selected: Seq<char>)
    ensures
        longs(merged(names, lists, selected)).no_duplicates(),
{
    let pref = selected_links(names, lists, selected);
    let d = first_of_each(in_turns(lists));
    lemma_first_of_each(in_turns(lists));
    assert(longs(merged(names, lists, selected)) =~= longs(d));
}

/// Every long URL that any server listed is in the merged history.
pub proof fn law_merged_history_keeps_every_long_url(names: Seq<Seq<char>>, lists: Seq<Seq<LinkView>>, selected: Seq<char>, i: int, k: int)
    requires
        0 <= i < lists.len(),
        0 <= k < lists[i].len(),
    ensures
        longs(merged(names, lists, selected)).contains(lists[i][k].0),
{
    let e = lists[i][k];
    lemma_round_has(lists, i, k);
    lemma_longest_bound(lists, i);
    lemma_rounds_have(lists, longest(lists), k, e);
    let t = in_turns(lists);
    let q = choose|q: int| 0 <= q < t.len() && t[q] == e;
    assert(longs(t)[q] == e.0);
    lemma_first_of_each(t);
    let d = first_of_each(t);
    assert(longs(merged(names, lists, selected)) =~= longs(d));
}

/// Where the selected server has a short URL for a long one, the merged
/// history shows that one.
pub proof fn law_selected_server_short_url_wins(names: Seq<Seq<char>>, lists: Seq<Seq<LinkView>>, selected: Seq<char>, m: int)
    requires
        0 <= m < merged(names, lists, selected).len(),
    ensures
        short_for(selected_links(names, lists, selected), merged(names, lists, selected)[m].0) matches Some(s)
            ==> merged(names, lists, selected)[m].1 == s,
{
}

/// The newest link of the first server that answered comes first.
pub proof fn law_first_server_newest_link_first(names: Seq<Seq<char>>, lists: Seq<Seq<LinkView>>, selected: Seq<char>)
    requires
        lists.len() > 0,
        lists[0].len() > 0,
    ensures
        merged(names, lists, selected).len() > 0,
        merged(names, lists, selected)[0].0 == lists[0][0].0,
{
    lemma_longest_bound(lists, 0);
    assert(round(lists.take(1), 0) =~= seq![lists[0][0]]) by {
        assert(lists.take(1).drop_last() =~= Seq::<Seq<LinkView>>::empty());
        assert(round(lists.take(1).drop_last(), 0) =~= Seq::<LinkView>::empty());
    }
    lemma_round_prefix(lists, 1, 0);
    assert(rounds(lists, 0) =~= Seq::<LinkView>::empty());
    assert(rounds(lists, 1) =~= round(lists, 0));
    lemma_rounds_prefix(lists, 1, longest(lists));
    let t = in_turns(lists);
    assert(t[0] == lists[0][0]);
    lemma_first_of_each_head(t);
}

proof fn lemma_round_prefix(lists: Seq<Seq<LinkView>>, j: int, idx: int)
    requires
        0 <= j <= lists.len(),
    ensures
        round(lists, idx).len() >= round(lists.take(j), idx).len(),
        forall|q: int| 0 <= q < round(lists.take(j), idx).len() ==> #[trigger] round(lists, idx)[q] == round(lists.take(j), idx)[q],
    decreases lists.len() - j,
{
    if j < lists.len() {
        lemma_round_prefix(lists, j + 1, idx);
        assert(lists.take(j + 1).drop_last() =~= lists.take(j));
    } else {
        assert(lists.take(j) =~= lists);
    }
}

proof fn lemma_rounds_prefix(lists: Seq<Seq<LinkView>>, a: nat, b: nat)
    requires
        a <= b,
    ensures
        rounds(lists, b).len() >= rounds(lists, a).len(),
        forall|q: int| 0 <= q < rounds(lists, a).len() ==> #[trigger] rounds(lists, b)[q] == rounds(lists, a)[q],
    decreases b - a,
{
    if a < b {
        lemma_rounds_prefix(lists, a, (b - 1) as nat);
    }
}

proof fn lemma_first_of_each_head(s: Seq<LinkView>)
    requires
        s.len() > 0,
    ensures
        first_of_each(s).len() > 0,
        first_of_each(s)[0] == s[0],
    decreases s.len(),
{
    if s.len() > 1 {
        lemma_first_of_each_head(s.drop_last());
    } else {
        assert(first_of_each(s.drop_last()).len() == 0);
    }
}

/// An entry of a stats reply as read: its key, and its `url` and
/// `shorturl` where they are strings.
pub type RawLink = (String, Option<String>, Option<String>);

/// The plain values of a [`RawLink`].
pub type RawLinkView = (Seq<char>, Option<Seq<char>>, Option<Seq<char>>);

/// The plain values of each raw entry.
pub open spec fn raw_views(v: Seq<RawLink>) -> Seq<RawLinkView> {
    v.map_values(|e: RawLink| (e.0@, opt_string_view(e.1), opt_string_view(e.2)))
}

/// Whether a raw entry has both its URLs.
pub open spec fn is_whole(e: RawLinkView) -> bool {
    e.1 is Some && e.2 is Some
}

/// The numbered link a whole raw entry gives.
pub open spec fn numbered(e: RawLinkView) -> (u32, Seq<char>, Seq<char>) {
    (link_number(e.0), e.1->Some_0, e.2->Some_0)
}

/// A server's recent links from the entries of its stats reply, in the
/// order read: entries without both URLs are left out, and the rest are
/// put newest first.
pub open spec fn server_links_of(raw: Seq<RawLinkView>) -> Seq<LinkView> {
    newest_first(raw.filter(|e: RawLinkView| is_whole(e)).map_values(|e: RawLinkView| numbered(e))).map_values(
        |e: (u32, Seq<char>, Seq<char>)| (e.1, e.2),
    )
}

/// A server's recent links, as [`server_links_of`] states it.
pub fn server_links(raw: &Vec<RawLink>) -> (r: Vec<(String, String)>)
    ensures
        link_views(r@) == server_links_of(raw_views(raw@)),
{
    let ghost rv = raw_views(raw@);
    let ghost pred = |e: RawLinkView| is_whole(e);
    let ghost f = |e: RawLinkView| numbered(e);
    let mut entries: Vec<(u32, String, String)> = Vec::new();
    let mut i: usize = 0;
    assert(rv.take(0).filter(pred) =~= Seq::<RawLinkView>::empty()) by {
        reveal_with_fuel(Seq::<_>::filter, 1);
    }
    while i < raw.len()
        invariant
            i <= raw@.len(),
            rv == raw_views(raw@),
            pred == (|e: RawLinkView| is_whole(e)),
            f == (|e: RawLinkView| numbered(e)),
            entry_views(entries@) =~= rv.take(i as int).filter(pred).map_values(f),
        decreases raw@.len() - i,
    {
        assert(rv.take(i + 1).drop_last() =~= rv.take(i as int));
        assert(rv.take(i + 1).last() == rv[i as int]);
        reveal_with_fuel(Seq::<_>::filter, 1);
        let e = &raw[i];
        assert(rv[i as int] == (e.0@, opt_string_view(e.1), opt_string_view(e.2)));
        match (&e.1, &e.2) {
            (Some(u), Some(sh)) => {
                let id = link_id(e.0.as_str());
                let ghost before = entries@;
                entries.push((id, u.clone(), sh.clone()));
                assert(pred(rv[i as int]));
                assert(rv.take(i + 1).filter(pred) == rv.take(i as int).filter(pred).push(rv[i as int]));
                assert(entry_views(entries@) =~= entry_views(before).push(f(rv[i as int])));
                assert(rv.take(i as int).filter(pred).push(rv[i as int]).map_values(f) =~= rv.take(i as int).filter(pred).map_values(f).push(f(rv[i as int])));
            },
            _ => {
                assert(!pred(rv[i as int]));
            },
        }
        i = i + 1;
    }
    assert(rv.take(rv.len() as int) =~= rv);
    order_links(&entries)
}

/// What one character of a key becomes in a JSON pointer: `~` is `~0`,
/// `/` is `~1`, anything else stays.
pub open spec fn pointer_char(c: char) -> Seq<char> {
    if c == '~' {
        seq!['~', '0']
    } else if c == '/' {
        seq!['~', '1']
    } else {
        seq![c]
    }
}

/// `key` as a JSON pointer token.
pub open spec fn pointer_escaped(key: Seq<char>) -> Seq<char>
    decreases key.len(),
{
    if key.len() == 0 {
        Seq::empty()
    } else {
        pointer_escaped(key.drop_last()) + pointer_char(key.last())
    }
}

/// `key` as a JSON pointer token, as [`pointer_escaped`] states it.
fn escape_pointer_token(key: &str) -> (r: String)
    ensures
        r@ == pointer_escaped(key@),
{
    let n = key.unicode_len();
    let mut r = String::new();
    let mut i: usize = 0;
    assert(key@.take(0) =~= Seq::<char>::empty());
    while i < n
        invariant
            i <= n,
            n == key@.len(),
            r@ == pointer_escaped(key@.take(i as int)),
        decreases n - i,
    {
        let c = key.get_char(i);
        assert(key@.take(i + 1).drop_last() =~= key@.take(i as int));
        assert(key@.take(i + 1).last() == c);
        assert(pointer_escaped(key@.take(i + 1)) == pointer_escaped(key@.take(i as int)) + pointer_char(c));
        proof {
            reveal_strlit("~0");
            reveal_strlit("~1");
        }
        assert("~0"@ =~= seq!['~', '0']);
        assert("~1"@ =~= seq!['~', '1']);
        if c == '~' {
            r.append("~0");
        } else if c == '/' {
            r.append("~1");
        } else {
            let one = key.substring_char(i, i + 1);
            assert(one@ =~= seq![c]);
            r.append(one);
        }
        assert(r@ =~= pointer_escaped(key@.take(i + 1)));
        i = i + 1;
    }
    assert(key@.take(n as int) =~= key@);
    r
}

/// The JSON pointer of the field `field` of the entry under `key` in the
/// `links` of a stats reply.
pub open spec fn link_field_pointer(key: Seq<char>, field: Seq<char>) -> Seq<char> {
    "/links/"@ + pointer_escaped(key) + "/"@ + field
}

fn field_pointer(escaped: &str, field: &str) -> (r: String)
    ensures
        r@ == "/links/"@ + escaped@ + "/"@ + field@,
{
    let mut p = String::from_str("/links/");
    p.append(escaped);
    p.append("/");
    p.append(field);
    p
}

/// The raw entry under `key` in the stats reply `body`.
pub open spec fn reply_entry(body: Seq<char>, key: Seq<char>) -> RawLinkView {
    (key, json_str_at(body, link_field_pointer(key, "url"@)), json_str_at(body, link_field_pointer(key, "shorturl"@)))
}

/// The raw entries of the stats reply `body`: one per key of its `links`
/// object, in the order the keys are read, with the `url` and `shorturl`
/// strings of each; none when there is no such object.
pub open spec fn reply_links(body: Seq<char>) -> Seq<RawLinkView> {
    match json_keys_at(body, "/links"@) {
        Some(keys) => keys.map_values(|k: Seq<char>| reply_entry(body, k)),
        None => Seq::empty(),
    }
}

/// A server's recent links from the body of its stats reply, newest first,
/// as [`server_links_of`] states it for the entries [`reply_links`] reads.
pub fn links_of_reply(body: &str) -> (r: Vec<(String, String)>)
    ensures
        link_views(r@) == server_links_of(reply_links(body@)),
{
    let mut raw: Vec<RawLink> = Vec::new();
    match json_object_keys_at(body, "/links") {
        None => {
            assert(raw_views(raw@) =~= reply_links(body@));
        },
        Some(keys) => {
            let ghost kv = views(keys@);
            let mut i: usize = 0;
            while i < keys.len()
                invariant
                    i <= keys@.len(),
                    kv == views(keys@),
                    json_keys_at(body@, "/links"@) == Some(kv),
                    raw_views(raw@) =~= kv.take(i as int).map_values(|k: Seq<char>| reply_entry(body@, k)),
                decreases keys@.len() - i,
            {
                let key = &keys[i];
                let esc = escape_pointer_token(key.as_str());
                let url_pointer = field_pointer(esc.as_str(), "url");
                let short_pointer = field_pointer(esc.as_str(), "shorturl");
                let url = json_string_at(body, url_pointer.as_str());
                let short = json_string_at(body, short_pointer.as_str());
                assert(kv[i as int] == key@);
                assert(url_pointer@ =~= link_field_pointer(key@, "url"@));
                assert(short_pointer@ =~= link_field_pointer(key@, "shorturl"@));
                let ghost before = raw@;
                raw.push((key.clone(), url, short));
                assert(raw_views(raw@) =~= raw_views(before).push(reply_entry(body@, key@)));
                assert(kv.take(i + 1) =~= kv.take(i as int).push(kv[i as int]));
                i = i + 1;
            }
            assert(kv.take(kv.len() as int) =~= kv);
        },
    }
    server_links(&raw)
}

} // verus!
