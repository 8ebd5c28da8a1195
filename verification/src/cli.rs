//! The command line: which mode was asked for, and for a shortening, the
//! URL, the server and the id.

use crate::text::{has_prefix, opt_string_view, same_text, skip_chars, starts_with, views};
use vstd::prelude::*;

verus! {

/// What the command line asked for.
#[derive(Debug)]
pub enum Invocation {
    /// Shorten this URL and print the result. The URL comes from an
    /// argument, or from standard input when there is none; the server is the
    /// one named by `--server`, or whatever the config picks; the id is the
    /// one asked for with `--id`, if any.
    Shorten { url: Option<String>, server: Option<String>, id: Option<String> },
    /// Run the clipboard tray.
    Tray,
    /// Show the usage.
    Help,
    /// Show the version.
    Version,
    /// Something was wrong with the arguments themselves.
    Invalid(String),
}

/// The plain values of an [`Invocation`].
pub enum InvocationView {
    Shorten { url: Option<Seq<char>>, server: Option<Seq<char>>, id: Option<Seq<char>> },
    Tray,
    Help,
    Version,
    Invalid(Seq<char>),
}

impl View for Invocation {
    type V = InvocationView;

    open spec fn view(&self) -> InvocationView {
        match self {
            Invocation::Shorten { url, server, id } => InvocationView::Shorten {
                url: opt_string_view(*url),
                server: opt_string_view(*server),
                id: opt_string_view(*id),
            },
            Invocation::Tray => InvocationView::Tray,
            Invocation::Help => InvocationView::Help,
            Invocation::Version => InvocationView::Version,
            Invocation::Invalid(s) => InvocationView::Invalid(s@),
        }
    }
}

/// Which flag, if any, is waiting for its value.
pub enum Awaiting {
    Nothing,
    Server,
    Id,
}

/// What the arguments read so far have given.
pub struct Scan {
    pub url: Option<Seq<char>>,
    pub server: Option<Seq<char>>,
    pub id: Option<Seq<char>>,
    pub awaiting: Awaiting,
}

/// The state before any argument.
pub open spec fn fresh() -> Scan {
    Scan { url: None, server: None, id: None, awaiting: Awaiting::Nothing }
}

/// Whether `a` is one of the spellings of the id flag.
pub open spec fn is_id_flag(a: Seq<char>) -> bool {
    a == "--id"@ || a == "--keyword"@ || a == "--slug"@
}

/// One argument read in state `st`: the next state, or the mode it settles.
///
/// A flag's value is taken as it is, whatever it looks like. Otherwise the
/// mode flags settle the matter at once, `--shorten` is accepted and
/// ignored, `--server` and the id flags wait for a value, their `=` forms
/// carry it, and anything else is the URL (the last one given wins).
pub open spec fn step(st: Scan, a: Seq<char>) -> Result<Scan, InvocationView> {
    match st.awaiting {
        Awaiting::Server => Ok(Scan { server: Some(a), awaiting: Awaiting::Nothing, ..st }),
        Awaiting::Id => Ok(Scan { id: Some(a), awaiting: Awaiting::Nothing, ..st }),
        Awaiting::Nothing => {
            if a == "--tray"@ || a == "-t"@ {
                Err(InvocationView::Tray)
            } else if a == "--help"@ || a == "-h"@ {
                Err(InvocationView::Help)
            } else if a == "--version"@ || a == "-V"@ {
                Err(InvocationView::Version)
            } else if a == "--shorten"@ || a == "-s"@ {
                Ok(st)
            } else if a == "--server"@ {
                Ok(Scan { awaiting: Awaiting::Server, ..st })
            } else if is_id_flag(a) {
                Ok(Scan { awaiting: Awaiting::Id, ..st })
            } else if has_prefix(a, "--server="@) {
                Ok(Scan { server: Some(a.skip("--server="@.len() as int)), ..st })
            } else if has_prefix(a, "--id="@) {
                Ok(Scan { id: Some(a.skip("--id="@.len() as int)), ..st })
            } else if has_prefix(a, "--keyword="@) {
                Ok(Scan { id: Some(a.skip("--keyword="@.len() as int)), ..st })
            } else if has_prefix(a, "--slug="@) {
                Ok(Scan { id: Some(a.skip("--slug="@.len() as int)), ..st })
            } else {
                Ok(Scan { url: Some(a), ..st })
            }
        },
    }
}

/// What the arguments come to once they run out in state `st`: a flag
/// still waiting for its value is an error, else a shortening.
pub open spec fn finish(st: Scan) -> InvocationView {
    match st.awaiting {
        Awaiting::Server => InvocationView::Invalid("--server needs a name (or `auto`)"@),
        Awaiting::Id => InvocationView::Invalid("--id needs a value"@),
        Awaiting::Nothing => InvocationView::Shorten { url: st.url, server: st.server, id: st.id },
    }
}

/// What `args` come to, read from state `st`.
pub open spec fn scan(args: Seq<Seq<char>>, st: Scan) -> InvocationView
    decreases args.len(),
{
    if args.len() == 0 {
        finish(st)
    } else {
        match step(st, args[0]) {
            Ok(next) => scan(args.drop_first(), next),
            Err(mode) => mode,
        }
    }
}

/// The state `args` leave behind, read from `st`, or the mode they settle.
pub open spec fn settle(args: Seq<Seq<char>>, st: Scan) -> Result<Scan, InvocationView>
    decreases args.len(),
{
    if args.len() == 0 {
        Ok(st)
    } else {
        match step(st, args[0]) {
            Ok(next) => settle(args.drop_first(), next),
            Err(mode) => Err(mode),
        }
    }
}

/// What the command line `args` asks for.
pub open spec fn parsed_arguments(args: Seq<Seq<char>>) -> InvocationView {
    scan(args, fresh())
}

/// Reads the command line (without the program name).
pub fn parse_arguments(arguments: &[String]) -> (r: Invocation)
    ensures
        r@ == parsed_arguments(views(arguments@)),
{
    let ghost all = views(arguments@);
    let mut url: Option<String> = None;
    let mut server: Option<String> = None;
    let mut id: Option<String> = None;
    // 0: nothing, 1: --server, 2: an id flag
    let mut wants: u8 = 0;
    let n = arguments.len();
    let mut i: usize = 0;
    assert(all.skip(0) =~= all);
    while i < n
        invariant
            i <= n,
            n == arguments@.len(),
            all == views(arguments@),
            wants <= 2,
            scan(all, fresh()) == scan(
                all.skip(i as int),
                Scan {
                    url: opt_string_view(url),
                    server: opt_string_view(server),
                    id: opt_string_view(id),
                    awaiting: if wants == 0 {
                        Awaiting::Nothing
                    } else if wants == 1 {
                        Awaiting::Server
                    } else {
                        Awaiting::Id
                    },
                },
            ),
        decreases n - i,
    {
        let argument = &arguments[i];
        let a = argument.as_str();
        assert(all.skip(i as int)[0] == a@);
        assert(all.skip(i as int).drop_first() =~= all.skip(i + 1));
        if wants == 1 {
            server = Some(argument.clone());
            wants = 0;
        } else if wants == 2 {
            id = Some(argument.clone());
            wants = 0;
        } else if same_text(a, "--tray") || same_text(a, "-t") {
            return Invocation::Tray;
        } else if same_text(a, "--help") || same_text(a, "-h") {
            return Invocation::Help;
        } else if same_text(a, "--version") || same_text(a, "-V") {
            return Invocation::Version;
        } else if same_text(a, "--shorten") || same_text(a, "-s") {
        } else if same_text(a, "--server") {
            wants = 1;
        } else if same_text(a, "--id") || same_text(a, "--keyword") || same_text(a, "--slug") {
            wants = 2;
        } else if starts_with(a, "--server=") {
            server = Some(String::from_str(skip_chars(a, "--server=".unicode_len())));
        } else if starts_with(a, "--id=") {
            id = Some(String::from_str(skip_chars(a, "--id=".unicode_len())));
        } else if starts_with(a, "--keyword=") {
            id = Some(String::from_str(skip_chars(a, "--keyword=".unicode_len())));
        } else if starts_with(a, "--slug=") {
            id = Some(String::from_str(skip_chars(a, "--slug=".unicode_len())));
        } else {
            url = Some(argument.clone());
        }
        i = i + 1;
    }
    assert(all.skip(n as int).len() == 0);
    if wants == 1 {
        return Invocation::Invalid(String::from_str("--server needs a name (or `auto`)"));
    }
    if wants == 2 {
        return Invocation::Invalid(String::from_str("--id needs a value"));
    }
    Invocation::Shorten { url, server, id }
}

/// Reading `pre` then `rest` is reading `rest` from where `pre` leaves off.
pub proof fn lemma_scan_split(pre: Seq<Seq<char>>, rest: Seq<Seq<char>>, st: Scan)
    ensures
        scan(pre + rest, st) == match settle(pre, st) {
            Ok(s) => scan(rest, s),
            Err(d) => d,
        },
    decreases pre.len(),
{
    if pre.len() > 0 {
        assert((pre + rest)[0] == pre[0]);
        assert((pre + rest).drop_first() =~= pre.drop_first() + rest);
        match step(st, pre[0]) {
            Ok(next) => lemma_scan_split(pre.drop_first(), rest, next),
            Err(_) => {},
        }
    } else {
        assert(pre + rest =~= rest);
    }
}

/// Whether reading `pre` from the start leaves no flag waiting for a value.
pub open spec fn settled_free(pre: Seq<Seq<char>>) -> bool {
    settle(pre, fresh()) matches Ok(s) && s.awaiting is Nothing
}

proof fn lemma_prefix_char(a: Seq<char>, p: Seq<char>, k: int)
    requires
        has_prefix(a, p),
        0 <= k < p.len(),
    ensures
        a[k] == p[k],
{
    assert(a.subrange(0, p.len() as int)[k] == a[k]);
}

proof fn reveal_flags()
    ensures
        "--server="@ == seq!['-', '-', 's', 'e', 'r', 'v', 'e', 'r', '='],
        "--id="@ == seq!['-', '-', 'i', 'd', '='],
        "--keyword="@ == seq!['-', '-', 'k', 'e', 'y', 'w', 'o', 'r', 'd', '='],
        "--slug="@ == seq!['-', '-', 's', 'l', 'u', 'g', '='],
        "--tray"@ == seq!['-', '-', 't', 'r', 'a', 'y'],
        "-t"@ == seq!['-', 't'],
        "--help"@ == seq!['-', '-', 'h', 'e', 'l', 'p'],
        "-h"@ == seq!['-', 'h'],
        "--version"@ == seq!['-', '-', 'v', 'e', 'r', 's', 'i', 'o', 'n'],
        "-V"@ == seq!['-', 'V'],
        "--shorten"@ == seq!['-', '-', 's', 'h', 'o', 'r', 't', 'e', 'n'],
        "-s"@ == seq!['-', 's'],
        "--server"@ == seq!['-', '-', 's', 'e', 'r', 'v', 'e', 'r'],
        "--id"@ == seq!['-', '-', 'i', 'd'],
        "--keyword"@ == seq!['-', '-', 'k', 'e', 'y', 'w', 'o', 'r', 'd'],
        "--slug"@ == seq!['-', '-', 's', 'l', 'u', 'g'],
        "="@ == seq!['='],
{
    reveal_strlit("--server=");
    reveal_strlit("--id=");
    reveal_strlit("--keyword=");
    reveal_strlit("--slug=");
    reveal_strlit("--tray");
    reveal_strlit("-t");
    reveal_strlit("--help");
    reveal_strlit("-h");
    reveal_strlit("--version");
    reveal_strlit("-V");
    reveal_strlit("--shorten");
    reveal_strlit("-s");
    reveal_strlit("--server");
    reveal_strlit("--id");
    reveal_strlit("--keyword");
    reveal_strlit("--slug");
    reveal_strlit("=");
    assert("--server="@ =~= seq!['-', '-', 's', 'e', 'r', 'v', 'e', 'r', '=']);
    assert("--id="@ =~= seq!['-', '-', 'i', 'd', '=']);
    assert("--keyword="@ =~= seq!['-', '-', 'k', 'e', 'y', 'w', 'o', 'r', 'd', '=']);
    assert("--slug="@ =~= seq!['-', '-', 's', 'l', 'u', 'g', '=']);
    assert("--tray"@ =~= seq!['-', '-', 't', 'r', 'a', 'y']);
    assert("-t"@ =~= seq!['-', 't']);
    assert("--help"@ =~= seq!['-', '-', 'h', 'e', 'l', 'p']);
    assert("-h"@ =~= seq!['-', 'h']);
    assert("--version"@ =~= seq!['-', '-', 'v', 'e', 'r', 's', 'i', 'o', 'n']);
    assert("-V"@ =~= seq!['-', 'V']);
    assert("--shorten"@ =~= seq!['-', '-', 's', 'h', 'o', 'r', 't', 'e', 'n']);
    assert("-s"@ =~= seq!['-', 's']);
    assert("--server"@ =~= seq!['-', '-', 's', 'e', 'r', 'v', 'e', 'r']);
    assert("--id"@ =~= seq!['-', '-', 'i', 'd']);
    assert("--keyword"@ =~= seq!['-', '-', 'k', 'e', 'y', 'w', 'o', 'r', 'd']);
    assert("--slug"@ =~= seq!['-', '-', 's', 'l', 'u', 'g']);
    assert("="@ =~= seq!['=']);
}

/// The flags whose value may follow them or be given after `=`.
pub open spec fn is_value_flag(flag: Seq<char>) -> bool {
    flag == "--server"@ || is_id_flag(flag)
}

/// Where a flag's value goes.
pub open spec fn awaiting_for(flag: Seq<char>) -> Awaiting {
    if flag == "--server"@ {
        Awaiting::Server
    } else {
        Awaiting::Id
    }
}

/// The state once `value` is given to `flag` in state `s`.
pub open spec fn with_value(s: Scan, flag: Seq<char>, value: Seq<char>) -> Scan {
    if flag == "--server"@ {
        Scan { server: Some(value), awaiting: Awaiting::Nothing, ..s }
    } else {
        Scan { id: Some(value), awaiting: Awaiting::Nothing, ..s }
    }
}

proof fn lemma_value_flag_waits(s: Scan, flag: Seq<char>)
    requires
        s.awaiting is Nothing,
        is_value_flag(flag),
    ensures
        step(s, flag) == Ok::<Scan, InvocationView>(Scan { awaiting: awaiting_for(flag), ..s }),
{
    reveal_flags();
}

proof fn lemma_equals_form(s: Scan, flag: Seq<char>, value: Seq<char>)
    requires
        s.awaiting is Nothing,
        is_value_flag(flag),
    ensures
        step(s, flag + "="@ + value) == Ok::<Scan, InvocationView>(with_value(s, flag, value)),
{
    reveal_flags();
    let eq = flag + "="@;
    let a = eq + value;
    assert(flag + "="@ + value == a);
    assert(a[0] == '-' && a[1] == '-');
    assert(a[flag.len() as int] == '=');
    assert(a.skip(eq.len() as int) =~= value);
    assert(a.subrange(0, eq.len() as int) =~= eq);
    if flag == "--server"@ {
        assert(eq =~= "--server="@);
        assert(a[2] == 's' && a[3] == 'e');
    } else if flag == "--id"@ {
        assert(eq =~= "--id="@);
        assert(a[2] == 'i' && a[4] == '=');
        if has_prefix(a, "--server="@) {
            lemma_prefix_char(a, "--server="@, 2);
        }
    } else if flag == "--keyword"@ {
        assert(eq =~= "--keyword="@);
        assert(a[2] == 'k');
        if has_prefix(a, "--server="@) {
            lemma_prefix_char(a, "--server="@, 2);
        }
        if has_prefix(a, "--id="@) {
            lemma_prefix_char(a, "--id="@, 2);
        }
    } else {
        assert(eq =~= "--slug="@);
        assert(a[2] == 's' && a[3] == 'l');
        if has_prefix(a, "--server="@) {
            lemma_prefix_char(a, "--server="@, 3);
        }
        if has_prefix(a, "--id="@) {
            lemma_prefix_char(a, "--id="@, 2);
        }
        if has_prefix(a, "--keyword="@) {
            lemma_prefix_char(a, "--keyword="@, 2);
        }
    }
}

/// A value flag and its value, as two arguments or as one with `=`, read
/// in a state where nothing waits, come to the same.
proof fn lemma_both_spellings(s: Scan, flag: Seq<char>, value: Seq<char>, rest: Seq<Seq<char>>)
    requires
        s.awaiting is Nothing,
        is_value_flag(flag),
    ensures
        scan(seq![flag, value] + rest, s) == scan(rest, with_value(s, flag, value)),
        scan(seq![flag + "="@ + value] + rest, s) == scan(rest, with_value(s, flag, value)),
{
    lemma_value_flag_waits(s, flag);
    lemma_equals_form(s, flag, value);
    let l = seq![flag, value] + rest;
    assert(l[0] == flag);
    assert(l.drop_first() =~= seq![value] + rest);
    let w = Scan { awaiting: awaiting_for(flag), ..s };
    assert(scan(l, s) == scan(seq![value] + rest, w));
    assert((seq![value] + rest)[0] == value);
    assert((seq![value] + rest).drop_first() =~= rest);
    assert(step(w, value) == Ok::<Scan, InvocationView>(with_value(s, flag, value)));
    assert(scan(seq![value] + rest, w) == scan(rest, with_value(s, flag, value)));
    let m = seq![flag + "="@ + value] + rest;
    assert(m[0] == flag + "="@ + value);
    assert(m.drop_first() =~= rest);
}

/// A value flag given as `flag value` or as `flag=value` means the same,
/// wherever it stands, provided no earlier flag is still waiting for its
/// value: `--server`, `--id`, `--keyword` and `--slug` alike.
pub proof fn law_value_flag_either_spelling(pre: Seq<Seq<char>>, flag: Seq<char>, value: Seq<char>, rest: Seq<Seq<char>>)
    requires
        settled_free(pre),
        is_value_flag(flag),
    ensures
        parsed_arguments(pre + seq![flag, value] + rest) == parsed_arguments(pre + seq![flag + "="@ + value] + rest),
        parsed_arguments(pre + seq![flag, value] + rest) == scan(rest, with_value(settle(pre, fresh())->Ok_0, flag, value)),
{
    assert(pre + seq![flag, value] + rest =~= pre + (seq![flag, value] + rest));
    assert(pre + seq![flag + "="@ + value] + rest =~= pre + (seq![flag + "="@ + value] + rest));
    lemma_scan_split(pre, seq![flag, value] + rest, fresh());
    lemma_scan_split(pre, seq![flag + "="@ + value] + rest, fresh());
    lemma_both_spellings(settle(pre, fresh())->Ok_0, flag, value, rest);
}

/// A value flag left without its value at the end is an error, never a URL.
pub proof fn law_dangling_flag_is_invalid(pre: Seq<Seq<char>>, flag: Seq<char>)
    requires
        settled_free(pre),
        is_value_flag(flag),
    ensures
        parsed_arguments(pre + seq![flag]) is Invalid,
{
    lemma_scan_split(pre, seq![flag], fresh());
    let s = settle(pre, fresh())->Ok_0;
    lemma_value_flag_waits(s, flag);
    assert(seq![flag][0] == flag);
    assert(seq![flag].drop_first().len() == 0);
    assert(scan(seq![flag], s) == scan(seq![flag].drop_first(), Scan { awaiting: awaiting_for(flag), ..s }));
}

/// A mode flag that is not a flag's value decides the invocation, whatever
/// follows it.
pub proof fn law_mode_flag_decides(pre: Seq<Seq<char>>, flag: Seq<char>, rest: Seq<Seq<char>>)
    requires
        settled_free(pre),
        flag == "--tray"@ || flag == "-t"@ || flag == "--help"@ || flag == "-h"@ || flag == "--version"@ || flag == "-V"@,
    ensures
        parsed_arguments(pre + seq![flag] + rest) == (if flag == "--tray"@ || flag == "-t"@ {
            InvocationView::Tray
        } else if flag == "--help"@ || flag == "-h"@ {
            InvocationView::Help
        } else {
            InvocationView::Version
        }),
{
    assert(pre + seq![flag] + rest =~= pre + (seq![flag] + rest));
    lemma_scan_split(pre, seq![flag] + rest, fresh());
    assert((seq![flag] + rest)[0] == flag);
}

} // verus!
