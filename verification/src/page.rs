use vstd::prelude::*;

use crate::text::{decimal, is_space, is_whitespace, push_char, push_decimal};
use crate::types::{Argument, ArgumentForm, Command, Config, ConfigVersion};
use vstd::string::{StrSliceExecFns, StringExecFns, StringSliceAdditionalSpecFns};

verus! {

/// The pieces one after another.
pub open spec fn concat_all(s: Seq<Seq<char>>) -> Seq<char>
    decreases s.len(),
{
    if s.len() == 0 {
        Seq::empty()
    } else {
        concat_all(s.drop_last()) + s.last()
    }
}

/// The pieces with `sep` between each two.
pub open spec fn join(s: Seq<Seq<char>>, sep: Seq<char>) -> Seq<char>
    decreases s.len(),
{
    if s.len() == 0 {
        Seq::empty()
    } else if s.len() == 1 {
        s[0]
    } else {
        join(s.drop_last(), sep) + sep + s.last()
    }
}

/// The maximal runs of non-space characters of `cs` from `i` on, as
/// `(start, end)` index pairs; `start` is where the current run began.
pub open spec fn spans(cs: Seq<char>, i: nat, start: Option<nat>) -> Seq<(nat, nat)>
    decreases cs.len() - i,
{
    if i >= cs.len() {
        match start {
            Some(s) => seq![(s, cs.len())],
            None => Seq::empty(),
        }
    } else if is_space(cs[i as int]) {
        match start {
            Some(s) => seq![(s, i)] + spans(cs, i + 1, None),
            None => spans(cs, i + 1, None),
        }
    } else {
        spans(
            cs,
            i + 1,
            match start {
                Some(s) => Some(s),
                None => Some(i),
            },
        )
    }
}

/// The words of `cs`: what `str::split_whitespace` yields.
pub open spec fn words(cs: Seq<char>) -> Seq<Seq<char>> {
    spans(cs, 0, None).map_values(|p: (nat, nat)| cs.subrange(p.0 as int, p.1 as int))
}

/// Greedy filling of `ws` into lines of at most `width` characters, at column
/// `col`: a word that would pass the width starts a new line (indented by
/// `indent`), and a space follows a word when the next word still fits.
pub open spec fn fill(ws: Seq<Seq<char>>, indent: Seq<char>, width: nat, col: nat) -> Seq<char>
    decreases ws.len(),
{
    if ws.len() == 0 {
        Seq::empty()
    } else {
        let len = ws[0].len() + 1;
        let brk = if col + len > width {
            seq!['\n'] + indent
        } else {
            Seq::empty()
        };
        let c1 = if col + len > width {
            0
        } else {
            col
        };
        let sep = if ws.len() > 1 && c1 + len + ws[1].len() <= width {
            seq![' ']
        } else {
            Seq::empty()
        };
        brk + ws[0] + sep + fill(ws.drop_first(), indent, width, c1 + len)
    }
}

/// `text` indented, wrapped at `width` characters when a width is set, and ended
/// by a newline.
pub open spec fn wrapped(text: Seq<char>, indent: Seq<char>, width: Option<u32>) -> Seq<char> {
    indent + match width {
        None => text + seq!['\n'],
        Some(w) => fill(words(text), indent, w as nat, 0) + seq!['\n'],
    }
}

/// A version as text.
pub open spec fn version_text(v: ConfigVersion) -> Seq<char> {
    match v {
        ConfigVersion::Single(x) => decimal(x as nat),
        ConfigVersion::Double(x, y) => decimal(x as nat) + seq!['.'] + decimal(y as nat),
        ConfigVersion::Triple(x, y, z) => decimal(x as nat) + seq!['.'] + decimal(y as nat) + seq![
            '.',
        ] + decimal(z as nat),
        ConfigVersion::Quadruple(x, y, z, w) => decimal(x as nat) + seq!['.'] + decimal(y as nat)
            + seq!['.'] + decimal(z as nat) + seq!['.'] + decimal(w as nat),
        ConfigVersion::String(s) => s@,
    }
}

/// The version page: the command's first name (or `<undefined>`) on a line,
/// then a space and the version when one is set.
pub open spec fn version_page<L>(c: Command<L>, cfg: Config) -> Seq<char> {
    (if c.name@.len() > 0 {
        c.name@[0]@
    } else {
        "<undefined>"@
    }) + seq!['\n'] + match cfg.version {
        Some(v) => seq![' '] + version_text(v),
        None => Seq::empty(),
    }
}

/// Some argument is positional.
pub open spec fn has_positional<L>(argv: Seq<Argument<L>>) -> bool {
    exists|i: int| 0 <= i < argv.len() && (#[trigger] argv[i]).form is Positional
}

/// Some argument is named.
pub open spec fn has_named<L>(argv: Seq<Argument<L>>) -> bool {
    exists|i: int| 0 <= i < argv.len() && (#[trigger] argv[i]).form is Named
}

/// A positional in the usage line: `<name>` when required, else `[<name>]`.
pub open spec fn usage_entry<L>(a: Argument<L>) -> Seq<char> {
    match a.form {
        ArgumentForm::Positional(name) => if a.required {
            seq!['<'] + name@ + seq!['>']
        } else {
            seq!['[', '<'] + name@ + seq!['>', ']']
        },
        ArgumentForm::Named { .. } => Seq::empty(),
    }
}

/// The usage entries of the positionals, in order.
pub open spec fn usage_entries<L>(argv: Seq<Argument<L>>) -> Seq<Seq<char>>
    decreases argv.len(),
{
    if argv.len() == 0 {
        Seq::empty()
    } else {
        usage_entries(argv.drop_last()) + if argv.last().form is Positional {
            seq![usage_entry(argv.last())]
        } else {
            Seq::empty()
        }
    }
}

/// The usage line.
pub open spec fn usage_line<L>(c: Command<L>) -> Seq<char> {
    let argv = c.argument@;
    let has_sub = c.subcommand@.len() > 0;
    "usage:"@ + (if has_named(argv) {
        " <options>"@
    } else {
        Seq::empty()
    }) + (if has_positional(argv) {
        (if has_sub {
            " (<subcommand> | "@
        } else {
            Seq::empty()
        }) + join(usage_entries(argv), seq![' ']) + (if has_sub {
            seq![')']
        } else {
            Seq::empty()
        })
    } else if has_sub {
        " <subcommand>"@
    } else {
        Seq::empty()
    }) + seq!['\n']
}

/// The description (or else the summary), followed by a blank line.
pub open spec fn description_block<L>(c: Command<L>) -> Seq<char> {
    match (c.description, c.help) {
        (Some(a), _) => a@ + seq!['\n', '\n'],
        (None, Some(a)) => a@ + seq!['\n', '\n'],
        (None, None) => Seq::empty(),
    }
}

/// Short names as `-s`.
pub open spec fn short_forms(short: Seq<char>) -> Seq<Seq<char>> {
    short.map_values(|c: char| seq!['-', c])
}

/// Long names as `--long`.
pub open spec fn long_forms(long: Seq<&str>) -> Seq<Seq<char>> {
    long.map_values(|s: &str| seq!['-', '-'] + s@)
}

/// The names line of an option.
pub open spec fn names_line(long: Seq<&str>, short: Seq<char>) -> Seq<char> {
    if short.len() > 0 || long.len() > 0 {
        (if short.len() > 0 {
            join(short_forms(short), " or "@) + if long.len() > 0 {
                seq![',', ' ']
            } else {
                Seq::empty()
            }
        } else {
            Seq::empty()
        }) + (if long.len() > 0 {
            (if short.len() == 0 {
                seq![' ', ' ', ' ', ' ']
            } else {
                Seq::empty()
            }) + join(long_forms(long), " or "@)
        } else {
            Seq::empty()
        }) + seq!['\n']
    } else {
        "<undefined>"@ + seq!['\n']
    }
}

/// Indentation of option descriptions.
pub open spec fn option_indent() -> Seq<char> {
    seq![' ', ' ', ' ', ' ', ' ', ' ', ' ', ' ', ' ']
}

/// Indentation of subcommand summaries.
pub open spec fn subcommand_indent() -> Seq<char> {
    seq![' ', ' ', ' ']
}

/// An option's entry on the help page.
pub open spec fn option_entry<L>(a: Argument<L>, width: Option<u32>) -> Seq<char> {
    match a.form {
        ArgumentForm::Named { long, short } => seq![' ', ' '] + names_line(long@, short@) + match a.help {
            Some(h) => wrapped(h@, option_indent(), width),
            None => Seq::empty(),
        },
        ArgumentForm::Positional(_) => Seq::empty(),
    }
}

/// The entries of the named options, in order.
pub open spec fn option_entries<L>(argv: Seq<Argument<L>>, width: Option<u32>) -> Seq<char>
    decreases argv.len(),
{
    if argv.len() == 0 {
        Seq::empty()
    } else {
        option_entries(argv.drop_last(), width) + option_entry(argv.last(), width)
    }
}

/// The options section.
pub open spec fn options_block<L>(c: Command<L>, width: Option<u32>) -> Seq<char> {
    if has_positional(c.argument@) || has_named(c.argument@) {
        "options:"@ + seq!['\n'] + option_entries(c.argument@, width)
    } else {
        Seq::empty()
    }
}

/// A subcommand's entry on the help page.
pub open spec fn subcommand_entry<L>(s: Command<L>, width: Option<u32>) -> Seq<char> {
    seq![' ', ' '] + (if s.name@.len() == 0 {
        "<undefined>"@ + seq!['\n']
    } else {
        join(s.name@.map_values(|n: &str| n@), " or "@) + seq!['\n']
    }) + match s.help {
        Some(h) => wrapped(h@, subcommand_indent(), width),
        None => Seq::empty(),
    }
}

/// The entries of the subcommands, in order.
pub open spec fn subcommand_entries<L>(subs: Seq<Command<L>>, width: Option<u32>) -> Seq<char>
    decreases subs.len(),
{
    if subs.len() == 0 {
        Seq::empty()
    } else {
        subcommand_entries(subs.drop_last(), width) + subcommand_entry(subs.last(), width)
    }
}

/// The subcommands section.
pub open spec fn subcommands_block<L>(c: Command<L>, width: Option<u32>) -> Seq<char> {
    if c.subcommand@.len() > 0 {
        "subcommands:"@ + seq!['\n'] + subcommand_entries(c.subcommand@, width) + seq!['\n']
    } else {
        Seq::empty()
    }
}

/// The help page of `c`.
pub open spec fn help_page<L>(c: Command<L>, cfg: Config) -> Seq<char> {
    usage_line(c) + description_block(c) + options_block(c, cfg.wrap) + subcommands_block(
        c,
        cfg.wrap,
    )
}

} // verus!

verus! {

fn write_version_text(out: &mut String, v: &ConfigVersion)
    ensures
        final(out)@ == old(out)@ + version_text(*v),
{
    match v {
        ConfigVersion::Single(x) => push_decimal(out, *x),
        ConfigVersion::Double(x, y) => {
            push_decimal(out, *x);
            push_char(out, '.');
            push_decimal(out, *y);
        },
        ConfigVersion::Triple(x, y, z) => {
            push_decimal(out, *x);
            push_char(out, '.');
            push_decimal(out, *y);
            push_char(out, '.');
            push_decimal(out, *z);
        },
        ConfigVersion::Quadruple(x, y, z, w) => {
            push_decimal(out, *x);
            push_char(out, '.');
            push_decimal(out, *y);
            push_char(out, '.');
            push_decimal(out, *z);
            push_char(out, '.');
            push_decimal(out, *w);
        },
        ConfigVersion::String(s) => out.append(s),
    }
    assert(final(out)@ =~= old(out)@ + version_text(*v));
}

/// Writes the version page of `c`.
pub fn write_version<L>(out: &mut String, c: &Command<L>, cfg: &Config)
    ensures
        final(out)@ == old(out)@ + version_page(*c, *cfg),
{
    if c.name.len() > 0 {
        out.append(c.name[0]);
    } else {
        out.append("<undefined>");
    }
    push_char(out, '\n');
    match &cfg.version {
        Some(v) => {
            push_char(out, ' ');
            write_version_text(out, v);
        },
        None => {},
    }
    assert(final(out)@ =~= old(out)@ + version_page(*c, *cfg));
}

proof fn lemma_join_push(s: Seq<Seq<char>>, x: Seq<char>, sep: Seq<char>)
    ensures
        join(s.push(x), sep) == if s.len() == 0 {
            x
        } else {
            join(s, sep) + sep + x
        },
{
    assert(s.push(x).drop_last() =~= s);
    if s.len() == 0 {
        assert(s.push(x).len() == 1);
    }
}

fn write_names(out: &mut String, names: &[&'static str], sep: &str)
    ensures
        final(out)@ == old(out)@ + join(names@.map_values(|n: &str| n@), sep@),
{
    let ghost all = names@.map_values(|n: &str| n@);
    let mut i: usize = 0;
    while i < names.len()
        invariant
            i <= names@.len(),
            all == names@.map_values(|n: &str| n@),
            out@ == old(out)@ + join(all.take(i as int), sep@),
        decreases names@.len() - i,
    {
        proof {
            assert(all.take(i + 1) =~= all.take(i as int).push(names@[i as int]@));
            lemma_join_push(all.take(i as int), names@[i as int]@, sep@);
        }
        if i > 0 {
            out.append(sep);
        }
        out.append(names[i]);
        i = i + 1;
        proof {
            assert(out@ =~= old(out)@ + join(all.take(i as int), sep@));
        }
    }
    proof {
        assert(all.take(i as int) =~= all);
    }
}

fn write_long_forms(out: &mut String, names: &[&'static str])
    ensures
        final(out)@ == old(out)@ + join(long_forms(names@), " or "@),
{
    let ghost all = long_forms(names@);
    let mut i: usize = 0;
    while i < names.len()
        invariant
            i <= names@.len(),
            all == long_forms(names@),
            out@ == old(out)@ + join(all.take(i as int), " or "@),
        decreases names@.len() - i,
    {
        proof {
            assert(all.take(i + 1) =~= all.take(i as int).push(seq!['-', '-'] + names@[i as int]@));
            lemma_join_push(all.take(i as int), seq!['-', '-'] + names@[i as int]@, " or "@);
        }
        if i > 0 {
            out.append(" or ");
        }
        push_char(out, '-');
        push_char(out, '-');
        out.append(names[i]);
        i = i + 1;
        proof {
            assert(out@ =~= old(out)@ + join(all.take(i as int), " or "@));
        }
    }
    proof {
        assert(all.take(i as int) =~= all);
    }
}

fn write_short_forms(out: &mut String, names: &[char])
    ensures
        final(out)@ == old(out)@ + join(short_forms(names@), " or "@),
{
    let ghost all = short_forms(names@);
    let mut i: usize = 0;
    while i < names.len()
        invariant
            i <= names@.len(),
            all == short_forms(names@),
            out@ == old(out)@ + join(all.take(i as int), " or "@),
        decreases names@.len() - i,
    {
        proof {
            assert(all.take(i + 1) =~= all.take(i as int).push(seq!['-', names@[i as int]]));
            lemma_join_push(all.take(i as int), seq!['-', names@[i as int]], " or "@);
        }
        if i > 0 {
            out.append(" or ");
        }
        push_char(out, '-');
        push_char(out, names[i]);
        i = i + 1;
        proof {
            assert(out@ =~= old(out)@ + join(all.take(i as int), " or "@));
        }
    }
    proof {
        assert(all.take(i as int) =~= all);
    }
}

fn any_positional<L>(argv: &Vec<Argument<L>>) -> (r: bool)
    ensures
        r == has_positional(argv@),
{
    let mut i: usize = 0;
    while i < argv.len()
        invariant
            i <= argv@.len(),
            forall|k: int| 0 <= k < i ==> !(argv@[k].form is Positional),
        decreases argv@.len() - i,
    {
        if argv[i].form.is_positional() {
            return true;
        }
        i = i + 1;
    }
    false
}

fn any_named<L>(argv: &Vec<Argument<L>>) -> (r: bool)
    ensures
        r == has_named(argv@),
{
    let mut i: usize = 0;
    while i < argv.len()
        invariant
            i <= argv@.len(),
            forall|k: int| 0 <= k < i ==> !(argv@[k].form is Named),
        decreases argv@.len() - i,
    {
        if argv[i].form.is_named() {
            return true;
        }
        i = i + 1;
    }
    false
}

fn write_usage_entries<L>(out: &mut String, argv: &Vec<Argument<L>>)
    ensures
        final(out)@ == old(out)@ + join(usage_entries(argv@), seq![' ']),
{
    let mut i: usize = 0;
    let mut count: usize = 0;
    while i < argv.len()
        invariant
            i <= argv@.len(),
            count == usage_entries(argv@.take(i as int)).len(),
            count <= i,
            out@ == old(out)@ + join(usage_entries(argv@.take(i as int)), seq![' ']),
        decreases argv@.len() - i,
    {
        let a = &argv[i];
        proof {
            assert(argv@.take(i + 1).drop_last() =~= argv@.take(i as int));
            assert(argv@.take(i + 1).last() == argv@[i as int]);
        }
        match a.form {
            ArgumentForm::Positional(name) => {
                proof {
                    lemma_join_push(usage_entries(argv@.take(i as int)), usage_entry(*a), seq![' ']);
                    assert(usage_entries(argv@.take(i + 1)) =~= usage_entries(argv@.take(i as int)).push(
                        usage_entry(*a),
                    ));
                }
                if count > 0 {
                    push_char(out, ' ');
                }
                if a.required {
                    push_char(out, '<');
                    out.append(name);
                    push_char(out, '>');
                } else {
                    push_char(out, '[');
                    push_char(out, '<');
                    out.append(name);
                    push_char(out, '>');
                    push_char(out, ']');
                }
                count = count + 1;
            },
            ArgumentForm::Named { .. } => {
                proof {
                    assert(usage_entries(argv@.take(i + 1)) =~= usage_entries(argv@.take(i as int)));
                }
            },
        }
        i = i + 1;
        proof {
            assert(out@ =~= old(out)@ + join(usage_entries(argv@.take(i as int)), seq![' ']));
        }
    }
    proof {
        assert(argv@.take(i as int) =~= argv@);
    }
}

fn write_usage<L>(out: &mut String, c: &Command<L>)
    ensures
        final(out)@ == old(out)@ + usage_line(*c),
{
    let has_sub = c.subcommand.len() > 0;
    let has_pos = any_positional(&c.argument);
    let has_nam = any_named(&c.argument);
    out.append("usage:");
    if has_nam {
        out.append(" <options>");
    }
    let ghost mid = out@;
    if has_pos {
        if has_sub {
            out.append(" (<subcommand> | ");
        }
        write_usage_entries(out, &c.argument);
        if has_sub {
            push_char(out, ')');
        }
    } else if has_sub {
        out.append(" <subcommand>");
    }
    push_char(out, '\n');
    assert(final(out)@ =~= old(out)@ + usage_line(*c));
}

fn write_description<L>(out: &mut String, c: &Command<L>)
    ensures
        final(out)@ == old(out)@ + description_block(*c),
{
    let print = match (c.description, c.help) {
        (Some(a), _) => Some(a),
        (None, Some(a)) => Some(a),
        (None, None) => None,
    };
    match print {
        Some(a) => {
            out.append(a);
            push_char(out, '\n');
            push_char(out, '\n');
        },
        None => {},
    }
    assert(final(out)@ =~= old(out)@ + description_block(*c));
}

} // verus!

verus! {

/// Index pairs as natural numbers.
pub open spec fn spans_view(v: Seq<(usize, usize)>) -> Seq<(nat, nat)> {
    v.map_values(|p: (usize, usize)| (p.0 as nat, p.1 as nat))
}

fn word_spans(text: &str) -> (r: Vec<(usize, usize)>)
    ensures
        spans_view(r@) == spans(text@, 0, None),
        forall|k: int| 0 <= k < r@.len() ==> (#[trigger] r@[k]).0 <= r@[k].1 <= text@.len(),
{
    let n = text.unicode_len();
    let mut out: Vec<(usize, usize)> = Vec::new();
    let mut start: Option<usize> = None;
    let mut i: usize = 0;
    while i < n
        invariant
            n == text@.len(),
            i <= n,
            start matches Some(s) ==> s <= i,
            forall|k: int| 0 <= k < out@.len() ==> (#[trigger] out@[k]).0 <= out@[k].1 <= n,
            spans_view(out@) + spans(text@, i as nat, match start {
                Some(s) => Some(s as nat),
                None => None,
            }) == spans(text@, 0, None),
        decreases n - i,
    {
        let c = text.get_char(i);
        let ghost st = match start {
            Some(s) => Some(s as nat),
            None => None,
        };
        let ghost before = out@;
        if is_whitespace(c) {
            match start {
                Some(s) => {
                    out.push((s, i));
                    proof {
                        assert(spans_view(out@) =~= spans_view(before) + seq![(s as nat, i as nat)]);
                        assert(spans_view(out@) + spans(text@, (i + 1) as nat, None) =~= spans_view(
                            before,
                        ) + (seq![(s as nat, i as nat)] + spans(text@, (i + 1) as nat, None)));
                    }
                },
                None => {},
            }
            start = None;
        } else {
            match start {
                Some(_) => {},
                None => {
                    start = Some(i);
                },
            }
        }
        i = i + 1;
    }
    let ghost before = out@;
    match start {
        Some(s) => {
            out.push((s, n));
            proof {
                assert(spans_view(out@) =~= spans_view(before) + seq![(s as nat, n as nat)]);
            }
        },
        None => {
            proof {
                assert(spans_view(out@) =~= spans_view(before) + Seq::<(nat, nat)>::empty());
            }
        },
    }
    out
}

/// Writes `text` indented, wrapped at `width` characters when a width is set, and
/// ended by a newline.
pub fn write_wrapped(out: &mut String, text: &str, indent: &str, width: Option<u32>)
    ensures
        final(out)@ == old(out)@ + wrapped(text@, indent@, width),
{
    out.append(indent);
    match width {
        None => {
            out.append(text);
            push_char(out, '\n');
            assert(final(out)@ =~= old(out)@ + wrapped(text@, indent@, width));
        },
        Some(w) => {
            let sp = word_spans(text);
            let ghost ws = words(text@);
            let ghost start = out@;
            let mut col: u128 = 0;
            let mut k: usize = 0;
            proof {
                assert(ws.skip(0) =~= ws);
            }
            while k < sp.len()
                invariant
                    spans_view(sp@) == spans(text@, 0, None),
                    forall|j: int| 0 <= j < sp@.len() ==> (#[trigger] sp@[j]).0 <= sp@[j].1 <= text@.len(),
                    ws == words(text@),
                    ws.len() == sp@.len(),
                    k <= sp@.len(),
                    col <= u32::MAX + usize::MAX + 1,
                    start + fill(ws, indent@, w as nat, 0) == out@ + fill(ws.skip(k as int), indent@, w as nat, col as nat),
                decreases sp@.len() - k,
            {
                let (s, e) = sp[k];
                let word = text.substring_char(s, e);
                proof {
                    assert(ws[k as int] == word@);
                    assert(ws.skip(k as int)[0] == ws[k as int]);
                    assert(ws.skip(k as int).drop_first() =~= ws.skip(k + 1));
                }
                let len: u128 = (e - s) as u128 + 1;
                let ghost c0 = col as nat;
                let ghost o0 = out@;
                let ghost glen = ws[k as int].len() + 1;
                let ghost brk = if c0 + glen > w as nat {
                    seq!['\n'] + indent@
                } else {
                    Seq::<char>::empty()
                };
                let ghost c1: nat = if c0 + glen > w as nat {
                    0
                } else {
                    c0
                };
                assert(len == glen);
                if col + len > w as u128 {
                    push_char(out, '\n');
                    out.append(indent);
                    col = 0;
                }
                assert(out@ =~= o0 + brk);
                out.append(word);
                let ghost sep = if ws.skip(k as int).len() > 1 && c1 + glen + ws.skip(k as int)[1].len() <= w as nat {
                    seq![' ']
                } else {
                    Seq::<char>::empty()
                };
                if k + 1 < sp.len() {
                    let (s2, e2) = sp[k + 1];
                    proof {
                        assert(ws[k + 1] == text@.subrange(s2 as int, e2 as int));
                        assert(ws.skip(k as int)[1] == ws[k + 1]);
                    }
                    if col + len + ((e2 - s2) as u128) <= w as u128 {
                        push_char(out, ' ');
                    }
                }
                assert(out@ =~= o0 + brk + word@ + sep);
                col = col + len;
                k = k + 1;
                proof {
                    assert(fill(ws.skip(k - 1), indent@, w as nat, c0) == brk + ws[k - 1] + sep + fill(
                        ws.skip(k as int),
                        indent@,
                        w as nat,
                        c1 + glen,
                    ));
                }
            }
            push_char(out, '\n');
            proof {
                assert(ws.skip(k as int) =~= Seq::<Seq<char>>::empty());
                assert(final(out)@ =~= old(out)@ + wrapped(text@, indent@, width));
            }
        },
    }
}

} // verus!

verus! {

fn write_names_line(out: &mut String, long: &[&'static str], short: &[char])
    ensures
        final(out)@ == old(out)@ + names_line(long@, short@),
{
    if short.len() > 0 || long.len() > 0 {
        if short.len() > 0 {
            write_short_forms(out, short);
            if long.len() > 0 {
                push_char(out, ',');
                push_char(out, ' ');
            }
        }
        if long.len() > 0 {
            if short.len() == 0 {
                push_char(out, ' ');
                push_char(out, ' ');
                push_char(out, ' ');
                push_char(out, ' ');
            }
            write_long_forms(out, long);
        }
        push_char(out, '\n');
    } else {
        out.append("<undefined>");
        push_char(out, '\n');
    }
    assert(final(out)@ =~= old(out)@ + names_line(long@, short@));
}

fn write_option_entry<L>(out: &mut String, a: &Argument<L>, width: Option<u32>)
    ensures
        final(out)@ == old(out)@ + option_entry(*a, width),
{
    match a.form {
        ArgumentForm::Named { long, short } => {
            push_char(out, ' ');
            push_char(out, ' ');
            write_names_line(out, long, short);
            match a.help {
                Some(h) => write_wrapped(out, h, "         ", width),
                None => {},
            }
            proof {
                assert(option_indent() == "         "@) by {
                    reveal_strlit("         ");
                }
            }
        },
        ArgumentForm::Positional(_) => {},
    }
    assert(final(out)@ =~= old(out)@ + option_entry(*a, width));
}

fn write_option_entries<L>(out: &mut String, argv: &Vec<Argument<L>>, width: Option<u32>)
    ensures
        final(out)@ == old(out)@ + option_entries(argv@, width),
{
    let mut i: usize = 0;
    while i < argv.len()
        invariant
            i <= argv@.len(),
            out@ == old(out)@ + option_entries(argv@.take(i as int), width),
        decreases argv@.len() - i,
    {
        proof {
            assert(argv@.take(i + 1).drop_last() =~= argv@.take(i as int));
        }
        write_option_entry(out, &argv[i], width);
        i = i + 1;
        proof {
            assert(out@ =~= old(out)@ + option_entries(argv@.take(i as int), width));
        }
    }
    proof {
        assert(argv@.take(i as int) =~= argv@);
    }
}

fn write_subcommand_entry<L>(out: &mut String, s: &Command<L>, width: Option<u32>)
    ensures
        final(out)@ == old(out)@ + subcommand_entry(*s, width),
{
    push_char(out, ' ');
    push_char(out, ' ');
    if s.name.len() == 0 {
        out.append("<undefined>");
        push_char(out, '\n');
    } else {
        write_names(out, s.name, " or ");
        push_char(out, '\n');
    }
    match s.help {
        Some(h) => write_wrapped(out, h, "   ", width),
        None => {},
    }
    proof {
        assert(subcommand_indent() == "   "@) by {
            reveal_strlit("   ");
        }
    }
    assert(final(out)@ =~= old(out)@ + subcommand_entry(*s, width));
}

fn write_subcommand_entries<L>(out: &mut String, subs: &Vec<Command<L>>, width: Option<u32>)
    ensures
        final(out)@ == old(out)@ + subcommand_entries(subs@, width),
{
    let mut i: usize = 0;
    while i < subs.len()
        invariant
            i <= subs@.len(),
            out@ == old(out)@ + subcommand_entries(subs@.take(i as int), width),
        decreases subs@.len() - i,
    {
        proof {
            assert(subs@.take(i + 1).drop_last() =~= subs@.take(i as int));
        }
        write_subcommand_entry(out, &subs[i], width);
        i = i + 1;
        proof {
            assert(out@ =~= old(out)@ + subcommand_entries(subs@.take(i as int), width));
        }
    }
    proof {
        assert(subs@.take(i as int) =~= subs@);
    }
}

/// Writes the help page of `c`.
pub fn write_help<L>(out: &mut String, c: &Command<L>, cfg: &Config)
    ensures
        final(out)@ == old(out)@ + help_page(*c, *cfg),
{
    let ghost o0 = out@;
    write_usage(out, c);
    write_description(out, c);
    let ghost o1 = out@;
    if any_positional(&c.argument) || any_named(&c.argument) {
        out.append("options:");
        push_char(out, '\n');
        write_option_entries(out, &c.argument, cfg.wrap);
    }
    assert(out@ =~= o1 + options_block(*c, cfg.wrap));
    let ghost o2 = out@;
    if c.subcommand.len() > 0 {
        out.append("subcommands:");
        push_char(out, '\n');
        write_subcommand_entries(out, &c.subcommand, cfg.wrap);
        push_char(out, '\n');
    }
    assert(out@ =~= o2 + subcommands_block(*c, cfg.wrap));
    assert(final(out)@ =~= old(out)@ + help_page(*c, *cfg));
}

} // verus!
