use vstd::prelude::*;

use crate::feed::{args_view, feed_next, FeedView};
use crate::machine::{
    enter, excerpt, first_long, first_short, first_sub, has_long, has_short, inner, is_long,
    is_missing, last_missing,
    left, lemma_first_long, lemma_first_short, lemma_first_sub, lemma_split_from,
    lemma_step_valid, rank, run, split_from, split_point, step, valid, End, Halt, Move, Phase, State,
    Turn,
};
use crate::page::{concat_all, fill, join, spans, words, wrapped};
use crate::parse::{ends_as, strs_view};
use crate::text::is_space;
use crate::types::{Action, Argument, Command, Config, Error, Layer, Output, Success};
use vstd::string::StringSliceAdditionalSpecFns;
use vstd::utf8::{decode_utf8, is_char_boundary, valid_utf8};

verus! {

/// The action runs no layer.
pub open spec fn plain<L>(a: Action<L>) -> bool {
    !(a is Layer) && !(a is LayerBytes)
}

/// No action in the command tree runs a layer.
pub open spec fn no_layers<L>(c: Command<L>) -> bool
    decreases c, 0nat,
{
    &&& plain(c.action)
    &&& forall|j: int| 0 <= j < c.argument@.len() ==> #[trigger] plain(c.argument@[j].action)
    &&& subs_no_layers(c.subcommand@, c.subcommand@.len())
}

/// The first `n` commands of `cs` satisfy [`no_layers`].
pub open spec fn subs_no_layers<L>(cs: Seq<Command<L>>, n: nat) -> bool
    decreases cs, n,
{
    if n == 0 || n > cs.len() {
        true
    } else {
        no_layers(cs[n - 1]) && subs_no_layers(cs, (n - 1) as nat)
    }
}

proof fn lemma_subs_no_layers<L>(cs: Seq<Command<L>>, n: nat, j: int)
    requires
        subs_no_layers(cs, n),
        n <= cs.len(),
        0 <= j < n,
    ensures
        no_layers(cs[j]),
    decreases n,
{
    if j < n - 1 {
        lemma_subs_no_layers(cs, (n - 1) as nat, j);
    }
}

proof fn lemma_step_plain<L>(cfg: Config, args: Seq<Seq<u8>>, s: State<L>)
    requires
        valid(args, s),
        no_layers(s.cmd),
    ensures
        !(step(cfg, args, s).1 is Call),
        step(cfg, args, s).1 is Continue ==> no_layers(step(cfg, args, s).0.cmd),
{
    match s.phase {
        Phase::Options => {
            if s.pos < args.len() && is_long(args[s.pos as int]) {
                let a = args[s.pos as int];
                let long = a.subrange(2, a.len() as int);
                let sp = match cfg.name_splitting {
                    Some(sp) => vstd::string::StringSliceAdditionalSpecFns::spec_bytes(sp),
                    None => Seq::empty(),
                };
                let split = match cfg.name_splitting {
                    Some(_) => split_point(long, sp),
                    None => None,
                };
                let name = match split {
                    Some(i) => long.subrange(0, i as int),
                    None => long,
                };
                lemma_first_long(s.cmd.argument@, name, 0);
                match first_long(s.cmd.argument@, name, 0) {
                    Some(j) => {
                        assert(plain(s.cmd.argument@[j as int].action));
                    },
                    None => {},
                }
            }
        },
        Phase::Shorts { arg, at } => {
            let a = args[arg as int];
            if (at as nat) < a.len() {
                let ch = a[at as int] as char;
                lemma_first_short(s.cmd.argument@, ch, 0);
                match first_short(s.cmd.argument@, ch, 0) {
                    Some(j) => {
                        assert(plain(s.cmd.argument@[j as int].action));
                    },
                    None => {},
                }
            }
        },
        Phase::Positional { index } => {
            if (index as nat) < s.cmd.argument@.len() {
                assert(plain(s.cmd.argument@[index as int].action));
            }
        },
        Phase::Rest => {
            if s.pos < args.len() {
                let check = args[s.pos as int];
                match first_sub(s.cmd.subcommand@, check, 0) {
                    Some(j) => {
                        lemma_first_sub(s.cmd.subcommand@, check, 0);
                        lemma_subs_no_layers(s.cmd.subcommand@, s.cmd.subcommand@.len(), j as int);
                    },
                    None => {},
                }
            }
        },
        Phase::Action => {},
    }
}

proof fn lemma_run_plain<T, E, L: Layer<T, E>>(
    cfg: Config,
    args: Seq<Seq<u8>>,
    s: State<L>,
    t: T,
    turns: Seq<Turn<T, E, L>>,
)
    requires
        no_layers(s.cmd),
    ensures
        run(cfg, args, s, t, turns) == run(cfg, args, s, t, Seq::<Turn<T, E, L>>::empty()),
        run(cfg, args, s, t, turns).1 == 0,
        run(cfg, args, s, t, turns).0 matches End::Finished(_, u) ==> u == t,
    decreases left(args, s), rank(s.phase), inner(args, s),
{
    if valid(args, s) {
        lemma_step_valid(cfg, args, s);
        lemma_step_plain(cfg, args, s);
        let (s2, mv) = step(cfg, args, s);
        match mv {
            Move::Continue => {
                lemma_run_plain(cfg, args, s2, t, turns);
            },
            _ => {},
        }
    }
}

/// Without layers in the command tree the parse is fixed by the command
/// line alone: it calls no layer, whatever layers would have done does not
/// matter, and the value it ends with is the one it started from.
pub proof fn law_no_layers_fixed<T, E, L: Layer<T, E>>(
    cfg: Config,
    cmd: Command<L>,
    args: Seq<Seq<u8>>,
    t0: T,
    turns: Seq<Turn<T, E, L>>,
)
    requires
        no_layers(cmd),
    ensures
        run(cfg, args, enter(cmd, 0), t0, turns) == run(
            cfg,
            args,
            enter(cmd, 0),
            t0,
            Seq::<Turn<T, E, L>>::empty(),
        ),
        run(cfg, args, enter(cmd, 0), t0, turns).1 == 0,
        run(cfg, args, enter(cmd, 0), t0, turns).0 matches End::Finished(_, u) ==> u == t0,
{
    lemma_run_plain(cfg, args, enter(cmd, 0), t0, turns);
}

/// The parser writes to the output only for a help or version page, and
/// never changes which sink is attached; with no sink attached nothing is
/// written at all.
pub proof fn law_output_only_for_pages<'b, T, E, L: Layer<T, E>>(
    cfg: Config,
    cmd: Command<L>,
    args: Seq<Seq<u8>>,
    t0: T,
    turns: Seq<Turn<T, E, L>>,
    r: Result<Success<T>, Error<'b, E>>,
    before: Output,
    after: Output,
)
    requires
        ends_as(cfg, cmd, args, t0, turns, r, before, after),
    ensures
        after.writer == before.writer,
        !(r matches Ok(Success::Help)) && !(r matches Ok(Success::Version)) ==> after.text@
            == before.text@,
        before.writer is None ==> after.text@ == before.text@,
{
}

/// In a cluster of short options (`-abc`) only the last one may take
/// arguments: a layer of any other gets a feed that hands out nothing.
pub proof fn law_short_cluster_only_last<L>(
    cfg: Config,
    args: Seq<Seq<u8>>,
    s: State<L>,
    q: usize,
    k: usize,
    utf8_only: bool,
)
    requires
        valid(args, s),
        s.phase == (Phase::Shorts { arg: q, at: k }),
        k + 1 < args[q as int].len(),
    ensures
        step(cfg, args, s).1 matches Move::Call { pending, start, end, .. } ==> feed_next(
            FeedView { args, pending, pos: start, end, text: utf8_only },
            utf8_only,
        ).1 is None,
{
}

/// A positional argument takes exactly the one value it is given: its
/// layer's feed hands out that value and then nothing.
pub proof fn law_positional_takes_one<L>(
    cfg: Config,
    args: Seq<Seq<u8>>,
    s: State<L>,
    i: usize,
)
    requires
        valid(args, s),
        s.phase == (Phase::Positional { index: i }),
    ensures
        step(cfg, args, s).1 matches Move::Call { pending, start, end, text, .. } ==> {
            let f = FeedView { args, pending, pos: start, end, text };
            &&& pending == Some(args[s.pos as int])
            &&& feed_next(f, false).1 == Some(args[s.pos as int])
            &&& feed_next(feed_next(f, false).0, false).1 is None
        },
{
}

/// Named option mode ends, and the positionals begin, only when every
/// required named argument of the command has matched.
pub proof fn law_required_checked<L>(cfg: Config, args: Seq<Seq<u8>>, s: State<L>)
    requires
        valid(args, s),
        s.phase is Options,
        step(cfg, args, s).0.phase is Positional,
    ensures
        forall|j: int|
            0 <= j < s.cmd.argument@.len() && (#[trigger] s.cmd.argument@[j]).required
                && s.cmd.argument@[j].form is Named ==> s.seen[j],
{
    lemma_not_missing(s.cmd.argument@, s.seen, s.cmd.argument@.len());
    if s.pos < args.len() && is_long(args[s.pos as int]) {
        let a = args[s.pos as int];
        let long = a.subrange(2, a.len() as int);
        let sp = match cfg.name_splitting {
            Some(sp) => vstd::string::StringSliceAdditionalSpecFns::spec_bytes(sp),
            None => Seq::empty(),
        };
        let split = match cfg.name_splitting {
            Some(_) => split_point(long, sp),
            None => None,
        };
        let name = match split {
            Some(i) => long.subrange(0, i as int),
            None => long,
        };
        lemma_first_long(s.cmd.argument@, name, 0);
    }
}

proof fn lemma_not_missing<L>(argv: Seq<crate::types::Argument<L>>, seen: Seq<bool>, n: nat)
    requires
        n <= argv.len(),
        n <= seen.len(),
    ensures
        last_missing(argv, seen, n) is None ==> forall|j: int|
            0 <= j < n ==> !is_missing(#[trigger] argv[j], seen[j]),
    decreases n,
{
    if n > 0 {
        lemma_not_missing(argv, seen, (n - 1) as nat);
    }
}

/// An unexpected value is reported by at most its first 31 characters:
/// a prefix of its text, or `<unknown>` when it is not valid UTF-8.
pub proof fn law_excerpt(check: Seq<u8>)
    ensures
        valid_utf8(check) ==> excerpt(check).len() <= 31 && excerpt(check) == decode_utf8(
            check,
        ).take(excerpt(check).len() as int),
        !valid_utf8(check) ==> excerpt(check) == "<unknown>"@,
{
    if valid_utf8(check) {
        let cs = decode_utf8(check);
        if cs.len() <= 31 {
            assert(cs.take(cs.len() as int) =~= cs);
        }
    }
}

proof fn lemma_split_first(long: Seq<u8>, sp: Seq<u8>, i: nat)
    ensures
        split_from(long, sp, i) matches Some(k) ==> forall|j: nat|
            i <= j < k ==> !(#[trigger] is_char_boundary(long, j as int) && long.subrange(
                j as int,
                (j + sp.len()) as int,
            ) == sp),
    decreases long.len() + 1 - i,
{
    if i + sp.len() <= long.len() && !(is_char_boundary(long, i as int) && long.subrange(
        i as int,
        (i + sp.len()) as int,
    ) == sp) {
        lemma_split_first(long, sp, i + 1);
    }
}

/// Name splitting cuts `--name<splitter>value` at the first occurrence of
/// the splitter: the name, the splitter and the value make up the option
/// again, and the splitter occurs nowhere earlier.
pub proof fn law_split_reassembles(long: Seq<u8>, sp: Seq<u8>)
    ensures
        split_point(long, sp) matches Some(i) ==> {
            &&& long.subrange(0, i as int) + sp + long.subrange((i + sp.len()) as int, long.len() as int)
                == long
            &&& forall|j: nat|
                j < i ==> !(#[trigger] is_char_boundary(long, j as int) && long.subrange(
                    j as int,
                    (j + sp.len()) as int,
                ) == sp)
        },
{
    lemma_split_from(long, sp, 0);
    lemma_split_first(long, sp, 0);
    if let Some(i) = split_point(long, sp) {
        assert(long.subrange(0, i as int) + sp + long.subrange((i + sp.len()) as int, long.len() as int)
            =~= long);
    }
}

/// A feed only moves forward and never past its end, and with `utf8_only`
/// hands out valid UTF-8 only.
pub proof fn law_feed_forward(f: FeedView, utf8_only: bool)
    requires
        f.pos <= f.end,
    ensures
        ({
            let (g, v) = feed_next(f, utf8_only);
            &&& f.pos <= g.pos <= g.end
            &&& g.args == f.args && g.end == f.end && g.text == f.text
            &&& utf8_only ==> (v matches Some(b) ==> valid_utf8(b))
        }),
{
}

/// A line's text after its indentation is at most `w` characters wide, or
/// holds no space (one word at most).
pub open spec fn good_line(cur: Seq<char>, w: nat) -> bool {
    cur.len() <= w || !cur.contains(' ')
}

/// Every line of `s` is good (see [`good_line`]); `cur` is the text of the
/// line before `s` starts, and each line after a newline must begin with
/// `indent`, which does not count.
pub open spec fn lines_fit(s: Seq<char>, indent: Seq<char>, w: nat, cur: Seq<char>) -> bool
    decreases s.len(),
{
    if s.len() == 0 {
        good_line(cur, w)
    } else if s[0] == '\n' {
        &&& good_line(cur, w)
        &&& s.len() >= 1 + indent.len()
        &&& s.subrange(1, 1 + indent.len() as int) == indent
        &&& lines_fit(s.skip(1 + indent.len() as int), indent, w, Seq::empty())
    } else {
        lines_fit(s.drop_first(), indent, w, cur.push(s[0]))
    }
}

proof fn lemma_fit_append(a: Seq<char>, b: Seq<char>, indent: Seq<char>, w: nat, cur: Seq<char>)
    requires
        !a.contains('\n'),
    ensures
        lines_fit(a + b, indent, w, cur) == lines_fit(b, indent, w, cur + a),
    decreases a.len(),
{
    if a.len() == 0 {
        assert(a + b =~= b);
        assert(cur + a =~= cur);
    } else {
        assert((a + b)[0] == a[0]);
        assert((a + b).drop_first() =~= a.drop_first() + b);
        assert(!a.drop_first().contains('\n')) by {
            if a.drop_first().contains('\n') {
                let k = choose|k: int| 0 <= k < a.drop_first().len() && a.drop_first()[k] == '\n';
                assert(a[k + 1] == '\n');
            }
        }
        assert(a[0] != '\n');
        lemma_fit_append(a.drop_first(), b, indent, w, cur.push(a[0]));
        assert(cur.push(a[0]) + a.drop_first() =~= cur + a);
    }
}

proof fn lemma_fit_break(b: Seq<char>, indent: Seq<char>, w: nat, cur: Seq<char>)
    ensures
        lines_fit(seq!['\n'] + indent + b, indent, w, cur) == (good_line(cur, w) && lines_fit(
            b,
            indent,
            w,
            Seq::empty(),
        )),
{
    let s = seq!['\n'] + indent + b;
    assert(s[0] == '\n');
    assert(s.subrange(1, 1 + indent.len() as int) =~= indent);
    assert(s.skip(1 + indent.len() as int) =~= b);
}

/// The characters of `cs` from `lo` to `hi` are not white space.
pub open spec fn no_space_in(cs: Seq<char>, lo: int, hi: int) -> bool {
    forall|k: int| lo <= k < hi ==> !is_space(#[trigger] cs[k])
}

proof fn lemma_spans_clean(cs: Seq<char>, i: nat, start: Option<nat>)
    requires
        i <= cs.len(),
        start matches Some(st) ==> st <= i && no_space_in(cs, st as int, i as int),
    ensures
        forall|k: int| 0 <= k < spans(cs, i, start).len() ==> {
            let p = #[trigger] spans(cs, i, start)[k];
            p.0 <= p.1 <= cs.len() && no_space_in(cs, p.0 as int, p.1 as int)
        },
    decreases cs.len() - i,
{
    if i >= cs.len() {
        if let Some(st) = start {
            assert(spans(cs, i, start) =~= seq![(st, cs.len())]);
        }
    } else {
        if is_space(cs[i as int]) {
            lemma_spans_clean(cs, i + 1, None);
            match start {
                Some(st) => {
                    let rest = spans(cs, i + 1, None);
                    assert(spans(cs, i, start) == seq![(st, i)] + rest);
                    assert forall|k: int| 0 <= k < spans(cs, i, start).len() implies {
                        let p = #[trigger] spans(cs, i, start)[k];
                        p.0 <= p.1 <= cs.len() && no_space_in(cs, p.0 as int, p.1 as int)
                    } by {
                        if k > 0 {
                            assert(spans(cs, i, start)[k] == rest[k - 1]);
                        } else {
                            assert(spans(cs, i, start)[k] == (st, i));
                        }
                    }
                },
                None => {
                    assert(spans(cs, i, start) == spans(cs, i + 1, None));
                },
            }
        } else {
            let st2 = match start {
                Some(st) => Some(st),
                None => Some(i),
            };
            assert(no_space_in(cs, st2.unwrap() as int, (i + 1) as int)) by {
                assert forall|k: int| st2.unwrap() <= k < i + 1 implies !is_space(#[trigger] cs[k]) by {
                    if k < i {
                        assert(start is Some);
                    }
                }
            }
            lemma_spans_clean(cs, i + 1, st2);
            assert(spans(cs, i, start) == spans(cs, i + 1, st2));
        }
    }
}

proof fn lemma_words_clean(text: Seq<char>, k: int)
    requires
        0 <= k < words(text).len(),
    ensures
        !words(text)[k].contains(' '),
        !words(text)[k].contains('\n'),
{
    lemma_spans_clean(text, 0, None);
    let p = spans(text, 0, None)[k];
    let wd = words(text)[k];
    assert(wd == text.subrange(p.0 as int, p.1 as int));
    if wd.contains(' ') {
        let j = choose|j: int| 0 <= j < wd.len() && wd[j] == ' ';
        assert(text[p.0 + j] == ' ');
    }
    if wd.contains('\n') {
        let j = choose|j: int| 0 <= j < wd.len() && wd[j] == '\n';
        assert(text[p.0 + j] == '\n');
    }
}

proof fn lemma_fill_fits(ws: Seq<Seq<char>>, indent: Seq<char>, w: nat, col: nat, cur: Seq<char>)
    requires
        forall|k: int| 0 <= k < ws.len() ==> !(#[trigger] ws[k]).contains(' ') && !ws[k].contains(
            '\n',
        ),
        cur.len() <= col,
        good_line(cur, w),
    ensures
        lines_fit(fill(ws, indent, w, col), indent, w, cur),
    decreases ws.len(),
{
    if ws.len() == 0 {
    } else {
        let word = ws[0];
        let len = word.len() + 1;
        let brk = col + len > w;
        let c1: nat = if brk {
            0
        } else {
            col
        };
        let sep = if ws.len() > 1 && c1 + len + ws[1].len() <= w {
            seq![' ']
        } else {
            Seq::<char>::empty()
        };
        let rest = fill(ws.drop_first(), indent, w, c1 + len);
        let base: Seq<char> = if brk {
            Seq::empty()
        } else {
            cur
        };
        let cur2 = base + (word + sep);
        assert forall|k: int| 0 <= k < ws.drop_first().len() implies !(#[trigger] ws.drop_first()[k]).contains(
            ' ',
        ) && !ws.drop_first()[k].contains('\n') by {
            assert(ws.drop_first()[k] == ws[k + 1]);
        }
        assert(!(word + sep).contains('\n')) by {
            if (word + sep).contains('\n') {
                let j = choose|j: int| 0 <= j < (word + sep).len() && (word + sep)[j] == '\n';
                if j < word.len() {
                    assert(word[j] == '\n');
                }
            }
        }
        assert(good_line(cur2, w)) by {
            if cur2.len() > w {
                assert(brk);
                assert(sep.len() == 0);
                assert(cur2 =~= word);
            }
        }
        lemma_fill_fits(ws.drop_first(), indent, w, c1 + len, cur2);
        lemma_fit_append(word + sep, rest, indent, w, base);
        if brk {
            assert(fill(ws, indent, w, col) =~= seq!['\n'] + indent + ((word + sep) + rest));
            lemma_fit_break((word + sep) + rest, indent, w, cur);
            assert(Seq::<char>::empty() + (word + sep) =~= word + sep);
        } else {
            assert(fill(ws, indent, w, col) =~= (word + sep) + rest);
            assert(cur + (word + sep) =~= cur2);
        }
    }
}

/// Wrapped help text keeps within the width: after its indentation, every
/// line is at most `w` characters wide, unless it holds a single word that
/// is wider by itself.
pub proof fn law_wrap_width(text: Seq<char>, indent: Seq<char>, w: nat)
    ensures
        lines_fit(fill(words(text), indent, w, 0), indent, w, Seq::empty()),
{
    assert forall|k: int| 0 <= k < words(text).len() implies !(#[trigger] words(text)[k]).contains(
        ' ',
    ) && !words(text)[k].contains('\n') by {
        lemma_words_clean(text, k);
    }
    lemma_fill_fits(words(text), indent, w, 0, Seq::empty());
}

} // verus!

verus! {

/// Joining puts the separator only between two items, never first or last:
/// no items give nothing, and otherwise the first item is followed by each
/// later one in order, each preceded by the separator.
pub proof fn law_join(s: Seq<Seq<char>>, sep: Seq<char>)
    ensures
        s.len() == 0 ==> join(s, sep) == Seq::<char>::empty(),
        s.len() > 0 ==> join(s, sep) == s[0] + concat_all(
            s.drop_first().map_values(|x: Seq<char>| sep + x),
        ),
    decreases s.len(),
{
    if s.len() == 1 {
        assert(s.drop_first().map_values(|x: Seq<char>| sep + x) =~= Seq::<Seq<char>>::empty());
        assert(s[0] + Seq::<char>::empty() =~= s[0]);
    } else if s.len() > 1 {
        let dl = s.drop_last();
        law_join(dl, sep);
        let f = |x: Seq<char>| sep + x;
        assert(dl[0] == s[0]);
        assert(s.drop_first().map_values(f) =~= dl.drop_first().map_values(f).push(sep + s.last()));
        assert(s.drop_first().map_values(f).drop_last() =~= dl.drop_first().map_values(f));
        assert(join(s, sep) =~= s[0] + concat_all(s.drop_first().map_values(f)));
    }
}

/// Parsing texts is parsing their bytes: on a command line of texts and one
/// of their bytes, the same layer calls end the same way, with the same
/// result and the same output.
pub proof fn law_parse_str_is_bytes<'b, T, E, L: Layer<T, E>>(
    cfg: Config,
    cmd: Command<L>,
    texts: &[&str],
    bytes: &[&[u8]],
    t0: T,
    turns: Seq<Turn<T, E, L>>,
    r: Result<Success<T>, Error<'b, E>>,
    before: Output,
    after: Output,
)
    requires
        bytes@.len() == texts@.len(),
        forall|i: int| 0 <= i < texts@.len() ==> (#[trigger] bytes@[i])@ == texts@[i].spec_bytes(),
    ensures
        strs_view(texts) == args_view(bytes),
        ends_as(cfg, cmd, strs_view(texts), t0, turns, r, before, after) == ends_as(
            cfg,
            cmd,
            args_view(bytes),
            t0,
            turns,
            r,
            before,
            after,
        ),
{
    assert(strs_view(texts) =~= args_view(bytes));
}

} // verus!

verus! {

/// A named argument matched by its long name counts as given. When a
/// `--name` argument (with name splitting, `--name<splitter>value`) in named
/// option mode is not refused, the parse moves past it and marks as given
/// one argument, and only that one, whose long names include the name.
/// Without name splitting, a `--name` that some argument has as a long name
/// is never refused.
pub proof fn law_long_counts_as_given<L>(cfg: Config, args: Seq<Seq<u8>>, s: State<L>)
    requires
        valid(args, s),
        s.phase is Options,
        s.pos < args.len(),
        is_long(args[s.pos as int]),
    ensures
        ({
            let a = args[s.pos as int];
            let n = a.subrange(2, a.len() as int);
            let (s2, mv) = step(cfg, args, s);
            &&& (cfg.name_splitting is None && exists|j: int|
                0 <= j < s.cmd.argument@.len() && #[trigger] has_long(s.cmd.argument@[j], n))
                ==> !(mv matches Move::Stop(Halt::Fail(_)))
            &&& !(mv matches Move::Stop(Halt::Fail(_))) ==> exists|j: int|
                #![trigger s.seen.update(j, true)]
                0 <= j < s.cmd.argument@.len() && s2.seen == s.seen.update(j, true) && s2.pos
                    == s.pos + 1 && s2.cmd == s.cmd && (has_long(s.cmd.argument@[j], n) || (
                cfg.name_splitting matches Some(sp) && exists|name: Seq<u8>, value: Seq<u8>|
                    #![trigger has_long(s.cmd.argument@[j], name), name + sp.spec_bytes() + value]
                    n == name + sp.spec_bytes() + value && has_long(s.cmd.argument@[j], name)))
        }),
{
    let a = args[s.pos as int];
    let long = a.subrange(2, a.len() as int);
    let sp = match cfg.name_splitting {
        Some(sp) => sp.spec_bytes(),
        None => Seq::empty(),
    };
    let split = match cfg.name_splitting {
        Some(_) => split_point(long, sp),
        None => None,
    };
    let name = match split {
        Some(i) => long.subrange(0, i as int),
        None => long,
    };
    lemma_first_long(s.cmd.argument@, name, 0);
    lemma_split_from(long, sp, 0);
    let (s2, mv) = step(cfg, args, s);
    if cfg.name_splitting is None {
        if exists|j: int| 0 <= j < s.cmd.argument@.len() && #[trigger] has_long(s.cmd.argument@[j], long) {
            let j = choose|j: int| 0 <= j < s.cmd.argument@.len() && #[trigger] has_long(s.cmd.argument@[j], long);
            lemma_first_long_found(s.cmd.argument@, long, 0, j);
        }
    }
    if !(mv matches Move::Stop(Halt::Fail(_))) {
        let j = first_long(s.cmd.argument@, name, 0).unwrap();
        assert(s2.seen == s.seen.update(j as int, true));
        if let Some(i) = split {
            let value = long.subrange((i + sp.len()) as int, long.len() as int);
            assert(long == name + sp + value);
            assert(has_long(s.cmd.argument@[j as int], name));
        }
    }
}

proof fn lemma_first_long_found<L>(argv: Seq<Argument<L>>, name: Seq<u8>, i: nat, j: int)
    requires
        i <= j < argv.len(),
        has_long(argv[j], name),
    ensures
        first_long(argv, name, i) is Some,
    decreases j - i,
{
    if !has_long(argv[i as int], name) {
        lemma_first_long_found(argv, name, i + 1, j);
    }
}

proof fn lemma_first_short_is<L>(argv: Seq<Argument<L>>, ch: char, i: nat, j: int)
    requires
        i <= j < argv.len(),
        has_short(argv[j], ch),
        forall|m: int| 0 <= m < j ==> !has_short(#[trigger] argv[m], ch),
    ensures
        first_short(argv, ch, i) == Some(j as nat),
    decreases j - i,
{
    if i < j {
        assert(!has_short(argv[i as int], ch));
        lemma_first_short_is(argv, ch, i + 1, j);
    }
}

/// Every character of a short cluster that names an argument runs that
/// argument's action, however often the argument matched before: a layer is
/// called (on the arguments after the cluster only for its last character),
/// help and version stop, and the argument is marked as given.
pub proof fn law_short_runs_every_time<L>(
    cfg: Config,
    args: Seq<Seq<u8>>,
    s: State<L>,
    q: usize,
    k: usize,
    j: int,
)
    requires
        valid(args, s),
        s.phase == (Phase::Shorts { arg: q, at: k }),
        k < args[q as int].len(),
        0 <= j < s.cmd.argument@.len(),
        has_short(s.cmd.argument@[j], args[q as int][k as int] as char),
        forall|i: int|
            0 <= i < j ==> !has_short(#[trigger] s.cmd.argument@[i], args[q as int][k as int] as char),
    ensures
        ({
            let (s2, mv) = step(cfg, args, s);
            let end: nat = if k + 1 == args[q as int].len() {
                args.len()
            } else {
                s.pos
            };
            &&& s2.seen == s.seen.update(j, true)
            &&& s2.pos == s.pos
            &&& s2.phase == (Phase::Shorts { arg: q, at: (k + 1) as usize })
            &&& s.cmd.argument@[j].action matches Action::Layer(l) ==> mv == (Move::Call {
                layer: l,
                text: true,
                pending: None,
                start: s.pos,
                end,
            })
            &&& s.cmd.argument@[j].action matches Action::LayerBytes(l) ==> mv == (Move::Call {
                layer: l,
                text: false,
                pending: None,
                start: s.pos,
                end,
            })
            &&& s.cmd.argument@[j].action is Help ==> mv == Move::Stop(Halt::Help(s.cmd))
            &&& s.cmd.argument@[j].action is Version ==> mv == Move::Stop(Halt::Version(s.cmd))
            &&& s.cmd.argument@[j].action is Nothing ==> mv is Continue
        }),
{
    lemma_first_short_is(s.cmd.argument@, args[q as int][k as int] as char, 0, j);
}

} // verus!

verus! {

/// The characters of `cs` that are not white space, in order.
pub open spec fn visible(cs: Seq<char>) -> Seq<char> {
    cs.filter(|c: char| !is_space(c))
}

proof fn lemma_visible_step(s: Seq<char>)
    requires
        s.len() > 0,
    ensures
        visible(s) == if is_space(s.last()) {
            visible(s.drop_last())
        } else {
            visible(s.drop_last()).push(s.last())
        },
{
    reveal(Seq::filter);
}

proof fn lemma_visible_add(a: Seq<char>, b: Seq<char>)
    ensures
        visible(a + b) == visible(a) + visible(b),
    decreases b.len(),
{
    reveal(Seq::filter);
    if b.len() == 0 {
        assert(a + b =~= a);
        assert(visible(b) =~= Seq::<char>::empty());
        assert(visible(a) + visible(b) =~= visible(a));
    } else {
        lemma_visible_add(a, b.drop_last());
        assert((a + b).drop_last() =~= a + b.drop_last());
        assert((a + b).last() == b.last());
        lemma_visible_step(a + b);
        lemma_visible_step(b);
        if !is_space(b.last()) {
            assert(visible(a) + visible(b.drop_last()).push(b.last()) =~= (visible(a) + visible(
                b.drop_last(),
            )).push(b.last()));
        }
    }
}

proof fn lemma_visible_clean(s: Seq<char>)
    requires
        forall|i: int| 0 <= i < s.len() ==> !is_space(#[trigger] s[i]),
    ensures
        visible(s) == s,
    decreases s.len(),
{
    reveal(Seq::filter);
    if s.len() > 0 {
        lemma_visible_clean(s.drop_last());
        lemma_visible_step(s);
        assert(s.drop_last().push(s.last()) =~= s);
    } else {
        assert(visible(s) =~= s);
    }
}

proof fn lemma_visible_blank(s: Seq<char>)
    requires
        forall|i: int| 0 <= i < s.len() ==> is_space(#[trigger] s[i]),
    ensures
        visible(s) == Seq::<char>::empty(),
    decreases s.len(),
{
    reveal(Seq::filter);
    if s.len() > 0 {
        lemma_visible_blank(s.drop_last());
        lemma_visible_step(s);
    }
}

proof fn lemma_visible_is_clean(s: Seq<char>)
    ensures
        forall|i: int| 0 <= i < visible(s).len() ==> !is_space(#[trigger] visible(s)[i]),
    decreases s.len(),
{
    reveal(Seq::filter);
    if s.len() > 0 {
        lemma_visible_is_clean(s.drop_last());
        lemma_visible_step(s);
    }
}

proof fn lemma_concat_add(a: Seq<Seq<char>>, b: Seq<Seq<char>>)
    ensures
        concat_all(a + b) == concat_all(a) + concat_all(b),
    decreases b.len(),
{
    if b.len() == 0 {
        assert(a + b =~= a);
        assert(concat_all(a) + concat_all(b) =~= concat_all(a));
    } else {
        lemma_concat_add(a, b.drop_last());
        assert((a + b).drop_last() =~= a + b.drop_last());
        assert((a + b).last() == b.last());
        assert(concat_all(a) + concat_all(b.drop_last()) + b.last() =~= concat_all(a) + (concat_all(
            b.drop_last(),
        ) + b.last()));
    }
}

proof fn lemma_concat_one(x: Seq<char>)
    ensures
        concat_all(seq![x]) == x,
{
    let one = seq![x];
    assert(one.drop_last() =~= Seq::<Seq<char>>::empty());
    assert(one.last() == x);
    assert(concat_all(one.drop_last()) == Seq::<char>::empty());
    assert(concat_all(one) == concat_all(one.drop_last()) + one.last());
    assert(Seq::<char>::empty() + x =~= x);
}

proof fn lemma_words_visible(cs: Seq<char>, i: nat, start: Option<nat>)
    requires
        i <= cs.len(),
        start matches Some(st) ==> st <= i && no_space_in(cs, st as int, i as int),
    ensures
        ({
            let b: int = match start {
                Some(st) => st as int,
                None => i as int,
            };
            concat_all(
                spans(cs, i, start).map_values(|p: (nat, nat)| cs.subrange(p.0 as int, p.1 as int)),
            ) == visible(cs.subrange(b, cs.len() as int))
        }),
    decreases cs.len() - i,
{
    let f = |p: (nat, nat)| cs.subrange(p.0 as int, p.1 as int);
    if i >= cs.len() {
        match start {
            Some(st) => {
                assert(spans(cs, i, start) =~= seq![(st, cs.len())]);
                assert(spans(cs, i, start).map_values(f) =~= seq![cs.subrange(st as int, cs.len() as int)]);
                lemma_concat_one(cs.subrange(st as int, cs.len() as int));
                lemma_visible_clean(cs.subrange(st as int, cs.len() as int));
            },
            None => {
                assert(spans(cs, i, start).map_values(f) =~= Seq::<Seq<char>>::empty());
                assert(cs.subrange(i as int, cs.len() as int) =~= Seq::<char>::empty());
                lemma_visible_blank(cs.subrange(i as int, cs.len() as int));
            },
        }
    } else if is_space(cs[i as int]) {
        lemma_words_visible(cs, i + 1, None);
        let rest = spans(cs, i + 1, None);
        let tail = cs.subrange((i + 1) as int, cs.len() as int);
        assert(visible(seq![cs[i as int]]) == Seq::<char>::empty()) by {
            lemma_visible_blank(seq![cs[i as int]]);
        }
        match start {
            Some(st) => {
                let head = cs.subrange(st as int, i as int);
                assert(spans(cs, i, start) == seq![(st, i)] + rest);
                assert(spans(cs, i, start).map_values(f) =~= seq![head] + rest.map_values(f));
                lemma_concat_add(seq![head], rest.map_values(f));
                lemma_concat_one(head);
                assert(cs.subrange(st as int, cs.len() as int) =~= head + (seq![cs[i as int]] + tail));
                lemma_visible_add(head, seq![cs[i as int]] + tail);
                lemma_visible_add(seq![cs[i as int]], tail);
                lemma_visible_clean(head);
                assert(Seq::<char>::empty() + visible(tail) =~= visible(tail));
            },
            None => {
                assert(spans(cs, i, start) == rest);
                assert(cs.subrange(i as int, cs.len() as int) =~= seq![cs[i as int]] + tail);
                lemma_visible_add(seq![cs[i as int]], tail);
                assert(Seq::<char>::empty() + visible(tail) =~= visible(tail));
            },
        }
    } else {
        let st2 = match start {
            Some(st) => Some(st),
            None => Some(i),
        };
        assert(no_space_in(cs, st2.unwrap() as int, (i + 1) as int)) by {
            assert forall|k: int| st2.unwrap() <= k < i + 1 implies !is_space(#[trigger] cs[k]) by {
                if k < i {
                    assert(start is Some);
                }
            }
        }
        lemma_words_visible(cs, i + 1, st2);
        assert(spans(cs, i, start) == spans(cs, i + 1, st2));
    }
}

proof fn lemma_fill_visible(ws: Seq<Seq<char>>, indent: Seq<char>, w: nat, col: nat)
    requires
        forall|i: int| 0 <= i < indent.len() ==> is_space(#[trigger] indent[i]),
    ensures
        visible(fill(ws, indent, w, col)) == visible(concat_all(ws)),
    decreases ws.len(),
{
    if ws.len() == 0 {
    } else {
        let len = ws[0].len() + 1;
        let brk = if col + len > w {
            seq!['\n'] + indent
        } else {
            Seq::<char>::empty()
        };
        let c1: nat = if col + len > w {
            0
        } else {
            col
        };
        let sep = if ws.len() > 1 && c1 + len + ws[1].len() <= w {
            seq![' ']
        } else {
            Seq::<char>::empty()
        };
        let rest = fill(ws.drop_first(), indent, w, c1 + len);
        lemma_fill_visible(ws.drop_first(), indent, w, c1 + len);
        assert(fill(ws, indent, w, col) == brk + ws[0] + sep + rest);
        assert forall|i: int| 0 <= i < brk.len() implies is_space(#[trigger] brk[i]) by {
            if i > 0 {
                assert(brk[i] == indent[i - 1]);
            }
        }
        assert forall|i: int| 0 <= i < sep.len() implies is_space(#[trigger] sep[i]) by {}
        lemma_visible_blank(brk);
        lemma_visible_blank(sep);
        lemma_visible_add(brk + ws[0] + sep, rest);
        lemma_visible_add(brk + ws[0], sep);
        lemma_visible_add(brk, ws[0]);
        assert(ws =~= seq![ws[0]] + ws.drop_first());
        lemma_concat_add(seq![ws[0]], ws.drop_first());
        lemma_concat_one(ws[0]);
        lemma_visible_add(ws[0], concat_all(ws.drop_first()));
        assert(Seq::<char>::empty() + visible(ws[0]) =~= visible(ws[0]));
        assert(visible(ws[0]) + Seq::<char>::empty() =~= visible(ws[0]));
    }
}

/// Wrapping keeps the words: the words of a text (its maximal runs of
/// characters that are not white space) put together are its characters
/// other than white space, in order; and the wrapped text, with its line
/// breaks, indentation (white space) and separating spaces taken out, is
/// exactly those characters again.
pub proof fn law_wrap_keeps_words(text: Seq<char>, indent: Seq<char>, width: Option<u32>)
    requires
        forall|i: int| 0 <= i < indent.len() ==> is_space(#[trigger] indent[i]),
    ensures
        concat_all(words(text)) == visible(text),
        visible(wrapped(text, indent, width)) == visible(text),
{
    lemma_words_visible(text, 0, None);
    assert(text.subrange(0, text.len() as int) =~= text);
    assert(words(text) == spans(text, 0, None).map_values(
        |p: (nat, nat)| text.subrange(p.0 as int, p.1 as int),
    ));
    lemma_visible_blank(indent);
    lemma_visible_blank(seq!['\n']);
    match width {
        None => {
            lemma_visible_add(indent + text, seq!['\n']);
            lemma_visible_add(indent, text);
            assert(wrapped(text, indent, width) == indent + text + seq!['\n']);
            assert(Seq::<char>::empty() + visible(text) =~= visible(text));
            assert(visible(text) + Seq::<char>::empty() =~= visible(text));
        },
        Some(w) => {
            let body = fill(words(text), indent, w as nat, 0);
            lemma_fill_visible(words(text), indent, w as nat, 0);
            lemma_visible_is_clean(text);
            lemma_visible_clean(visible(text));
            assert(wrapped(text, indent, width) =~= indent + (body + seq!['\n']));
            lemma_visible_add(indent, body + seq!['\n']);
            lemma_visible_add(body, seq!['\n']);
            assert(Seq::<char>::empty() + (visible(body) + Seq::<char>::empty()) =~= visible(body));
        },
    }
}

} // verus!
