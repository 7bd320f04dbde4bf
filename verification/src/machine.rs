use vstd::prelude::*;

use crate::feed::{args_view, FeedView};
use crate::text::{bytes_eq, bytes_to_str, is_utf8, str_is_bytes};
use crate::types::{Action, Argument, ArgumentForm, Command, Config, Layer};
use vstd::slice::slice_subrange;
use vstd::string::{StrSliceExecFns, StringSliceAdditionalSpecFns};
use vstd::utf8::{decode_utf8, is_char_boundary, valid_utf8};

verus! {

broadcast use vstd::utf8::encode_utf8_decode_utf8;

/// Where the parser stands within the current command.
#[derive(Debug, Clone, Copy, PartialEq, Eq)]
pub enum Phase {
    /// the command's own action is next.
    Action,
    /// named option mode: the next argument may be `--long` or `-short`.
    Options,
    /// inside the cluster of short options `args[arg]`, at byte `at`.
    Shorts { arg: usize, at: usize },
    /// giving values to the positional arguments, from argument `index` on.
    Positional { index: usize },
    /// positionals are done; what is left must name a subcommand.
    Rest,
}

/// The parser's state: the current command, the phase, the position in the
/// command line, and which of the command's arguments have matched.
pub struct State<L> {
    pub cmd: Command<L>,
    pub phase: Phase,
    pub pos: nat,
    pub seen: Seq<bool>,
}

/// A parse error that the parser itself finds (payloads by their text).
pub enum Fault {
    BadLong(Seq<u8>),
    BadShort(char),
    BadPositional(Seq<char>),
    RequiredLong(Seq<char>),
    RequiredShort(char),
    RequiredPositional(Seq<char>),
}

/// Why the parser stops by itself.
pub enum Halt<L> {
    /// all arguments were taken.
    Done,
    /// a help action matched in this command.
    Help(Command<L>),
    /// a version action matched in this command.
    Version(Command<L>),
    /// the parser rejected the command line.
    Fail(Fault),
}

/// One layer call: the layer, the value and the feed it was handed, what
/// it gave back (the new value or its error), and the feed as it left it.
pub struct Turn<T, E, L> {
    pub layer: L,
    pub input: T,
    pub feed: FeedView,
    pub output: Result<T, E>,
    pub after: FeedView,
}

/// How a run ends.
pub enum End<T, E, L> {
    /// the parser stopped, holding this value.
    Finished(Halt<L>, T),
    /// a layer returned this error.
    LayerFailed(E),
    /// the layer calls recorded do not fit the run, or there are too few.
    Stuck,
}

/// One move of the parser.
pub enum Move<L> {
    /// the parser moved on by itself.
    Continue,
    /// `layer` must run on a feed of the pending value and then the
    /// arguments from `start` to `end`; it may leave the feed anywhere in
    /// between.
    Call { layer: L, text: bool, pending: Option<Seq<u8>>, start: nat, end: nat },
    /// the parse ends.
    Stop(Halt<L>),
}

/// An optional index, as a natural number.
pub open spec fn index_opt(r: Option<usize>) -> Option<nat> {
    match r {
        Some(j) => Some(j as nat),
        None => None,
    }
}

/// A required named argument has a name to be asked for by.
pub open spec fn names_ok<L>(a: Argument<L>) -> bool {
    match a.form {
        ArgumentForm::Named { long, short } => a.required ==> (long@.len() > 0 || short@.len() > 0),
        ArgumentForm::Positional(_) => true,
    }
}

/// Every required named argument in the command tree has a name.
pub open spec fn tree_named<L>(c: Command<L>) -> bool
    decreases c, 0nat,
{
    &&& forall|j: int| 0 <= j < c.argument@.len() ==> #[trigger] names_ok(c.argument@[j])
    &&& subs_named(c.subcommand@, c.subcommand@.len())
}

/// The first `n` commands of `cs` satisfy [`tree_named`].
pub open spec fn subs_named<L>(cs: Seq<Command<L>>, n: nat) -> bool
    decreases cs, n,
{
    if n == 0 || n > cs.len() {
        true
    } else {
        tree_named(cs[n - 1]) && subs_named(cs, (n - 1) as nat)
    }
}

/// The most arguments a command may have.
pub open spec fn max_arguments() -> nat {
    128
}

/// Every command in the tree has fewer than [`max_arguments`] arguments.
pub open spec fn tree_small<L>(c: Command<L>) -> bool
    decreases c, 0nat,
{
    &&& c.argument@.len() < max_arguments()
    &&& subs_small(c.subcommand@, c.subcommand@.len())
}

/// The first `n` commands of `cs` satisfy [`tree_small`].
pub open spec fn subs_small<L>(cs: Seq<Command<L>>, n: nat) -> bool
    decreases cs, n,
{
    if n == 0 || n > cs.len() {
        true
    } else {
        tree_small(cs[n - 1]) && subs_small(cs, (n - 1) as nat)
    }
}

/// The command trees the parser takes: every required named argument has a
/// name, and every command has fewer than [`max_arguments`] arguments.
pub open spec fn tree_ok<L>(c: Command<L>) -> bool {
    tree_named(c) && tree_small(c)
}

proof fn lemma_subs_small<L>(cs: Seq<Command<L>>, n: nat, j: int)
    requires
        subs_small(cs, n),
        n <= cs.len(),
        0 <= j < n,
    ensures
        tree_small(cs[j]),
    decreases n,
{
    if j < n - 1 {
        lemma_subs_small(cs, (n - 1) as nat, j);
    }
}

proof fn lemma_subs_small_from<L>(cs: Seq<Command<L>>, n: nat)
    requires
        n <= cs.len(),
        forall|j: int| 0 <= j < n ==> #[trigger] tree_small(cs[j]),
    ensures
        subs_small(cs, n),
    decreases n,
{
    if n > 0 {
        assert(tree_small(cs[n - 1]));
        lemma_subs_small_from(cs, (n - 1) as nat);
    }
}

/// Whether every command in the tree has fewer than [`max_arguments`]
/// arguments (see [`tree_small`]).
pub fn few_arguments<L>(command: &Command<L>) -> (r: bool)
    ensures
        r == tree_small(*command),
    decreases command,
{
    if command.argument.len() >= 128 {
        return false;
    }
    let mut k: usize = 0;
    while k < command.subcommand.len()
        invariant
            k <= command.subcommand@.len(),
            command.argument@.len() < max_arguments(),
            forall|i: int| 0 <= i < k ==> #[trigger] tree_small(command.subcommand@[i]),
        decreases command.subcommand@.len() - k,
    {
        assert(decreases_to!(command => command.subcommand@[k as int]));
        if !few_arguments(&command.subcommand[k]) {
            proof {
                if subs_small(command.subcommand@, command.subcommand@.len()) {
                    lemma_subs_small(command.subcommand@, command.subcommand@.len(), k as int);
                }
            }
            return false;
        }
        k = k + 1;
    }
    proof {
        lemma_subs_small_from(command.subcommand@, command.subcommand@.len());
    }
    true
}

proof fn lemma_subs_named<L>(cs: Seq<Command<L>>, n: nat, j: int)
    requires
        subs_named(cs, n),
        n <= cs.len(),
        0 <= j < n,
    ensures
        tree_named(cs[j]),
    decreases n,
{
    if j < n - 1 {
        lemma_subs_named(cs, (n - 1) as nat, j);
    }
}

proof fn lemma_subs_named_from<L>(cs: Seq<Command<L>>, n: nat)
    requires
        n <= cs.len(),
        forall|j: int| 0 <= j < n ==> #[trigger] tree_named(cs[j]),
    ensures
        subs_named(cs, n),
    decreases n,
{
    if n > 0 {
        assert(tree_named(cs[n - 1]));
        lemma_subs_named_from(cs, (n - 1) as nat);
    }
}

/// Whether every required named argument in the command tree has a long or
/// a short name (see [`tree_named`]).
pub fn well_named<L>(command: &Command<L>) -> (r: bool)
    ensures
        r == tree_named(*command),
    decreases command,
{
    let mut j: usize = 0;
    while j < command.argument.len()
        invariant
            j <= command.argument@.len(),
            forall|i: int| 0 <= i < j ==> #[trigger] names_ok(command.argument@[i]),
        decreases command.argument@.len() - j,
    {
        let a = &command.argument[j];
        match a.form {
            ArgumentForm::Named { long, short } => {
                if a.required && long.len() == 0 && short.len() == 0 {
                    assert(!names_ok(command.argument@[j as int]));
                    return false;
                }
            },
            ArgumentForm::Positional(_) => {},
        }
        j = j + 1;
    }
    let mut k: usize = 0;
    while k < command.subcommand.len()
        invariant
            k <= command.subcommand@.len(),
            forall|i: int| 0 <= i < j ==> #[trigger] names_ok(command.argument@[i]),
            j == command.argument@.len(),
            forall|i: int| 0 <= i < k ==> #[trigger] tree_named(command.subcommand@[i]),
        decreases command.subcommand@.len() - k,
    {
        assert(decreases_to!(command => command.subcommand@[k as int]));
        if !well_named(&command.subcommand[k]) {
            proof {
                if subs_named(command.subcommand@, command.subcommand@.len()) {
                    lemma_subs_named(command.subcommand@, command.subcommand@.len(), k as int);
                }
            }
            return false;
        }
        k = k + 1;
    }
    proof {
        lemma_subs_named_from(command.subcommand@, command.subcommand@.len());
    }
    true
}

/// The byte `-`.
pub open spec fn dash() -> u8 {
    45u8
}

/// `a` is `--` followed by valid UTF-8.
pub open spec fn is_long(a: Seq<u8>) -> bool {
    a.len() >= 2 && a[0] == dash() && a[1] == dash() && valid_utf8(a.subrange(2, a.len() as int))
}

/// `a` starts with `-`.
pub open spec fn is_dashed(a: Seq<u8>) -> bool {
    a.len() >= 1 && a[0] == dash()
}

/// The first place, from `i` on, where `sp` occurs in `long` starting at a
/// character boundary.
pub open spec fn split_from(long: Seq<u8>, sp: Seq<u8>, i: nat) -> Option<nat>
    decreases long.len() + 1 - i,
{
    if i + sp.len() > long.len() {
        None
    } else if is_char_boundary(long, i as int) && long.subrange(i as int, (i + sp.len()) as int) == sp {
        Some(i)
    } else {
        split_from(long, sp, i + 1)
    }
}

/// Where `long` splits on `sp`: its first occurrence (what `str::split_once`
/// finds).
pub open spec fn split_point(long: Seq<u8>, sp: Seq<u8>) -> Option<nat> {
    split_from(long, sp, 0)
}

/// `a` is a named argument with long name `name`.
pub open spec fn has_long<L>(a: Argument<L>, name: Seq<u8>) -> bool {
    match a.form {
        ArgumentForm::Named { long, .. } => exists|k: int|
            0 <= k < long@.len() && (#[trigger] long@[k]).spec_bytes() == name,
        ArgumentForm::Positional(_) => false,
    }
}

/// `a` is a named argument with short name `ch`.
pub open spec fn has_short<L>(a: Argument<L>, ch: char) -> bool {
    match a.form {
        ArgumentForm::Named { short, .. } => short@.contains(ch),
        ArgumentForm::Positional(_) => false,
    }
}

/// The first argument, from `j` on, with long name `name`.
pub open spec fn first_long<L>(argv: Seq<Argument<L>>, name: Seq<u8>, j: nat) -> Option<nat>
    decreases argv.len() - j,
{
    if j >= argv.len() {
        None
    } else if has_long(argv[j as int], name) {
        Some(j)
    } else {
        first_long(argv, name, j + 1)
    }
}

/// The first argument, from `j` on, with short name `ch`.
pub open spec fn first_short<L>(argv: Seq<Argument<L>>, ch: char, j: nat) -> Option<nat>
    decreases argv.len() - j,
{
    if j >= argv.len() {
        None
    } else if has_short(argv[j as int], ch) {
        Some(j)
    } else {
        first_short(argv, ch, j + 1)
    }
}

/// `c` is named `name`.
pub open spec fn has_name<L>(c: Command<L>, name: Seq<u8>) -> bool {
    exists|k: int| 0 <= k < c.name@.len() && (#[trigger] c.name@[k]).spec_bytes() == name
}

/// The first subcommand, from `j` on, named `name`.
pub open spec fn first_sub<L>(subs: Seq<Command<L>>, name: Seq<u8>, j: nat) -> Option<nat>
    decreases subs.len() - j,
{
    if j >= subs.len() {
        None
    } else if has_name(subs[j as int], name) {
        Some(j)
    } else {
        first_sub(subs, name, j + 1)
    }
}

/// A required named argument that has not matched.
pub open spec fn is_missing<L>(a: Argument<L>, seen: bool) -> bool {
    a.required && a.form is Named && !seen
}

/// The last missing required named argument among the first `n`.
pub open spec fn last_missing<L>(argv: Seq<Argument<L>>, seen: Seq<bool>, n: nat) -> Option<nat>
    decreases n,
{
    if n == 0 {
        None
    } else if is_missing(argv[n - 1], seen[n - 1]) {
        Some((n - 1) as nat)
    } else {
        last_missing(argv, seen, (n - 1) as nat)
    }
}

/// The error for a required named argument that was not given.
pub open spec fn required_fault<L>(a: Argument<L>) -> Fault {
    match a.form {
        ArgumentForm::Named { long, short } => if long@.len() > 0 {
            Fault::RequiredLong(long@[0]@)
        } else {
            Fault::RequiredShort(short@[0])
        },
        ArgumentForm::Positional(name) => Fault::RequiredPositional(name@),
    }
}

/// What an unexpected value is reported as: its first 31 characters, or
/// `<unknown>` when it is not valid UTF-8.
pub open spec fn excerpt(check: Seq<u8>) -> Seq<char> {
    if valid_utf8(check) {
        let cs = decode_utf8(check);
        if cs.len() > 31 {
            cs.take(31)
        } else {
            cs
        }
    } else {
        "<unknown>"@
    }
}

/// The feed for an action, by whether it reads text.
pub open spec fn call_of<L>(
    action: Action<L>,
    pending: Option<Seq<u8>>,
    start: nat,
    end: nat,
) -> Move<L> {
    match action {
        Action::Layer(l) => Move::Call { layer: l, text: true, pending, start, end },
        Action::LayerBytes(l) => Move::Call { layer: l, text: false, pending, start, end },
        _ => Move::Continue,
    }
}

/// The move for an action that matched in command `c`: help and version
/// stop, layers are called, nothing moves on.
pub open spec fn act<L>(
    c: Command<L>,
    action: Action<L>,
    pending: Option<Seq<u8>>,
    start: nat,
    end: nat,
) -> Move<L> {
    match action {
        Action::Help => Move::Stop(Halt::Help(c)),
        Action::Version => Move::Stop(Halt::Version(c)),
        _ => call_of(action, pending, start, end),
    }
}

/// The state on entering command `c` at position `pos`.
pub open spec fn enter<L>(c: Command<L>, pos: nat) -> State<L> {
    State { cmd: c, phase: Phase::Action, pos, seen: Seq::new(c.argument@.len(), |j: int| false) }
}

/// A `--long` argument in named option mode.
pub open spec fn long_move<L>(cfg: Config, args: Seq<Seq<u8>>, s: State<L>) -> (State<L>, Move<L>) {
    let c = s.cmd;
    let a = args[s.pos as int];
    let long = a.subrange(2, a.len() as int);
    let sp = match cfg.name_splitting {
        Some(sp) => sp.spec_bytes(),
        None => Seq::empty(),
    };
    let split = match cfg.name_splitting {
        Some(_) => split_point(long, sp),
        None => None,
    };
    let name = match split {
        Some(i) => long.subrange(0, i as int),
        None => long,
    };
    let value = match split {
        Some(i) => Some(long.subrange((i + sp.len()) as int, long.len() as int)),
        None => None,
    };
    match first_long(c.argument@, name, 0) {
        None => (s, Move::Stop(Halt::Fail(Fault::BadLong(name)))),
        Some(j) => {
            let arg = c.argument@[j as int];
            if split is Some && !arg.enable_splitting {
                (s, Move::Stop(Halt::Fail(Fault::BadLong(long))))
            } else {
                let s2 = State { pos: s.pos + 1, seen: s.seen.update(j as int, true), ..s };
                (s2, act(c, arg.action, value, s.pos + 1, args.len()))
            }
        },
    }
}

/// The byte at `at` of the short cluster.
pub open spec fn short_move<L>(args: Seq<Seq<u8>>, s: State<L>, q: nat, k: nat) -> (State<L>, Move<L>) {
    let c = s.cmd;
    let a = args[q as int];
    if k >= a.len() {
        (State { phase: Phase::Options, ..s }, Move::Continue)
    } else {
        let ch = a[k as int] as char;
        match first_short(c.argument@, ch, 0) {
            None => (s, Move::Stop(Halt::Fail(Fault::BadShort(ch)))),
            Some(j) => {
                let arg = c.argument@[j as int];
                let last = k + 1 == a.len();
                let s2 = State {
                    phase: Phase::Shorts { arg: q as usize, at: (k + 1) as usize },
                    seen: s.seen.update(j as int, true),
                    ..s
                };
                (s2, act(c, arg.action, None, s.pos, if last { args.len() } else { s.pos }))
            },
        }
    }
}

/// Argument `i` in positional mode.
pub open spec fn positional_move<L>(args: Seq<Seq<u8>>, s: State<L>, i: nat) -> (State<L>, Move<L>) {
    let c = s.cmd;
    if i >= c.argument@.len() {
        (State { phase: Phase::Rest, ..s }, Move::Continue)
    } else {
        let arg = c.argument@[i as int];
        let next = State { phase: Phase::Positional { index: (i + 1) as usize }, ..s };
        match arg.form {
            ArgumentForm::Named { .. } => (next, Move::Continue),
            ArgumentForm::Positional(name) => if s.pos >= args.len() {
                if arg.required {
                    (s, Move::Stop(Halt::Fail(Fault::RequiredPositional(name@))))
                } else {
                    (next, Move::Continue)
                }
            } else {
                let s2 = State { pos: s.pos + 1, ..next };
                (s2, act(c, arg.action, Some(args[s.pos as int]), s.pos + 1, s.pos + 1))
            },
        }
    }
}

/// Named option mode: a long option, a short cluster, or the end of the
/// options, where required named arguments are checked.
pub open spec fn options_move<L>(cfg: Config, args: Seq<Seq<u8>>, s: State<L>) -> (State<L>, Move<L>) {
    if s.pos < args.len() && is_long(args[s.pos as int]) {
        long_move(cfg, args, s)
    } else if s.pos < args.len() && is_dashed(args[s.pos as int]) {
        (
            State { phase: Phase::Shorts { arg: s.pos as usize, at: 1 }, pos: s.pos + 1, ..s },
            Move::Continue,
        )
    } else {
        match last_missing(s.cmd.argument@, s.seen, s.cmd.argument@.len()) {
            Some(j) => (s, Move::Stop(Halt::Fail(required_fault(s.cmd.argument@[j as int])))),
            None => (State { phase: Phase::Positional { index: 0 }, ..s }, Move::Continue),
        }
    }
}

/// What is left after the positionals: nothing, a subcommand, or an error.
pub open spec fn rest_move<L>(args: Seq<Seq<u8>>, s: State<L>) -> (State<L>, Move<L>) {
    if s.pos >= args.len() {
        (s, Move::Stop(Halt::Done))
    } else {
        let check = args[s.pos as int];
        match first_sub(s.cmd.subcommand@, check, 0) {
            Some(j) if valid_utf8(check) => (enter(s.cmd.subcommand@[j as int], s.pos + 1), Move::Continue),
            _ => (s, Move::Stop(Halt::Fail(Fault::BadPositional(excerpt(check))))),
        }
    }
}

/// One move of the parser from state `s`.
pub open spec fn step<L>(cfg: Config, args: Seq<Seq<u8>>, s: State<L>) -> (State<L>, Move<L>) {
    match s.phase {
        Phase::Action => {
            let s2 = State { phase: Phase::Options, ..s };
            (s2, act(s.cmd, s.cmd.action, None, s.pos, args.len()))
        },
        Phase::Options => options_move(cfg, args, s),
        Phase::Shorts { arg, at } => short_move(args, s, arg as nat, at as nat),
        Phase::Positional { index } => positional_move(args, s, index as nat),
        Phase::Rest => rest_move(args, s),
    }
}

/// A command line that machine integers can index.
pub open spec fn fits(args: Seq<Seq<u8>>) -> bool {
    &&& args.len() <= usize::MAX
    &&& forall|i: int| 0 <= i < args.len() ==> #[trigger] args[i].len() <= usize::MAX
}

/// States the parser can be in.
pub open spec fn valid<L>(args: Seq<Seq<u8>>, s: State<L>) -> bool {
    &&& fits(args)
    &&& s.pos <= args.len()
    &&& s.seen.len() == s.cmd.argument@.len()
    &&& tree_ok(s.cmd)
    &&& match s.phase {
        Phase::Shorts { arg, at } => arg < s.pos && 1 <= at <= args[arg as int].len(),
        Phase::Positional { index } => index <= s.cmd.argument@.len(),
        _ => true,
    }
}

/// Rank of a phase in the termination measure.
pub open spec fn rank(p: Phase) -> nat {
    match p {
        Phase::Action => 5,
        Phase::Shorts { .. } => 4,
        Phase::Options => 3,
        Phase::Positional { .. } => 2,
        Phase::Rest => 1,
    }
}

/// Work left inside a phase.
pub open spec fn inner<L>(args: Seq<Seq<u8>>, s: State<L>) -> nat {
    match s.phase {
        Phase::Shorts { arg, at } => if arg < args.len() && at <= args[arg as int].len() {
            (args[arg as int].len() - at) as nat
        } else {
            0
        },
        Phase::Positional { index } => if index <= s.cmd.argument@.len() {
            (s.cmd.argument@.len() - index) as nat
        } else {
            0
        },
        _ => 0,
    }
}

/// Arguments not yet taken.
pub open spec fn left<L>(args: Seq<Seq<u8>>, s: State<L>) -> nat {
    if s.pos <= args.len() {
        (args.len() - s.pos) as nat
    } else {
        0
    }
}

/// `p` held between `start` and `end`.
pub open spec fn clamp(p: nat, start: nat, end: nat) -> nat {
    if p < start {
        start
    } else if p > end {
        end
    } else {
        p
    }
}

/// The state after a layer left its feed at `p`.
pub open spec fn resumed<L>(s: State<L>, p: nat, start: nat, end: nat) -> State<L> {
    State { pos: clamp(p, start, end), ..s }
}

/// The measure `(left, rank, inner)` of `t` is below that of `s`.
pub open spec fn below<L>(args: Seq<Seq<u8>>, t: State<L>, s: State<L>) -> bool {
    ||| left(args, t) < left(args, s)
    ||| left(args, t) == left(args, s) && rank(t.phase) < rank(s.phase)
    ||| left(args, t) == left(args, s) && rank(t.phase) == rank(s.phase) && inner(args, t) < inner(
        args,
        s,
    )
}

/// How a parse from `s`, holding `t`, ends when its layer calls went as
/// `turns` says, with the number of turns it used. Each call must be the one
/// the parser makes: that layer, handed the value held and the feed of the
/// move, giving back what the layer [`gives`](Layer::gives) (else the run is
/// stuck). After a call the parse goes on from where the layer left its feed.
pub open spec fn run<T, E, L: Layer<T, E>>(
    cfg: Config,
    args: Seq<Seq<u8>>,
    s: State<L>,
    t: T,
    turns: Seq<Turn<T, E, L>>,
) -> (End<T, E, L>, nat)
    decreases left(args, s), rank(s.phase), inner(args, s),
{
    if !valid(args, s) {
        (End::Stuck, 0)
    } else {
        let (s2, mv) = step(cfg, args, s);
        match mv {
            Move::Stop(h) => (End::Finished(h, t), 0),
            Move::Continue => {
                proof {
                    lemma_step_valid(cfg, args, s);
                }
                run(cfg, args, s2, t, turns)
            },
            Move::Call { layer, text, pending, start, end } => {
                if turns.len() == 0 {
                    (End::Stuck, 0)
                } else {
                    let turn = turns[0];
                    if turn.layer != layer || turn.input != t || turn.feed != (FeedView {
                        args,
                        pending,
                        pos: start,
                        end,
                        text,
                    }) || !turn.layer.gives(t, turn.feed, turn.output, turn.after) {
                        (End::Stuck, 0)
                    } else {
                        match turn.output {
                            Err(e) => (End::LayerFailed(e), 1),
                            Ok(t2) => {
                                proof {
                                    lemma_step_valid(cfg, args, s);
                                }
                                let (x, k) = run(
                                    cfg,
                                    args,
                                    resumed(s2, turn.after.pos, start, end),
                                    t2,
                                    turns.drop_first(),
                                );
                                (x, k + 1)
                            },
                        }
                    }
                }
            },
        }
    }
}

/// A move keeps the state valid and lowers the measure; a call's feed
/// starts no earlier than the position after the move and ends within the
/// command line, and resuming anywhere in it keeps both.
pub proof fn lemma_step_valid<L>(cfg: Config, args: Seq<Seq<u8>>, s: State<L>)
    requires
        valid(args, s),
    ensures
        ({
            let (s2, mv) = step(cfg, args, s);
            match mv {
                Move::Continue => valid(args, s2) && below(args, s2, s),
                Move::Call { start, end, .. } => {
                    &&& s2.pos <= start <= end <= args.len()
                    &&& forall|p: nat|
                        valid(args, #[trigger] resumed(s2, p, start, end)) && below(
                            args,
                            resumed(s2, p, start, end),
                            s,
                        )
                },
                Move::Stop(_) => true,
            }
        }),
{
    let (s2, mv) = step(cfg, args, s);
    match s.phase {
        Phase::Rest => {
            if s.pos < args.len() {
                let check = args[s.pos as int];
                match first_sub(s.cmd.subcommand@, check, 0) {
                    Some(j) => {
                        lemma_first_sub(s.cmd.subcommand@, check, 0);
                        lemma_subs_named(s.cmd.subcommand@, s.cmd.subcommand@.len(), j as int);
                        lemma_subs_small(s.cmd.subcommand@, s.cmd.subcommand@.len(), j as int);
                    },
                    None => {},
                }
            }
        },
        Phase::Options => {
            if s.pos < args.len() && is_long(args[s.pos as int]) {
                let a = args[s.pos as int];
                let long = a.subrange(2, a.len() as int);
                let sp = match cfg.name_splitting {
                    Some(sp) => sp.spec_bytes(),
                    None => Seq::empty(),
                };
                let split = match cfg.name_splitting {
                    Some(_) => split_point(long, sp),
                    None => None,
                };
                let name = match split {
                    Some(i) => long.subrange(0, i as int),
                    None => long,
                };
                lemma_first_long(s.cmd.argument@, name, 0);
            }
        },
        Phase::Shorts { arg, at } => {
            let a = args[arg as int];
            if (at as nat) < a.len() {
                lemma_first_short(s.cmd.argument@, a[at as int] as char, 0);
            }
        },
        Phase::Positional { .. } => {
            assert(s.cmd.argument@.len() == s.cmd.argument.len());
        },
        _ => {},
    }
}

pub proof fn lemma_last_missing<L>(argv: Seq<Argument<L>>, seen: Seq<bool>, n: nat)
    ensures
        last_missing(argv, seen, n) matches Some(k) ==> k < n && is_missing(argv[k as int], seen[k as int]),
    decreases n,
{
    if n > 0 && !is_missing(argv[n - 1], seen[n - 1]) {
        lemma_last_missing(argv, seen, (n - 1) as nat);
    }
}

pub proof fn lemma_first_long<L>(argv: Seq<Argument<L>>, name: Seq<u8>, j: nat)
    ensures
        first_long(argv, name, j) matches Some(k) ==> j <= k < argv.len() && has_long(
            argv[k as int],
            name,
        ),
    decreases argv.len() - j,
{
    if j < argv.len() && !has_long(argv[j as int], name) {
        lemma_first_long(argv, name, j + 1);
    }
}

pub proof fn lemma_first_short<L>(argv: Seq<Argument<L>>, ch: char, j: nat)
    ensures
        first_short(argv, ch, j) matches Some(k) ==> j <= k < argv.len() && has_short(
            argv[k as int],
            ch,
        ),
    decreases argv.len() - j,
{
    if j < argv.len() && !has_short(argv[j as int], ch) {
        lemma_first_short(argv, ch, j + 1);
    }
}

pub proof fn lemma_first_sub<L>(subs: Seq<Command<L>>, name: Seq<u8>, j: nat)
    ensures
        first_sub(subs, name, j) matches Some(k) ==> j <= k < subs.len() && has_name(
            subs[k as int],
            name,
        ),
    decreases subs.len() - j,
{
    if j < subs.len() && !has_name(subs[j as int], name) {
        lemma_first_sub(subs, name, j + 1);
    }
}

} // verus!

verus! {

/// What an exec move asks of the caller.
pub enum Request<'c, 'b, L> {
    /// nothing; step again.
    Continue,
    /// run `layer` on a feed of `pending` and then the arguments from
    /// `start` to `end`, then [`Machine::resume`] where the feed was left.
    Call { layer: &'c L, text: bool, pending: Option<&'b [u8]>, start: usize, end: usize },
    /// the parse ends.
    Stop(Ending<'c, 'b, L>),
}

/// How a parse ends, as the machine reports it.
pub enum Ending<'c, 'b, L> {
    Done,
    Help(&'c Command<L>),
    Version(&'c Command<L>),
    BadLong(&'b str),
    BadShort(char),
    BadPositional(&'b str),
    RequiredLong(&'static str),
    RequiredShort(char),
    RequiredPositional(&'static str),
}

impl<'c, 'b, L> Ending<'c, 'b, L> {
    pub open spec fn model(&self) -> Halt<L> {
        match *self {
            Ending::Done => Halt::Done,
            Ending::Help(c) => Halt::Help(*c),
            Ending::Version(c) => Halt::Version(*c),
            Ending::BadLong(s) => Halt::Fail(Fault::BadLong(s.spec_bytes())),
            Ending::BadShort(c) => Halt::Fail(Fault::BadShort(c)),
            Ending::BadPositional(s) => Halt::Fail(Fault::BadPositional(s@)),
            Ending::RequiredLong(s) => Halt::Fail(Fault::RequiredLong(s@)),
            Ending::RequiredShort(c) => Halt::Fail(Fault::RequiredShort(c)),
            Ending::RequiredPositional(s) => Halt::Fail(Fault::RequiredPositional(s@)),
        }
    }
}

impl<'c, 'b, L> Request<'c, 'b, L> {
    pub open spec fn model(&self) -> Move<L> {
        match *self {
            Request::Continue => Move::Continue,
            Request::Call { layer, text, pending, start, end } => Move::Call {
                layer: *layer,
                text,
                pending: crate::feed::bytes_opt(pending),
                start: start as nat,
                end: end as nat,
            },
            Request::Stop(e) => Move::Stop(e.model()),
        }
    }
}

/// The parser over one command tree.
pub struct Machine<'c, L> {
    cmd: &'c Command<L>,
    phase: Phase,
    pos: usize,
    seen: Vec<bool>,
}

impl<'c, L> View for Machine<'c, L> {
    type V = State<L>;

    closed spec fn view(&self) -> State<L> {
        State { cmd: *self.cmd, phase: self.phase, pos: self.pos as nat, seen: self.seen@ }
    }
}

fn unseen(n: usize) -> (r: Vec<bool>)
    ensures
        r@ == Seq::new(n as nat, |j: int| false),
{
    let mut r: Vec<bool> = Vec::new();
    let mut i: usize = 0;
    while i < n
        invariant
            i <= n,
            r@ == Seq::new(i as nat, |j: int| false),
        decreases n - i,
    {
        r.push(false);
        i = i + 1;
        proof {
            assert(r@ =~= Seq::new(i as nat, |j: int| false));
        }
    }
    r
}

fn names_contain(names: &[&'static str], name: &[u8]) -> (r: bool)
    ensures
        r == exists|k: int| 0 <= k < names@.len() && (#[trigger] names@[k]).spec_bytes() == name@,
{
    let mut k: usize = 0;
    while k < names.len()
        invariant
            k <= names@.len(),
            forall|i: int| 0 <= i < k ==> (#[trigger] names@[i]).spec_bytes() != name@,
        decreases names@.len() - k,
    {
        if str_is_bytes(names[k], name) {
            return true;
        }
        k = k + 1;
    }
    false
}

fn chars_contain(list: &[char], ch: char) -> (r: bool)
    ensures
        r == list@.contains(ch),
{
    let mut k: usize = 0;
    while k < list.len()
        invariant
            k <= list@.len(),
            forall|i: int| 0 <= i < k ==> list@[i] != ch,
        decreases list@.len() - k,
    {
        if list[k] == ch {
            proof {
                assert(list@[k as int] == ch);
            }
            return true;
        }
        k = k + 1;
    }
    false
}

fn find_long<L>(argv: &Vec<Argument<L>>, name: &[u8]) -> (r: Option<usize>)
    ensures
        index_opt(r) == first_long(argv@, name@, 0),
{
    let mut j: usize = 0;
    while j < argv.len()
        invariant
            j <= argv@.len(),
            first_long(argv@, name@, 0) == first_long(argv@, name@, j as nat),
        decreases argv@.len() - j,
    {
        let hit = match &argv[j].form {
            ArgumentForm::Named { long, .. } => names_contain(long, name),
            ArgumentForm::Positional(_) => false,
        };
        if hit {
            return Some(j);
        }
        j = j + 1;
    }
    None
}

fn find_short<L>(argv: &Vec<Argument<L>>, ch: char) -> (r: Option<usize>)
    ensures
        index_opt(r) == first_short(argv@, ch, 0),
{
    let mut j: usize = 0;
    while j < argv.len()
        invariant
            j <= argv@.len(),
            first_short(argv@, ch, 0) == first_short(argv@, ch, j as nat),
        decreases argv@.len() - j,
    {
        let hit = match &argv[j].form {
            ArgumentForm::Named { short, .. } => chars_contain(short, ch),
            ArgumentForm::Positional(_) => false,
        };
        if hit {
            return Some(j);
        }
        j = j + 1;
    }
    None
}

fn find_sub<L>(subs: &Vec<Command<L>>, name: &[u8]) -> (r: Option<usize>)
    ensures
        index_opt(r) == first_sub(subs@, name@, 0),
{
    let mut j: usize = 0;
    while j < subs.len()
        invariant
            j <= subs@.len(),
            first_sub(subs@, name@, 0) == first_sub(subs@, name@, j as nat),
        decreases subs@.len() - j,
    {
        if names_contain(subs[j].name, name) {
            return Some(j);
        }
        j = j + 1;
    }
    None
}

pub proof fn lemma_split_from(long: Seq<u8>, sp: Seq<u8>, i: nat)
    ensures
        split_from(long, sp, i) matches Some(k) ==> i <= k && k + sp.len() <= long.len()
            && is_char_boundary(long, k as int) && long.subrange(k as int, (k + sp.len()) as int)
            == sp,
    decreases long.len() + 1 - i,
{
    if i + sp.len() <= long.len() && !(is_char_boundary(long, i as int) && long.subrange(
        i as int,
        (i + sp.len()) as int,
    ) == sp) {
        lemma_split_from(long, sp, i + 1);
    }
}

fn find_split(long: &str, sp: &str) -> (r: Option<usize>)
    ensures
        index_opt(r) == split_point(long.spec_bytes(), sp.spec_bytes()),
        r matches Some(i) ==> is_char_boundary(long.spec_bytes(), i as int) && i + sp.spec_bytes().len()
            <= long.spec_bytes().len(),
{
    let lb = long.as_bytes();
    let sb = sp.as_bytes();
    let k = sb.len();
    let n = lb.len();
    proof {
        lemma_split_from(lb@, sb@, 0);
    }
    if k > n {
        return None;
    }
    let last = n - k;
    let mut i: usize = 0;
    loop
        invariant
            lb@ == long.spec_bytes(),
            sb@ == sp.spec_bytes(),
            k == sb@.len(),
            n == lb@.len(),
            k <= n,
            last == n - k,
            i <= last,
            split_from(lb@, sb@, 0) == split_from(lb@, sb@, i as nat),
        decreases last - i,
    {
        if long.is_char_boundary(i) && bytes_eq(slice_subrange(lb, i, i + k), sb) {
            return Some(i);
        }
        if i == last {
            proof {
                assert(split_from(lb@, sb@, (i + 1) as nat) is None);
            }
            return None;
        }
        i = i + 1;
    }
}

fn last_missing_exec<L>(argv: &Vec<Argument<L>>, seen: &Vec<bool>) -> (r: Option<usize>)
    requires
        seen@.len() == argv@.len(),
    ensures
        index_opt(r) == last_missing(argv@, seen@, argv@.len()),
{
    let mut n: usize = argv.len();
    while n > 0
        invariant
            n <= argv@.len(),
            seen@.len() == argv@.len(),
            last_missing(argv@, seen@, argv@.len()) == last_missing(argv@, seen@, n as nat),
        decreases n,
    {
        let a = &argv[n - 1];
        if a.required && a.form.is_named() && !seen[n - 1] {
            return Some(n - 1);
        }
        n = n - 1;
    }
    None
}

fn excerpt_exec<'b>(check: &'b [u8]) -> (r: &'b str)
    ensures
        r@ == excerpt(check@),
{
    if is_utf8(check) {
        let s = bytes_to_str(check);
        proof {
            assert(decode_utf8(check@) == s@);
        }
        if s.unicode_len() > 31 {
            s.substring_char(0, 31)
        } else {
            s
        }
    } else {
        "<unknown>"
    }
}

impl<'c, L> Machine<'c, L> {
    /// The machine at the start of `cmd`, before its own action.
    pub fn new(cmd: &'c Command<L>) -> (r: Self)
        ensures
            r@ == enter(*cmd, 0),
    {
        Machine { cmd, phase: Phase::Action, pos: 0, seen: unseen(cmd.argument.len()) }
    }

    /// Where the machine stands in the command line.
    pub fn position(&self) -> (r: usize)
        ensures
            r == self@.pos,
    {
        self.pos
    }

    /// Moves on after a layer, which left its feed at `p`, on a feed from
    /// `start` to `end`.
    pub fn resume(&mut self, p: usize, start: usize, end: usize)
        requires
            start <= end,
        ensures
            final(self)@ == resumed(old(self)@, p as nat, start as nat, end as nat),
    {
        self.pos = if p < start {
            start
        } else if p > end {
            end
        } else {
            p
        };
    }

    /// Makes one move: the exec counterpart of [`step`].
    pub fn step<'b>(&mut self, config: &Config, args: &[&'b [u8]]) -> (r: Request<'c, 'b, L>)
        requires
            valid(args_view(args), old(self)@),
        ensures
            (final(self)@, r.model()) == step(*config, args_view(args), old(self)@),
    {
        match self.phase {
            Phase::Action => {
                self.phase = Phase::Options;
                let cmd = self.cmd;
                self.act(&cmd.action, None, self.pos, args.len())
            },
            Phase::Options => self.options(config, args),
            Phase::Shorts { arg, at } => self.shorts(args, arg, at),
            Phase::Positional { index } => self.positional(args, index),
            Phase::Rest => self.rest(args),
        }
    }

    fn required_ending<'b>(a: &'c Argument<L>) -> (r: Ending<'c, 'b, L>)
        requires
            names_ok(*a),
            a.required,
            a.form is Named,
        ensures
            r.model() == Halt::<L>::Fail(required_fault(*a)),
    {
        match a.form {
            ArgumentForm::Named { long, short } => if long.len() > 0 {
                Ending::RequiredLong(long[0])
            } else {
                Ending::RequiredShort(short[0])
            },
            ArgumentForm::Positional(name) => Ending::RequiredPositional(name),
        }
    }

    fn options<'b>(&mut self, config: &Config, args: &[&'b [u8]]) -> (r: Request<'c, 'b, L>)
        requires
            valid(args_view(args), old(self)@),
            old(self)@.phase is Options,
        ensures
            (final(self)@, r.model()) == options_move(*config, args_view(args), old(self)@),
    {
        let ghost av = args_view(args);
        if self.pos < args.len() {
            let a = args[self.pos];
            proof {
                assert(av[self.pos as int] == a@);
            }
            if a.len() >= 2 && a[0] == 45u8 && a[1] == 45u8 && is_utf8(slice_subrange(a, 2, a.len())) {
                return self.long(config, args);
            }
            if a.len() >= 1 && a[0] == 45u8 {
                self.phase = Phase::Shorts { arg: self.pos, at: 1 };
                self.pos = self.pos + 1;
                return Request::Continue;
            }
        }
        let cmd = self.cmd;
        match last_missing_exec(&cmd.argument, &self.seen) {
            Some(j) => {
                proof {
                    lemma_last_missing(cmd.argument@, self.seen@, cmd.argument@.len());
                }
                Request::Stop(Self::required_ending(&cmd.argument[j]))
            },
            None => {
                self.phase = Phase::Positional { index: 0 };
                Request::Continue
            },
        }
    }

    fn long<'b>(&mut self, config: &Config, args: &[&'b [u8]]) -> (r: Request<'c, 'b, L>)
        requires
            valid(args_view(args), old(self)@),
            old(self)@.phase is Options,
            old(self)@.pos < args@.len(),
            is_long(args_view(args)[old(self)@.pos as int]),
        ensures
            (final(self)@, r.model()) == long_move(*config, args_view(args), old(self)@),
    {
        let ghost av = args_view(args);
        let a = args[self.pos];
        proof {
            assert(av[self.pos as int] == a@);
        }
        let rest = slice_subrange(a, 2, a.len());
        let long = bytes_to_str(rest);
        let mut name: &'b str = long;
        let mut value: Option<&'b [u8]> = None;
        let mut split = false;
        match config.name_splitting {
            Some(sp) => match find_split(long, sp) {
                Some(i) => {
                    name = long.split_at(i).0;
                    value = Some(slice_subrange(rest, i + sp.len(), rest.len()));
                    split = true;
                },
                None => {},
            },
            None => {},
        }
        let cmd = self.cmd;
        match find_long(&cmd.argument, name.as_bytes()) {
            None => Request::Stop(Ending::BadLong(name)),
            Some(j) => {
                proof {
                    lemma_first_long(cmd.argument@, name.spec_bytes(), 0);
                }
                let arg = &cmd.argument[j];
                if split && !arg.enable_splitting {
                    return Request::Stop(Ending::BadLong(long));
                }
                self.pos = self.pos + 1;
                self.seen.set(j, true);
                self.act(&arg.action, value, self.pos, args.len())
            },
        }
    }

    fn shorts<'b>(&mut self, args: &[&'b [u8]], q: usize, k: usize) -> (r: Request<'c, 'b, L>)
        requires
            valid(args_view(args), old(self)@),
            old(self)@.phase == (Phase::Shorts { arg: q, at: k }),
        ensures
            (final(self)@, r.model()) == short_move(args_view(args), old(self)@, q as nat, k as nat),
    {
        let ghost av = args_view(args);
        let a = args[q];
        proof {
            assert(av[q as int] == a@);
        }
        if k >= a.len() {
            self.phase = Phase::Options;
            return Request::Continue;
        }
        let ch = a[k] as char;
        let cmd = self.cmd;
        match find_short(&cmd.argument, ch) {
            None => Request::Stop(Ending::BadShort(ch)),
            Some(j) => {
                proof {
                    lemma_first_short(cmd.argument@, ch, 0);
                }
                let last = k + 1 == a.len();
                self.phase = Phase::Shorts { arg: q, at: k + 1 };
                self.seen.set(j, true);
                let end = if last {
                    args.len()
                } else {
                    self.pos
                };
                self.act(&cmd.argument[j].action, None, self.pos, end)
            },
        }
    }

    fn positional<'b>(&mut self, args: &[&'b [u8]], i: usize) -> (r: Request<'c, 'b, L>)
        requires
            valid(args_view(args), old(self)@),
            old(self)@.phase == (Phase::Positional { index: i }),
        ensures
            (final(self)@, r.model()) == positional_move(args_view(args), old(self)@, i as nat),
    {
        let ghost av = args_view(args);
        let cmd = self.cmd;
        if i >= cmd.argument.len() {
            self.phase = Phase::Rest;
            return Request::Continue;
        }
        let arg = &cmd.argument[i];
        match arg.form {
            ArgumentForm::Named { .. } => {
                self.phase = Phase::Positional { index: i + 1 };
                Request::Continue
            },
            ArgumentForm::Positional(name) => {
                if self.pos >= args.len() {
                    if arg.required {
                        Request::Stop(Ending::RequiredPositional(name))
                    } else {
                        self.phase = Phase::Positional { index: i + 1 };
                        Request::Continue
                    }
                } else {
                    let v = args[self.pos];
                    proof {
                        assert(av[self.pos as int] == v@);
                    }
                    self.phase = Phase::Positional { index: i + 1 };
                    self.pos = self.pos + 1;
                    self.act(&arg.action, Some(v), self.pos, self.pos)
                }
            },
        }
    }

    fn rest<'b>(&mut self, args: &[&'b [u8]]) -> (r: Request<'c, 'b, L>)
        requires
            valid(args_view(args), old(self)@),
            old(self)@.phase is Rest,
        ensures
            (final(self)@, r.model()) == rest_move(args_view(args), old(self)@),
    {
        let ghost av = args_view(args);
        if self.pos >= args.len() {
            return Request::Stop(Ending::Done);
        }
        let check = args[self.pos];
        proof {
            assert(av[self.pos as int] == check@);
        }
        let cmd = self.cmd;
        if is_utf8(check) {
            match find_sub(&cmd.subcommand, check) {
                Some(j) => {
                    proof {
                        lemma_first_sub(cmd.subcommand@, check@, 0);
                    }
                    let sub = &cmd.subcommand[j];
                    self.cmd = sub;
                    self.phase = Phase::Action;
                    self.pos = self.pos + 1;
                    self.seen = unseen(sub.argument.len());
                    return Request::Continue;
                },
                None => {},
            }
        }
        Request::Stop(Ending::BadPositional(excerpt_exec(check)))
    }

    fn act<'b>(&self, action: &'c Action<L>, pending: Option<&'b [u8]>, start: usize, end: usize) -> (r: Request<'c, 'b, L>)
        ensures
            r.model() == act(*self.cmd, *action, crate::feed::bytes_opt(pending), start as nat, end as nat),
    {
        match action {
            Action::Nothing => Request::Continue,
            Action::Layer(l) => Request::Call { layer: l, text: true, pending, start, end },
            Action::LayerBytes(l) => Request::Call { layer: l, text: false, pending, start, end },
            Action::Help => Request::Stop(Ending::Help(self.cmd)),
            Action::Version => Request::Stop(Ending::Version(self.cmd)),
        }
    }
}

} // verus!
