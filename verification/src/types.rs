use vstd::prelude::*;

use crate::feed::{Feed, FeedView};

verus! {

/// `core::fmt::Error` may stand in [`Error::FmtError`].
#[verifier::external_type_specification]
#[verifier::external_body]
pub struct ExFmtError(core::fmt::Error);

/// A transformation of the value being built, run when the command or
/// argument that holds it matches.
///
/// `input` is the value so far; the returned value is handed to the next
/// matching layer. `next` hands out the arguments that belong to this match
/// (see [`Feed`]). Returning `Err` stops parsing with [`Error::Other`].
pub trait Layer<T, E> {
    /// Running the layer on `input`, with its feed at `before`, may give back
    /// `out` and leave the feed at `after`. A layer that does not say what it
    /// does may give back anything.
    open spec fn gives(&self, input: T, before: FeedView, out: Result<T, E>, after: FeedView) -> bool {
        true
    }

    fn run(&self, input: T, next: &mut Feed<'_, '_>) -> (r: Result<T, E>)
        ensures
            self.gives(input, old(next)@, r, final(next)@),
    ;
}

/// A layer that hands its input back unchanged, for command trees that
/// carry no layer of their own.
#[derive(Debug, Clone, Copy, PartialEq, Eq)]
pub struct NoLayer;

impl<T, E> Layer<T, E> for NoLayer {
    /// The value and the feed stay as they are.
    open spec fn gives(&self, input: T, before: FeedView, out: Result<T, E>, after: FeedView) -> bool {
        out == Ok::<T, E>(input) && after == before
    }

    /// Hands `input` back; the feed is not read.
    fn run(&self, input: T, next: &mut Feed<'_, '_>) -> (r: Result<T, E>) {
        Ok(input)
    }
}

/// What happens when a command or an argument matches.
#[derive(Debug)]
pub enum Action<L> {
    /// nothing happens.
    Nothing,
    /// the layer runs; its feed hands out arguments that are valid UTF-8
    /// only, silently consuming any that is not.
    Layer(L),
    /// the layer runs; its feed hands out arguments as raw bytes.
    LayerBytes(L),
    /// the help page is written to the [`Output`] and parsing stops.
    Help,
    /// the version page is written to the [`Output`] and parsing stops.
    Version,
}

/// Two actions are equal when they are of the same kind; layers are not
/// compared.
pub open spec fn same_action_kind<L>(a: &Action<L>, b: &Action<L>) -> bool {
    match (a, b) {
        (Action::Nothing, Action::Nothing) => true,
        (Action::Layer(_), Action::Layer(_)) => true,
        (Action::LayerBytes(_), Action::LayerBytes(_)) => true,
        (Action::Help, Action::Help) => true,
        (Action::Version, Action::Version) => true,
        _ => false,
    }
}

impl<L> PartialEq for Action<L> {
    fn eq(&self, other: &Self) -> (r: bool) {
        match (self, other) {
            (Action::Nothing, Action::Nothing) => true,
            (Action::Layer(_), Action::Layer(_)) => true,
            (Action::LayerBytes(_), Action::LayerBytes(_)) => true,
            (Action::Help, Action::Help) => true,
            (Action::Version, Action::Version) => true,
            _ => false,
        }
    }
}

/// `b` is a copy of the action `a`: of the same kind, with its layer, if
/// any, copied by the layer's own `clone`.
pub open spec fn action_cloned<L: Clone>(a: Action<L>, b: Action<L>) -> bool {
    match (a, b) {
        (Action::Nothing, Action::Nothing) => true,
        (Action::Layer(x), Action::Layer(y)) => cloned(x, y),
        (Action::LayerBytes(x), Action::LayerBytes(y)) => cloned(x, y),
        (Action::Help, Action::Help) => true,
        (Action::Version, Action::Version) => true,
        _ => false,
    }
}

impl<L: Clone> Clone for Action<L> {
    /// The same kind of action; a layer is copied by its own `clone`.
    fn clone(&self) -> (r: Self)
        ensures
            action_cloned(*self, r),
    {
        match self {
            Action::Nothing => Action::Nothing,
            Action::Layer(x) => Action::Layer(x.clone()),
            Action::LayerBytes(x) => Action::LayerBytes(x.clone()),
            Action::Help => Action::Help,
            Action::Version => Action::Version,
        }
    }
}

impl<L> vstd::std_specs::cmp::PartialEqSpecImpl for Action<L> {
    open spec fn obeys_eq_spec() -> bool {
        true
    }

    open spec fn eq_spec(&self, other: &Action<L>) -> bool {
        same_action_kind(self, other)
    }
}

/// How an argument is given on the command line.
#[derive(Debug, Clone, Copy, PartialEq)]
pub enum ArgumentForm {
    /// a positional value; the name is used on the help page only.
    Positional(&'static str),
    /// a named option, matched by `--long` or `-s`.
    Named {
        /// long names.
        long: &'static [&'static str],
        /// short names.
        short: &'static [char],
    },
}

impl ArgumentForm {
    pub fn is_positional(&self) -> (r: bool)
        ensures
            r == (self is Positional),
    {
        !self.is_named()
    }

    pub fn is_named(&self) -> (r: bool)
        ensures
            r == (self is Named),
    {
        match self {
            ArgumentForm::Named { .. } => true,
            ArgumentForm::Positional(..) => false,
        }
    }
}

/// An argument (option or positional) of a [`Command`].
#[derive(Debug, PartialEq)]
pub struct Argument<L> {
    /// how the argument is given.
    pub form: ArgumentForm,
    /// description for the help page.
    pub help: Option<&'static str>,
    /// what to do when the argument matches.
    pub action: Action<L>,
    /// whether the argument must be given.
    pub required: bool,
    /// whether `--name<splitter>value` is accepted for this argument.
    pub enable_splitting: bool,
}

/// `b` is a copy of the argument `a` (see [`action_cloned`]).
pub open spec fn argument_cloned<L: Clone>(a: Argument<L>, b: Argument<L>) -> bool {
    &&& b.form == a.form
    &&& b.help == a.help
    &&& action_cloned(a.action, b.action)
    &&& b.required == a.required
    &&& b.enable_splitting == a.enable_splitting
}

impl<L: Clone> Clone for Argument<L> {
    /// The same argument; its layer, if any, is copied by its own `clone`.
    fn clone(&self) -> (r: Self)
        ensures
            argument_cloned(*self, r),
    {
        Argument {
            form: self.form,
            help: self.help,
            action: self.action.clone(),
            required: self.required,
            enable_splitting: self.enable_splitting,
        }
    }
}

impl<L> Default for Argument<L> {
    /// The same as [`Argument::new`].
    fn default() -> (r: Self)
        ensures
            r.form == ArgumentForm::Positional("unknown"),
            r.help.is_none(),
            r.action is Nothing,
            !r.required,
            !r.enable_splitting,
    {
        Self::new()
    }
}

impl<L> Argument<L> {
    /// A positional argument named "unknown", with no help, no action,
    /// optional, without name splitting.
    pub fn new() -> (r: Self)
        ensures
            r.form == ArgumentForm::Positional("unknown"),
            r.help.is_none(),
            r.action is Nothing,
            !r.required,
            !r.enable_splitting,
    {
        Argument {
            form: ArgumentForm::Positional("unknown"),
            help: None,
            action: Action::Nothing,
            required: false,
            enable_splitting: false,
        }
    }

    /// Makes the argument positional under `name`.
    pub fn positional(self, name: &'static str) -> (r: Self)
        ensures
            r == (Argument { form: ArgumentForm::Positional(name), ..self }),
    {
        Argument { form: ArgumentForm::Positional(name), ..self }
    }

    /// Makes the argument a named option with these long and short names.
    pub fn named(self, long: &'static [&'static str], short: &'static [char]) -> (r: Self)
        ensures
            r == (Argument { form: ArgumentForm::Named { long, short }, ..self }),
    {
        Argument { form: ArgumentForm::Named { long, short }, ..self }
    }

    /// Sets the description shown on the help page.
    pub fn help(self, help: &'static str) -> (r: Self)
        ensures
            r == (Argument { help: Some(help), ..self }),
    {
        Argument { help: Some(help), ..self }
    }

    fn action_raw(self, action: Action<L>) -> (r: Self)
        ensures
            r == (Argument { action, ..self }),
    {
        Argument { action, ..self }
    }

    /// Sets the action to [`Action::Nothing`].
    pub fn action_none(self) -> (r: Self)
        ensures
            r == (Argument { action: Action::Nothing, ..self }),
    {
        self.action_raw(Action::Nothing)
    }

    /// Sets the action to [`Action::Help`].
    pub fn action_help(self) -> (r: Self)
        ensures
            r == (Argument { action: Action::Help, ..self }),
    {
        self.action_raw(Action::Help)
    }

    /// Sets the action to [`Action::Version`].
    pub fn action_version(self) -> (r: Self)
        ensures
            r == (Argument { action: Action::Version, ..self }),
    {
        self.action_raw(Action::Version)
    }

    /// Sets the action to [`Action::Layer`].
    pub fn action_layer(self, layer: L) -> (r: Self)
        ensures
            r == (Argument { action: Action::Layer(layer), ..self }),
    {
        self.action_raw(Action::Layer(layer))
    }

    /// Sets the action to [`Action::LayerBytes`].
    pub fn action_layer_bytes(self, layer: L) -> (r: Self)
        ensures
            r == (Argument { action: Action::LayerBytes(layer), ..self }),
    {
        self.action_raw(Action::LayerBytes(layer))
    }

    /// Sets whether the argument must be given.
    pub fn required(self, require: bool) -> (r: Self)
        ensures
            r == (Argument { required: require, ..self }),
    {
        Argument { required: require, ..self }
    }

    /// Sets whether name splitting is accepted for this argument.
    pub fn splitting(self, split: bool) -> (r: Self)
        ensures
            r == (Argument { enable_splitting: split, ..self }),
    {
        Argument { enable_splitting: split, ..self }
    }
}

/// A command: its names, descriptions, action, arguments and subcommands.
#[derive(Debug, PartialEq)]
pub struct Command<L> {
    /// names by which the command is chosen as a subcommand.
    pub name: &'static [&'static str],
    /// description for the help page.
    pub description: Option<&'static str>,
    /// brief summary for the subcommand list of the help page.
    pub help: Option<&'static str>,
    /// action run when the command matches (the root always matches).
    pub action: Action<L>,
    /// options and positionals.
    pub argument: Vec<Argument<L>>,
    /// subcommands.
    pub subcommand: Vec<Command<L>>,
}

/// `b` is a copy of the command tree `a`: the same names and texts, and
/// copies of its action, arguments and subcommands.
pub open spec fn tree_cloned<L: Clone>(a: Command<L>, b: Command<L>) -> bool
    decreases a, 0nat,
{
    &&& b.name == a.name
    &&& b.description == a.description
    &&& b.help == a.help
    &&& action_cloned(a.action, b.action)
    &&& b.argument@.len() == a.argument@.len()
    &&& forall|j: int|
        0 <= j < a.argument@.len() ==> #[trigger] argument_cloned(a.argument@[j], b.argument@[j])
    &&& b.subcommand@.len() == a.subcommand@.len()
    &&& subs_cloned(a.subcommand@, b.subcommand@, a.subcommand@.len())
}

/// The first `n` commands of `ys` are copies of those of `xs` (see
/// [`tree_cloned`]).
pub open spec fn subs_cloned<L: Clone>(xs: Seq<Command<L>>, ys: Seq<Command<L>>, n: nat) -> bool
    decreases xs, n,
{
    if n == 0 || n > xs.len() {
        true
    } else {
        tree_cloned(xs[n - 1], ys[n - 1]) && subs_cloned(xs, ys, (n - 1) as nat)
    }
}

proof fn lemma_subs_cloned_prefix<L: Clone>(xs: Seq<Command<L>>, ys: Seq<Command<L>>, zs: Seq<Command<L>>, n: nat)
    requires
        n <= xs.len(),
        n <= ys.len(),
        n <= zs.len(),
        forall|j: int| 0 <= j < n ==> ys[j] == zs[j],
        subs_cloned(xs, ys, n),
    ensures
        subs_cloned(xs, zs, n),
    decreases n,
{
    if n > 0 {
        lemma_subs_cloned_prefix(xs, ys, zs, (n - 1) as nat);
    }
}

impl<L: Clone> Clone for Command<L> {
    /// A copy of the whole command tree; layers are copied by their own
    /// `clone`.
    fn clone(&self) -> (r: Self)
        ensures
            tree_cloned(*self, r),
        decreases self,
    {
        let mut arguments: Vec<Argument<L>> = Vec::new();
        let mut i: usize = 0;
        while i < self.argument.len()
            invariant
                i <= self.argument@.len(),
                arguments@.len() == i,
                forall|j: int|
                    0 <= j < i ==> #[trigger] argument_cloned(self.argument@[j], arguments@[j]),
            decreases self.argument@.len() - i,
        {
            arguments.push(self.argument[i].clone());
            i = i + 1;
        }
        let mut subcommands: Vec<Command<L>> = Vec::new();
        let mut k: usize = 0;
        while k < self.subcommand.len()
            invariant
                k <= self.subcommand@.len(),
                subcommands@.len() == k,
                subs_cloned(self.subcommand@, subcommands@, k as nat),
            decreases self.subcommand@.len() - k,
        {
            let ghost before = subcommands@;
            assert(decreases_to!(self => self.subcommand@[k as int]));
            let c = self.subcommand[k].clone();
            subcommands.push(c);
            proof {
                lemma_subs_cloned_prefix(self.subcommand@, before, subcommands@, k as nat);
            }
            k = k + 1;
        }
        Command {
            name: self.name,
            description: self.description,
            help: self.help,
            action: self.action.clone(),
            argument: arguments,
            subcommand: subcommands,
        }
    }
}

impl<L> Default for Command<L> {
    /// The same as [`Command::new`].
    fn default() -> (r: Self)
        ensures
            r.name@.len() == 0,
            r.description.is_none(),
            r.help.is_none(),
            r.action is Nothing,
            r.argument@.len() == 0,
            r.subcommand@.len() == 0,
    {
        Self::new()
    }
}

impl<L> Command<L> {
    /// A command with no names, no descriptions, no action, no arguments and
    /// no subcommands.
    pub fn new() -> (r: Self)
        ensures
            r.name@.len() == 0,
            r.description.is_none(),
            r.help.is_none(),
            r.action is Nothing,
            r.argument@.len() == 0,
            r.subcommand@.len() == 0,
    {
        Command {
            name: &[],
            description: None,
            help: None,
            action: Action::Nothing,
            argument: Vec::new(),
            subcommand: Vec::new(),
        }
    }

    /// Sets the names.
    pub fn name(self, names: &'static [&'static str]) -> (r: Self)
        ensures
            r == (Command { name: names, ..self }),
    {
        Command { name: names, ..self }
    }

    /// Sets the description.
    pub fn description(self, description: &'static str) -> (r: Self)
        ensures
            r == (Command { description: Some(description), ..self }),
    {
        Command { description: Some(description), ..self }
    }

    /// Sets the summary used in a parent's subcommand list.
    pub fn help(self, help: &'static str) -> (r: Self)
        ensures
            r == (Command { help: Some(help), ..self }),
    {
        Command { help: Some(help), ..self }
    }

    fn action_raw(self, action: Action<L>) -> (r: Self)
        ensures
            r == (Command { action, ..self }),
    {
        Command { action, ..self }
    }

    /// Sets the action to [`Action::Nothing`].
    pub fn action_none(self) -> (r: Self)
        ensures
            r == (Command { action: Action::Nothing, ..self }),
    {
        self.action_raw(Action::Nothing)
    }

    /// Sets the action to [`Action::Help`].
    pub fn action_help(self) -> (r: Self)
        ensures
            r == (Command { action: Action::Help, ..self }),
    {
        self.action_raw(Action::Help)
    }

    /// Sets the action to [`Action::Version`].
    pub fn action_version(self) -> (r: Self)
        ensures
            r == (Command { action: Action::Version, ..self }),
    {
        self.action_raw(Action::Version)
    }

    /// Sets the action to [`Action::Layer`].
    pub fn action_layer(self, layer: L) -> (r: Self)
        ensures
            r == (Command { action: Action::Layer(layer), ..self }),
    {
        self.action_raw(Action::Layer(layer))
    }

    /// Sets the action to [`Action::LayerBytes`].
    pub fn action_layer_bytes(self, layer: L) -> (r: Self)
        ensures
            r == (Command { action: Action::LayerBytes(layer), ..self }),
    {
        self.action_raw(Action::LayerBytes(layer))
    }

    /// Sets the arguments.
    pub fn argument(self, arguments: Vec<Argument<L>>) -> (r: Self)
        ensures
            r == (Command { argument: arguments, ..self }),
    {
        Command { argument: arguments, ..self }
    }

    /// Sets the subcommands.
    pub fn subcommand(self, subcommands: Vec<Command<L>>) -> (r: Self)
        ensures
            r == (Command { subcommand: subcommands, ..self }),
    {
        Command { subcommand: subcommands, ..self }
    }
}

/// The kind of sink the caller attaches to an [`Output`].
#[derive(Debug, Clone, Copy, PartialEq, Eq)]
pub enum OutputWriter {
    /// a `core::fmt::Write`.
    Fmt,
    /// a `std::io::Write`.
    Io,
    /// standard output.
    Stdio,
    /// a `String`.
    String,
}

/// Where the help and version pages go. When `writer` is set, the pages the
/// parser produces are appended to `text`, for the caller to hand to that
/// sink; when it is `None`, nothing is written.
#[derive(Debug, Clone, PartialEq)]
pub struct Output {
    /// the sink, if any.
    pub writer: Option<OutputWriter>,
    /// what the parser has written so far.
    pub text: String,
}

impl Default for Output {
    /// The same as [`Output::new`].
    fn default() -> (r: Self)
        ensures
            r.writer.is_none(),
            r.text@ == Seq::<char>::empty(),
    {
        Self::new()
    }
}

impl Output {
    /// An output with no sink and nothing written.
    pub fn new() -> (r: Self)
        ensures
            r.writer.is_none(),
            r.text@ == Seq::<char>::empty(),
    {
        Output { writer: None, text: String::new() }
    }

    fn writer_raw(self, writer: OutputWriter) -> (r: Self)
        ensures
            r.writer == Some(writer),
            r.text == self.text,
    {
        Output { writer: Some(writer), ..self }
    }

    /// Attaches a `core::fmt::Write` sink.
    pub fn writer_fmt(self) -> (r: Self)
        ensures
            r.writer == Some(OutputWriter::Fmt),
            r.text == self.text,
    {
        self.writer_raw(OutputWriter::Fmt)
    }

    /// Attaches a `std::io::Write` sink.
    pub fn writer_io(self) -> (r: Self)
        ensures
            r.writer == Some(OutputWriter::Io),
            r.text == self.text,
    {
        self.writer_raw(OutputWriter::Io)
    }

    /// Attaches standard output.
    pub fn writer_stdio(self) -> (r: Self)
        ensures
            r.writer == Some(OutputWriter::Stdio),
            r.text == self.text,
    {
        self.writer_raw(OutputWriter::Stdio)
    }

    /// Attaches a `String` sink.
    pub fn writer_string(self) -> (r: Self)
        ensures
            r.writer == Some(OutputWriter::String),
            r.text == self.text,
    {
        self.writer_raw(OutputWriter::String)
    }
}

/// How the version is rendered on the version page.
#[derive(Debug, Clone, PartialEq)]
pub enum ConfigVersion {
    /// `x`.
    Single(u32),
    /// `x.y`.
    Double(u32, u32),
    /// `x.y.z`.
    Triple(u32, u32, u32),
    /// `x.y.z.w`.
    Quadruple(u32, u32, u32, u32),
    /// the text as given.
    String(&'static str),
}

/// Parser settings: version, wrapping width of help text, and the splitter
/// for `--name<splitter>value`.
#[derive(Debug, Clone, PartialEq)]
pub struct Config {
    /// version shown on the version page.
    pub version: Option<ConfigVersion>,
    /// width in characters at which help text wraps; `None` for no wrapping.
    pub wrap: Option<u32>,
    /// splitter for name splitting; `None` disables it.
    pub name_splitting: Option<&'static str>,
}

impl Default for Config {
    /// The same as [`Config::new`].
    fn default() -> (r: Self)
        ensures
            r.version.is_none(),
            r.wrap == Some(60u32),
            r.name_splitting.is_none(),
    {
        Self::new()
    }
}

impl Config {
    /// No version, wrapping at 60, no name splitting.
    pub fn new() -> (r: Self)
        ensures
            r.version.is_none(),
            r.wrap == Some(60u32),
            r.name_splitting.is_none(),
    {
        Config { version: None, wrap: Some(60), name_splitting: None }
    }

    fn version_raw(self, version: ConfigVersion) -> (r: Self)
        ensures
            r == (Config { version: Some(version), ..self }),
    {
        Config { version: Some(version), ..self }
    }

    /// Sets the version to `x`.
    pub fn version_single(self, x: u32) -> (r: Self)
        ensures
            r == (Config { version: Some(ConfigVersion::Single(x)), ..self }),
    {
        self.version_raw(ConfigVersion::Single(x))
    }

    /// Sets the version to `x.y`.
    pub fn version_double(self, x: u32, y: u32) -> (r: Self)
        ensures
            r == (Config { version: Some(ConfigVersion::Double(x, y)), ..self }),
    {
        self.version_raw(ConfigVersion::Double(x, y))
    }

    /// Sets the version to `x.y.z`.
    pub fn version_triple(self, x: u32, y: u32, z: u32) -> (r: Self)
        ensures
            r == (Config { version: Some(ConfigVersion::Triple(x, y, z)), ..self }),
    {
        self.version_raw(ConfigVersion::Triple(x, y, z))
    }

    /// Sets the version to `x.y.z.w`.
    pub fn version_quadruple(self, x: u32, y: u32, z: u32, w: u32) -> (r: Self)
        ensures
            r == (Config { version: Some(ConfigVersion::Quadruple(x, y, z, w)), ..self }),
    {
        self.version_raw(ConfigVersion::Quadruple(x, y, z, w))
    }

    /// Sets the version to a text of its own.
    pub fn version_string(self, string: &'static str) -> (r: Self)
        ensures
            r == (Config { version: Some(ConfigVersion::String(string)), ..self }),
    {
        self.version_raw(ConfigVersion::String(string))
    }

    /// Disables wrapping.
    pub fn nowrap(self) -> (r: Self)
        ensures
            r == (Config { wrap: None, ..self }),
    {
        Config { wrap: None, ..self }
    }

    /// Wraps help text at `wrap` characters.
    pub fn wrap(self, wrap: u32) -> (r: Self)
        ensures
            r == (Config { wrap: Some(wrap), ..self }),
    {
        Config { wrap: Some(wrap), ..self }
    }

    /// Disables name splitting.
    pub fn nosplitting(self) -> (r: Self)
        ensures
            r == (Config { name_splitting: None, ..self }),
    {
        Config { name_splitting: None, ..self }
    }

    /// Enables name splitting on `splitter`.
    pub fn splitting(self, splitter: &'static str) -> (r: Self)
        ensures
            r == (Config { name_splitting: Some(splitter), ..self }),
    {
        Config { name_splitting: Some(splitter), ..self }
    }
}

/// How a successful parse ended.
#[derive(Debug, Clone, PartialEq)]
pub enum Success<T> {
    /// parsing ran to the end; the value built by the layers.
    Layer(T),
    /// a help action matched and the help page was written.
    Help,
    /// a version action matched and the version page was written.
    Version,
}

/// Why a parse failed.
#[derive(Debug, PartialEq)]
pub enum Error<'a, E> {
    /// an unknown or malformed long option (`--name`).
    BadLong(&'a str),
    /// an unknown short option (`-n`).
    BadShort(char),
    /// an unexpected value; at most its first 31 characters.
    BadPositional(&'a str),
    /// a required option was not given; its first long name.
    RequiredLong(&'static str),
    /// a required option with no long name was not given; its first short
    /// name.
    RequiredShort(char),
    /// a required positional was not given; its name.
    RequiredPositional(&'static str),
    /// writing a page failed.
    FmtError(core::fmt::Error),
    /// a layer returned an error.
    Other(E),
}

/// `b` is a copy of the error `a`: the same kind with the same payload, an
/// [`Error::Other`] payload copied by its own `clone`.
pub open spec fn error_cloned<'a, E: Clone>(a: Error<'a, E>, b: Error<'a, E>) -> bool {
    match (a, b) {
        (Error::Other(x), Error::Other(y)) => cloned(x, y),
        (Error::FmtError(_), Error::FmtError(_)) => true,
        (Error::Other(_), _) => false,
        (Error::FmtError(_), _) => false,
        _ => b == a,
    }
}

impl<'a, E: Clone> Clone for Error<'a, E> {
    /// The same error; an [`Error::Other`] payload is copied by its own
    /// `clone`.
    fn clone(&self) -> (r: Self)
        ensures
            error_cloned(*self, r),
    {
        match self {
            Error::BadLong(x) => Error::BadLong(x),
            Error::BadShort(c) => Error::BadShort(*c),
            Error::BadPositional(x) => Error::BadPositional(x),
            Error::RequiredLong(x) => Error::RequiredLong(x),
            Error::RequiredShort(c) => Error::RequiredShort(*c),
            Error::RequiredPositional(x) => Error::RequiredPositional(x),
            Error::FmtError(x) => Error::FmtError(*x),
            Error::Other(x) => Error::Other(x.clone()),
        }
    }
}

} // verus!
