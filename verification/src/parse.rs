use vstd::prelude::*;

use crate::feed::{args_view, Feed};
use crate::machine::{
    enter, fits, inner, left, lemma_step_valid, rank, run, step, tree_ok, valid, End, Ending,
    Fault, Halt, Machine, Request, Turn,
};
use crate::page::{help_page, version_page, write_help, write_version};
use crate::types::{Command, Config, Error, Layer, Output, Success};
use vstd::string::StringSliceAdditionalSpecFns;

verus! {

/// The parser's error by its payloads; `None` for the errors the parser
/// does not raise itself.
pub open spec fn error_model<'b, E>(e: Error<'b, E>) -> Option<Fault> {
    match e {
        Error::BadLong(s) => Some(Fault::BadLong(s.spec_bytes())),
        Error::BadShort(c) => Some(Fault::BadShort(c)),
        Error::BadPositional(s) => Some(Fault::BadPositional(s@)),
        Error::RequiredLong(s) => Some(Fault::RequiredLong(s@)),
        Error::RequiredShort(c) => Some(Fault::RequiredShort(c)),
        Error::RequiredPositional(s) => Some(Fault::RequiredPositional(s@)),
        Error::FmtError(_) => None,
        Error::Other(_) => None,
    }
}

/// The text of `out` after a page is written to it: appended when a sink is
/// attached, dropped otherwise.
pub open spec fn written(out: Output, page: Seq<char>) -> Seq<char> {
    if out.writer is Some {
        out.text@ + page
    } else {
        out.text@
    }
}

/// A parse that ended as `x` returned `res` and turned `before` into
/// `after`.
pub open spec fn reports<'b, T, E, L>(
    x: End<T, E, L>,
    res: Result<Success<T>, Error<'b, E>>,
    before: Output,
    after: Output,
    cfg: Config,
) -> bool {
    &&& after.writer == before.writer
    &&& match x {
        End::Finished(Halt::Done, t) => {
            &&& res == Ok::<Success<T>, Error<'b, E>>(Success::Layer(t))
            &&& after.text@ == before.text@
        },
        End::Finished(Halt::Help(c), _) => {
            &&& res matches Ok(Success::Help)
            &&& after.text@ == written(before, help_page(c, cfg))
        },
        End::Finished(Halt::Version(c), _) => {
            &&& res matches Ok(Success::Version)
            &&& after.text@ == written(before, version_page(c, cfg))
        },
        End::Finished(Halt::Fail(f), _) => {
            &&& res matches Err(e) && error_model(e) == Some(f)
            &&& after.text@ == before.text@
        },
        End::LayerFailed(e) => {
            &&& res == Err::<Success<T>, Error<'b, E>>(Error::Other(e))
            &&& after.text@ == before.text@
        },
        End::Stuck => false,
    }
}

/// A parse of `args` against `cmd` from the value `t0`, whose layer calls
/// went as `turns` says, returned `r` and turned `before` into `after`.
pub open spec fn ends_as<'b, T, E, L: Layer<T, E>>(
    cfg: Config,
    cmd: Command<L>,
    args: Seq<Seq<u8>>,
    t0: T,
    turns: Seq<Turn<T, E, L>>,
    r: Result<Success<T>, Error<'b, E>>,
    before: Output,
    after: Output,
) -> bool {
    let (x, k) = run(cfg, args, enter(cmd, 0), t0, turns);
    &&& k == turns.len()
    &&& reports(x, r, before, after, cfg)
}

/// `r` with `n` more turns used.
pub open spec fn shifted<T, E, L>(r: (End<T, E, L>, nat), n: nat) -> (End<T, E, L>, nat) {
    (r.0, r.1 + n)
}

proof fn lemma_fits(argument: &[&[u8]])
    ensures
        fits(args_view(argument)),
{
    assert(args_view(argument).len() == argument.len());
    assert forall|i: int| 0 <= i < args_view(argument).len() implies #[trigger] args_view(
        argument,
    )[i].len() <= usize::MAX by {
        let a = argument@[i];
        assert(args_view(argument)[i] == a@);
        assert(a@.len() == a.len());
    }
}

/// Parses the command line `argument` (as bytes) against `command`,
/// threading `layer` through the layers that match.
///
/// Named option mode comes first: `--long` (its text before the configured
/// splitter, if any, names the option and the rest is handed to its layer
/// first) and `-abc` clusters of short options (only the last of a cluster
/// may take further arguments). The first other argument ends it; required
/// named options are then checked, each positional takes at most one value,
/// and a remaining argument must name a subcommand, which is parsed the same
/// way with the rest. Help and version actions write their page to `output`
/// and stop.
///
/// The result is how the parser's run ends for the outcomes the layers gave
/// (see [`run`]), each one an outcome its layer [`gives`](Layer::gives) for
/// the value and feed it was handed; the parse resumes where the layer left
/// its feed. Without layers in the command tree it is fixed by the command
/// line alone.
pub fn parse_bytes<'b, T, E, L: Layer<T, E>>(
    output: &mut Output,
    config: Config,
    command: Command<L>,
    argument: &[&'b [u8]],
    layer: T,
) -> (r: Result<Success<T>, Error<'b, E>>)
    requires
        tree_ok(command),
    ensures
        exists|turns: Seq<Turn<T, E, L>>|
            #[trigger] ends_as(config, command, args_view(argument), layer, turns, r, *old(output), *final(output)),
{
    let ghost av = args_view(argument);
    proof {
        lemma_fits(argument);
    }
    let mut m = Machine::new(&command);
    let ghost init = m@;
    let ghost mut turns: Seq<Turn<T, E, L>> = Seq::empty();
    let mut t = layer;
    proof {
        assert forall|fut: Seq<Turn<T, E, L>>| #[trigger]
            run(config, av, init, layer, turns + fut) == shifted(run(config, av, m@, t, fut), turns.len()) by {
            assert(turns + fut =~= fut);
        }
    }
    loop
        invariant
            av == args_view(argument),
            init == enter(command, 0),
            valid(av, m@),
            forall|fut: Seq<Turn<T, E, L>>| #[trigger]
                run(config, av, init, layer, turns + fut) == shifted(
                    run(config, av, m@, t, fut),
                    turns.len(),
                ),
            *output == *old(output),
        decreases left(av, m@), rank(m@.phase), inner(av, m@),
    {
        let ghost s0 = m@;
        proof {
            lemma_step_valid(config, av, s0);
        }
        let req = m.step(&config, argument);
        match req {
            Request::Continue => {
                proof {
                    assert forall|fut: Seq<Turn<T, E, L>>| #[trigger]
                        run(config, av, init, layer, turns + fut) == shifted(
                            run(config, av, m@, t, fut),
                            turns.len(),
                        ) by {
                        assert(run(config, av, s0, t, fut) == run(config, av, m@, t, fut));
                    }
                }
            },
            Request::Call { layer: l, text, pending, start, end } => {
                let mut feed = Feed::new(argument, pending, start, end, text);
                let ghost fv = feed@;
                let ghost tin = t;
                let res = l.run(t, &mut feed);
                let ghost fa = feed@;
                match res {
                    Ok(t2) => {
                        let p = feed.position();
                        let ghost s2 = m@;
                        m.resume(p, start, end);
                        proof {
                            let turn = Turn { layer: *l, input: tin, feed: fv, output: Ok(t2), after: fa };
                            assert forall|fut: Seq<Turn<T, E, L>>| #[trigger]
                                run(config, av, init, layer, turns.push(turn) + fut) == shifted(
                                    run(config, av, m@, t2, fut),
                                    turns.push(turn).len(),
                                ) by {
                                assert(turns.push(turn) + fut =~= turns + (seq![turn] + fut));
                                assert((seq![turn] + fut).drop_first() =~= fut);
                                assert(run(config, av, init, layer, turns + (seq![turn] + fut)) == shifted(
                                    run(config, av, s0, tin, seq![turn] + fut),
                                    turns.len(),
                                ));
                            }
                            turns = turns.push(turn);
                        }
                        t = t2;
                    },
                    Err(e) => {
                        let r = Err(Error::Other(e));
                        proof {
                            let turn = Turn { layer: *l, input: tin, feed: fv, output: Err(e), after: fa };
                            let none = Seq::<Turn<T, E, L>>::empty();
                            assert(turns.push(turn) + none =~= turns + (seq![turn] + none));
                            assert(run(config, av, init, layer, turns + (seq![turn] + none)) == shifted(
                                run(config, av, s0, tin, seq![turn] + none),
                                turns.len(),
                            ));
                            turns = turns.push(turn);
                            assert(turns + none =~= turns);
                            assert(ends_as(config, command, av, layer, turns, r, *old(output), *output));
                        }
                        return r;
                    },
                }
            },
            Request::Stop(end) => {
                proof {
                    let none = Seq::<Turn<T, E, L>>::empty();
                    assert(turns + none =~= turns);
                    assert(run(config, av, init, layer, turns + none) == shifted(
                        run(config, av, s0, t, none),
                        turns.len(),
                    ));
                }
                let ghost tf = t;
                let r = match end {
                    Ending::Done => Ok(Success::Layer(t)),
                    Ending::Help(c) => {
                        if output.writer.is_some() {
                            write_help(&mut output.text, c, &config);
                        }
                        Ok(Success::Help)
                    },
                    Ending::Version(c) => {
                        if output.writer.is_some() {
                            write_version(&mut output.text, c, &config);
                        }
                        Ok(Success::Version)
                    },
                    Ending::BadLong(s) => Err(Error::BadLong(s)),
                    Ending::BadShort(c) => Err(Error::BadShort(c)),
                    Ending::BadPositional(s) => Err(Error::BadPositional(s)),
                    Ending::RequiredLong(s) => Err(Error::RequiredLong(s)),
                    Ending::RequiredShort(c) => Err(Error::RequiredShort(c)),
                    Ending::RequiredPositional(s) => Err(Error::RequiredPositional(s)),
                };
                assert(ends_as(config, command, av, layer, turns, r, *old(output), *output));
                return r;
            },
        }
    }
}

/// A command line of texts, by the bytes of each.
pub open spec fn strs_view(args: &[&str]) -> Seq<Seq<u8>> {
    args@.map_values(|s: &str| s.spec_bytes())
}

/// Parses the command line `argument` (as texts); exactly
/// [`parse_bytes`] on their bytes.
pub fn parse_str<'b, T, E, L: Layer<T, E>>(
    output: &mut Output,
    config: Config,
    command: Command<L>,
    argument: &[&'b str],
    layer: T,
) -> (r: Result<Success<T>, Error<'b, E>>)
    requires
        tree_ok(command),
    ensures
        exists|turns: Seq<Turn<T, E, L>>|
            #[trigger] ends_as(config, command, strs_view(argument), layer, turns, r, *old(output), *final(output)),
{
    let mut bytes: Vec<&'b [u8]> = Vec::new();
    let mut i: usize = 0;
    while i < argument.len()
        invariant
            i <= argument@.len(),
            bytes@.len() == i,
            forall|k: int| 0 <= k < i ==> (#[trigger] bytes@[k])@ == argument@[k].spec_bytes(),
        decreases argument@.len() - i,
    {
        bytes.push(argument[i].as_bytes());
        i = i + 1;
    }
    let slice = bytes.as_slice();
    assert(args_view(slice) =~= strs_view(argument));
    parse_bytes(output, config, command, slice, layer)
}

} // verus!
