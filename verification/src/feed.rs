use vstd::prelude::*;

use crate::text::{bytes_to_str, is_utf8};
use vstd::string::StringSliceAdditionalSpecFns;
use vstd::utf8::valid_utf8;

verus! {

/// The arguments a [`crate::Layer`] may take: first a pending value (the
/// value split off `--name=value`, or a positional's value), then the
/// command-line arguments from `pos` up to `end`.
pub struct FeedView {
    pub args: Seq<Seq<u8>>,
    pub pending: Option<Seq<u8>>,
    pub pos: nat,
    pub end: nat,
    pub text: bool,
}

/// Hands out the arguments that belong to the current match, in order.
pub struct Feed<'s, 'b> {
    args: &'s [&'b [u8]],
    pending: Option<&'b [u8]>,
    pos: usize,
    end: usize,
    text: bool,
}

/// The arguments of a command line, as byte sequences.
pub open spec fn args_view(args: &[&[u8]]) -> Seq<Seq<u8>> {
    args@.map_values(|a: &[u8]| a@)
}

/// An optional byte slice, by its view.
pub open spec fn bytes_opt(r: Option<&[u8]>) -> Option<Seq<u8>> {
    match r {
        Some(v) => Some(v@),
        None => None,
    }
}

/// The next argument of `f`, taken whether or not it is handed out: with
/// `utf8_only`, an argument that is not valid UTF-8 is consumed and `None`
/// is handed out. Gives the feed after the call and what is handed out.
pub open spec fn feed_next(f: FeedView, utf8_only: bool) -> (FeedView, Option<Seq<u8>>) {
    match f.pending {
        Some(v) => (
            FeedView { pending: None, ..f },
            if !utf8_only || valid_utf8(v) {
                Some(v)
            } else {
                None
            },
        ),
        None => if f.pos < f.end && f.pos < f.args.len() {
            let v = f.args[f.pos as int];
            (
                FeedView { pos: f.pos + 1, ..f },
                if !utf8_only || valid_utf8(v) {
                    Some(v)
                } else {
                    None
                },
            )
        } else {
            (f, None)
        },
    }
}

impl<'s, 'b> View for Feed<'s, 'b> {
    type V = FeedView;

    closed spec fn view(&self) -> FeedView {
        FeedView {
            args: args_view(self.args),
            pending: bytes_opt(self.pending),
            pos: self.pos as nat,
            end: self.end as nat,
            text: self.text,
        }
    }
}

impl<'s, 'b> Feed<'s, 'b> {
    pub(crate) fn new(
        args: &'s [&'b [u8]],
        pending: Option<&'b [u8]>,
        pos: usize,
        end: usize,
        text: bool,
    ) -> (r: Self)
        ensures
            r@.args == args_view(args),
            r@.pending == bytes_opt(pending),
            r@.pos == pos,
            r@.end == end,
            r@.text == text,
    {
        Feed { args, pending, pos, end, text }
    }

    /// Where the feed stands in the command line.
    pub(crate) fn position(&self) -> (r: usize)
        ensures
            r == self@.pos,
    {
        self.pos
    }

    fn take(&mut self, utf8_only: bool) -> (r: Option<&'b [u8]>)
        ensures
            (final(self)@, bytes_opt(r)) == feed_next(old(self)@, utf8_only),
            utf8_only ==> (r matches Some(v) ==> valid_utf8(v@)),
    {
        let v = match self.pending {
            Some(v) => {
                self.pending = None;
                v
            },
            None => {
                if self.pos < self.end && self.pos < self.args.len() {
                    let v = self.args[self.pos];
                    self.pos = self.pos + 1;
                    proof {
                        assert(self@.args[self.pos - 1] == v@);
                    }
                    v
                } else {
                    return None;
                }
            },
        };
        if !utf8_only || is_utf8(v) {
            Some(v)
        } else {
            None
        }
    }

    /// The next argument as bytes, or `None` when there is none. In a feed
    /// made for [`crate::Action::Layer`], an argument that is not valid UTF-8
    /// is consumed and gives `None`.
    pub fn next_bytes(&mut self) -> (r: Option<&'b [u8]>)
        ensures
            (final(self)@, bytes_opt(r)) == feed_next(old(self)@, old(self)@.text),
    {
        let t = self.text;
        self.take(t)
    }

    /// The next argument as text, or `None` when there is none or it is not
    /// valid UTF-8; either way the argument is consumed.
    pub fn next(&mut self) -> (r: Option<&'b str>)
        ensures
            ({
                let (g, v) = feed_next(old(self)@, true);
                &&& final(self)@ == g
                &&& match (v, r) {
                    (None, None) => true,
                    (Some(b), Some(s)) => s.spec_bytes() == b,
                    _ => false,
                }
            }),
    {
        match self.take(true) {
            Some(v) => Some(bytes_to_str(v)),
            None => None,
        }
    }
}

} // verus!
