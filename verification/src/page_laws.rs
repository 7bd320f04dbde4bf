use vstd::prelude::*;

use crate::page::{help_page, options_block, subcommands_block, usage_line, version_text};
use crate::text::{decimal, digit_char, is_space};
use crate::types::{Command, Config, ConfigVersion};

verus! {

/// The help page shows the command's description, or else its summary,
/// followed by a blank line, right after the usage line; with neither,
/// the options follow the usage line directly.
pub proof fn law_help_description<L>(c: Command<L>, cfg: Config)
    ensures
        c.description matches Some(d) ==> help_page(c, cfg) == usage_line(c) + d@ + seq![
            '\n',
            '\n',
        ] + options_block(c, cfg.wrap) + subcommands_block(c, cfg.wrap),
        c.description is None ==> (c.help matches Some(h) ==> help_page(c, cfg) == usage_line(c)
            + h@ + seq!['\n', '\n'] + options_block(c, cfg.wrap) + subcommands_block(c, cfg.wrap)),
        c.description is None && c.help is None ==> help_page(c, cfg) == usage_line(c)
            + options_block(c, cfg.wrap) + subcommands_block(c, cfg.wrap),
{
    if c.description is None && c.help is None {
        assert(usage_line(c) + Seq::<char>::empty() =~= usage_line(c));
    }
}

/// A decimal digit.
pub open spec fn is_digit(c: char) -> bool {
    '0' <= c && c <= '9'
}

/// The number that a string of decimal digits stands for.
pub open spec fn digits_value(s: Seq<char>) -> nat
    decreases s.len(),
{
    if s.len() == 0 {
        0
    } else {
        digits_value(s.drop_last()) * 10 + ((s.last() as u32) - 48) as nat
    }
}

proof fn lemma_digit_char(d: nat)
    requires
        d < 10,
    ensures
        is_digit(digit_char(d)),
        (digit_char(d) as u32) - 48 == d,
{
}

/// A number is written in decimal as digits that stand for it, without
/// leading zeros (zero itself is the one digit `0`).
pub proof fn law_decimal(n: nat)
    ensures
        decimal(n).len() >= 1,
        forall|i: int| 0 <= i < decimal(n).len() ==> is_digit(#[trigger] decimal(n)[i]),
        digits_value(decimal(n)) == n,
        decimal(n)[0] == '0' ==> n == 0 && decimal(n).len() == 1,
    decreases n,
{
    if n < 10 {
        lemma_digit_char(n);
        let s = decimal(n);
        assert(s.drop_last() =~= Seq::<char>::empty());
        assert(s.last() == digit_char(n));
        assert(digits_value(s.drop_last()) == 0);
        assert(digits_value(s) == digits_value(s.drop_last()) * 10 + ((s.last() as u32) - 48) as nat);
    } else {
        let q = n / 10;
        let r = n % 10;
        law_decimal(q);
        lemma_digit_char(r);
        let s = decimal(n);
        assert(s == decimal(q).push(digit_char(r)));
        assert(s.drop_last() =~= decimal(q));
        assert(n == q * 10 + r) by (nonlinear_arith)
            requires
                q == n / 10,
                r == n % 10,
        ;
        assert(s.last() == digit_char(r));
        assert(digits_value(s) == digits_value(s.drop_last()) * 10 + ((s.last() as u32) - 48) as nat);
        assert(digits_value(s) == q * 10 + r);
        assert(s[0] == decimal(q)[0]);
        assert(forall|i: int| 0 <= i < s.len() ==> is_digit(#[trigger] s[i])) by {
            assert forall|i: int| 0 <= i < s.len() implies is_digit(#[trigger] s[i]) by {
                if i < decimal(q).len() {
                    assert(s[i] == decimal(q)[i]);
                }
            }
        }
    }
}

/// A version is written as its numbers in decimal (see [`law_decimal`]),
/// each two separated by a `.`, every number included, zeros too; a version
/// text is written as given.
pub proof fn law_version_text(v: ConfigVersion)
    ensures
        v matches ConfigVersion::Single(x) ==> version_text(v) == decimal(x as nat),
        v matches ConfigVersion::Double(x, y) ==> version_text(v) == decimal(x as nat) + seq!['.']
            + decimal(y as nat),
        v matches ConfigVersion::Triple(x, y, z) ==> version_text(v) == decimal(x as nat) + seq![
            '.',
        ] + decimal(y as nat) + seq!['.'] + decimal(z as nat),
        v matches ConfigVersion::Quadruple(x, y, z, w) ==> version_text(v) == decimal(x as nat)
            + seq!['.'] + decimal(y as nat) + seq!['.'] + decimal(z as nat) + seq!['.'] + decimal(
            w as nat,
        ),
        v matches ConfigVersion::String(s) ==> version_text(v) == s@,
{
}

/// The code points with the Unicode `White_Space` property.
pub open spec fn white_space_points() -> Set<u32> {
    set![
        0x9u32, 0xa, 0xb, 0xc, 0xd, 0x20, 0x85, 0xa0, 0x1680,
        0x2000, 0x2001, 0x2002, 0x2003, 0x2004, 0x2005, 0x2006, 0x2007, 0x2008, 0x2009, 0x200a,
        0x2028, 0x2029, 0x202f, 0x205f, 0x3000,
    ]
}

/// White space is exactly the characters with the Unicode `White_Space`
/// property; among ASCII characters those are the space and the controls
/// from tab to carriage return, so no letter, digit or punctuation mark
/// (such as `-`) is white space.
pub proof fn law_white_space(c: char)
    ensures
        is_space(c) <==> white_space_points().contains(c as u32),
        (c as u32) < 0x80 ==> (is_space(c) <==> (c == ' ' || ('\t' <= c && c <= '\r'))),
        !is_space('-'),
{
}

} // verus!
