use vstd::prelude::*;

use crate::text::push_char;
use crate::types::Error;
use vstd::string::StringExecFns;

verus! {

/// What an error says, for the errors the parser raises itself; the text of
/// [`Error::FmtError`] and [`Error::Other`] is that of the value they hold.
pub open spec fn error_text<'a, E>(e: Error<'a, E>) -> Option<Seq<char>> {
    match e {
        Error::BadLong(x) => Some("unknown argument specifier '"@ + x@ + "'"@),
        Error::BadShort(c) => Some("unknown short specifier '"@ + seq![c] + "'"@),
        Error::BadPositional(x) => Some("unexpected value '"@ + x@ + "'"@),
        Error::RequiredLong(x) => Some("argument '--"@ + x@ + "' unspecified, but required"@),
        Error::RequiredShort(c) => Some("argument '-"@ + seq![c] + "' unspecified, but required"@),
        Error::RequiredPositional(x) => Some(
            "positional argument "@ + x@ + " missing, but required"@,
        ),
        Error::FmtError(_) => None,
        Error::Other(_) => None,
    }
}

impl<'a, E> Error<'a, E> {
    /// The message for this error, when the parser raised it itself.
    pub fn message(&self) -> (r: Option<String>)
        ensures
            match r {
                Some(s) => error_text(*self) == Some(s@),
                None => error_text(*self) is None,
            },
    {
        let mut s = String::new();
        match self {
            Error::BadLong(x) => {
                s.append("unknown argument specifier '");
                s.append(x);
                s.append("'");
            },
            Error::BadShort(c) => {
                s.append("unknown short specifier '");
                push_char(&mut s, *c);
                s.append("'");
            },
            Error::BadPositional(x) => {
                s.append("unexpected value '");
                s.append(x);
                s.append("'");
            },
            Error::RequiredLong(x) => {
                s.append("argument '--");
                s.append(x);
                s.append("' unspecified, but required");
            },
            Error::RequiredShort(c) => {
                s.append("argument '-");
                push_char(&mut s, *c);
                s.append("' unspecified, but required");
            },
            Error::RequiredPositional(x) => {
                s.append("positional argument ");
                s.append(x);
                s.append(" missing, but required");
            },
            Error::FmtError(_) => {
                return None;
            },
            Error::Other(_) => {
                return None;
            },
        }
        assert(Some(s@) =~~= error_text(*self));
        Some(s)
    }
}

} // verus!
