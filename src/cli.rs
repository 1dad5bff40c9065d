//! The program's options, as parsed from the command line and as used.

use vstd::prelude::*;

verus! {

/// The options as the command line gives them: an empty `out_file` means
/// that no output file was named.
pub struct Opt {
    pub debug: bool,
    pub in_file: String,
    pub out_file: String,
}

/// The options as the program uses them.
#[derive(Debug, PartialEq, Eq)]
pub struct Arguments {
    pub debug: bool,
    pub input: String,
    pub out: Option<String>,
}

/// What `str`'s `Debug` formatting yields for a string: the string quoted,
/// with special characters escaped.
pub uninterp spec fn debug_quoted(s: Seq<char>) -> Seq<char>;

/// Relies on `<str as Debug>::fmt`, through `{:?}`: the result depends on the
/// characters of `s` alone.
#[verifier::external_body]
fn quote_debug(s: &str) -> (r: String)
    ensures
        r@ == debug_quoted(s@),
{
    format!("{:?}", s)
}

/// `true` or `false`.
pub open spec fn bool_text(b: bool) -> Seq<char> {
    if b {
        "true"@
    } else {
        "false"@
    }
}

impl Arguments {
    /// The options as shown in debug mode, one per line.
    pub open spec fn debug_text_of(self) -> Seq<char> {
        "Debug: "@ + bool_text(self.debug) + "\nInput: "@ + debug_quoted(self.input@) + "\n"@
            + match self.out {
            Some(o) => "Out: "@ + debug_quoted(o@) + "\n"@,
            None => "Out: None\n"@,
        }
    }

    /// The options as shown in debug mode: the debug flag, the input path
    /// quoted, and the output path quoted or `None`, one per line.
    pub fn debug_text(&self) -> (t: String)
        ensures
            t@ == self.debug_text_of(),
    {
        proof {
            reveal_strlit("true");
            reveal_strlit("false");
        }
        let mut t = String::from_str("Debug: ");
        t.append(if self.debug { "true" } else { "false" });
        t.append("\nInput: ");
        t.append(quote_debug(self.input.as_str()).as_str());
        t.append("\n");
        match &self.out {
            Some(o) => {
                t.append("Out: ");
                t.append(quote_debug(o.as_str()).as_str());
                t.append("\n");
            },
            None => {
                t.append("Out: None\n");
            },
        }
        t
    }
}

/// Turns the command-line options into the options used: an empty output
/// file name means no output file.
pub fn process(opt: Opt) -> (args: Arguments)
    ensures
        args.debug == opt.debug,
        args.input@ == opt.in_file@,
        args.out is None <==> opt.out_file@.len() == 0,
        args.out matches Some(o) ==> o@ == opt.out_file@,
{
    let Opt { debug, in_file, out_file } = opt;
    let out = if out_file.as_str().is_empty() {
        None
    } else {
        Some(out_file)
    };
    Arguments { debug, input: in_file, out }
}

} // verus!
