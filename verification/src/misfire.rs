use vstd::prelude::*;


verus! {

/// A list of the legal choices for an option that takes a value.
#[derive(Debug)]
pub struct Choices(pub Vec<String>);

/// The text of a choices list: each choice in order, separated by one
/// space, inside `(choices: ...)`.
pub open spec fn choices_body(items: Seq<Seq<char>>) -> Seq<char>
    decreases items.len(),
{
    if items.len() == 0 {
        Seq::empty()
    } else if items.len() == 1 {
        items[0]
    } else {
        choices_body(items.drop_last()) + seq![' '] + items.last()
    }
}

impl Choices {
    /// The text shown for this list of choices.
    pub fn describe(&self) -> (r: String)
        ensures
            r@ == "(choices: "@ + choices_body(self.0.deep_view()) + ")"@,
    {
        let mut out = String::from_str("(choices: ");
        let n = self.0.len();
        let mut i: usize = 0;
        while i < n
            invariant
                0 <= i <= n,
                n == self.0@.len(),
                out@ == "(choices: "@ + choices_body(self.0.deep_view().take(i as int)),
            decreases n - i,
        {
            if i > 0 {
                crate::fs::push_char(&mut out, ' ');
            }
            out.append(self.0[i].as_str());
            proof {
                let items = self.0.deep_view();
                assert(items.take(i + 1).drop_last() =~= items.take(i as int));
                assert(items.take(i + 1).last() == items[i as int]);
                if i == 0 {
                    assert(choices_body(items.take(1)) == items[0]);
                }
            }
            i = i + 1;
        }
        proof {
            assert(self.0.deep_view().take(n as int) =~= self.0.deep_view());
        }
        out.append(")");
        out
    }
}

/// A **misfire** is what can happen instead of listing files: help or
/// version text was asked for, the options contradict one another, or
/// a value would not parse.
#[derive(Debug)]
pub enum Misfire {
    /// The user asked for the help text.
    Help(String),
    /// The user asked for the version number.
    Version,
    /// Two options that contradict one another were both given.
    Conflict(String, String),
    /// An option that does nothing when another one is, or is not,
    /// present.
    Useless(String, bool, String),
    /// An option that does nothing without either of two other
    /// options.
    Useless2(String, String, String),
    /// A numeric option whose value would not parse as a number; the
    /// offending text is kept.
    FailedParse(String),
    /// An ignore pattern that would not parse; the message text is
    /// kept.
    FailedGlobPattern(String),
}

impl Misfire {
    /// The exit status this misfire asks the process to end with.
    pub fn error_code(&self) -> (r: i32)
        ensures
            r == (if self is Help {
                2int
            } else {
                3int
            }),
    {
        if let Misfire::Help(_) = self {
            2
        } else {
            3
        }
    }

    /// Whether the report belongs on the error stream: help and
    /// version text go to ordinary output, everything else is a
    /// complaint.
    pub fn use_stderr(&self) -> (r: bool)
        ensures
            r == !(self is Help || self is Version),
    {
        match self {
            Misfire::Help(_) => false,
            Misfire::Version => false,
            _ => true,
        }
    }

    /// The message text for this misfire.
    pub fn message(&self) -> (r: String)
        ensures
            r@ == spec_message(self),
    {
        match self {
            Misfire::Help(text) => text.clone(),
            Misfire::Version => {
                let s = String::from_str("exa 0.4.0");
                s
            },
            Misfire::Conflict(a, b) => {
                let mut out = String::from_str("Option --");
                out.append(a.as_str());
                out.append(" conflicts with option ");
                out.append(b.as_str());
                out.append(".");
                out
            },
            Misfire::Useless(a, false, b) => {
                let mut out = String::from_str("Option --");
                out.append(a.as_str());
                out.append(" is useless without option --");
                out.append(b.as_str());
                out.append(".");
                out
            },
            Misfire::Useless(a, true, b) => {
                let mut out = String::from_str("Option --");
                out.append(a.as_str());
                out.append(" is useless given option --");
                out.append(b.as_str());
                out.append(".");
                out
            },
            Misfire::Useless2(a, b1, b2) => {
                let mut out = String::from_str("Option --");
                out.append(a.as_str());
                out.append(" is useless without options --");
                out.append(b1.as_str());
                out.append(" or --");
                out.append(b2.as_str());
                out.append(".");
                out
            },
            Misfire::FailedParse(e) => {
                let mut out = String::from_str("Failed to parse number: ");
                out.append(e.as_str());
                out
            },
            Misfire::FailedGlobPattern(e) => {
                let mut out = String::from_str("Failed to parse glob pattern: ");
                out.append(e.as_str());
                out
            },
        }
    }
}

/// The message text of each misfire.
pub open spec fn spec_message(m: &Misfire) -> Seq<char> {
    match m {
        Misfire::Help(text) => text@,
        Misfire::Version => "exa 0.4.0"@,
        Misfire::Conflict(a, b) => "Option --"@ + a@ + " conflicts with option "@ + b@ + "."@,
        Misfire::Useless(a, given, b) => if *given {
            "Option --"@ + a@ + " is useless given option --"@ + b@ + "."@
        } else {
            "Option --"@ + a@ + " is useless without option --"@ + b@ + "."@
        },
        Misfire::Useless2(a, b1, b2) => "Option --"@ + a@ + " is useless without options --"@
            + b1@ + " or --"@ + b2@ + "."@,
        Misfire::FailedParse(e) => "Failed to parse number: "@ + e@,
        Misfire::FailedGlobPattern(e) => "Failed to parse glob pattern: "@ + e@,
    }
}

} // verus!
