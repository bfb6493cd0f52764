//! Classification of a raw command-line argument list: empty, tainted by
//! non-Unicode tokens, or a clean list of strings.

use vstd::prelude::*;
use crate::value::OsText;

verus! {

/// The ways in which collecting the command line can end.
#[derive(Debug, PartialEq)]
pub enum CommandLineOutcome {
    NoCommandLineArguments,
    SomeArgumentsWereNotValidUnicode { args: Vec<OsText> },
    Success { args: Vec<String> },
}

/// The command line as handed to the process. The caller collects the raw
/// tokens (each either Unicode text or not) and this constructor classifies
/// them.
#[derive(Debug)]
pub struct CommandLine {
    pub result: CommandLineOutcome,
}

impl CommandLine {
    pub fn new(raw: Vec<OsText>) -> (r: Self)
        ensures
            ({
                if raw@.len() == 0 {
                    r.result matches CommandLineOutcome::NoCommandLineArguments
                } else if exists|i: int| 0 <= i < raw@.len() && raw@[i] is NotUnicode {
                    r.result matches CommandLineOutcome::SomeArgumentsWereNotValidUnicode { args }
                        && args == raw
                } else {
                    r.result matches CommandLineOutcome::Success { args } && args@.len()
                        == raw@.len() && (forall|i: int|
                        0 <= i < raw@.len() ==> ((#[trigger] raw@[i]) matches OsText::Unicode(s)
                            && args@[i] == s))
                }
            }),
    {
        if raw.len() == 0 {
            return CommandLine { result: CommandLineOutcome::NoCommandLineArguments };
        }
        let n = raw.len();
        let mut i: usize = 0;
        let mut tainted = false;
        while i < n && !tainted
            invariant
                i <= n,
                n == raw@.len(),
                !tainted ==> forall|j: int| 0 <= j < i ==> raw@[j] is Unicode,
                tainted ==> exists|j: int| 0 <= j < raw@.len() && raw@[j] is NotUnicode,
            decreases n - i + (if tainted { 0int } else { 1int }),
        {
            match &raw[i] {
                OsText::NotUnicode => {
                    tainted = true;
                },
                OsText::Unicode(_) => {
                    i += 1;
                },
            }
        }
        if tainted {
            return CommandLine {
                result: CommandLineOutcome::SomeArgumentsWereNotValidUnicode { args: raw },
            };
        }
        let mut args: Vec<String> = Vec::new();
        let mut k: usize = 0;
        while k < n
            invariant
                k <= n,
                n == raw@.len(),
                forall|j: int| 0 <= j < n ==> raw@[j] is Unicode,
                args@.len() == k,
                forall|j: int|
                    0 <= j < k ==> ((#[trigger] raw@[j]) matches OsText::Unicode(s) && args@[j]
                        == s),
            decreases n - k,
        {
            match &raw[k] {
                OsText::Unicode(s) => {
                    args.push(s.clone());
                },
                OsText::NotUnicode => {
                    proof {
                        assert(raw@[k as int] is Unicode);
                    }
                },
            }
            k += 1;
        }
        CommandLine { result: CommandLineOutcome::Success { args } }
    }
}

} // verus!
