//! A single environment variable read: name validation and the typed
//! classification of what the lookup produced.

use vstd::prelude::*;
use vstd::string::{StrSliceExecFns, StringExecFns};
use crate::text::str_contains_char;
use crate::value::OsText;

verus! {

/// A name is usable as an environment variable only when it is non-empty and
/// free of `=`; other names can make an environment lookup panic.
pub open spec fn env_name_valid(s: Seq<char>) -> bool {
    s.len() > 0 && !s.contains('=')
}

/// Whether `s` is usable as an environment variable name.
pub fn is_valid_name(s: &str) -> (r: bool)
    ensures
        r == env_name_valid(s@),
{
    if s.unicode_len() == 0 {
        false
    } else {
        !str_contains_char(s, '=')
    }
}

/// The ways in which reading one environment variable can end.
#[derive(Debug, PartialEq)]
pub enum EnvVarOutcome {
    InvalidEnvironmentVariableName { reason: String },
    EnvironmentVariableWasNotSet,
    EnvironmentVariableValueWasNotUnicode,
    Success { value: String },
}

/// An attempt to load data from one environment variable. The caller fetches
/// the raw lookup result (`None` when the variable is absent) and this
/// constructor classifies it; an invalid name is classified without any
/// fetch being consulted.
#[derive(Debug)]
pub struct EnvironmentVariable {
    pub name: String,
    pub result: EnvVarOutcome,
}

impl EnvironmentVariable {
    pub fn new(name: &str, fetched: Option<OsText>) -> (r: Self)
        ensures
            r.name@ == name@,
            ({
                if name@.len() == 0 {
                    r.result matches EnvVarOutcome::InvalidEnvironmentVariableName { reason }
                        && reason@ == "the environment variable name is empty"@
                } else if name@.contains('=') {
                    r.result matches EnvVarOutcome::InvalidEnvironmentVariableName { reason }
                        && reason@ == "the environment variable name contains '='"@
                } else {
                    match fetched {
                        None => r.result == EnvVarOutcome::EnvironmentVariableWasNotSet,
                        Some(OsText::NotUnicode) => r.result
                            == EnvVarOutcome::EnvironmentVariableValueWasNotUnicode,
                        Some(OsText::Unicode(s)) => r.result matches EnvVarOutcome::Success {
                            value,
                        } && value == s,
                    }
                }
            }),
    {
        let owned = String::from_str(name);
        if name.unicode_len() == 0 {
            return EnvironmentVariable {
                name: owned,
                result: EnvVarOutcome::InvalidEnvironmentVariableName {
                    reason: String::from_str("the environment variable name is empty"),
                },
            };
        }
        if str_contains_char(name, '=') {
            return EnvironmentVariable {
                name: owned,
                result: EnvVarOutcome::InvalidEnvironmentVariableName {
                    reason: String::from_str("the environment variable name contains '='"),
                },
            };
        }
        match fetched {
            None => EnvironmentVariable {
                name: owned,
                result: EnvVarOutcome::EnvironmentVariableWasNotSet,
            },
            Some(OsText::NotUnicode) => EnvironmentVariable {
                name: owned,
                result: EnvVarOutcome::EnvironmentVariableValueWasNotUnicode,
            },
            Some(OsText::Unicode(s)) => EnvironmentVariable {
                name: owned,
                result: EnvVarOutcome::Success { value: s },
            },
        }
    }
}

} // verus!
