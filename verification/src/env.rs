//! Environment variable placeholders and their resolution.
use vstd::prelude::*;
use crate::error::{Error, Span};

verus! {

/// A placeholder `${name}` or `${name:default}`.
#[derive(Debug)]
pub struct EnvVar {
    /// The name of the environment variable.
    pub name: String,
    /// The fallback text after the `:`, if the placeholder has one.
    pub default: Option<String>,
}

/// The text of an optional string.
pub open spec fn opt_view(o: Option<String>) -> Option<Seq<char>> {
    match o {
        Some(s) => Some(s@),
        None => None,
    }
}

/// What a placeholder resolves to: the environment's value when the
/// variable is set, else the default, else nothing.
pub open spec fn resolution(env_value: Option<Seq<char>>, default: Option<Seq<char>>) -> Option<Seq<char>> {
    match env_value {
        Some(v) => Some(v),
        None => default,
    }
}

/// The message of the error for a variable that is neither set nor defaulted.
pub open spec fn not_set_message(name: Seq<char>) -> Seq<char> {
    "environment variable `"@ + name + "` not set"@
}

impl EnvVar {
    /// The placeholder `${name}` or `${name:default}`.
    pub fn new(name: String, default: Option<String>) -> (v: EnvVar)
        ensures
            v.name@ == name@,
            opt_view(v.default) == opt_view(default),
    {
        EnvVar { name, default }
    }
}

/// Resolves a placeholder to an owned string.
///
/// `env_value` is the value of the environment variable `v.name` as the
/// caller read it (`None` when it is not set). The environment's value wins
/// over the default; with neither, the result is the error
/// ``environment variable `NAME` not set`` at `span`.
pub fn resolve_env_var(v: EnvVar, env_value: Option<String>, span: Span) -> (res: Result<String, Error>)
    ensures
        res is Ok <==> resolution(opt_view(env_value), opt_view(v.default)) is Some,
        res matches Ok(s) ==> Some(s@) == resolution(opt_view(env_value), opt_view(v.default)),
        res matches Err(e) ==> e.message@ == not_set_message(v.name@) && e.span == Some(span),
{
    match env_value {
        Some(value) => Ok(value),
        None => match v.default {
            Some(d) => Ok(d),
            None => {
                let mut msg = String::from_str("environment variable `");
                msg.append(v.name.as_str());
                msg.append("` not set");
                Err(Error::custom(msg, Some(span)))
            },
        },
    }
}

} // verus!
