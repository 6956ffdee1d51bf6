//! Server start-up: required configuration values and host
//! configuration.
//!
//! A module declares the configuration variables it needs; they are
//! resolved once at server start through a provider the embedder
//! implements.  A missing value is a start-time fatal error, never a
//! per-request one, and a module that declares no functions is refused
//! at start-up — the extractor leaves that check to this layer.

use vstd::prelude::*;
use vstd::string::StrSliceExecFns;

use crate::metadata::Function;
use crate::metadata::Metadata;
use crate::metadata::functions_view;

verus! {

/// Supplies configuration values to the host at start-up.  The host
/// asks once per declared variable; what a name resolves to is the
/// embedder's affair.
pub trait EnvironmentProvider {
    /// The value of the named variable, or nothing when the provider
    /// does not know the name.
    fn var(&self, name: &str) -> Option<String>;
}

/// A failure that aborts server start-up; no partial service is
/// offered.
#[derive(Debug)]
pub enum StartError {
    /// The module declares no functions, so there is nothing to host.
    NoFunctions,
    /// The provider knows no value for this required variable.
    MissingVariable(String),
}

/// The mathematical value of a start-up failure.
pub enum StartErrorView {
    /// The module declares no functions.
    NoFunctions,
    /// No value is known for this required variable.
    MissingVariable(Seq<char>),
}

impl View for StartError {
    type V = StartErrorView;

    open spec fn view(&self) -> StartErrorView {
        match self {
            StartError::NoFunctions => StartErrorView::NoFunctions,
            StartError::MissingVariable(n) => StartErrorView::MissingVariable(n@),
        }
    }
}

/// Resolves every declared variable once, in declaration order,
/// stopping at the first the provider does not know.  What each value
/// is lies with the provider; the names and their order do not.
pub fn resolve_vars<E: EnvironmentProvider>(provider: &E, vars: &Vec<String>) -> (r: Result<
    Vec<(String, String)>,
    StartError,
>)
    ensures
        match r {
            Ok(pairs) => pairs@.len() == vars@.len() && forall|i: int|
                0 <= i < pairs@.len() ==> (#[trigger] pairs@[i]).0@ == vars@[i]@,
            Err(e) => e@ matches StartErrorView::MissingVariable(n) && exists|i: int|
                0 <= i < vars@.len() && (#[trigger] vars@[i])@ == n,
        },
{
    let mut out: Vec<(String, String)> = Vec::new();
    let mut i: usize = 0;
    while i < vars.len()
        invariant
            i <= vars@.len(),
            out@.len() == i,
            forall|j: int| 0 <= j < i ==> (#[trigger] out@[j]).0@ == vars@[j]@,
        decreases vars@.len() - i,
    {
        match provider.var(vars[i].as_str()) {
            Some(value) => {
                out.push((vars[i].clone(), value));
            },
            None => {
                return Err(StartError::MissingVariable(vars[i].clone()));
            },
        }
        i += 1;
    }
    Ok(out)
}

/// The immutable per-process host configuration built at start-up: the
/// routing table's functions and the resolved environment, shared by
/// all invocations.
#[derive(Debug)]
pub struct HostConfig {
    /// The functions requests are routed against, in declaration
    /// order.
    pub functions: Vec<Function>,
    /// The resolved configuration values, one per declared variable,
    /// in declaration order.
    pub env: Vec<(String, String)>,
}

/// Prepares the host from a module's metadata: refuses a module with
/// no functions, then resolves every required variable once.
pub fn prepare<E: EnvironmentProvider>(metadata: Metadata, provider: &E) -> (r: Result<
    HostConfig,
    StartError,
>)
    ensures
        metadata@.functions.len() == 0 ==> (r matches Err(e) && e@ == StartErrorView::NoFunctions),
        metadata@.functions.len() > 0 ==> match r {
            Ok(cfg) => {
                &&& functions_view(cfg.functions@) == metadata@.functions
                &&& cfg.env@.len() == metadata@.vars.len()
                &&& forall|i: int|
                    0 <= i < cfg.env@.len() ==> (#[trigger] cfg.env@[i]).0@ == metadata@.vars[i]
            },
            Err(e) => e@ matches StartErrorView::MissingVariable(n) && exists|i: int|
                0 <= i < metadata@.vars.len() && metadata@.vars[i] == n,
        },
{
    if metadata.functions.len() == 0 {
        return Err(StartError::NoFunctions);
    }
    let env = match resolve_vars(provider, &metadata.vars) {
        Ok(env) => env,
        Err(e) => {
            proof {
                assert(forall|i: int|
                    0 <= i < metadata.vars@.len() ==> (#[trigger] metadata.vars@[i])@
                        == metadata@.vars[i]);
            }
            return Err(e);
        },
    };
    proof {
        assert(forall|i: int|
            0 <= i < metadata.vars@.len() ==> (#[trigger] metadata.vars@[i])@
                == metadata@.vars[i]);
    }
    Ok(HostConfig { functions: metadata.functions, env })
}

/// The position of the first `=` in a command-line variable override.
pub open spec fn spec_first_eq_char(s: Seq<char>, i: int) -> Option<int>
    decreases s.len() - i,
{
    if i < 0 || i >= s.len() {
        None
    } else if s[i] == '=' {
        Some(i)
    } else {
        spec_first_eq_char(s, i + 1)
    }
}

/// Splits a `key=value` override at its first `=`; text without one
/// names no override.
pub fn parse_env_var(s: &str) -> (r: Option<(String, String)>)
    ensures
        match r {
            Some((k, v)) => spec_first_eq_char(s@, 0) matches Some(i) && k@ == s@.take(i) && v@
                == s@.skip(i + 1),
            None => spec_first_eq_char(s@, 0) is None,
        },
{
    let n = s.unicode_len();
    let mut i: usize = 0;
    while i < n
        invariant
            i <= n == s@.len(),
            spec_first_eq_char(s@, 0) == spec_first_eq_char(s@, i as int),
        decreases n - i,
    {
        if s.get_char(i) == '=' {
            let k = s.substring_char(0, i).to_owned();
            let v = s.substring_char(i + 1, n).to_owned();
            proof {
                assert(k@ =~= s@.take(i as int));
                assert(v@ =~= s@.skip(i as int + 1));
            }
            return Some((k, v));
        }
        i += 1;
    }
    None
}

} // verus!
