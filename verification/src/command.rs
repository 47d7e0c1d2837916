//! Command building: shell-style template splitting and argument assembly.
//!
//! Command lines are tokenized with POSIX shell rules; this build targets
//! Unix hosts and offers no Windows command-line splitting.

use vstd::prelude::*;

use crate::shell::resolve_executable_path;

verus! {

/// What POSIX shell word-splitting (as shlex implements it) makes of a
/// command line: `None` on erroneous input such as an unclosed quote.
pub uninterp spec fn shell_split(s: Seq<char>) -> Option<Seq<Seq<char>>>;

/// Relies on shlex::split: POSIX shell word splitting, a function of the
/// input alone; `None` exactly on input shlex deems erroneous.
#[verifier::external_body]
fn split_command_line(input: &str) -> (r: Option<Vec<String>>)
    ensures
        r is Some <==> shell_split(input@) is Some,
        r matches Some(v) ==> shell_split(input@) == Some(v.deep_view()),
{
    shlex::split(input)
}

/// Why a command could not be built.
#[derive(Debug)]
pub enum CommandBuildError {
    /// The base command cannot be parsed (or an executable was not found).
    InvalidBase(String),
    /// The command is empty after parsing.
    EmptyCommand,
    /// The command could not be quoted.
    QuoteError(String),
    /// The shell parameters are invalid.
    InvalidShellParams(String),
}

/// Parsed command parts: the program and its arguments.
#[derive(Debug)]
pub struct CommandParts {
    /// The program to run.
    pub program: String,
    /// Its arguments, in order.
    pub args: Vec<String>,
}

impl CommandParts {
    /// Create new command parts.
    pub fn new(program: String, args: Vec<String>) -> (r: Self)
        ensures
            r.program == program,
            r.args == args,
    {
        CommandParts { program, args }
    }

    /// Resolve the program to an absolute path against the machine's
    /// filesystem and PATH; the arguments carry over unchanged.
    pub fn into_resolved(self) -> (r: Result<(String, Vec<String>), CommandBuildError>)
        ensures
            r matches Ok(pa) ==> pa.1 == self.args,
            r matches Err(e) ==> (e matches CommandBuildError::InvalidBase(m) && m@ == (
            "Executable not found: "@) + self.program@),
    {
        match resolve_executable_path(self.program.as_str()) {
            Some(executable) => Ok((executable, self.args)),
            None => {
                let msg = <String as vstd::string::StringExecFns>::from_str(
                    "Executable not found: ",
                ).concat(self.program.as_str());
                Err(CommandBuildError::InvalidBase(msg))
            },
        }
    }
}

/// The full argument list a builder produces: the split base command, then
/// the configured parameters, then the extra arguments.
pub open spec fn assembled(
    base: Seq<char>,
    params: Option<Vec<String>>,
    extra: Seq<Seq<char>>,
) -> Seq<Seq<char>>
    recommends
        shell_split(base) is Some,
{
    shell_split(base).unwrap() + (match params {
        Some(p) => p.deep_view(),
        None => Seq::empty(),
    }) + extra
}

/// Builder for agent command lines: a shell-quoted base template plus an
/// optional parameter list.
#[derive(Debug)]
pub struct CommandBuilder {
    /// Base executable command, in shell syntax.
    pub base: String,
    /// Optional parameters appended after the base.
    pub params: Option<Vec<String>>,
}

impl CommandBuilder {
    /// Create a new command builder.
    pub fn new(base: String) -> (r: Self)
        ensures
            r.base == base,
            r.params is None,
    {
        CommandBuilder { base, params: None }
    }

    /// Replace the parameter list.
    pub fn params(self, params: Vec<String>) -> (r: Self)
        ensures
            r.base == self.base,
            r.params == Some(params),
    {
        CommandBuilder { base: self.base, params: Some(params) }
    }

    /// Override the base command.
    pub fn override_base(self, base: String) -> (r: Self)
        ensures
            r.base == base,
            r.params == self.params,
    {
        CommandBuilder { base, params: self.params }
    }

    /// Extend the parameter list, starting one if none was set.
    pub fn extend_params(self, more: Vec<String>) -> (r: Self)
        ensures
            r.base == self.base,
            r.params matches Some(p) && p.deep_view() == (match self.params {
                Some(q) => q.deep_view(),
                None => Seq::<Seq<char>>::empty(),
            }) + more.deep_view(),
    {
        match self.params {
            Some(mut p) => {
                let mut extra = more;
                p.append(&mut extra);
                proof {
                    assert(p.deep_view() =~= self.params.unwrap().deep_view() + more.deep_view());
                }
                CommandBuilder { base: self.base, params: Some(p) }
            },
            None => {
                proof {
                    assert(more.deep_view() =~= Seq::<Seq<char>>::empty() + more.deep_view());
                }
                CommandBuilder { base: self.base, params: Some(more) }
            },
        }
    }

    /// Split the base, append the parameters and the extra arguments, and
    /// take the first word as the program. An unparsable base or an empty
    /// result is an error.
    pub fn build(&self, additional_args: &Vec<String>) -> (r: Result<
        CommandParts,
        CommandBuildError,
    >)
        ensures
            shell_split(self.base@) is None ==> (r matches Err(e) && e matches
                CommandBuildError::InvalidBase(b) && b@ == self.base@),
            shell_split(self.base@) is Some ==> {
                let all = assembled(self.base@, self.params, additional_args.deep_view());
                &&& (all.len() == 0 ==> (r matches Err(e) && e is EmptyCommand))
                &&& (all.len() > 0 ==> (r matches Ok(cp) && cp.program@ == all[0]
                    && cp.args.deep_view() == all.drop_first()))
            },
    {
        let mut parts = match split_command_line(self.base.as_str()) {
            Some(v) => v,
            None => {
                return Err(CommandBuildError::InvalidBase(self.base.clone()));
            },
        };
        let ghost all = assembled(self.base@, self.params, additional_args.deep_view());
        match &self.params {
            Some(p) => {
                let mut extra = clone_strings(p);
                parts.append(&mut extra);
            },
            None => {},
        }
        let mut extra2 = clone_strings(additional_args);
        parts.append(&mut extra2);
        proof {
            assert(parts.deep_view() =~= all);
        }
        if parts.len() == 0 {
            return Err(CommandBuildError::EmptyCommand);
        }
        let program = parts.remove(0);
        proof {
            assert(parts.deep_view() =~= all.drop_first());
            assert(program@ == all[0]);
        }
        Ok(CommandParts::new(program, parts))
    }

    /// Build the command for an initial invocation.
    pub fn build_initial(&self) -> (r: Result<CommandParts, CommandBuildError>)
        ensures
            shell_split(self.base@) is None ==> (r matches Err(e) && e matches
                CommandBuildError::InvalidBase(b) && b@ == self.base@),
            shell_split(self.base@) is Some ==> {
                let all = assembled(self.base@, self.params, Seq::empty());
                &&& (all.len() == 0 ==> (r matches Err(e) && e is EmptyCommand))
                &&& (all.len() > 0 ==> (r matches Ok(cp) && cp.program@ == all[0]
                    && cp.args.deep_view() == all.drop_first()))
            },
    {
        let empty: Vec<String> = Vec::new();
        proof {
            assert(empty.deep_view() =~= Seq::<Seq<char>>::empty());
        }
        self.build(&empty)
    }

    /// Build the command for a follow-up invocation with extra arguments.
    pub fn build_follow_up(&self, additional_args: &Vec<String>) -> (r: Result<
        CommandParts,
        CommandBuildError,
    >)
        ensures
            shell_split(self.base@) is None ==> (r matches Err(e) && e matches
                CommandBuildError::InvalidBase(b) && b@ == self.base@),
            shell_split(self.base@) is Some ==> {
                let all = assembled(self.base@, self.params, additional_args.deep_view());
                &&& (all.len() == 0 ==> (r matches Err(e) && e is EmptyCommand))
                &&& (all.len() > 0 ==> (r matches Ok(cp) && cp.program@ == all[0]
                    && cp.args.deep_view() == all.drop_first()))
            },
    {
        self.build(additional_args)
    }
}

/// A fresh vector holding clones of the given strings.
fn clone_strings(v: &Vec<String>) -> (r: Vec<String>)
    ensures
        r.deep_view() == v.deep_view(),
{
    let n = v.len();
    let mut r: Vec<String> = Vec::new();
    let mut i: usize = 0;
    while i < n
        invariant
            i <= n,
            n == v@.len(),
            r@.len() == i,
            forall|j: int| 0 <= j < i ==> (#[trigger] r@[j])@ == v@[j]@,
        decreases n - i,
    {
        r.push(v[i].clone());
        i = i + 1;
    }
    proof {
        assert(r.deep_view() =~= v.deep_view());
    }
    r
}

} // verus!
