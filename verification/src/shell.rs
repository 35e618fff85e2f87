//! The command resolver/executor's decision core: resolving a line into a
//! command, dispatching builtin versus external, translating a child's
//! termination, and folding each outcome into the shell's state.

use crate::lexer::{lemma_all_space_tokens_empty, spec_is_space, spec_tokens, tokenize, views_of,
    TokenModel};
use crate::resolve::{spec_resolve, str_eq, strings_of, Env};
use vstd::prelude::*;

verus! {

/// A resolved command line: the program name and its arguments, in order,
/// built once per input line.
pub struct Command {
    pub program: String,
    pub args: Vec<String>,
}

/// The strings a line resolves to, token by token.
pub open spec fn spec_resolved_line(s: Seq<char>, env: Seq<(Seq<char>, Seq<char>)>) -> Seq<
    Seq<char>,
> {
    spec_tokens(s).map_values(|t: TokenModel| spec_resolve(t, env))
}

/// The builtin names. A builtin always shadows an external program of the
/// same name on the search path.
pub open spec fn spec_is_builtin(name: Seq<char>) -> bool {
    name == "exit"@ || name == "clear"@ || name == "cd"@
}

/// Decide whether a program name is a builtin.
pub fn is_builtin(name: &str) -> (r: bool)
    ensures
        r == spec_is_builtin(name@),
{
    str_eq(name, "exit") || str_eq(name, "clear") || str_eq(name, "cd")
}

/// What a resolved line asks for: nothing at all, a builtin, or an
/// external program to be searched for on the path.
pub enum Dispatch {
    Empty,
    Builtin(Command),
    External(Command),
}

/// Resolve a line into its dispatch decision. The first resolved string is
/// the program, the rest are its arguments; a line with no tokens asks for
/// nothing, and a builtin name never falls through to the external path.
pub fn plan_command(input: &str, env: &Env) -> (d: Dispatch)
    ensures
        ({
            let vals = spec_resolved_line(input@, env@);
            match d {
                Dispatch::Empty => vals.len() == 0,
                Dispatch::Builtin(cmd) => {
                    &&& vals.len() > 0
                    &&& spec_is_builtin(vals[0])
                    &&& cmd.program@ == vals[0]
                    &&& strings_of(cmd.args@) == vals.subrange(1, vals.len() as int)
                },
                Dispatch::External(cmd) => {
                    &&& vals.len() > 0
                    &&& !spec_is_builtin(vals[0])
                    &&& cmd.program@ == vals[0]
                    &&& strings_of(cmd.args@) == vals.subrange(1, vals.len() as int)
                },
            }
        }),
{
    let toks = tokenize(input);
    let ghost vals_spec = spec_resolved_line(input@, env@);
    let mut vals: Vec<String> = Vec::new();
    let mut i: usize = 0;
    proof {
        assert(strings_of(vals@) =~= vals_spec.subrange(0, 0));
    }
    while i < toks.len()
        invariant
            i <= toks@.len(),
            views_of(toks@) == spec_tokens(input@),
            vals_spec == spec_resolved_line(input@, env@),
            vals_spec.len() == toks@.len(),
            strings_of(vals@) == vals_spec.subrange(0, i as int),
        decreases toks@.len() - i,
    {
        let ghost prev = vals@;
        let t = toks[i];
        let v = t.as_str(env);
        proof {
            assert(views_of(toks@)[i as int] == t@);
            assert(vals_spec[i as int] == spec_resolve(t@, env@));
        }
        vals.push(v);
        proof {
            assert(strings_of(vals@) =~= strings_of(prev).push(v@));
            assert(vals_spec.subrange(0, i + 1) =~= vals_spec.subrange(0, i as int).push(
                vals_spec[i as int],
            ));
        }
        i = i + 1;
    }
    proof {
        assert(vals_spec.subrange(0, vals_spec.len() as int) =~= vals_spec);
    }
    if vals.len() == 0 {
        Dispatch::Empty
    } else {
        let ghost all = vals@;
        let program = vals.remove(0);
        proof {
            assert(program@ == strings_of(all)[0]);
            assert(strings_of(vals@) =~= strings_of(all).subrange(1, strings_of(all).len() as int));
        }
        let cmd = Command { program, args: vals };
        if is_builtin(cmd.program.as_str()) {
            Dispatch::Builtin(cmd)
        } else {
            Dispatch::External(cmd)
        }
    }
}

/// A line holding only whitespace resolves to no strings at all, whatever
/// the environment: its dispatch is `Empty`, so executing it owes
/// immediate success with no side effect.
pub proof fn lemma_whitespace_line_resolves_empty(s: Seq<char>, env: Seq<(Seq<char>, Seq<char>)>)
    requires
        forall|i: int| 0 <= i < s.len() ==> spec_is_space(s[i]),
    ensures
        spec_resolved_line(s, env).len() == 0,
{
    lemma_all_space_tokens_empty(s);
}

/// The status a child process terminated with, as the operating system
/// reports it: `success` for a zero exit, `code` for the numeric exit code
/// when one exists.
#[derive(Debug, Clone, Copy)]
pub struct ProcStatus {
    pub success: bool,
    pub code: Option<i32>,
}

/// A status is well formed when it is successful exactly on exit code
/// zero, as the host documents of its exit statuses.
pub open spec fn spec_status_wf(s: ProcStatus) -> bool {
    s.success <==> s.code == Some(0i32)
}

/// The exit code, or zero when the child left none.
pub open spec fn spec_code_or_zero(s: ProcStatus) -> int {
    match s.code {
        Some(c) => c as int,
        None => 0,
    }
}

/// Runtime form of `spec_code_or_zero`.
pub fn code_or_zero(s: &ProcStatus) -> (r: i32)
    ensures
        r as int == spec_code_or_zero(*s),
{
    match s.code {
        Some(c) => c,
        None => 0,
    }
}

/// Why a line failed: an infrastructural failure around spawning or
/// waiting (always surfaced to the caller), a child that exited non-zero
/// (carried as data), or a builtin that reported misuse.
#[derive(Debug, Clone, Copy)]
pub enum ShellError {
    IoError,
    ExitError(ProcStatus),
    BuiltinError,
}

/// Translate a child's termination: a zero exit status is success; any
/// other termination is a non-zero-exit outcome carrying the status.
pub fn outcome_of_wait(status: ProcStatus) -> (r: Result<u32, ShellError>)
    requires
        spec_status_wf(status),
    ensures
        status.success ==> r == Ok::<u32, ShellError>(0u32),
        !status.success ==> r == Err::<u32, ShellError>(ShellError::ExitError(status)),
{
    if status.success {
        let c = code_or_zero(&status);
        Ok(c as u32)
    } else {
        Err(ShellError::ExitError(status))
    }
}

/// An error status that the embedded OS knows by name. Its ABI numbers the
/// named statuses 1 through 30; nothing outside that range names one.
#[derive(Debug, Clone, Copy, PartialEq, Eq, Structural)]
pub struct KnownStatus {
    code: u16,
}

impl KnownStatus {
    /// The status's numeric code.
    pub closed spec fn spec_code(self) -> u16 {
        self.code
    }

    /// Every constructed status carries a code the embedded OS names.
    pub open spec fn wf(self) -> bool {
        1 <= self.spec_code() <= 30
    }

    /// The named status for `v`: one exists exactly for codes 1 through 30.
    pub fn try_new(v: u16) -> (r: Option<KnownStatus>)
        ensures
            match r {
                Some(k) => k.wf() && k.spec_code() == v,
                None => !(1 <= v <= 30),
            },
            (1 <= v <= 30) <==> r is Some,
    {
        if 1 <= v && v <= 30 {
            Some(KnownStatus { code: v })
        } else {
            None
        }
    }

    /// Runtime access to the code.
    pub fn code(&self) -> (r: u16)
        ensures
            r == self.spec_code(),
    {
        self.code
    }
}

/// What the shell records of a finished command for prompt decoration: an
/// error status the embedded OS knows by name, or a bare numeric code.
#[derive(Debug, Clone, Copy, PartialEq, Eq, Structural)]
pub enum OsReturn {
    Known(KnownStatus),
    Unknown(i64),
}

/// The host's translation of a failed exit status: the bare numeric code.
/// The host names no statuses, so a failed status never becomes `Known`.
pub fn os_return_from_status(status: &ProcStatus) -> (r: OsReturn)
    requires
        spec_status_wf(*status),
        !status.success,
    ensures
        r == OsReturn::Unknown(spec_code_or_zero(*status) as i64),
{
    let c = code_or_zero(status);
    OsReturn::Unknown(c as i64)
}

/// The embedded OS's translation of an exit status: a non-negative code
/// (or a successful status) stays numeric; a negative code is negated,
/// truncated to the ABI's 16-bit status range, and looked up among the
/// named statuses, falling back to the bare numeric code.
pub fn os_return_from_status_embedded(status: &ProcStatus) -> (r: OsReturn)
    ensures
        ({
            let c = spec_code_or_zero(*status);
            let low = (-c) % 0x10000;
            if c >= 0 || status.success {
                r == OsReturn::Unknown(c as i64)
            } else if 1 <= low <= 30 {
                r matches OsReturn::Known(k) && k.spec_code() == low as u16
            } else {
                r == OsReturn::Unknown(c as i64)
            }
        }),
{
    let c = code_or_zero(status);
    if c >= 0 || status.success {
        OsReturn::Unknown(c as i64)
    } else {
        let mag: i64 = -(c as i64);
        let low: u16 = (mag % 0x10000) as u16;
        match KnownStatus::try_new(low) {
            Some(k) => OsReturn::Known(k),
            None => OsReturn::Unknown(c as i64),
        }
    }
}

/// The stored return for a failed line, under the host's translation:
/// an infrastructural failure stores code 1, a non-zero exit stores its
/// code, a builtin failure stores -1.
pub open spec fn spec_return_of_error(e: ShellError) -> OsReturn {
    match e {
        ShellError::IoError => OsReturn::Unknown(1),
        ShellError::ExitError(st) => OsReturn::Unknown(spec_code_or_zero(st) as i64),
        ShellError::BuiltinError => OsReturn::Unknown(-1i64),
    }
}

/// Runtime form of `spec_return_of_error`.
pub fn os_return_of_error(e: &ShellError) -> (r: OsReturn)
    ensures
        r == spec_return_of_error(*e),
{
    match e {
        ShellError::IoError => OsReturn::Unknown(1),
        ShellError::ExitError(st) => {
            let c = code_or_zero(st);
            OsReturn::Unknown(c as i64)
        },
        ShellError::BuiltinError => OsReturn::Unknown(-1i64),
    }
}

/// Only infrastructural failures are reported to the user as shell
/// errors; non-zero exits and builtin failures fold into the prompt alone.
pub fn should_report(e: &ShellError) -> (r: bool)
    ensures
        r == (*e is IoError),
{
    match e {
        ShellError::IoError => true,
        _ => false,
    }
}

/// The shell's persistent state between lines: nothing but the last
/// command's outcome, kept for prompt decoration.
pub struct Shell {
    pub last_command_return: Option<OsReturn>,
}

impl Shell {
    /// A fresh shell has no last outcome to show.
    pub fn new() -> (r: Shell)
        ensures
            r.last_command_return is None,
    {
        Shell { last_command_return: None }
    }

    /// Fold one line's outcome into the stored last outcome: success with
    /// a zero code clears it; a positive code or any error sets it.
    pub fn record_outcome(&mut self, outcome: &Result<u32, ShellError>)
        ensures
            match outcome {
                Ok(code) => final(self).last_command_return == if *code > 0 {
                    Some(OsReturn::Unknown(*code as i64))
                } else {
                    None::<OsReturn>
                },
                Err(e) => final(self).last_command_return == Some(spec_return_of_error(*e)),
            },
    {
        match outcome {
            Ok(code) => {
                if *code > 0 {
                    self.last_command_return = Some(OsReturn::Unknown(*code as i64));
                } else {
                    self.last_command_return = None;
                }
            },
            Err(e) => {
                self.last_command_return = Some(os_return_of_error(e));
            },
        }
    }
}

} // verus!
