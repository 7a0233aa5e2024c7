//! What child processes are started with, and what their outcome means.
use vstd::prelude::*;
use crate::text::{chars_of, concat2, string_of, trim, trim_chars};

verus! {

/// What a finished child process left behind; the outputs are already
/// decoded as UTF-8 with invalid sequences replaced.
pub struct CommandOutput {
    /// Whether it exited successfully.
    pub success: bool,
    /// Its exit code, if it exited with one.
    pub code: Option<i32>,
    pub stdout: String,
    pub stderr: String,
}

/// A child process to start: its program, its arguments and the environment
/// variables to set for it, in the order in which they are set (a later one
/// wins over an earlier one with the same name).
pub struct CommandSpec {
    pub program: String,
    pub args: Vec<String>,
    pub env: Vec<(String, String)>,
}

/// The view of a result with text on both sides.
pub open spec fn result_view(r: Result<String, String>) -> Result<Seq<char>, Seq<char>> {
    match r {
        Ok(s) => Ok(s@),
        Err(e) => Err(e@),
    }
}

/// The program that tells whether a command is on the `PATH`: `where` on
/// Windows, `which` elsewhere; the command exists when it succeeds.
pub fn command_lookup_program(is_windows: bool) -> (res: &'static str)
    ensures
        res@ == (if is_windows {
            "where"@
        } else {
            "which"@
        }),
{
    if is_windows {
        "where"
    } else {
        "which"
    }
}

// ---------------------------------------------------------------------------
// Decimal numbers
// ---------------------------------------------------------------------------

pub open spec fn decimal_digit(n: int) -> char {
    seq!['0', '1', '2', '3', '4', '5', '6', '7', '8', '9'][n]
}

/// The decimal digits of `n`, without leading zeros.
pub open spec fn digits(n: nat) -> Seq<char>
    decreases n,
{
    if n < 10 {
        seq![decimal_digit(n as int)]
    } else {
        digits(n / 10) + seq![decimal_digit((n % 10) as int)]
    }
}

/// `n` in decimal, with a `-` when it is negative.
pub open spec fn decimal(n: int) -> Seq<char> {
    if n < 0 {
        seq!['-'] + digits((-n) as nat)
    } else {
        digits(n as nat)
    }
}

/// How `{:?}` shows an exit code.
pub open spec fn debug_code(code: Option<i32>) -> Seq<char> {
    match code {
        None => seq!['N', 'o', 'n', 'e'],
        Some(n) => seq!['S', 'o', 'm', 'e', '('] + decimal(n as int) + seq![')'],
    }
}

fn push_digits(out: &mut Vec<char>, n: u64)
    ensures
        final(out)@ == old(out)@ + digits(n as nat),
    decreases n,
{
    let digit_chars: [char; 10] = ['0', '1', '2', '3', '4', '5', '6', '7', '8', '9'];
    assert(digit_chars@ =~= seq!['0', '1', '2', '3', '4', '5', '6', '7', '8', '9']);
    if n >= 10 {
        push_digits(out, n / 10);
    }
    out.push(digit_chars[(n % 10) as usize]);
    assert(out@ =~= old(out)@ + digits(n as nat));
}

/// `n` in decimal.
pub fn decimal_string(n: u64) -> (res: String)
    ensures
        res@ == digits(n as nat),
{
    let mut out: Vec<char> = Vec::new();
    push_digits(&mut out, n);
    assert(out@ =~= digits(n as nat));
    string_of(&out)
}

/// `{:?}` of an exit code: `None` or `Some(N)` with `N` in decimal.
pub fn debug_exit_code(code: Option<i32>) -> (res: String)
    ensures
        res@ == debug_code(code),
{
    let mut out: Vec<char> = Vec::new();
    match code {
        None => {
            out.push('N');
            out.push('o');
            out.push('n');
            out.push('e');
        },
        Some(n) => {
            out.push('S');
            out.push('o');
            out.push('m');
            out.push('e');
            out.push('(');
            let wide: i64 = n as i64;
            if wide < 0 {
                out.push('-');
                push_digits(&mut out, (-wide) as u64);
            } else {
                push_digits(&mut out, wide as u64);
            }
            out.push(')');
        },
    }
    assert(out@ =~= debug_code(code));
    string_of(&out)
}

// ---------------------------------------------------------------------------
// Outcomes of commands
// ---------------------------------------------------------------------------

/// The start of the message for a failed command that printed nothing.
pub const EXIT_CODE_MESSAGE: &'static str = "Command failed with exit code: ";

pub open spec fn exit_code_message(code: Option<i32>) -> Seq<char> {
    EXIT_CODE_MESSAGE@ + debug_code(code)
}

/// The outcome of a command: its trimmed output on success, its trimmed
/// error output on failure.
pub open spec fn plain_result(outcome: Result<CommandOutput, String>) -> Result<Seq<char>, Seq<char>> {
    match outcome {
        Ok(o) => if o.success {
            Ok(trim(o.stdout@))
        } else {
            Err(trim(o.stderr@))
        },
        Err(e) => Err(e@),
    }
}

/// As `plain_result`, but an empty error output gives the exit code.
pub open spec fn bash_result(outcome: Result<CommandOutput, String>) -> Result<Seq<char>, Seq<char>> {
    match outcome {
        Ok(o) => if o.success {
            Ok(trim(o.stdout@))
        } else if trim(o.stderr@).len() == 0 {
            Err(exit_code_message(o.code))
        } else {
            Err(trim(o.stderr@))
        },
        Err(e) => Err(e@),
    }
}

/// As `bash_result`, but an empty error output falls back to the output
/// before the exit code.
pub open spec fn windows_result(outcome: Result<CommandOutput, String>) -> Result<
    Seq<char>,
    Seq<char>,
> {
    match outcome {
        Ok(o) => if o.success {
            Ok(trim(o.stdout@))
        } else if trim(o.stderr@).len() == 0 {
            if trim(o.stdout@).len() == 0 {
                Err(exit_code_message(o.code))
            } else {
                Err(trim(o.stdout@))
            }
        } else {
            Err(trim(o.stderr@))
        },
        Err(e) => Err(e@),
    }
}

fn trimmed(s: &String) -> (res: String)
    ensures
        res@ == trim(s@),
{
    let cs = chars_of(s.as_str());
    let t = trim_chars(&cs);
    string_of(&t)
}

fn exit_failure(code: Option<i32>) -> (res: String)
    ensures
        res@ == exit_code_message(code),
{
    let d = debug_exit_code(code);
    concat2(EXIT_CODE_MESSAGE, d.as_str())
}

/// The outcome of a command run directly.
pub fn run_command_output(outcome: Result<CommandOutput, String>) -> (res: Result<String, String>)
    ensures
        result_view(res) == plain_result(outcome),
{
    match outcome {
        Err(e) => Err(e),
        Ok(o) => if o.success {
            Ok(trimmed(&o.stdout))
        } else {
            Err(trimmed(&o.stderr))
        },
    }
}

/// The outcome of a bash script.
pub fn run_bash_output(outcome: Result<CommandOutput, String>) -> (res: Result<String, String>)
    ensures
        result_view(res) == bash_result(outcome),
{
    match outcome {
        Err(e) => Err(e),
        Ok(o) => if o.success {
            Ok(trimmed(&o.stdout))
        } else {
            let err = trimmed(&o.stderr);
            if err.as_str().is_empty() {
                Err(exit_failure(o.code))
            } else {
                Err(err)
            }
        },
    }
}

fn windows_output(outcome: Result<CommandOutput, String>) -> (res: Result<String, String>)
    ensures
        result_view(res) == windows_result(outcome),
{
    match outcome {
        Err(e) => Err(e),
        Ok(o) => if o.success {
            Ok(trimmed(&o.stdout))
        } else {
            let err = trimmed(&o.stderr);
            if err.as_str().is_empty() {
                let out = trimmed(&o.stdout);
                if out.as_str().is_empty() {
                    Err(exit_failure(o.code))
                } else {
                    Err(out)
                }
            } else {
                Err(err)
            }
        },
    }
}

/// The outcome of a `cmd.exe` script.
pub fn run_cmd_output(outcome: Result<CommandOutput, String>) -> (res: Result<String, String>)
    ensures
        result_view(res) == windows_result(outcome),
{
    windows_output(outcome)
}

/// The outcome of a PowerShell script.
pub fn run_powershell_output(outcome: Result<CommandOutput, String>) -> (res: Result<
    String,
    String,
>)
    ensures
        result_view(res) == windows_result(outcome),
{
    windows_output(outcome)
}

/// The outcome of a script run by the platform's shell: `cmd.exe` on
/// Windows, bash elsewhere.
pub fn run_script_output(is_windows: bool, outcome: Result<CommandOutput, String>) -> (res: Result<
    String,
    String,
>)
    ensures
        result_view(res) == (if is_windows {
            windows_result(outcome)
        } else {
            bash_result(outcome)
        }),
{
    if is_windows {
        run_cmd_output(outcome)
    } else {
        run_bash_output(outcome)
    }
}

/// How every kind of command reports its outcome: a process that exited
/// successfully gives its trimmed standard output, whatever it wrote to
/// standard error; a failed one that wrote to standard error gives that
/// error output trimmed; one that could not be started gives the reason it
/// could not.
pub proof fn law_outcome_reports(o: CommandOutput, e: String)
    ensures
        o.success ==> plain_result(Ok(o)) == Ok::<Seq<char>, Seq<char>>(trim(o.stdout@))
            && bash_result(Ok(o)) == Ok::<Seq<char>, Seq<char>>(trim(o.stdout@)) && windows_result(
            Ok(o),
        ) == Ok::<Seq<char>, Seq<char>>(trim(o.stdout@)),
        !o.success && trim(o.stderr@).len() > 0 ==> plain_result(Ok(o)) == Err::<
            Seq<char>,
            Seq<char>,
        >(trim(o.stderr@)) && bash_result(Ok(o)) == Err::<Seq<char>, Seq<char>>(trim(o.stderr@))
            && windows_result(Ok(o)) == Err::<Seq<char>, Seq<char>>(trim(o.stderr@)),
        plain_result(Err(e)) == Err::<Seq<char>, Seq<char>>(e@) && bash_result(Err(e)) == Err::<
            Seq<char>,
            Seq<char>,
        >(e@) && windows_result(Err(e)) == Err::<Seq<char>, Seq<char>>(e@),
{
}

/// A failed script that wrote nothing but blanks to standard error is
/// reported by its exit code; on Windows its trimmed standard output comes
/// first, when there is any.
pub proof fn law_silent_failure_reports(o: CommandOutput)
    requires
        !o.success,
        trim(o.stderr@).len() == 0,
    ensures
        bash_result(Ok(o)) == Err::<Seq<char>, Seq<char>>(EXIT_CODE_MESSAGE@ + debug_code(o.code)),
        windows_result(Ok(o)) == (if trim(o.stdout@).len() > 0 {
            Err::<Seq<char>, Seq<char>>(trim(o.stdout@))
        } else {
            Err::<Seq<char>, Seq<char>>(EXIT_CODE_MESSAGE@ + debug_code(o.code))
        }),
{
}

} // verus!
