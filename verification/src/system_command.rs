//! Building a system command and classifying what running it produced.
//! Spawning the process is I/O and lives with the surrounding code, which
//! hands the outcome back as plain values.

use vstd::prelude::*;
use vstd::string::StringExecFns;

verus! {

/// A command line under construction: the program name and its
/// arguments.
pub struct SystemCommand {
    pub command: String,
    pub args: Vec<String>,
}

/// What running a command produced, as plain values: whether it
/// succeeded, a textual rendering of its exit status, and its two output
/// streams decoded to text.
pub struct CommandOutput {
    pub success: bool,
    pub status_text: String,
    pub stdout_text: String,
    pub stderr_text: String,
}

/// A failed command: its exit status and its trimmed standard error.
#[derive(Debug)]
pub struct CommandError {
    pub status_text: String,
    pub stderr_text: String,
}

/// What `str::trim` returns for a string: the string without its leading
/// and trailing whitespace.
pub uninterp spec fn trimmed_of(s: Seq<char>) -> Seq<char>;

/// Relies on str::trim: the result depends on the characters alone.
#[verifier::external_body]
fn trim_string(s: &str) -> (r: String)
    ensures
        r@ == trimmed_of(s@),
{
    s.trim().to_string()
}

impl SystemCommand {
    /// A command with no arguments yet.
    pub fn new(command: &str) -> (r: SystemCommand)
        ensures
            r.command@ == command@,
            r.args@.len() == 0,
    {
        SystemCommand { command: command.to_owned(), args: Vec::new() }
    }

    /// Append one argument; the command is returned for chaining.
    pub fn arg(&mut self, arg: &str) -> (r: &mut SystemCommand)
        ensures
            (*r).command == old(self).command,
            (*r).args@.len() == old(self).args@.len() + 1,
            (*r).args@[old(self).args@.len() as int]@ == arg@,
            forall|i: int| 0 <= i < old(self).args@.len() ==> (*r).args@[i] == old(self).args@[i],
            *final(self) == *final(r),
    {
        self.args.push(arg.to_owned());
        self
    }

    /// Append several arguments in order; the command is returned for
    /// chaining.
    pub fn args(&mut self, args: &[&str]) -> (r: &mut SystemCommand)
        ensures
            (*r).command == old(self).command,
            (*r).args@.len() == old(self).args@.len() + args@.len(),
            forall|i: int| 0 <= i < old(self).args@.len() ==> (*r).args@[i] == old(self).args@[i],
            forall|i: int|
                0 <= i < args@.len() ==> (*r).args@[old(self).args@.len() + i]@ == (#[trigger] args@[
                i])@,
            *final(self) == *final(r),
    {
        let mut k: usize = 0;
        while k < args.len()
            invariant
                k <= args@.len(),
                self.command == old(self).command,
                self.args@.len() == old(self).args@.len() + k,
                forall|i: int| 0 <= i < old(self).args@.len() ==> self.args@[i] == old(self).args@[i],
                forall|i: int|
                    0 <= i < k ==> self.args@[old(self).args@.len() + i]@ == (#[trigger] args@[i])@,
            decreases args@.len() - k,
        {
            let a = args[k];
            self.args.push(a.to_owned());
            k += 1;
        }
        self
    }

    /// Classify an outcome for its standard output: a successful run
    /// gives its trimmed standard output; a failed one gives its exit
    /// status and trimmed standard error.
    pub fn execute_and_get_stdout(&self, output: &CommandOutput) -> (r: Result<
        String,
        CommandError,
    >)
        ensures
            match r {
                Ok(s) => output.success && s@ == trimmed_of(output.stdout_text@),
                Err(e) => !output.success && e.status_text == output.status_text
                    && e.stderr_text@ == trimmed_of(output.stderr_text@),
            },
    {
        if output.success {
            Ok(trim_string(output.stdout_text.as_str()))
        } else {
            Err(
                CommandError {
                    status_text: output.status_text.clone(),
                    stderr_text: trim_string(output.stderr_text.as_str()),
                },
            )
        }
    }

    /// Classify an outcome for its standard error: a successful run gives
    /// its trimmed standard error; a failed one gives its exit status and
    /// trimmed standard error.
    pub fn execute_and_get_stderr(&self, output: &CommandOutput) -> (r: Result<
        String,
        CommandError,
    >)
        ensures
            match r {
                Ok(s) => output.success && s@ == trimmed_of(output.stderr_text@),
                Err(e) => !output.success && e.status_text == output.status_text
                    && e.stderr_text@ == trimmed_of(output.stderr_text@),
            },
    {
        if output.success {
            Ok(trim_string(output.stderr_text.as_str()))
        } else {
            Err(
                CommandError {
                    status_text: output.status_text.clone(),
                    stderr_text: trim_string(output.stderr_text.as_str()),
                },
            )
        }
    }

    /// Whether the outcome was a success.
    pub fn execute_and_check_status(&self, output: &CommandOutput) -> (r: bool)
        ensures
            r == output.success,
    {
        output.success
    }
}

} // verus!
