//! Commands for the reader, and what to make of a command that has run.

use vstd::prelude::*;
use vstd::string::StringExecFns;
use crate::decode::decoded;
use crate::decode::from_utf8;
use crate::decode::from_utf8_lossy;
use crate::decode::lossy_text;
use crate::decode::trim;
use crate::decode::trimmed;
use crate::nix::CommandLine;
use crate::nix::CommandLineModel;
use crate::text::interleaved;
use crate::text::texts;

verus! {

/// What `shell_words::quote` makes of a word: the word as a shell takes it
/// for the word itself, in quotes where it needs them.
pub uninterp spec fn shell_quoted(word: Seq<char>) -> Seq<char>;

/// Each word quoted.
pub open spec fn quoted_words(words: Seq<Seq<char>>) -> Seq<Seq<char>> {
    Seq::new(words.len(), |i: int| shell_quoted(words[i]))
}

/// A command as a line for a shell: each word quoted, a blank between them.
pub open spec fn shell_line(words: Seq<Seq<char>>) -> Seq<char> {
    interleaved(quoted_words(words), seq![' '])
}

/// `shell_words::quote`: a function of the word alone.
#[verifier::external_body]
fn shell_quote(word: &str) -> (r: String)
    ensures
        r@ == shell_quoted(word@),
{
    shell_words::quote(word).into_owned()
}

/// `shell_words::join`: every word as `shell_words::quote` gives it, with
/// one blank between each two.
#[verifier::external_body]
fn shell_join(words: &Vec<String>) -> (r: String)
    ensures
        r@ == shell_line(texts(words@)),
{
    shell_words::join(words)
}

/// The words of a command: the program, then its arguments.
pub open spec fn command_words(command: CommandLineModel) -> Seq<Seq<char>> {
    seq![command.program] + command.args
}

/// What is said of a command that failed.
pub open spec fn failure(command: CommandLineModel, status: Seq<char>) -> Seq<char> {
    shell_quoted(command.program) + " failed with exit code "@ + status + ": "@ + shell_line(
        command_words(command),
    )
}

/// What a stream of a failed command adds to the message: nothing where
/// it holds white space only.
pub open spec fn stream_note(label: Seq<char>, bytes: Seq<u8>) -> Seq<char> {
    let text = trimmed(lossy_text(bytes));
    if text.len() == 0 {
        Seq::empty()
    } else {
        label + text
    }
}

/// The model of an [`Output`].
pub struct OutputModel {
    pub success: bool,
    pub status: Seq<char>,
    pub stdout: Seq<u8>,
    pub stderr: Seq<u8>,
}

/// What a command left behind: whether it succeeded, its exit status as
/// the system words it, and what it wrote.
#[derive(Debug)]
pub struct Output {
    pub success: bool,
    pub status: String,
    pub stdout: Vec<u8>,
    pub stderr: Vec<u8>,
}

impl View for Output {
    type V = OutputModel;

    open spec fn view(&self) -> OutputModel {
        OutputModel {
            success: self.success,
            status: self.status@,
            stdout: self.stdout@,
            stderr: self.stderr@,
        }
    }
}

/// What a command that has run comes to: nothing to say where it
/// succeeded, the message where it failed.
pub open spec fn status_of(command: CommandLineModel, success: bool, status: Seq<char>) -> Result<
    (),
    Seq<char>,
> {
    if success {
        Ok(())
    } else {
        Err(failure(command, status))
    }
}

/// What the output of a command comes to: where it succeeded, its standard
/// output as text without the white space at its ends, which must be UTF-8;
/// where it failed, the message with what it wrote.
pub open spec fn stdout_of(command: CommandLineModel, output: OutputModel) -> Result<
    Seq<char>,
    Seq<char>,
> {
    if output.success {
        match decoded(output.stdout) {
            Some(text) => Ok(trimmed(text)),
            None => Err("Failed to decode stdout as UTF-8: "@ + lossy_text(output.stdout)),
        }
    } else {
        Err(
            failure(command, output.status) + stream_note("\nStdout: "@, output.stdout)
                + stream_note("\nStderr: "@, output.stderr),
        )
    }
}

/// The view of a status.
pub open spec fn status_model(r: Result<(), String>) -> Result<(), Seq<char>> {
    match r {
        Ok(_) => Ok(()),
        Err(message) => Err(message@),
    }
}

/// The view of a text or a message.
pub open spec fn text_model(r: Result<String, String>) -> Result<Seq<char>, Seq<char>> {
    match r {
        Ok(text) => Ok(text@),
        Err(message) => Err(message@),
    }
}

impl CommandLine {
    /// Displays the command as a line, fit for the user and for a shell.
    pub fn display(&self) -> (r: String)
        ensures
            r@ == shell_line(command_words(self@)),
    {
        let mut words: Vec<String> = Vec::new();
        words.push(self.program.clone());
        crate::text::push_texts(&mut words, &self.args);
        assert(texts(words@) =~= command_words(self@));
        shell_join(&words)
    }

    /// Displays the name of the program, fit for the user and for a shell.
    pub fn display_program(&self) -> (r: String)
        ensures
            r@ == shell_quoted(self@.program),
    {
        shell_quote(self.program.as_str())
    }

    /// What is said of the command where it failed.
    pub fn failure_message(&self, status: &str) -> (r: String)
        ensures
            r@ == failure(self@, status@),
    {
        let mut message = self.display_program();
        message.append(" failed with exit code ");
        message.append(status);
        message.append(": ");
        message.append(self.display().as_str());
        message
    }

    /// Checks the status of the command after it has run.
    pub fn status_checked(&self, success: bool, status: &str) -> (r: Result<(), String>)
        ensures
            status_model(r) == status_of(self@, success, status@),
    {
        if success {
            Ok(())
        } else {
            Err(self.failure_message(status))
        }
    }

    /// Checks the status of the command after it has run, and gives its
    /// standard output as text.
    pub fn stdout_checked_utf8(&self, output: &Output) -> (r: Result<String, String>)
        ensures
            text_model(r) == stdout_of(self@, output@),
    {
        if output.success {
            match from_utf8(output.stdout.as_slice()) {
                Some(stdout) => Ok(trim(stdout.as_str())),
                None => {
                    let mut message = String::from_str("Failed to decode stdout as UTF-8: ");
                    message.append(from_utf8_lossy(output.stdout.as_slice()).as_str());
                    Err(message)
                },
            }
        } else {
            let mut message = self.failure_message(output.status.as_str());
            let stdout = trim(from_utf8_lossy(output.stdout.as_slice()).as_str());
            if !stdout.as_str().is_empty() {
                message.append("\nStdout: ");
                message.append(stdout.as_str());
            }
            let ghost with_stdout = message@;
            assert(with_stdout =~= failure(self@, output.status@) + stream_note(
                "\nStdout: "@,
                output.stdout@,
            ));
            let stderr = trim(from_utf8_lossy(output.stderr.as_slice()).as_str());
            if !stderr.as_str().is_empty() {
                message.append("\nStderr: ");
                message.append(stderr.as_str());
            }
            assert(message@ =~= with_stdout + stream_note("\nStderr: "@, output.stderr@));
            Err(message)
        }
    }
}

} // verus!
