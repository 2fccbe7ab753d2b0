//! How a process ended, and what there is to say where it did not end well.

use vstd::prelude::*;
use vstd::string::StringExecFns;
use vstd::utf8::valid_utf8;

use crate::noise::{
    is_noisy, is_noisy_bytes, law_carriage_returns_are_dropped, law_carriage_returns_in_bytes,
    law_line_noise_in_bytes, law_line_noise_is_dropped,
};
use crate::split::{joined, marked, split};
use crate::style::{red, red_text};
use crate::text::{
    decode, decoded, join_lines, law_non_blank_lines_settle, lines, non_blank, non_blank_lines,
};

verus! {

/// `std::io::Error`, carried as it is.
#[verifier::external_type_specification]
#[verifier::external_body]
pub struct ExIoError(std::io::Error);

/// How a process ended: the wait status that the system reports.
#[derive(Clone, Copy, Debug, PartialEq, Eq, Structural)]
pub struct ExitStatus {
    pub raw: i32,
}

impl ExitStatus {
    /// Whether the process ended by itself with exit code zero. Nothing else
    /// has the wait status zero.
    pub open spec fn is_success(self) -> bool {
        self.raw == 0
    }

    /// Whether the process ended by itself with exit code zero.
    pub fn success(&self) -> (success: bool)
        ensures
            success == self.is_success(),
    {
        self.raw == 0
    }
}

/// How a process ended, and what it wrote.
#[derive(Debug)]
pub struct Output {
    pub status: ExitStatus,
    pub stdout: Vec<u8>,
    pub stderr: Vec<u8>,
}

/// What an `Output` holds.
pub struct OutputView {
    pub status: ExitStatus,
    pub stdout: Seq<u8>,
    pub stderr: Seq<u8>,
}

impl View for Output {
    type V = OutputView;

    open spec fn view(&self) -> OutputView {
        OutputView { status: self.status, stdout: self.stdout@, stderr: self.stderr@ }
    }
}

impl Clone for Output {
    fn clone(&self) -> (copy: Self)
        ensures
            copy@ == self@,
    {
        let copy = Output {
            status: self.status,
            stdout: self.stdout.clone(),
            stderr: self.stderr.clone(),
        };
        assert(copy.stdout@ =~= self.stdout@);
        assert(copy.stderr@ =~= self.stderr@);
        copy
    }
}

/// The command ran but signaled some kind of error condition
/// (assuming the exit code is used for that)
#[derive(Debug)]
pub struct StatusError {
    pub status: ExitStatus,
    pub output: Option<Output>,
}

/// An error from executing a command
#[derive(Debug)]
pub enum Error {
    /// The command fundamentally failed to execute (usually means it didn't exist)
    Exec {
        /// Summary of what the command was trying to do
        summary: String,
        /// What failed
        cause: std::io::Error,
    },
    /// The command ran and ended with a status that is no success
    Status { summary: String, error: StatusError },
}

/// A stream of output, where there is something to show of it: a title and its
/// lines that are not blank.
pub open spec fn section(title: Seq<char>, stream: Seq<char>) -> Seq<char> {
    if non_blank(stream).len() == 0 {
        Seq::empty()
    } else {
        "\n"@ + red_text(title) + "\n"@ + joined(non_blank(stream), '\n') + "\n"@
    }
}

/// A status, and the two streams of output where they are known.
pub open spec fn status_report(status: Seq<char>, streams: Option<(Seq<char>, Seq<char>)>) -> Seq<
    char,
> {
    let head = "\n"@ + red_text("[status]"@) + "\n"@ + status + "\n"@;
    match streams {
        Some((stdout, stderr)) => head + section("[stdout]"@, stdout) + section(
            "[stderr]"@,
            stderr,
        ),
        None => head,
    }
}

/// Blank lines, and white space around lines, make no difference to what is
/// shown of a stream of output.
pub proof fn law_section_shows_what_is_not_blank(title: Seq<char>, stream: Seq<char>)
    ensures
        section(title, joined(non_blank(stream), '\n')) == section(title, stream),
{
    law_non_blank_lines_settle(stream);
}

/// Shows a stream of output under a title, where there is something to show.
pub fn show_section(title: &str, stream: &str) -> (text: String)
    ensures
        text@ == section(title@, stream@),
{
    let mut text = String::new();
    let lines = non_blank_lines(stream);
    if !lines.is_empty() {
        text.append("\n");
        text.append(red(title).as_str());
        text.append("\n");
        text.append(join_lines(&lines).as_str());
        text.append("\n");
    }
    assert(text@ =~= section(title@, stream@));
    text
}

/// Shows a status, and the two streams of output where they are known.
pub fn show_status(status: &str, streams: Option<(&str, &str)>) -> (text: String)
    ensures
        text@ == status_report(
            status@,
            match streams {
                Some((stdout, stderr)) => Some((stdout@, stderr@)),
                None => None,
            },
        ),
{
    let mut text = String::new();
    text.append("\n");
    text.append(red("[status]").as_str());
    text.append("\n");
    text.append(status);
    text.append("\n");
    if let Some((stdout, stderr)) = streams {
        text.append(show_section("[stdout]", stdout).as_str());
        text.append(show_section("[stderr]", stderr).as_str());
    }
    assert(text@ =~= status_report(
        status@,
        match streams {
            Some((stdout, stderr)) => Some((stdout@, stderr@)),
            None => None,
        },
    ));
    text
}

impl StatusError {
    /// What there is to say of the error, in words for the status.
    pub open spec fn report(self, status: Seq<char>) -> Seq<char> {
        status_report(
            status,
            match self.output {
                Some(output) => Some((decoded(output.stdout@), decoded(output.stderr@))),
                None => None,
            },
        )
    }

    /// Shows the error. `status` is what the system says of the status, in words.
    pub fn display(&self, status: &str) -> (text: String)
        ensures
            text@ == self.report(status@),
    {
        match &self.output {
            Some(output) => {
                let stdout = decode(output.stdout.as_slice());
                let stderr = decode(output.stderr.as_slice());
                show_status(status, Some((stdout.as_str(), stderr.as_str())))
            },
            None => show_status(status, None),
        }
    }
}

/// Two errors read the same where the output of the one, made text, is that of
/// the other with noise: blank lines, and white space at the start and the end
/// of lines, a carriage return before a line feed among it.
pub proof fn law_report_is_free_of_line_noise(
    plain: StatusError,
    noisy: StatusError,
    status: Seq<char>,
)
    requires
        plain.output matches Some(a) && noisy.output matches Some(b) && {
            &&& is_noisy(lines(decoded(a.stdout@)), lines(decoded(b.stdout@)))
            &&& is_noisy(lines(decoded(a.stderr@)), lines(decoded(b.stderr@)))
        },
    ensures
        noisy.report(status) == plain.report(status),
{
    let a = plain.output->Some_0;
    let b = noisy.output->Some_0;
    law_line_noise_is_dropped(decoded(a.stdout@), decoded(b.stdout@));
    law_line_noise_is_dropped(decoded(a.stderr@), decoded(b.stderr@));
}

/// Two errors read the same where the bytes of the one's output, which are text,
/// are those of the other's with noise in their lines.
pub proof fn law_report_is_free_of_noise_in_bytes(
    plain: StatusError,
    noisy: StatusError,
    status: Seq<char>,
)
    requires
        plain.output matches Some(a) && noisy.output matches Some(b) && {
            &&& valid_utf8(a.stdout@)
            &&& valid_utf8(a.stderr@)
            &&& is_noisy_bytes(split(a.stdout@, 0x0a), split(b.stdout@, 0x0a))
            &&& is_noisy_bytes(split(a.stderr@, 0x0a), split(b.stderr@, 0x0a))
        },
    ensures
        noisy.report(status) == plain.report(status),
{
    let a = plain.output->Some_0;
    let b = noisy.output->Some_0;
    law_line_noise_in_bytes(a.stdout@, b.stdout@);
    law_line_noise_in_bytes(a.stderr@, b.stderr@);
    law_report_is_free_of_line_noise(plain, noisy, status);
}

/// Two errors read the same where the output of the one, made text, is that of
/// the other with a carriage return before each line feed.
pub proof fn law_report_is_free_of_carriage_returns(
    plain: StatusError,
    noisy: StatusError,
    status: Seq<char>,
)
    requires
        plain.output matches Some(a) && noisy.output matches Some(b) && {
            &&& decoded(b.stdout@) == marked(decoded(a.stdout@), '\n', '\r')
            &&& decoded(b.stderr@) == marked(decoded(a.stderr@), '\n', '\r')
        },
    ensures
        noisy.report(status) == plain.report(status),
{
    let a = plain.output->Some_0;
    law_carriage_returns_are_dropped(decoded(a.stdout@));
    law_carriage_returns_are_dropped(decoded(a.stderr@));
}

/// Two errors read the same where the bytes of the one's output, which are text,
/// are those of the other's with a carriage return before each line feed.
pub proof fn law_report_is_free_of_carriage_returns_in_bytes(
    plain: StatusError,
    noisy: StatusError,
    status: Seq<char>,
)
    requires
        plain.output matches Some(a) && noisy.output matches Some(b) && {
            &&& valid_utf8(a.stdout@)
            &&& valid_utf8(a.stderr@)
            &&& b.stdout@ == marked(a.stdout@, 0x0a, 0x0d)
            &&& b.stderr@ == marked(a.stderr@, 0x0a, 0x0d)
        },
    ensures
        noisy.report(status) == plain.report(status),
{
    let a = plain.output->Some_0;
    law_carriage_returns_in_bytes(a.stdout@);
    law_carriage_returns_in_bytes(a.stderr@);
    law_report_is_free_of_carriage_returns(plain, noisy, status);
}

impl Error {
    /// What there is to say of the error, in words for the status if there is
    /// one.
    pub open spec fn report(self, status: Seq<char>) -> Seq<char> {
        match self {
            Error::Exec { summary, cause } => "run command `"@ + summary@ + "` failed"@,
            Error::Status { summary, error } => "command `"@ + summary@
                + "` exited with an error:\n"@ + error.report(status),
        }
    }

    /// Shows the error. `status` is what the system says of the status, if
    /// there is one, in words.
    pub fn display(&self, status: &str) -> (text: String)
        ensures
            text@ == self.report(status@),
    {
        let mut text = String::new();
        match self {
            Error::Exec { summary, .. } => {
                text.append("run command `");
                text.append(summary.as_str());
                text.append("` failed");
            },
            Error::Status { summary, error } => {
                text.append("command `");
                text.append(summary.as_str());
                text.append("` exited with an error:\n");
                text.append(error.display(status).as_str());
            },
        }
        assert(text@ =~= self.report(status@));
        text
    }
}

/// Success is the wait status zero.
pub proof fn law_success(status: ExitStatus)
    ensures
        status.is_success() <==> status.raw == 0,
{
}

/// What an output is taken to hold is what its fields hold, each of them whole.
pub proof fn law_output_fields(output: Output)
    ensures
        output@.status == output.status,
        output@.stdout == output.stdout@,
        output@.stderr == output.stderr@,
{
}

/// What is shown of a stream is nothing where every line is blank; else the title
/// and then the lines that are kept, all of them, each on its own line.
pub proof fn law_section(title: Seq<char>, stream: Seq<char>)
    ensures
        non_blank(stream).len() == 0 ==> section(title, stream) == Seq::<char>::empty(),
        non_blank(stream).len() > 0 ==> section(title, stream) == seq!['\n'] + red_text(title)
            + seq!['\n'] + joined(non_blank(stream), '\n') + seq!['\n'],
{
    reveal_strlit("\n");
    assert("\n"@ =~= seq!['\n']);
}

/// A report is the title of the status and the whole of what is said of it, each
/// on its own line; and after that what is shown of stdout, and then of stderr,
/// where they are known.
pub proof fn law_status_report(status: Seq<char>, stdout: Seq<char>, stderr: Seq<char>)
    ensures
        status_report(status, None) == seq!['\n'] + red_text("[status]"@) + seq!['\n'] + status
            + seq!['\n'],
        status_report(status, Some((stdout, stderr))) == status_report(status, None) + section(
            "[stdout]"@,
            stdout,
        ) + section("[stderr]"@, stderr),
{
    reveal_strlit("\n");
    assert("\n"@ =~= seq!['\n']);
}

/// The report of an error is that of its status and of the two streams of its
/// output, decoded.
pub proof fn law_report_of_an_error(error: StatusError, status: Seq<char>)
    ensures
        error.output is None ==> error.report(status) == status_report(status, None),
        error.output matches Some(output) ==> error.report(status) == status_report(
            status,
            Some((decoded(output.stdout@), decoded(output.stderr@))),
        ),
{
}

/// An error says what the command was for; and of one that ran, how it ended.
pub proof fn law_error_in_words(error: Error, status: Seq<char>)
    ensures
        error matches Error::Exec { summary, .. } ==> error.report(status) == "run command `"@
            + summary@ + "` failed"@,
        error matches Error::Status { summary, error: found } ==> error.report(status)
            == "command `"@ + summary@ + "` exited with an error:\n"@ + found.report(status),
{
}

} // verus!
