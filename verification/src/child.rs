//! A process that has been launched, and waiting for it.

use vstd::prelude::*;

use crate::status::{ExitStatus, Output, OutputView};

verus! {

/// The wait status of a process that ended by itself with an exit code: the
/// code in the second byte. An exit code has one byte, so a greater number, which
/// is none, counts as the greatest.
pub open spec fn status_of_code(code: u32) -> ExitStatus {
    ExitStatus {
        raw: if code <= 0xff {
            (256 * code) as i32
        } else {
            0xff00
        },
    }
}

/// The status of a process in a terminal, by the exit code that is reported for
/// it.
pub fn exit_status_to_std(code: u32) -> (status: ExitStatus)
    ensures
        status == status_of_code(code),
        code <= 0xff ==> status.raw == 256 * code,
        status.is_success() <==> code == 0,
{
    if code <= 0xff {
        ExitStatus { raw: 256 * code as i32 }
    } else {
        ExitStatus { raw: 0xff00 }
    }
}

/// Stands where a process was that has been waited for: there is nothing to
/// kill, and it has ended well.
#[derive(Clone, Copy, Debug, PartialEq, Eq, Structural)]
pub struct DummyChild;

impl DummyChild {
    /// It has no process id.
    pub fn process_id(&self) -> (id: Option<u32>)
        ensures
            id is None,
    {
        None
    }

    /// The exit code it ended with.
    pub fn wait(&self) -> (code: u32)
        ensures
            code == 0,
    {
        0
    }

    /// The exit code it ended with, since it has ended.
    pub fn try_wait(&self) -> (code: Option<u32>)
        ensures
            code == Some(0u32),
    {
        Some(0)
    }

    /// Killing it does nothing, and does not fail.
    pub fn kill(&mut self) -> (killed: Result<(), std::io::Error>)
        ensures
            killed is Ok,
            *final(self) == *old(self),
    {
        Ok(())
    }

    /// Something by which it can be killed: another stand-in.
    pub fn clone_killer(&self) -> (killer: DummyChild)
        ensures
            killer == *self,
    {
        DummyChild
    }
}

/// A process in a terminal, or what stands for it once it was waited for.
pub enum PtyProcess<P> {
    Running(P),
    Dummy(DummyChild),
}

/// Represents a spawned process, which may be a normal process or a PTY process.
/// `T` is a handle to a normal process, `P` one to a process in a terminal, and
/// `M` one to the terminal.
pub enum CmdChild<T, P, M> {
    TokioChild(Option<T>),
    PtyChild { child: PtyProcess<P>, master: M },
}

/// A process to wait for.
pub enum Waiting<T, P> {
    Tokio(T),
    Pty(PtyProcess<P>),
}

/// How a process ended, as it is reported for the two kinds.
#[derive(Clone, Copy, Debug, PartialEq, Eq, Structural)]
pub enum Ended {
    Tokio(ExitStatus),
    Pty(u32),
}

impl Ended {
    /// The status, for either kind of process.
    pub open spec fn status_spec(self) -> ExitStatus {
        match self {
            Ended::Tokio(status) => status,
            Ended::Pty(code) => status_of_code(code),
        }
    }

    /// The status, for either kind of process.
    pub fn status(self) -> (status: ExitStatus)
        ensures
            status == self.status_spec(),
            self matches Ended::Tokio(reported) ==> status == reported,
            self matches Ended::Pty(code) ==> status.is_success() == (code == 0) && (code <= 0xff
                ==> status.raw == 256 * code),
    {
        match self {
            Ended::Tokio(status) => status,
            Ended::Pty(code) => exit_status_to_std(code),
        }
    }
}

/// How to collect what a process writes.
pub enum Collecting<T> {
    /// The process is waited for, and its output with it.
    Tokio(T),
    /// The terminal is read, and then the process is waited for.
    Pty(PtyCapture),
}

impl<T, P, M> CmdChild<T, P, M> {
    /// Whether a normal process has been waited for already.
    pub open spec fn is_taken(self) -> bool {
        self matches CmdChild::TokioChild(None)
    }

    /// Whether a normal process has been waited for already.
    pub fn taken(&self) -> (taken: bool)
        ensures
            taken == self.is_taken(),
    {
        match self {
            CmdChild::TokioChild(None) => true,
            _ => false,
        }
    }

    /// The process to wait for.
    pub open spec fn process(self) -> Waiting<T, P> {
        match self {
            CmdChild::TokioChild(child) => Waiting::Tokio(child->Some_0),
            CmdChild::PtyChild { child, .. } => Waiting::Pty(child),
        }
    }

    /// What is left when the process has been taken to be waited for: nothing
    /// of a normal process, and a stand-in of one in a terminal, which stays
    /// open.
    pub open spec fn waited(self) -> Self {
        match self {
            CmdChild::TokioChild(_) => CmdChild::TokioChild(None),
            CmdChild::PtyChild { master, .. } => CmdChild::PtyChild {
                child: PtyProcess::Dummy(DummyChild),
                master,
            },
        }
    }

    /// Takes the process, to be waited for.
    pub fn wait(&mut self) -> (process: Waiting<T, P>)
        requires
            !old(self).is_taken(),
        ensures
            process == old(self).process(),
            *final(self) == old(self).waited(),
    {
        match self {
            CmdChild::TokioChild(child_opt) => {
                let child = child_opt.take().expect("Child already taken");
                Waiting::Tokio(child)
            },
            CmdChild::PtyChild { child, .. } => {
                let mut taken = PtyProcess::Dummy(DummyChild);
                std::mem::swap(child, &mut taken);
                Waiting::Pty(taken)
            },
        }
    }

    /// Begins to collect what the process writes. A normal process is taken; a
    /// process in a terminal stays until the terminal has been read.
    pub fn wait_with_output(&mut self) -> (collecting: Collecting<T>)
        requires
            !old(self).is_taken(),
        ensures
            match *old(self) {
                CmdChild::TokioChild(child) => {
                    &&& child matches Some(child) && collecting == Collecting::<T>::Tokio(child)
                    &&& *final(self) == old(self).waited()
                },
                CmdChild::PtyChild { .. } => {
                    &&& collecting matches Collecting::Pty(capture) && capture@ == capture_start()
                    &&& *final(self) == *old(self)
                },
            },
    {
        match self {
            CmdChild::TokioChild(child_opt) => {
                let child = child_opt.take().expect("Child already taken");
                Collecting::Tokio(child)
            },
            CmdChild::PtyChild { .. } => Collecting::Pty(PtyCapture::new()),
        }
    }
}

/// What is to be done next, to collect the output of a process in a terminal.
#[derive(Clone, Copy, Debug, PartialEq, Eq, Structural)]
pub enum CaptureStep {
    /// Get a reader for the terminal.
    CloneReader,
    /// Read from the terminal.
    Read,
    /// Wait for the process.
    Wait,
    /// Give up: there is no reader. The process has not been waited for.
    Fail,
}

/// Collects the output of a process in a terminal.
pub struct PtyCapture {
    step: CaptureStep,
    stdout: Vec<u8>,
}

/// What a `PtyCapture` holds.
#[verifier::ext_equal]
pub struct CaptureView {
    pub step: CaptureStep,
    pub stdout: Seq<u8>,
}

/// Collecting begins with nothing read and no reader.
pub open spec fn capture_start() -> CaptureView {
    CaptureView { step: CaptureStep::CloneReader, stdout: Seq::empty() }
}

/// Collecting goes on after a read: `read` is what was read, or `None` where
/// reading failed. Both that and the end of the output, when nothing is read,
/// end the reading.
pub open spec fn after_read(capture: CaptureView, read: Option<Seq<u8>>) -> CaptureView {
    match read {
        Some(bytes) if bytes.len() > 0 => CaptureView {
            step: CaptureStep::Read,
            stdout: capture.stdout + bytes,
        },
        _ => CaptureView { step: CaptureStep::Wait, stdout: capture.stdout },
    }
}

impl View for PtyCapture {
    type V = CaptureView;

    closed spec fn view(&self) -> CaptureView {
        CaptureView { step: self.step, stdout: self.stdout@ }
    }
}

impl PtyCapture {
    /// Begins, with nothing read and no reader.
    pub fn new() -> (capture: Self)
        ensures
            capture@ == capture_start(),
    {
        PtyCapture { step: CaptureStep::CloneReader, stdout: Vec::new() }
    }

    /// What is to be done next.
    pub fn step(&self) -> (step: CaptureStep)
        ensures
            step == self@.step,
    {
        self.step
    }

    /// Goes on once there is a reader, or there is none to be had.
    pub fn reader_cloned(&mut self, cloned: bool)
        requires
            old(self)@.step == CaptureStep::CloneReader,
        ensures
            final(self)@ == (CaptureView {
                step: if cloned {
                    CaptureStep::Read
                } else {
                    CaptureStep::Fail
                },
                stdout: old(self)@.stdout,
            }),
    {
        self.step = if cloned {
            CaptureStep::Read
        } else {
            CaptureStep::Fail
        };
    }

    /// Goes on after a read into `buf`: `read` is the number of bytes read, or
    /// `None` where reading failed.
    pub fn bytes_read(&mut self, buf: &[u8], read: Option<usize>)
        requires
            old(self)@.step == CaptureStep::Read,
            read matches Some(n) ==> n <= buf@.len(),
        ensures
            final(self)@ == after_read(
                old(self)@,
                match read {
                    Some(n) => Some(buf@.take(n as int)),
                    None => None,
                },
            ),
    {
        match read {
            Some(n) if n > 0 => {
                let (bytes, _) = buf.split_at(n);
                self.stdout.extend_from_slice(bytes);
                assert(self.stdout@ =~= old(self)@.stdout + buf@.take(n as int));
            },
            _ => {
                self.step = CaptureStep::Wait;
            },
        }
    }

    /// Ends, with the exit code of the process. A terminal has one stream, so
    /// nothing was written to stderr.
    pub fn finish(self, code: u32) -> (output: Output)
        requires
            self@.step == CaptureStep::Wait,
        ensures
            output@ == (OutputView {
                status: status_of_code(code),
                stdout: self@.stdout,
                stderr: Seq::empty(),
            }),
    {
        Output { status: exit_status_to_std(code), stdout: self.stdout, stderr: Vec::new() }
    }
}

/// A process is waited for once. After that there is no normal process any
/// more; and to wait for a process in a terminal again is to wait for its
/// stand-in, which changes nothing further.
pub proof fn law_waited_once<T, P, M>(child: CmdChild<T, P, M>)
    ensures
        child is TokioChild ==> child.waited().is_taken(),
        child is PtyChild ==> {
            &&& !child.waited().is_taken()
            &&& child.waited().process() == Waiting::<T, P>::Pty(PtyProcess::Dummy(DummyChild))
            &&& child.waited().waited() == child.waited()
        },
{
}

/// The status of a process in a terminal tells success from failure as the
/// number reported for it does, and no two exit codes have the same status.
pub proof fn law_codes_keep_apart(a: u32, b: u32)
    ensures
        status_of_code(a).is_success() <==> a == 0,
        a <= 0xff && b <= 0xff && status_of_code(a) == status_of_code(b) ==> a == b,
{
}

/// Collecting goes on after several reads.
pub open spec fn after_reads(capture: CaptureView, reads: Seq<Option<Seq<u8>>>) -> CaptureView
    decreases reads.len(),
{
    if reads.len() == 0 {
        capture
    } else {
        after_read(after_reads(capture, reads.drop_last()), reads.last())
    }
}

/// What is collected is all that was read, in order, up to the end of the output
/// or the first read that failed; and only then is the process waited for.
pub proof fn law_all_that_was_read(
    capture: CaptureView,
    chunks: Seq<Seq<u8>>,
    last: Option<Seq<u8>>,
)
    requires
        capture.step == CaptureStep::Read,
        forall|i: int| 0 <= i < chunks.len() ==> (#[trigger] chunks[i]).len() > 0,
        last matches Some(bytes) ==> bytes.len() == 0,
    ensures
        after_reads(capture, chunks.map_values(|chunk: Seq<u8>| Some(chunk))) == (CaptureView {
            step: CaptureStep::Read,
            stdout: capture.stdout + chunks.flatten(),
        }),
        after_reads(capture, chunks.map_values(|chunk: Seq<u8>| Some(chunk)).push(last)) == (
        CaptureView { step: CaptureStep::Wait, stdout: capture.stdout + chunks.flatten() }),
    decreases chunks.len(),
{
    let some = |chunk: Seq<u8>| Some(chunk);
    let reads = chunks.map_values(some);
    if chunks.len() == 0 {
        assert(reads =~= Seq::empty());
        assert(chunks =~= Seq::empty());
        assert(chunks.flatten() =~= Seq::empty());
        assert(capture.stdout + chunks.flatten() =~= capture.stdout);
    } else {
        let fewer = chunks.drop_last();
        law_all_that_was_read(capture, fewer, last);
        assert(reads.drop_last() =~= fewer.map_values(some));
        assert(chunks =~= fewer.push(chunks.last()));
        fewer.lemma_flatten_push(chunks.last());
        assert(capture.stdout + chunks.flatten() =~= (capture.stdout + fewer.flatten())
            + chunks.last());
    }
    assert(reads.push(last).drop_last() =~= reads);
}

/// The status of a process in a terminal has its exit code in the second byte and
/// nothing else; a number that is no exit code counts as the greatest one.
pub proof fn law_status_of_code(code: u32)
    ensures
        code <= 0xff ==> status_of_code(code).raw == 256 * code,
        code > 0xff ==> status_of_code(code) == status_of_code(0xff),
{
}

/// The status of a normal process is the one that is reported, every bit of it
/// kept, so that different statuses stay different; and that of a process in a
/// terminal is the one of its exit code.
pub proof fn law_status_is_what_is_reported(a: ExitStatus, b: ExitStatus, code: u32)
    ensures
        Ended::Tokio(a).status_spec() == a,
        Ended::Tokio(a).status_spec() == Ended::Tokio(b).status_spec() ==> a == b,
        Ended::Pty(code).status_spec() == status_of_code(code),
        code <= 0xff ==> Ended::Pty(code).status_spec().raw == 256 * code,
{
}

/// The process that is waited for is the one that was launched, and the terminal
/// stays the one that was opened.
pub proof fn law_process_to_wait_for<T, P, M>(process: T, child: PtyProcess<P>, master: M)
    ensures
        ({
            let normal = CmdChild::<T, P, M>::TokioChild(Some(process));
            let spent = CmdChild::<T, P, M>::TokioChild(None);
            let pty = CmdChild::<T, P, M>::PtyChild { child, master };
            &&& !normal.is_taken() && normal.process() == Waiting::<T, P>::Tokio(process)
            &&& normal.waited() == spent && spent.is_taken()
            &&& !pty.is_taken() && pty.process() == Waiting::<T, P>::Pty(child)
            &&& pty.waited() == CmdChild::<T, P, M>::PtyChild {
                child: PtyProcess::Dummy(DummyChild),
                master,
            }
        }),
{
}

/// Collecting starts without a byte and without a reader; a read adds what was
/// read, all of it and after what there was; and a read of nothing, or one that
/// failed, adds nothing and ends the reading.
pub proof fn law_reading(capture: CaptureView, bytes: Seq<u8>)
    ensures
        capture_start().stdout.len() == 0,
        capture_start().step == CaptureStep::CloneReader,
        bytes.len() > 0 ==> after_read(capture, Some(bytes)).stdout == capture.stdout + bytes,
        bytes.len() > 0 ==> after_read(capture, Some(bytes)).step == CaptureStep::Read,
        bytes.len() == 0 ==> after_read(capture, Some(bytes)) == after_read(capture, None),
        after_read(capture, None).stdout == capture.stdout,
        after_read(capture, None).step == CaptureStep::Wait,
{
}

/// Waiting for a normal process gives the status that is reported for it, whatever
/// that is; and waiting for two that ended differently gives different statuses.
pub proof fn law_normal_status_is_kept(
    reported: ExitStatus,
    other: ExitStatus,
    status: ExitStatus,
    other_status: ExitStatus,
)
    requires
        call_ensures(Ended::status, (Ended::Tokio(reported),), status),
        call_ensures(Ended::status, (Ended::Tokio(other),), other_status),
    ensures
        status == reported,
        reported != other ==> status != other_status,
{
}

} // verus!
