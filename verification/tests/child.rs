use process::child::{
    exit_status_to_std, CaptureStep, Collecting, DummyChild, Ended, PtyCapture, PtyProcess, Waiting,
};
use process::{CmdChild, ExitStatus};

type Child = CmdChild<&'static str, &'static str, &'static str>;

#[test]
fn codes_are_kept() {
    assert_eq!(exit_status_to_std(0), ExitStatus { raw: 0 });
    assert_eq!(exit_status_to_std(1), ExitStatus { raw: 256 });
    assert_eq!(exit_status_to_std(3), ExitStatus { raw: 768 });
    assert_eq!(exit_status_to_std(255), ExitStatus { raw: 65280 });
    assert!(exit_status_to_std(0).success());
    for code in 1..=255 {
        assert!(!exit_status_to_std(code).success());
        assert_eq!(exit_status_to_std(code).raw >> 8, code as i32);
    }
}

#[test]
fn numbers_that_are_no_codes_are_failures() {
    for code in [256, 257, 65536, 1 << 31, u32::MAX] {
        assert_eq!(exit_status_to_std(code), ExitStatus { raw: 65280 });
        assert!(!exit_status_to_std(code).success());
    }
}

#[test]
fn a_normal_process_is_taken_once() {
    let mut child: Child = CmdChild::TokioChild(Some("process"));
    assert!(!child.taken());
    assert!(matches!(child.wait(), Waiting::Tokio("process")));
    assert!(child.taken());
    let mut child: Child = CmdChild::TokioChild(Some("process"));
    assert!(matches!(child.wait_with_output(), Collecting::Tokio("process")));
    assert!(child.taken());
}

#[test]
fn a_stand_in_is_left_in_a_terminal() {
    let mut child: Child = CmdChild::PtyChild {
        child: PtyProcess::Running("process"),
        master: "terminal",
    };
    assert!(matches!(child.wait_with_output(), Collecting::Pty(_)));
    assert!(matches!(child.wait(), Waiting::Pty(PtyProcess::Running("process"))));
    assert!(!child.taken());
    match child.wait() {
        Waiting::Pty(PtyProcess::Dummy(dummy)) => {
            assert!(Ended::Pty(dummy.wait()).status().success());
        }
        _ => panic!("the process was waited for"),
    }
    assert!(matches!(
        child,
        CmdChild::PtyChild { child: PtyProcess::Dummy(_), master: "terminal" }
    ));
}

#[test]
fn a_stand_in_has_ended_well() {
    let mut dummy = DummyChild;
    assert_eq!(dummy.process_id(), None);
    assert_eq!(dummy.wait(), 0);
    assert_eq!(dummy.try_wait(), Some(0));
    assert!(dummy.kill().is_ok());
    assert_eq!(dummy.clone_killer(), dummy);
}

#[test]
fn a_status_for_either_kind() {
    let status = ExitStatus { raw: 256 };
    assert_eq!(Ended::Tokio(status).status(), status);
    assert_eq!(Ended::Pty(2).status(), ExitStatus { raw: 512 });
}

#[test]
fn a_terminal_is_read_to_its_end() {
    let mut capture = PtyCapture::new();
    assert_eq!(capture.step(), CaptureStep::CloneReader);
    capture.reader_cloned(true);
    assert_eq!(capture.step(), CaptureStep::Read);
    capture.bytes_read(b"abcd", Some(3));
    assert_eq!(capture.step(), CaptureStep::Read);
    capture.bytes_read(b"defg", Some(4));
    capture.bytes_read(b"none", Some(0));
    assert_eq!(capture.step(), CaptureStep::Wait);
    let output = capture.finish(3);
    assert_eq!(output.status, ExitStatus { raw: 768 });
    assert_eq!(output.stdout, b"abcdefg");
    assert!(output.stderr.is_empty());
}

#[test]
fn a_read_that_fails_ends_the_reading() {
    let mut capture = PtyCapture::new();
    capture.reader_cloned(true);
    capture.bytes_read(b"ab", Some(2));
    capture.bytes_read(b"cd", None);
    assert_eq!(capture.step(), CaptureStep::Wait);
    assert_eq!(capture.finish(0).stdout, b"ab");
}

#[test]
fn without_a_reader_nothing_is_collected() {
    let mut capture = PtyCapture::new();
    capture.reader_cloned(false);
    assert_eq!(capture.step(), CaptureStep::Fail);
}
