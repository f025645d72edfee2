use dither_some::dither::{DitherAlgoOpts, DitherOpts};
use dither_some::ffmpeg::{remux_args, remux_step, RemuxAction, RemuxEvent, RemuxState};
use dither_some::frame::Resolution;
use dither_some::pipeline::{
    stream_start, stream_step, validate_opts, ConfigError, FrameGeometry, StreamAction,
    StreamEvent, StreamState,
};

fn opts(dither: Resolution, output: Resolution, algo: DitherAlgoOpts) -> DitherOpts {
    DitherOpts {
        dither_res: dither,
        output_res: output,
        input_path: "in.mp4".to_string(),
        output_path: "out.mp4".to_string(),
        algo,
    }
}

/// Drives the streaming machine with a decoder that has `frames` frames.
fn drive(frames: usize) -> (Vec<StreamAction>, usize) {
    let (mut state, mut action) = stream_start();
    let mut actions = vec![action];
    let mut reads = 0;
    let mut left = frames;
    loop {
        let event = match action {
            StreamAction::ReadFrame => {
                reads += 1;
                if left > 0 {
                    left -= 1;
                    StreamEvent::FrameRead
                } else {
                    StreamEvent::ShortRead
                }
            }
            StreamAction::DitherAndWrite => StreamEvent::FrameWritten,
            StreamAction::CloseWriterAndWait => StreamEvent::WriterExited { success: true },
            StreamAction::Finish | StreamAction::Abort => break,
        };
        let (s, a) = stream_step(state, event);
        state = s;
        action = a;
        actions.push(action);
    }
    assert_eq!(state, StreamState::Done);
    (actions, reads)
}

#[test]
fn short_read_after_three_frames() {
    let (actions, reads) = drive(3);
    let writes = actions.iter().filter(|a| **a == StreamAction::DitherAndWrite).count();
    assert_eq!(writes, 3);
    assert_eq!(reads, 4);
    let close = actions.iter().position(|a| *a == StreamAction::CloseWriterAndWait).unwrap();
    assert!(actions[close..].iter().all(|a| *a != StreamAction::ReadFrame));
    assert_eq!(actions.last(), Some(&StreamAction::Finish));
}

#[test]
fn short_read_at_once_writes_nothing() {
    let (actions, reads) = drive(0);
    assert_eq!(reads, 1);
    assert_eq!(
        actions,
        vec![StreamAction::ReadFrame, StreamAction::CloseWriterAndWait, StreamAction::Finish]
    );
}

#[test]
fn write_failure_aborts() {
    let (s, a) = stream_step(StreamState::Writing, StreamEvent::WriteFailed);
    assert_eq!((s, a), (StreamState::Failed, StreamAction::Abort));
}

#[test]
fn encoder_failure_at_finalizing_aborts() {
    let (s, a) = stream_step(StreamState::Finalizing, StreamEvent::WriterExited { success: false });
    assert_eq!((s, a), (StreamState::Failed, StreamAction::Abort));
}

#[test]
fn unexpected_event_aborts() {
    let (s, a) = stream_step(StreamState::Reading, StreamEvent::FrameWritten);
    assert_eq!((s, a), (StreamState::Failed, StreamAction::Abort));
}

#[test]
fn remux_copy_failure_falls_back_to_transcode() {
    let (s, a) = remux_step(RemuxState::Copying, RemuxEvent::Exited { success: false });
    assert_eq!((s, a), (RemuxState::Transcoding, RemuxAction::RunTranscodeAudio));
    let (_, ok) = remux_step(s, RemuxEvent::Exited { success: true });
    assert_eq!(ok, RemuxAction::Finish);
    let (failed, fail) = remux_step(s, RemuxEvent::Exited { success: false });
    assert_eq!((failed, fail), (RemuxState::Failed, RemuxAction::Fail));
}

#[test]
fn remux_copy_success_finishes() {
    let (s, a) = remux_step(RemuxState::Copying, RemuxEvent::Exited { success: true });
    assert_eq!((s, a), (RemuxState::Done, RemuxAction::Finish));
    let (s, a) = remux_step(RemuxState::Copying, RemuxEvent::StartFailed);
    assert_eq!((s, a), (RemuxState::Failed, RemuxAction::Fail));
}

#[test]
fn remux_arguments() {
    let copy = remux_args("v.mp4", "a.mp4", "out.mp4", false);
    assert_eq!(
        copy,
        vec![
            "-v", "error", "-i", "v.mp4", "-i", "a.mp4", "-c:v", "copy", "-c:a", "copy", "-map",
            "0:v:0", "-map", "1:a:0", "-n", "out.mp4",
        ]
    );
    let transcode = remux_args("v.mp4", "a.mp4", "out.mp4", true);
    assert_eq!(transcode[9], "aac");
    assert_eq!(transcode[7], "copy");
    assert_eq!(transcode.len(), 16);
}

#[test]
fn validate_accepts_resolved_options() {
    let o = opts(
        Resolution::new(4, 3),
        Resolution::new(8, 6),
        DitherAlgoOpts::Atkinson { palette_count: 2 },
    );
    assert_eq!(validate_opts(&o), Ok(FrameGeometry { width: 4, height: 3, frame_len: 36 }));
}

#[test]
fn validate_rejects_each_error() {
    let algo = DitherAlgoOpts::FsColor { palette_count: 256 };
    let ok = Resolution::new(2, 2);
    assert_eq!(
        validate_opts(&opts(Resolution::new(-1, 2), ok, algo)),
        Err(ConfigError::DitherResUnresolved)
    );
    assert_eq!(
        validate_opts(&opts(ok, Resolution::new(2, -2), algo)),
        Err(ConfigError::OutputResUnresolved)
    );
    assert_eq!(
        validate_opts(&opts(ok, ok, DitherAlgoOpts::FsColor { palette_count: 257 })),
        Err(ConfigError::PaletteCount)
    );
    assert_eq!(
        validate_opts(&opts(ok, ok, DitherAlgoOpts::Atkinson { palette_count: 1 })),
        Err(ConfigError::PaletteCount)
    );
    assert_eq!(
        validate_opts(&opts(Resolution::new(isize::MAX, isize::MAX), ok, algo)),
        Err(ConfigError::FrameTooLarge)
    );
}
