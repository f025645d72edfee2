use vstd::prelude::*;
use crate::frame::resolved;
use crate::dither::{
    DitherAlgoOpts, DitherOpts, atkinson_upto, fs_upto, dither_frame_atkinson,
    dither_frame_floyd_steinberg_color,
};

verus! {

/// A configuration that the pipeline refuses before it starts anything.
#[derive(Debug, Clone, Copy, PartialEq, Eq, Structural)]
pub enum ConfigError {
    /// The dither resolution has a negative field.
    DitherResUnresolved,
    /// The output resolution has a negative field.
    OutputResUnresolved,
    /// The palette count lies outside [2, 256].
    PaletteCount,
    /// One frame at the dither resolution does not fit in memory.
    FrameTooLarge,
}

/// The size of the frames that the pipeline dithers.
#[derive(Debug, Clone, Copy, PartialEq, Eq, Structural)]
pub struct FrameGeometry {
    pub width: isize,
    pub height: isize,
    /// Bytes in one frame: `width * height * 3`.
    pub frame_len: usize,
}

/// The palette count that an algorithm was given.
pub open spec fn palette_of(algo: DitherAlgoOpts) -> u32 {
    match algo {
        DitherAlgoOpts::Atkinson { palette_count } => palette_count,
        DitherAlgoOpts::FsColor { palette_count } => palette_count,
    }
}

/// The palette count lies in [2, 256].
pub open spec fn palette_ok(algo: DitherAlgoOpts) -> bool {
    2 <= palette_of(algo) <= 256
}

/// The bytes of a frame after `algo` dithered it.
pub open spec fn dithered(algo: DitherAlgoOpts, s: Seq<u8>, w: int, h: int) -> Seq<u8> {
    match algo {
        DitherAlgoOpts::Atkinson { palette_count } => atkinson_upto(
            s,
            w,
            h,
            palette_count - 1,
            (w * h) as nat,
        ),
        DitherAlgoOpts::FsColor { palette_count } => fs_upto(
            s,
            w,
            h,
            palette_count - 1,
            (w * h) as nat,
        ),
    }
}

/// The first thing wrong with a configuration, if any: the dither
/// resolution, then the output resolution, then the palette count, then the
/// size of one frame.
pub open spec fn config_check(
    dither_res: (int, int),
    output_res: (int, int),
    algo: DitherAlgoOpts,
) -> Option<ConfigError> {
    if !resolved(dither_res) {
        Some(ConfigError::DitherResUnresolved)
    } else if !resolved(output_res) {
        Some(ConfigError::OutputResUnresolved)
    } else if !palette_ok(algo) {
        Some(ConfigError::PaletteCount)
    } else if dither_res.0 * dither_res.1 * 3 > usize::MAX {
        Some(ConfigError::FrameTooLarge)
    } else {
        None
    }
}

/// Checks what the pipeline needs before it starts: both resolutions
/// resolved, a palette count in [2, 256], and a frame size that fits in
/// memory. On success, the frame geometry at the dither resolution.
pub fn validate_opts(opts: &DitherOpts) -> (r: Result<FrameGeometry, ConfigError>)
    ensures
        match r {
            Ok(g) => config_check(opts.dither_res@, opts.output_res@, opts.algo) is None
                && g.width == opts.dither_res@.0 && g.height == opts.dither_res@.1 && g.frame_len
                == g.width * g.height * 3,
            Err(e) => config_check(opts.dither_res@, opts.output_res@, opts.algo) == Some(e),
        },
{
    if !opts.dither_res.is_resolved() {
        return Err(ConfigError::DitherResUnresolved);
    }
    if !opts.output_res.is_resolved() {
        return Err(ConfigError::OutputResUnresolved);
    }
    let palette_count = match opts.algo {
        DitherAlgoOpts::Atkinson { palette_count } => palette_count,
        DitherAlgoOpts::FsColor { palette_count } => palette_count,
    };
    if palette_count < 2 || palette_count > 256 {
        return Err(ConfigError::PaletteCount);
    }
    let w = match opts.dither_res.width() {
        Some(w) => w,
        None => 0,
    };
    let h = match opts.dither_res.height() {
        Some(h) => h,
        None => 0,
    };
    assert(w == opts.dither_res@.0 && h == opts.dither_res@.1);
    match w.checked_mul(h) {
        None => {
            proof {
                assert(w * h * 3 > usize::MAX) by (nonlinear_arith)
                    requires w * h > usize::MAX, h >= 0;
            }
            Err(ConfigError::FrameTooLarge)
        },
        Some(p) => match p.checked_mul(3) {
            None => {
                assert(w * h * 3 == p * 3);
                Err(ConfigError::FrameTooLarge)
            },
            Some(n) => {
                Ok(FrameGeometry { width: w as isize, height: h as isize, frame_len: n })
            },
        },
    }
}

/// Dithers one frame in place with the configured algorithm.
pub fn dither_frame(algo: DitherAlgoOpts, width: isize, height: isize, buffer: &mut [u8])
    requires
        palette_ok(algo),
        width >= 0,
        height >= 0,
        old(buffer)@.len() == width * height * 3,
    ensures
        final(buffer)@ == dithered(algo, old(buffer)@, width as int, height as int),
{
    match algo {
        DitherAlgoOpts::Atkinson { palette_count } => {
            dither_frame_atkinson(width, height, buffer, palette_count);
        },
        DitherAlgoOpts::FsColor { palette_count } => {
            dither_frame_floyd_steinberg_color(width, height, buffer, palette_count);
        },
    }
}

/// Where the streaming of frames stands.
#[derive(Debug, Clone, Copy, PartialEq, Eq, Structural)]
pub enum StreamState {
    /// Waiting for a frame from the decoder.
    Reading,
    /// Waiting for a dithered frame to reach the encoder.
    Writing,
    /// Waiting for the encoder to exit after its input was closed.
    Finalizing,
    Done,
    Failed,
}

/// What the decoder and encoder did.
#[derive(Debug, Clone, Copy, PartialEq, Eq, Structural)]
pub enum StreamEvent {
    /// A whole frame was read.
    FrameRead,
    /// The read ended short of a frame, or failed: the end of the stream.
    ShortRead,
    FrameWritten,
    WriteFailed,
    WriterExited { success: bool },
}

/// What the driver does next.
#[derive(Debug, Clone, Copy, PartialEq, Eq, Structural)]
pub enum StreamAction {
    ReadFrame,
    /// Dither the frame just read and write it to the encoder.
    DitherAndWrite,
    /// Close the encoder's input and wait for it to exit.
    CloseWriterAndWait,
    Finish,
    Abort,
}

/// The state and action that follow `event` in state `s`. An event that
/// the state does not expect fails the run.
pub open spec fn stream_next(s: StreamState, event: StreamEvent) -> (StreamState, StreamAction) {
    match (s, event) {
        (StreamState::Reading, StreamEvent::FrameRead) => (
            StreamState::Writing,
            StreamAction::DitherAndWrite,
        ),
        (StreamState::Reading, StreamEvent::ShortRead) => (
            StreamState::Finalizing,
            StreamAction::CloseWriterAndWait,
        ),
        (StreamState::Writing, StreamEvent::FrameWritten) => (
            StreamState::Reading,
            StreamAction::ReadFrame,
        ),
        (StreamState::Finalizing, StreamEvent::WriterExited { success }) => if success {
            (StreamState::Done, StreamAction::Finish)
        } else {
            (StreamState::Failed, StreamAction::Abort)
        },
        _ => (StreamState::Failed, StreamAction::Abort),
    }
}

/// The state in which streaming starts, and its first action.
pub fn stream_start() -> (r: (StreamState, StreamAction))
    ensures
        r == (StreamState::Reading, StreamAction::ReadFrame),
{
    (StreamState::Reading, StreamAction::ReadFrame)
}

/// One step of streaming.
pub fn stream_step(s: StreamState, event: StreamEvent) -> (r: (StreamState, StreamAction))
    ensures
        r == stream_next(s, event),
{
    match (s, event) {
        (StreamState::Reading, StreamEvent::FrameRead) => (
            StreamState::Writing,
            StreamAction::DitherAndWrite,
        ),
        (StreamState::Reading, StreamEvent::ShortRead) => (
            StreamState::Finalizing,
            StreamAction::CloseWriterAndWait,
        ),
        (StreamState::Writing, StreamEvent::FrameWritten) => (
            StreamState::Reading,
            StreamAction::ReadFrame,
        ),
        (StreamState::Finalizing, StreamEvent::WriterExited { success }) => if success {
            (StreamState::Done, StreamAction::Finish)
        } else {
            (StreamState::Failed, StreamAction::Abort)
        },
        _ => (StreamState::Failed, StreamAction::Abort),
    }
}

/// The actions taken, in order, from state `s` through `events`.
pub open spec fn stream_actions(s: StreamState, events: Seq<StreamEvent>) -> Seq<StreamAction>
    decreases events.len(),
{
    if events.len() == 0 {
        Seq::empty()
    } else {
        let (t, a) = stream_next(s, events[0]);
        seq![a] + stream_actions(t, events.drop_first())
    }
}

/// The state reached from `s` through `events`.
pub open spec fn stream_end(s: StreamState, events: Seq<StreamEvent>) -> StreamState
    decreases events.len(),
{
    if events.len() == 0 {
        s
    } else {
        stream_end(stream_next(s, events[0]).0, events.drop_first())
    }
}

/// `n` frames read and written, then a short read.
pub open spec fn frames_then_end(n: nat) -> Seq<StreamEvent>
    decreases n,
{
    if n == 0 {
        seq![StreamEvent::ShortRead]
    } else {
        seq![StreamEvent::FrameRead, StreamEvent::FrameWritten] + frames_then_end((n - 1) as nat)
    }
}

/// How many frames `actions` write.
pub open spec fn writes(actions: Seq<StreamAction>) -> nat
    decreases actions.len(),
{
    if actions.len() == 0 {
        0
    } else {
        (if actions[0] == StreamAction::DitherAndWrite { 1nat } else { 0nat }) + writes(
            actions.drop_first(),
        )
    }
}

proof fn lemma_writes_append(a: Seq<StreamAction>, b: Seq<StreamAction>)
    ensures
        writes(a + b) == writes(a) + writes(b),
    decreases a.len(),
{
    if a.len() > 0 {
        assert((a + b).drop_first() =~= a.drop_first() + b);
        lemma_writes_append(a.drop_first(), b);
    } else {
        assert(a + b =~= b);
    }
}

/// A decoder that yields `n` whole frames and then a short read gets exactly
/// `n` writes, each right after its read, and then the encoder's input
/// closed, with no read after the short one.
pub proof fn lemma_short_read_after_frames(n: nat)
    ensures
        writes(stream_actions(StreamState::Reading, frames_then_end(n))) == n,
        stream_actions(StreamState::Reading, frames_then_end(n)).len() == 2 * n + 1,
        stream_actions(StreamState::Reading, frames_then_end(n)).last()
            == StreamAction::CloseWriterAndWait,
        stream_end(StreamState::Reading, frames_then_end(n)) == StreamState::Finalizing,
    decreases n,
{
    let ev = frames_then_end(n);
    if n == 0 {
        assert(ev =~= seq![StreamEvent::ShortRead]);
        assert(ev.drop_first() =~= Seq::<StreamEvent>::empty());
        assert(stream_actions(StreamState::Finalizing, ev.drop_first()) == Seq::<StreamAction>::empty());
        assert(stream_end(StreamState::Finalizing, ev.drop_first()) == StreamState::Finalizing);
        let acts = stream_actions(StreamState::Reading, ev);
        assert(acts =~= seq![StreamAction::CloseWriterAndWait]);
        assert(acts.drop_first() =~= Seq::<StreamAction>::empty());
        assert(writes(acts.drop_first()) == 0);
    } else {
        let rest = frames_then_end((n - 1) as nat);
        lemma_short_read_after_frames((n - 1) as nat);
        assert(ev.drop_first() =~= seq![StreamEvent::FrameWritten] + rest);
        assert(ev.drop_first().drop_first() =~= rest);
        assert(stream_end(StreamState::Writing, ev.drop_first()) == stream_end(StreamState::Reading, rest));
        let tail = stream_actions(StreamState::Reading, rest);
        let acts = stream_actions(StreamState::Reading, ev);
        assert(stream_actions(StreamState::Writing, ev.drop_first()) =~= seq![StreamAction::ReadFrame]
            + tail);
        assert(acts =~= seq![StreamAction::DitherAndWrite, StreamAction::ReadFrame] + tail);
        lemma_writes_append(seq![StreamAction::DitherAndWrite, StreamAction::ReadFrame], tail);
        let two = seq![StreamAction::DitherAndWrite, StreamAction::ReadFrame];
        assert(two.drop_first() =~= seq![StreamAction::ReadFrame]);
        assert(two.drop_first().drop_first() =~= Seq::<StreamAction>::empty());
        assert(writes(two.drop_first().drop_first()) == 0);
        assert(two.drop_first()[0] == StreamAction::ReadFrame);
        assert(writes(two.drop_first()) == 0);
        assert(writes(two) == 1);
    }
}

} // verus!
