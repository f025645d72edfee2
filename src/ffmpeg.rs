use vstd::prelude::*;
use vstd::string::StringSliceAdditionalSpecFns;
use crate::text::{next_byte, usize_of, find_byte, parse_usize};

verus! {

/// Where the remux of the dithered video with the source's audio stands.
#[derive(Debug, Clone, Copy, PartialEq, Eq, Structural)]
pub enum RemuxState {
    /// Both streams are being copied as they are.
    Copying,
    /// The copy failed; the audio is being transcoded to AAC.
    Transcoding,
    Done,
    Failed,
}

/// How a remux process ended.
#[derive(Debug, Clone, Copy, PartialEq, Eq, Structural)]
pub enum RemuxEvent {
    /// The process could not be started.
    StartFailed,
    Exited { success: bool },
}

/// What the driver does next.
#[derive(Debug, Clone, Copy, PartialEq, Eq, Structural)]
pub enum RemuxAction {
    /// Run the remux again, the audio transcoded to AAC.
    RunTranscodeAudio,
    Finish,
    /// Give up, with the last process's diagnostics.
    Fail,
}

/// The state and action that follow `event` in state `s`.
pub open spec fn remux_next(s: RemuxState, event: RemuxEvent) -> (RemuxState, RemuxAction) {
    match (s, event) {
        (RemuxState::Copying, RemuxEvent::Exited { success }) => if success {
            (RemuxState::Done, RemuxAction::Finish)
        } else {
            (RemuxState::Transcoding, RemuxAction::RunTranscodeAudio)
        },
        (RemuxState::Transcoding, RemuxEvent::Exited { success }) => if success {
            (RemuxState::Done, RemuxAction::Finish)
        } else {
            (RemuxState::Failed, RemuxAction::Fail)
        },
        (RemuxState::Done, _) => (RemuxState::Done, RemuxAction::Finish),
        _ => (RemuxState::Failed, RemuxAction::Fail),
    }
}

/// One step of the remux.
pub fn remux_step(s: RemuxState, event: RemuxEvent) -> (r: (RemuxState, RemuxAction))
    ensures
        r == remux_next(s, event),
{
    match (s, event) {
        (RemuxState::Copying, RemuxEvent::Exited { success }) => if success {
            (RemuxState::Done, RemuxAction::Finish)
        } else {
            (RemuxState::Transcoding, RemuxAction::RunTranscodeAudio)
        },
        (RemuxState::Transcoding, RemuxEvent::Exited { success }) => if success {
            (RemuxState::Done, RemuxAction::Finish)
        } else {
            (RemuxState::Failed, RemuxAction::Fail)
        },
        (RemuxState::Done, _) => (RemuxState::Done, RemuxAction::Finish),
        _ => (RemuxState::Failed, RemuxAction::Fail),
    }
}

/// When the copy exits with a failure, the remux is run once more with the
/// audio transcoded, and that run's outcome alone decides the result.
pub proof fn lemma_copy_failure_falls_back(outcome: bool)
    ensures
        remux_next(RemuxState::Copying, RemuxEvent::Exited { success: false }) == (
            RemuxState::Transcoding,
            RemuxAction::RunTranscodeAudio,
        ),
        remux_next(RemuxState::Transcoding, RemuxEvent::Exited { success: outcome }).1 == (if outcome {
            RemuxAction::Finish
        } else {
            RemuxAction::Fail
        }),
{
}

/// The audio codec argument of a remux run.
pub open spec fn audio_codec(transcode_audio: bool) -> Seq<char> {
    if transcode_audio { "aac"@ } else { "copy"@ }
}

/// The arguments of the remux process: the first video stream of
/// `src_video` copied, the first audio stream of `src_audio` copied or
/// transcoded, into `dest`, which is not overwritten.
pub open spec fn remux_args_spec(
    src_video: Seq<char>,
    src_audio: Seq<char>,
    dest: Seq<char>,
    transcode_audio: bool,
) -> Seq<Seq<char>> {
    seq![
        "-v"@, "error"@, "-i"@, src_video, "-i"@, src_audio, "-c:v"@, "copy"@, "-c:a"@,
        audio_codec(transcode_audio), "-map"@, "0:v:0"@, "-map"@, "1:a:0"@, "-n"@, dest,
    ]
}

fn push_str(v: &mut Vec<String>, s: &str)
    ensures
        final(v)@.len() == old(v)@.len() + 1,
        forall|i: int| 0 <= i < old(v)@.len() ==> final(v)@[i] == old(v)@[i],
        final(v)@.last()@ == s@,
{
    v.push(s.to_owned());
}

/// The arguments of one remux run.
pub fn remux_args(src_video: &str, src_audio: &str, dest: &str, transcode_audio: bool) -> (r: Vec<
    String,
>)
    ensures
        r@.len() == 16,
        forall|i: int|
            0 <= i < 16 ==> #[trigger] r@[i]@ == remux_args_spec(
                src_video@,
                src_audio@,
                dest@,
                transcode_audio,
            )[i],
{
    let mut v: Vec<String> = Vec::new();
    push_str(&mut v, "-v");
    push_str(&mut v, "error");
    push_str(&mut v, "-i");
    push_str(&mut v, src_video);
    push_str(&mut v, "-i");
    push_str(&mut v, src_audio);
    push_str(&mut v, "-c:v");
    push_str(&mut v, "copy");
    push_str(&mut v, "-c:a");
    if transcode_audio {
        push_str(&mut v, "aac");
    } else {
        push_str(&mut v, "copy");
    }
    push_str(&mut v, "-map");
    push_str(&mut v, "0:v:0");
    push_str(&mut v, "-map");
    push_str(&mut v, "1:a:0");
    push_str(&mut v, "-n");
    push_str(&mut v, dest);
    v
}

/// Why the prober's output could not be read.
#[derive(Debug, Clone, Copy, PartialEq, Eq, Structural)]
pub enum ProbeParseError {
    /// Fewer than three lines.
    MissingLine,
    Width,
    Height,
    FrameRate,
}

impl ProbeParseError {
    pub fn message(&self) -> (r: String) {
        match self {
            ProbeParseError::MissingLine => "Expected width, height and frame rate".to_owned(),
            ProbeParseError::Width => "Parsing width failed".to_owned(),
            ProbeParseError::Height => "Parsing height failed".to_owned(),
            ProbeParseError::FrameRate => "Parsing frame_rate failed".to_owned(),
        }
    }
}

/// A source video's size and frame rate, the rate as the fraction
/// `frame_rate_num / frame_rate_den`.
#[derive(Debug, Clone, Copy, PartialEq, Eq, Structural)]
pub struct VideoInfo {
    pub width: usize,
    pub height: usize,
    pub frame_rate_num: usize,
    pub frame_rate_den: usize,
}

/// The text of the line in `s[start..end]`, where `end` is the position of
/// its newline or the end of `s`: without the carriage return of a `\r\n`.
pub open spec fn line_text(s: Seq<u8>, start: int, end: int) -> Seq<u8> {
    if start < end < s.len() && s[end - 1] == 13 {
        s.subrange(start, end - 1)
    } else {
        s.subrange(start, end)
    }
}

/// The frame rate `num/den` that the line `l` writes; anything after a
/// second `/` is ignored.
pub open spec fn frame_rate_of(l: Seq<u8>) -> Option<(int, int)> {
    let p = next_byte(l, 0, l.len() as int, 47);
    let q = next_byte(l, p + 1, l.len() as int, 47);
    if p >= l.len() {
        None
    } else {
        match (usize_of(l.subrange(0, p)), usize_of(l.subrange(p + 1, q))) {
            (Some(a), Some(b)) => Some((a as int, b as int)),
            _ => None,
        }
    }
}

/// What the prober's output `s` gives: a width, a height and a frame rate
/// `num/den` on its first three lines, anything after the second `/` of the
/// third line ignored.
pub open spec fn video_info_of(s: Seq<u8>) -> Result<(int, int, int, int), ProbeParseError> {
    let n = s.len() as int;
    let e0 = next_byte(s, 0, n, 10);
    let e1 = next_byte(s, e0 + 1, n, 10);
    let e2 = next_byte(s, e1 + 1, n, 10);
    if e0 >= n || e1 + 1 >= n {
        Err(ProbeParseError::MissingLine)
    } else {
        match (
            usize_of(line_text(s, 0, e0)),
            usize_of(line_text(s, e0 + 1, e1)),
            frame_rate_of(line_text(s, e1 + 1, e2)),
        ) {
            (None, _, _) => Err(ProbeParseError::Width),
            (_, None, _) => Err(ProbeParseError::Height),
            (_, _, None) => Err(ProbeParseError::FrameRate),
            (Some(w), Some(h), Some((a, b))) => Ok((w as int, h as int, a, b)),
        }
    }
}

/// The end of the text of the line in `b[start..end]`.
fn line_text_end(b: &[u8], start: usize, end: usize) -> (r: usize)
    requires
        start <= end <= b@.len(),
    ensures
        start <= r <= end,
        b@.subrange(start as int, r as int) == line_text(b@, start as int, end as int),
{
    if start < end && end < b.len() && b[end - 1] == 13 {
        end - 1
    } else {
        end
    }
}

/// `next_byte` over a subrange is `next_byte` over the whole, shifted.
proof fn lemma_next_byte_shift(s: Seq<u8>, base: int, top: int, from: int, byte: u8)
    requires
        0 <= base <= top <= s.len(),
        0 <= from <= top - base,
    ensures
        next_byte(s.subrange(base, top), from, top - base, byte) + base == next_byte(
            s,
            from + base,
            top,
            byte,
        ),
    decreases top - base - from,
{
    if from < top - base {
        assert(s.subrange(base, top)[from] == s[from + base]);
        lemma_next_byte_shift(s, base, top, from + 1, byte);
    }
}

/// The frame rate that `b[lo..hi]` writes, as `frame_rate_of` states.
fn parse_frame_rate(b: &[u8], lo: usize, hi: usize) -> (r: Option<(usize, usize)>)
    requires
        lo <= hi <= b@.len(),
    ensures
        match r {
            Some((a, d)) => frame_rate_of(b@.subrange(lo as int, hi as int)) == Some(
                (a as int, d as int),
            ),
            None => frame_rate_of(b@.subrange(lo as int, hi as int)) is None,
        },
{
    let ghost l = b@.subrange(lo as int, hi as int);
    let p = find_byte(b, lo, hi, 47);
    proof {
        lemma_next_byte_shift(b@, lo as int, hi as int, 0, 47);
    }
    if p >= hi {
        return None;
    }
    let q = find_byte(b, p + 1, hi, 47);
    proof {
        lemma_next_byte_shift(b@, lo as int, hi as int, p - lo + 1, 47);
        assert(l.subrange(0, p - lo) =~= b@.subrange(lo as int, p as int));
        assert(l.subrange(p - lo + 1, q - lo) =~= b@.subrange(p + 1, q as int));
    }
    match (parse_usize(b, lo, p), parse_usize(b, p + 1, q)) {
        (Some(a), Some(d)) => Some((a, d)),
        _ => None,
    }
}

/// Reads the prober's output: width, height and `num/den` frame rate on
/// three lines.
pub fn parse_video_info(out: &str) -> (r: Result<VideoInfo, ProbeParseError>)
    ensures
        match r {
            Ok(v) => video_info_of(out.spec_bytes()) == Ok::<
                (int, int, int, int),
                ProbeParseError,
            >((v.width as int, v.height as int, v.frame_rate_num as int, v.frame_rate_den as int)),
            Err(e) => video_info_of(out.spec_bytes()) == Err::<(int, int, int, int), ProbeParseError>(
                e,
            ),
        },
{
    let b = out.as_bytes();
    let n = b.len();
    let e0 = find_byte(b, 0, n, 10);
    if e0 >= n {
        return Err(ProbeParseError::MissingLine);
    }
    let e1 = find_byte(b, e0 + 1, n, 10);
    if e1 >= n || e1 + 1 >= n {
        return Err(ProbeParseError::MissingLine);
    }
    let e2 = find_byte(b, e1 + 1, n, 10);
    let t0 = line_text_end(b, 0, e0);
    let t1 = line_text_end(b, e0 + 1, e1);
    let t2 = line_text_end(b, e1 + 1, e2);
    let w = match parse_usize(b, 0, t0) {
        None => return Err(ProbeParseError::Width),
        Some(w) => w,
    };
    let h = match parse_usize(b, e0 + 1, t1) {
        None => return Err(ProbeParseError::Height),
        Some(h) => h,
    };
    match parse_frame_rate(b, e1 + 1, t2) {
        Some((a, d)) => Ok(VideoInfo { width: w, height: h, frame_rate_num: a, frame_rate_den: d }),
        None => Err(ProbeParseError::FrameRate),
    }
}

} // verus!
