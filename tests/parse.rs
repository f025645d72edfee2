use dither_some::cli::{target_resolution, CliAlgorithm, ResolutionParseError};
use dither_some::dither::DitherAlgoOpts;
use dither_some::ffmpeg::{parse_video_info, ProbeParseError, VideoInfo};
use dither_some::frame::{ResolveError, Resolution};

#[test]
fn parses_resolution() {
    assert_eq!(Resolution::parse("1280x720"), Ok(Resolution::new(1280, 720)));
    assert_eq!(Resolution::parse("-1x720"), Ok(Resolution::new(-1, 720)));
    assert_eq!(Resolution::parse("+640x-2"), Ok(Resolution::new(640, -2)));
    let r: Result<Resolution, String> = "640x-2".parse();
    assert_eq!(r, Ok(Resolution::new(640, -2)));
}

#[test]
fn resolution_parse_errors() {
    assert_eq!(Resolution::parse("1280"), Err(ResolutionParseError::Format));
    assert_eq!(Resolution::parse("1x2x3"), Err(ResolutionParseError::Format));
    assert_eq!(Resolution::parse("axb"), Err(ResolutionParseError::InvalidWidth));
    assert_eq!(Resolution::parse("x5"), Err(ResolutionParseError::InvalidWidth));
    assert_eq!(Resolution::parse("12x"), Err(ResolutionParseError::InvalidHeight));
    assert_eq!(Resolution::parse("12x-"), Err(ResolutionParseError::InvalidHeight));
    assert_eq!(
        Resolution::parse("99999999999999999999x1"),
        Err(ResolutionParseError::InvalidWidth)
    );
    let r: Result<Resolution, String> = "nope".parse();
    assert!(r.is_err());
}

#[test]
fn parses_extreme_integers() {
    let max = format!("{}x{}", isize::MAX, isize::MIN);
    assert_eq!(Resolution::parse(&max), Ok(Resolution::new(isize::MAX, isize::MIN)));
    let over = format!("{}0x1", isize::MAX);
    assert_eq!(Resolution::parse(&over), Err(ResolutionParseError::InvalidWidth));
}

#[test]
fn parses_probe_output() {
    assert_eq!(
        parse_video_info("1920\n1080\n30000/1001\n"),
        Ok(VideoInfo { width: 1920, height: 1080, frame_rate_num: 30000, frame_rate_den: 1001 })
    );
    assert_eq!(
        parse_video_info("640\r\n480\r\n25/1"),
        Ok(VideoInfo { width: 640, height: 480, frame_rate_num: 25, frame_rate_den: 1 })
    );
}

#[test]
fn probe_output_errors() {
    assert_eq!(parse_video_info("1920\n1080\n"), Err(ProbeParseError::MissingLine));
    assert_eq!(parse_video_info("1920"), Err(ProbeParseError::MissingLine));
    assert_eq!(parse_video_info("abc\n1\n1/1"), Err(ProbeParseError::Width));
    assert_eq!(parse_video_info("1\n-1\n1/1"), Err(ProbeParseError::Height));
    assert_eq!(parse_video_info("1\n1\n25"), Err(ProbeParseError::FrameRate));
    assert_eq!(parse_video_info("1\n1\n25/x"), Err(ProbeParseError::FrameRate));
}

#[test]
fn target_resolution_defaults_to_input() {
    let input = Resolution::new(1920, 1080);
    assert_eq!(target_resolution(None, input), Ok(input));
    assert_eq!(
        target_resolution(Some(Resolution::new(-1, 540)), input),
        Ok(Resolution::new(960, 540))
    );
    assert_eq!(
        target_resolution(Some(Resolution::new(-1, -1)), input),
        Err(ResolveError::Underspecified)
    );
}

#[test]
fn cli_algorithm_maps_to_options() {
    assert_eq!(
        CliAlgorithm::Atkinson { palette_count: 4 }.to_algo_opts(),
        DitherAlgoOpts::Atkinson { palette_count: 4 }
    );
    assert_eq!(
        CliAlgorithm::FsColor { palette_count: 9 }.to_algo_opts(),
        DitherAlgoOpts::FsColor { palette_count: 9 }
    );
}
