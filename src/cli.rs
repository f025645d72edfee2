use vstd::prelude::*;
use vstd::string::StringSliceAdditionalSpecFns;
use crate::frame::{Resolution, ResolveError, resolve_spec};
use crate::dither::DitherAlgoOpts;
use crate::text::{isize_of, parse_isize};

verus! {

/// Why a `WIDTHxHEIGHT` text could not be read.
#[derive(Debug, Clone, Copy, PartialEq, Eq, Structural)]
pub enum ResolutionParseError {
    /// The text does not hold exactly one `x`.
    Format,
    InvalidWidth,
    InvalidHeight,
}

impl ResolutionParseError {
    pub fn message(&self) -> (r: String) {
        match self {
            ResolutionParseError::Format => "Expected WIDTHxHEIGHT".to_owned(),
            ResolutionParseError::InvalidWidth => "Invalid width".to_owned(),
            ResolutionParseError::InvalidHeight => "Invalid height".to_owned(),
        }
    }
}

/// Byte `i` is the only `x` in `s`.
pub open spec fn sole_x(s: Seq<u8>, i: int) -> bool {
    0 <= i < s.len() && s[i] == 120 && forall|j: int| 0 <= j < s.len() && j != i ==> s[j] != 120
}

/// What the text `s` gives as a resolution: the integers on either side of
/// its only `x`.
pub open spec fn resolution_of(s: Seq<u8>) -> Result<(int, int), ResolutionParseError> {
    if exists|i: int| sole_x(s, i) {
        let i = choose|i: int| sole_x(s, i);
        match (isize_of(s.subrange(0, i)), isize_of(s.subrange(i + 1, s.len() as int))) {
            (None, _) => Err(ResolutionParseError::InvalidWidth),
            (_, None) => Err(ResolutionParseError::InvalidHeight),
            (Some(w), Some(h)) => Ok((w as int, h as int)),
        }
    } else {
        Err(ResolutionParseError::Format)
    }
}

/// The position of the only `x` in `b`, if there is exactly one.
fn find_sole_x(b: &[u8]) -> (r: Option<usize>)
    ensures
        r is Some <==> exists|i: int| sole_x(b@, i),
        r matches Some(i) ==> sole_x(b@, i as int),
{
    let mut found: Option<usize> = None;
    let mut k: usize = 0;
    while k < b.len()
        invariant
            k <= b@.len(),
            found matches Some(i) ==> i < k && b@[i as int] == 120 && forall|j: int|
                0 <= j < k && j != i ==> b@[j] != 120,
            found is None ==> forall|j: int| 0 <= j < k ==> b@[j] != 120,
        decreases b@.len() - k,
    {
        if b[k] == 120 {
            match found {
                Some(i) => {
                    proof {
                        assert forall|m: int| !sole_x(b@, m) by {
                            if sole_x(b@, m) {
                                assert(m == i as int || m == k as int);
                            }
                        }
                    }
                    return None;
                },
                None => {
                    found = Some(k);
                },
            }
        }
        k += 1;
    }
    proof {
        match found {
            Some(i) => {
                assert(sole_x(b@, i as int));
            },
            None => {
                assert forall|m: int| !sole_x(b@, m) by {
                    if 0 <= m < b@.len() {
                        assert(b@[m] != 120);
                    }
                }
            },
        }
    }
    found
}

impl Resolution {
    /// Reads `WIDTHxHEIGHT`, each side an integer with an optional sign.
    pub fn parse(s: &str) -> (r: Result<Resolution, ResolutionParseError>)
        ensures
            match r {
                Ok(v) => resolution_of(s.spec_bytes()) == Ok::<(int, int), ResolutionParseError>(v@),
                Err(e) => resolution_of(s.spec_bytes()) == Err::<(int, int), ResolutionParseError>(e),
            },
    {
        let b = s.as_bytes();
        let n = b.len();
        match find_sole_x(b) {
            None => Err(ResolutionParseError::Format),
            Some(i) => {
                proof {
                    let c = choose|m: int| sole_x(b@, m);
                    assert(c == i as int);
                }
                match parse_isize(b, 0, i) {
                    None => Err(ResolutionParseError::InvalidWidth),
                    Some(w) => match parse_isize(b, i + 1, n) {
                        None => Err(ResolutionParseError::InvalidHeight),
                        Some(h) => Ok(Resolution::new(w, h)),
                    },
                }
            },
        }
    }
}

impl std::str::FromStr for Resolution {
    type Err = String;

    fn from_str(s: &str) -> Result<Resolution, String> {
        match Resolution::parse(s) {
            Ok(r) => Ok(r),
            Err(e) => Err(e.message()),
        }
    }
}

/// The command line of the program.
pub struct CliArgs {
    /// The resolution at which frames are dithered; the input's by default.
    pub dither_res: Option<Resolution>,
    /// The resolution of the output; the input's by default.
    pub output_res: Option<Resolution>,
    /// Path of the video to dither.
    pub input: String,
    /// Path where the dithered video is saved.
    pub output: String,
    pub algorithm: CliAlgorithm,
}

/// The algorithm chosen on the command line.
#[derive(Debug, Clone, Copy, PartialEq, Eq, Structural)]
pub enum CliAlgorithm {
    Atkinson { palette_count: u32 },
    FsColor { palette_count: u32 },
}

impl CliAlgorithm {
    /// The pipeline's configuration of the same algorithm.
    pub fn to_algo_opts(&self) -> (r: DitherAlgoOpts)
        ensures
            r == (match *self {
                CliAlgorithm::Atkinson { palette_count } => DitherAlgoOpts::Atkinson { palette_count },
                CliAlgorithm::FsColor { palette_count } => DitherAlgoOpts::FsColor { palette_count },
            }),
    {
        match *self {
            CliAlgorithm::Atkinson { palette_count } => DitherAlgoOpts::Atkinson { palette_count },
            CliAlgorithm::FsColor { palette_count } => DitherAlgoOpts::FsColor { palette_count },
        }
    }
}

/// The resolution to use: `requested` resolved against the input's, or the
/// input's when none was requested.
pub fn target_resolution(requested: Option<Resolution>, input: Resolution) -> (r: Result<
    Resolution,
    ResolveError,
>)
    ensures
        match requested {
            None => r == Ok::<Resolution, ResolveError>(input),
            Some(q) => match r {
                Ok(v) => resolve_spec(q@, input@) == Ok::<(int, int), ResolveError>(v@),
                Err(e) => resolve_spec(q@, input@) == Err::<(int, int), ResolveError>(e),
            },
        },
{
    match requested {
        None => Ok(input),
        Some(q) => q.resolve_fields(input),
    }
}

} // verus!
