use vstd::prelude::*;

verus! {

/// Width or height sentinel: derive the dimension from the aspect ratio and
/// round it to the nearest even number.
pub const EVEN: isize = -2;

/// Why a resolution could not be resolved.
#[derive(Debug, Clone, Copy, PartialEq, Eq, Structural)]
pub enum ResolveError {
    /// The reference resolution has a negative field.
    InvalidReference,
    /// Both fields are negative, so neither can be derived.
    Underspecified,
}

/// A target resolution whose fields may each be a concrete pixel count
/// (non-negative) or a negative sentinel: `EVEN` asks for the nearest even
/// value derived from an aspect ratio, any other negative value for the
/// nearest integer.
#[derive(Debug, Clone, Copy, PartialEq, Eq, Structural)]
pub struct Resolution {
    width: isize,
    height: isize,
}

/// `known * num / den` rounded half up, the rounding of a non-negative value
/// to the nearest integer (or, with `even`, to the nearest even integer), and
/// saturated at `isize::MAX`. A zero `den` leaves no finite ratio: the value
/// is then `isize::MAX` when `known * num` is positive, and 0 otherwise.
pub open spec fn derived_dimension(known: int, num: int, den: int, even: bool) -> int {
    if den == 0 {
        if known * num > 0 { isize::MAX as int } else { 0 }
    } else {
        let v = if even {
            2 * ((known * num + den) / (2 * den))
        } else {
            (2 * known * num + den) / (2 * den)
        };
        if v > isize::MAX { isize::MAX as int } else { v }
    }
}

impl View for Resolution {
    type V = (int, int);

    closed spec fn view(&self) -> (int, int) {
        (self.width as int, self.height as int)
    }
}

/// A resolution is resolved when both fields are non-negative.
pub open spec fn resolved(r: (int, int)) -> bool {
    r.0 >= 0 && r.1 >= 0
}

/// What resolving `r` against the resolved reference `rel` gives.
pub open spec fn resolve_spec(r: (int, int), rel: (int, int)) -> Result<(int, int), ResolveError> {
    if !resolved(rel) {
        Err(ResolveError::InvalidReference)
    } else if resolved(r) {
        Ok(r)
    } else if r.0 < 0 && r.1 < 0 {
        Err(ResolveError::Underspecified)
    } else if r.0 < 0 {
        Ok((derived_dimension(r.1, rel.0, rel.1, r.0 == EVEN), r.1))
    } else {
        Ok((r.0, derived_dimension(r.0, rel.1, rel.0, r.1 == EVEN)))
    }
}

/// Rounds `known * num / den` as `derived_dimension` states.
fn derive_dimension(known: isize, num: isize, den: isize, even: bool) -> (r: isize)
    requires
        known >= 0,
        num >= 0,
        den >= 0,
    ensures
        r == derived_dimension(known as int, num as int, den as int, even),
{
    let k = known as u128;
    let m = num as u128;
    proof {
        assert(k * m < 0x4000_0000_0000_0000_0000_0000_0000_0000) by (nonlinear_arith)
            requires k < 0x8000_0000_0000_0000, m < 0x8000_0000_0000_0000;
    }
    let p: u128 = k * m;
    assert(p == known as int * num as int);
    assert(2 * p == 2 * known as int * num as int) by (nonlinear_arith)
        requires p == known as int * num as int;
    if den == 0 {
        if p > 0 { isize::MAX } else { 0 }
    } else {
        let d = den as u128;
        let v: u128 = if even {
            2 * ((p + d) / (2 * d))
        } else {
            (2 * p + d) / (2 * d)
        };
        if v > isize::MAX as u128 { isize::MAX } else { v as isize }
    }
}

impl Resolution {
    pub fn new(width: isize, height: isize) -> (r: Resolution)
        ensures
            r@ == (width as int, height as int),
    {
        Resolution { width, height }
    }

    pub fn is_resolved(&self) -> (r: bool)
        ensures
            r == resolved(self@),
    {
        self.width >= 0 && self.height >= 0
    }

    /// The width when it is concrete.
    pub fn width(&self) -> (r: Option<usize>)
        ensures
            r is Some <==> self@.0 >= 0,
            r matches Some(w) ==> w == self@.0 && w <= isize::MAX,
    {
        if self.width >= 0 { Some(self.width as usize) } else { None }
    }

    /// The height when it is concrete.
    pub fn height(&self) -> (r: Option<usize>)
        ensures
            r is Some <==> self@.1 >= 0,
            r matches Some(h) ==> h == self@.1 && h <= isize::MAX,
    {
        if self.height >= 0 { Some(self.height as usize) } else { None }
    }

    /// Resolves the negative fields against the aspect ratio of `relative_to`.
    pub fn resolve_fields(&self, relative_to: Resolution) -> (r: Result<Resolution, ResolveError>)
        ensures
            match r {
                Ok(v) => resolve_spec(self@, relative_to@) == Ok::<(int, int), ResolveError>(v@),
                Err(e) => resolve_spec(self@, relative_to@) == Err::<(int, int), ResolveError>(e),
            },
    {
        if !relative_to.is_resolved() {
            Err(ResolveError::InvalidReference)
        } else if self.width >= 0 && self.height >= 0 {
            Ok(*self)
        } else if self.width < 0 && self.height < 0 {
            Err(ResolveError::Underspecified)
        } else if self.width < 0 {
            let w = derive_dimension(self.height, relative_to.width, relative_to.height, self.width == EVEN);
            Ok(Resolution { width: w, height: self.height })
        } else {
            let h = derive_dimension(self.width, relative_to.height, relative_to.width, self.height == EVEN);
            Ok(Resolution { width: self.width, height: h })
        }
    }
}

/// A derived dimension is never negative and never above `isize::MAX`.
proof fn lemma_derived_dimension_in_range(known: int, num: int, den: int, even: bool)
    requires
        known >= 0,
        num >= 0,
        den >= 0,
    ensures
        0 <= derived_dimension(known, num, den, even) <= isize::MAX,
{
    if den > 0 {
        assert(known * num >= 0) by (nonlinear_arith)
            requires known >= 0, num >= 0;
        assert((known * num + den) / (2 * den) >= 0) by (nonlinear_arith)
            requires known * num >= 0, den > 0;
        assert((2 * known * num + den) / (2 * den) >= 0) by (nonlinear_arith)
            requires known * num >= 0, den > 0;
    }
}

/// Resolving a resolution with exactly one negative field against a resolved
/// reference succeeds, gives a resolved resolution, and keeps the concrete
/// field as it was.
pub proof fn lemma_resolve_one_negative(r: (int, int), rel: (int, int))
    requires
        resolved(rel),
        r.0 < 0 || r.1 < 0,
        r.0 >= 0 || r.1 >= 0,
    ensures
        resolve_spec(r, rel) is Ok,
        resolved(resolve_spec(r, rel)->Ok_0),
        r.0 >= 0 ==> resolve_spec(r, rel)->Ok_0.0 == r.0,
        r.1 >= 0 ==> resolve_spec(r, rel)->Ok_0.1 == r.1,
{
    if r.0 < 0 {
        lemma_derived_dimension_in_range(r.1, rel.0, rel.1, r.0 == EVEN);
    } else {
        lemma_derived_dimension_in_range(r.0, rel.1, rel.0, r.1 == EVEN);
    }
}

/// Resolving a resolved resolution against a resolved reference gives it
/// back unchanged.
pub proof fn lemma_resolve_resolved_is_identity(r: (int, int), rel: (int, int))
    requires
        resolved(r),
        resolved(rel),
    ensures
        resolve_spec(r, rel) == Ok::<(int, int), ResolveError>(r),
{
}

/// Resolving fails when both fields are negative, and whenever the reference
/// is not resolved.
pub proof fn lemma_resolve_fails(r: (int, int), rel: (int, int))
    ensures
        (r.0 < 0 && r.1 < 0) ==> resolve_spec(r, rel) is Err,
        !resolved(rel) ==> resolve_spec(r, rel) == Err::<(int, int), ResolveError>(
            ResolveError::InvalidReference,
        ),
{
}

/// Pixel `(x, y)` lies inside a `w` by `h` frame.
pub open spec fn in_bounds(w: int, h: int, x: int, y: int) -> bool {
    0 <= x < w && 0 <= y < h
}

/// Offset of the first byte of pixel `(x, y)` in a frame of width `w`.
pub open spec fn pixel_offset(w: int, x: int, y: int) -> int {
    (y * w + x) * 3
}

/// The three channels of pixel `(x, y)`.
pub open spec fn rgb_at(s: Seq<u8>, w: int, x: int, y: int) -> (u8, u8, u8) {
    let i = pixel_offset(w, x, y);
    (s[i], s[i + 1], s[i + 2])
}

/// The bytes with pixel `(x, y)` set to `c`.
pub open spec fn with_rgb(s: Seq<u8>, w: int, x: int, y: int, c: (u8, u8, u8)) -> Seq<u8> {
    let i = pixel_offset(w, x, y);
    s.update(i, c.0).update(i + 1, c.1).update(i + 2, c.2)
}

/// Luma in thousandths of a channel unit: `0.299 r + 0.587 g + 0.114 b`,
/// times 1000.
pub open spec fn luma_milli(c: (u8, u8, u8)) -> int {
    299 * c.0 + 587 * c.1 + 114 * c.2
}

/// A `width` by `height` grid of RGB pixels over a borrowed byte buffer,
/// three bytes per pixel in row-major order.
pub struct Frame<'a> {
    pub width: isize,
    pub height: isize,
    pub buffer: &'a mut [u8],
}

impl<'a> Frame<'a> {
    /// The buffer holds exactly `width * height * 3` bytes.
    pub open spec fn wf(&self) -> bool {
        self.width >= 0 && self.height >= 0 && self.buffer@.len() == self.width * self.height * 3
    }

    /// The frame's contents.
    pub open spec fn bytes(&self) -> Seq<u8> {
        self.buffer@
    }

    /// A view of `buffer` as a `width` by `height` frame.
    pub fn new(width: isize, height: isize, buffer: &'a mut [u8]) -> (r: Self)
        requires
            width >= 0,
            height >= 0,
            old(buffer)@.len() == width * height * 3,
        ensures
            r.wf(),
            r.width == width,
            r.height == height,
            r.bytes() == old(buffer)@,
            final(buffer)@ == final(r.buffer)@,
    {
        Frame { width, height, buffer }
    }
}


/// A pixel inside the frame occupies three bytes inside the buffer.
pub proof fn lemma_pixel_offset_in_buffer(w: int, h: int, x: int, y: int)
    requires
        in_bounds(w, h, x, y),
    ensures
        0 <= pixel_offset(w, x, y),
        pixel_offset(w, x, y) + 3 <= w * h * 3,
{
    assert(0 <= y * w + x < w * h) by (nonlinear_arith)
        requires 0 <= x < w, 0 <= y < h;
}

impl<'a> Frame<'a> {
    /// Offset of the first byte of pixel `(x, y)`, when the pixel is inside.
    fn coordinate_to_index(&self, x: isize, y: isize) -> (r: Option<usize>)
        requires
            self.wf(),
        ensures
            r == (if in_bounds(self.width as int, self.height as int, x as int, y as int) {
                Some(pixel_offset(self.width as int, x as int, y as int) as usize)
            } else {
                None::<usize>
            }),
            r is Some ==> r->Some_0 == pixel_offset(self.width as int, x as int, y as int),
            r is Some ==> r->Some_0 + 3 <= self.bytes().len(),
    {
        if 0 <= x && x < self.width && 0 <= y && y < self.height {
            proof {
                lemma_pixel_offset_in_buffer(self.width as int, self.height as int, x as int, y as int);
            }
            let n = self.buffer.len();
            let yy = y as usize;
            let xx = x as usize;
            let w = self.width as usize;
            assert(yy * w + xx == y * self.width + x) by (nonlinear_arith)
                requires yy == y, xx == x, w == self.width;
            assert((y * self.width + x) * 3 + 3 <= n);
            Some((yy * w + xx) * 3)
        } else {
            None
        }
    }

    /// The channels of pixel `(x, y)`, or `None` outside the frame.
    pub fn get_rgb(&self, x: isize, y: isize) -> (r: Option<(u8, u8, u8)>)
        requires
            self.wf(),
        ensures
            r == (if in_bounds(self.width as int, self.height as int, x as int, y as int) {
                Some(rgb_at(self.bytes(), self.width as int, x as int, y as int))
            } else {
                None::<(u8, u8, u8)>
            }),
    {
        match self.coordinate_to_index(x, y) {
            Some(i) => Some((self.buffer[i], self.buffer[i + 1], self.buffer[i + 2])),
            None => None,
        }
    }

    /// The luma of pixel `(x, y)` in thousandths of a channel unit, or
    /// `None` outside the frame.
    pub fn get_gray(&self, x: isize, y: isize) -> (r: Option<u32>)
        requires
            self.wf(),
        ensures
            r == (if in_bounds(self.width as int, self.height as int, x as int, y as int) {
                Some(luma_milli(rgb_at(self.bytes(), self.width as int, x as int, y as int)) as u32)
            } else {
                None::<u32>
            }),
    {
        match self.get_rgb(x, y) {
            Some((r, g, b)) => Some(299 * (r as u32) + 587 * (g as u32) + 114 * (b as u32)),
            None => None,
        }
    }

    /// Sets pixel `(x, y)` to `rgb`; `false`, with nothing written, outside
    /// the frame.
    pub fn set_rgb(&mut self, x: isize, y: isize, rgb: (u8, u8, u8)) -> (r: bool)
        requires
            old(self).wf(),
        ensures
            r == in_bounds(old(self).width as int, old(self).height as int, x as int, y as int),
            final(self).wf(),
            final(self).width == old(self).width,
            final(self).height == old(self).height,
            final(self).bytes() == (if r {
                with_rgb(old(self).bytes(), old(self).width as int, x as int, y as int, rgb)
            } else {
                old(self).bytes()
            }),
            final(final(self).buffer)@ == final(old(self).buffer)@,
    {
        match self.coordinate_to_index(x, y) {
            Some(i) => {
                self.buffer[i] = rgb.0;
                self.buffer[i + 1] = rgb.1;
                self.buffer[i + 2] = rgb.2;
                true
            },
            None => false,
        }
    }

    /// Sets all three channels of pixel `(x, y)` to `v`; `false` outside the
    /// frame.
    pub fn set_gray(&mut self, x: isize, y: isize, v: u8) -> (r: bool)
        requires
            old(self).wf(),
        ensures
            r == in_bounds(old(self).width as int, old(self).height as int, x as int, y as int),
            final(self).wf(),
            final(self).width == old(self).width,
            final(self).height == old(self).height,
            final(self).bytes() == (if r {
                with_rgb(old(self).bytes(), old(self).width as int, x as int, y as int, (v, v, v))
            } else {
                old(self).bytes()
            }),
            final(final(self).buffer)@ == final(old(self).buffer)@,
    {
        self.set_rgb(x, y, (v, v, v))
    }
}

/// Setting a pixel inside the frame and reading it back gives what was set.
pub proof fn lemma_set_then_get(s: Seq<u8>, w: int, h: int, x: int, y: int, c: (u8, u8, u8))
    requires
        s.len() == w * h * 3,
        in_bounds(w, h, x, y),
    ensures
        with_rgb(s, w, x, y, c).len() == s.len(),
        rgb_at(with_rgb(s, w, x, y, c), w, x, y) == c,
{
    lemma_pixel_offset_in_buffer(w, h, x, y);
}

} // verus!
