//! The patch renderer: samples of a time/value window drawn as RGBA pixels.

use vstd::prelude::*;
use crate::{Color, Error, Point, Time, Value};
use crate::store::{Store, is_range_of};

verus! {

/// Each pixel takes four bytes: red, green, blue and alpha.
pub const BYTES_PER_PIXEL: usize = 4;

/// How a sample is drawn.
#[derive(Clone, Copy, Debug, PartialEq, Eq, Structural)]
pub enum PointStyle {
    /// One pixel.
    Point,
    /// Five pixels: the centre and its four diagonal neighbours.
    Cross,
}

/// What a patch shows: its size in pixels, the window of times and values
/// that it covers, and how samples are drawn.
pub struct Frame {
    /// The width of the patch in pixels.
    pub w: int,
    /// The height of the patch in pixels.
    pub h: int,
    /// The first time that the patch covers.
    pub t0: Time,
    /// The first time after those that the patch covers.
    pub t1: Time,
    /// The lowest value that the patch covers.
    pub v0: Value,
    /// The first value above those that the patch covers.
    pub v1: Value,
    /// How a sample is drawn.
    pub style: PointStyle,
    /// The colors of the channels; they repeat where the channels outnumber them.
    pub cols: Seq<Color>,
}

/// The frame that the arguments of the renderer describe.
pub open spec fn frame_of(
    cols: Seq<Color>,
    pbw: usize,
    pbh: usize,
    t0: Time,
    t1: Time,
    v0: Value,
    v1: Value,
    style: PointStyle,
) -> Frame {
    Frame { w: pbw as int, h: pbh as int, t0, t1, v0, v1, style, cols }
}

/// The buffer `pb` of a patch `w` pixels wide and `h` high after the pixel at
/// `(x, y)` has been set to `col`, fully opaque. A pixel outside the patch
/// leaves the buffer as it is.
pub open spec fn set_pixel(pb: Seq<u8>, w: int, h: int, x: int, y: int, col: Color) -> Seq<u8> {
    if 0 <= x < w && 0 <= y < h {
        let i = BYTES_PER_PIXEL * (w * y + x);
        pb.update(i, col.0).update(i + 1, col.1).update(i + 2, col.2).update(i + 3, 255u8)
    } else {
        pb
    }
}

/// The buffer after a cross has been drawn around `(x, y)`. The pixels of the
/// cross that fall outside the patch are left out.
pub open spec fn set_cross(pb: Seq<u8>, w: int, h: int, x: int, y: int, col: Color) -> Seq<u8> {
    let a = set_pixel(pb, w, h, x - 1, y - 1, col);
    let b = set_pixel(a, w, h, x + 1, y - 1, col);
    let c = set_pixel(b, w, h, x, y, col);
    let d = set_pixel(c, w, h, x - 1, y + 1, col);
    set_pixel(d, w, h, x + 1, y + 1, col)
}

/// The buffer after a sample has been drawn at `(x, y)` in the given style.
pub open spec fn plot(
    style: PointStyle,
    pb: Seq<u8>,
    w: int,
    h: int,
    x: int,
    y: int,
    col: Color,
) -> Seq<u8> {
    match style {
        PointStyle::Point => set_pixel(pb, w, h, x, y, col),
        PointStyle::Cross => set_cross(pb, w, h, x, y, col),
    }
}

/// The pixel column of time `t`: `floor((t - t0) / (t1 - t0) * w)`.
pub open spec fn column_of(f: Frame, t: Time) -> int {
    ((t - f.t0) * f.w) / (f.t1 - f.t0)
}

/// How many pixel rows value `v` lies above the lowest value of the patch:
/// `floor((v - v0) / (v1 - v0) * h)`.
pub open spec fn level_of(f: Frame, v: Value) -> int {
    ((v - f.v0) * f.h) / (f.v1 - f.v0)
}

/// The value `v` lies inside the window of values `[v0, v1)`.
pub open spec fn in_window(f: Frame, v: Value) -> bool {
    f.v0 <= v < f.v1
}

/// The buffer after channel `ch` of a sample in column `x` has been drawn. A
/// value outside the window is clipped: it leaves the buffer as it is. The
/// vertical axis is mirrored, so that larger values lie higher on screen.
pub open spec fn plot_sample(f: Frame, pb: Seq<u8>, x: int, vs: Seq<Value>, ch: int) -> Seq<u8> {
    if in_window(f, vs[ch]) {
        plot(f.style, pb, f.w, f.h, x, f.h - level_of(f, vs[ch]), f.cols[ch % f.cols.len() as int])
    } else {
        pb
    }
}

/// The buffer after the first `n` channels of a sample in column `x` have been drawn.
pub open spec fn plot_channels(f: Frame, pb: Seq<u8>, x: int, vs: Seq<Value>, n: int) -> Seq<u8>
    decreases n,
{
    if n <= 0 {
        pb
    } else {
        plot_sample(f, plot_channels(f, pb, x, vs, n - 1), x, vs, n - 1)
    }
}

/// The buffer after the samples of `m` with a time in `[t0, upto)` have been
/// drawn, earliest first.
pub open spec fn rendered_upto(
    f: Frame,
    pb: Seq<u8>,
    m: Map<Time, Seq<Value>>,
    upto: int,
) -> Seq<u8>
    decreases upto - f.t0,
{
    if upto <= f.t0 {
        pb
    } else {
        let before = rendered_upto(f, pb, m, upto - 1);
        let t = (upto - 1) as Time;
        if m.contains_key(t) {
            plot_channels(f, before, column_of(f, t), m[t], m[t].len() as int)
        } else {
            before
        }
    }
}

/// The buffer after the samples of `m` with a time in `[t0, t1)` have been
/// drawn, earliest first, each channel in turn.
pub open spec fn rendered(f: Frame, pb: Seq<u8>, m: Map<Time, Seq<Value>>) -> Seq<u8> {
    rendered_upto(f, pb, m, f.t1 as int)
}

/// The renderer accepts a patch that is at least one pixel wide, with at least
/// one color, and a buffer of four bytes for each of its pixels.
pub open spec fn patch_fits(len: nat, colors: nat, w: int, h: int) -> bool {
    w >= 1 && colors >= 1 && len == BYTES_PER_PIXEL * w * h
}

/// Byte `k` of a pixel of color `col`: red, green, blue, then full alpha.
pub open spec fn pixel_byte(col: Color, k: int) -> u8 {
    if k == 0 {
        col.0
    } else if k == 1 {
        col.1
    } else if k == 2 {
        col.2
    } else {
        255u8
    }
}

/// A buffer of `n` pixels, each of color `col` and fully opaque.
pub open spec fn filled(n: int, col: Color) -> Seq<u8> {
    Seq::new((BYTES_PER_PIXEL * n) as nat, |k: int| pixel_byte(col, k % 4))
}

/// Set the pixel at `(x, y)` to `col`, if it lies inside the patch.
pub fn point_func_point(x: usize, y: usize, pbw: usize, pbh: usize, pb: &mut [u8], col: Color)
    requires
        old(pb)@.len() == BYTES_PER_PIXEL * pbw * pbh,
    ensures
        final(pb)@ == set_pixel(old(pb)@, pbw as int, pbh as int, x as int, y as int, col),
        final(pb)@.len() == old(pb)@.len(),
{
    if x < pbw && y < pbh {
        proof {
            lemma_pixel_in_buffer(pbw as int, pbh as int, x as int, y as int);
            assert(pb.len() == pb@.len());
        }
        let i = BYTES_PER_PIXEL * (pbw * y + x);
        pb[i] = col.0;
        pb[i + 1] = col.1;
        pb[i + 2] = col.2;
        pb[i + 3] = 255;
    }
}

/// Draw a cross around `(x, y)`: the pixel itself and its four diagonal
/// neighbours, as far as they lie inside the patch.
pub fn point_func_cross(x: usize, y: usize, pbw: usize, pbh: usize, pb: &mut [u8], col: Color)
    requires
        old(pb)@.len() == BYTES_PER_PIXEL * pbw * pbh,
        x < usize::MAX,
        y < usize::MAX,
    ensures
        final(pb)@ == set_cross(old(pb)@, pbw as int, pbh as int, x as int, y as int, col),
        final(pb)@.len() == old(pb)@.len(),
{
    if x >= 1 && y >= 1 {
        point_func_point(x - 1, y - 1, pbw, pbh, pb, col);
    }
    if y >= 1 {
        point_func_point(x + 1, y - 1, pbw, pbh, pb, col);
    }
    point_func_point(x, y, pbw, pbh, pb, col);
    if x >= 1 {
        point_func_point(x - 1, y + 1, pbw, pbh, pb, col);
    }
    point_func_point(x + 1, y + 1, pbw, pbh, pb, col);
}

/// Draw a sample at `(x, y)` in the given style.
pub fn point_func_select(
    style: PointStyle,
    x: usize,
    y: usize,
    pbw: usize,
    pbh: usize,
    pb: &mut [u8],
    col: Color,
)
    requires
        old(pb)@.len() == BYTES_PER_PIXEL * pbw * pbh,
        x < usize::MAX,
        y < usize::MAX,
    ensures
        final(pb)@ == plot(style, old(pb)@, pbw as int, pbh as int, x as int, y as int, col),
        final(pb)@.len() == old(pb)@.len(),
{
    match style {
        PointStyle::Point => point_func_point(x, y, pbw, pbh, pb, col),
        PointStyle::Cross => point_func_cross(x, y, pbw, pbh, pb, col),
    }
}

/// Draw the samples of `store` with a time in `[t0, t1)` into the buffer `pb`
/// of a patch `pbw` pixels wide and `pbh` high, which shows the values in
/// `[v0, v1)`.
///
/// The buffer holds four bytes for each pixel, row after row, and comes filled
/// with the background: the function writes the pixels of the samples and no
/// others. It refuses a patch less than one pixel wide, an empty list of
/// colors and a buffer of another size than the patch, and then leaves the
/// buffer as it is.
pub fn render_patch_to_bytes(
    store: &Store,
    cols: &[Color],
    pb: &mut [u8],
    pbw: usize,
    pbh: usize,
    t0: Time,
    t1: Time,
    v0: Value,
    v1: Value,
    style: PointStyle,
) -> (r: Result<(), Error>)
    requires
        store.wf(),
    ensures
        r is Ok <==> patch_fits(old(pb)@.len(), cols@.len(), pbw as int, pbh as int),
        r is Ok ==> final(pb)@ == rendered(
            frame_of(cols@, pbw, pbh, t0, t1, v0, v1, style),
            old(pb)@,
            store@,
        ),
        r is Err ==> r == Err::<(), Error>(Error::RenderInvariantViolation) && final(pb)@ == old(
            pb,
        )@,
        final(pb)@.len() == old(pb)@.len(),
{
    if pbw == 0 || cols.len() == 0 || !buffer_fits(pb.len(), pbw, pbh) {
        return Err(Error::RenderInvariantViolation);
    }
    let ghost f = frame_of(cols@, pbw, pbh, t0, t1, v0, v1, style);
    let ghost m = store@;
    let points = match store.query_range(t0, t1) {
        Ok(points) => points,
        Err(e) => {
            return Err(e);
        },
    };
    let mut i: usize = 0;
    while i < points.len()
        invariant
            i <= points@.len(),
            f == frame_of(cols@, pbw, pbh, t0, t1, v0, v1, style),
            m == store@,
            is_range_of(points@, m, t0, t1),
            patch_fits(pb@.len(), cols@.len(), pbw as int, pbh as int),
            pb@.len() == old(pb)@.len(),
            pb@ == rendered_upto(f, old(pb)@, m, drawn_upto(points@, i as int, t0)),
        decreases points@.len() - i,
    {
        let p = &points[i];
        let ghost before = pb@;
        proof {
            lemma_next_point(f, old(pb)@, m, points@, i as int);
        }
        let x = scaled(p.t - t0, t1 - t0, pbw);
        render_channels(p.vs.as_slice(), cols, pb, pbw, pbh, x, v0, v1, style, Ghost(f));
        i += 1;
    }
    proof {
        lemma_last_gap(f, old(pb)@, m, points@);
    }
    Ok(())
}

/// Draw the samples of `store` with a time in `[t0, t1)` as a patch `pw`
/// pixels wide and `ph` high, which shows the values in `[v0, v1)` on the
/// color `background`.
///
/// The result holds four bytes for each pixel, row after row. The function
/// refuses a patch less than one pixel wide, an empty list of colors, and a
/// patch whose buffer would not fit in memory.
pub fn render_patch(
    store: &Store,
    cols: &[Color],
    pw: usize,
    ph: usize,
    t0: Time,
    t1: Time,
    v0: Value,
    v1: Value,
    style: PointStyle,
    background: Color,
) -> (r: Result<Vec<u8>, Error>)
    requires
        store.wf(),
    ensures
        r is Ok <==> pw >= 1 && cols@.len() >= 1 && BYTES_PER_PIXEL * pw * ph <= usize::MAX,
        r is Ok ==> r->Ok_0@ == rendered(
            frame_of(cols@, pw, ph, t0, t1, v0, v1, style),
            filled(pw * ph, background),
            store@,
        ),
        r is Ok ==> r->Ok_0@.len() == BYTES_PER_PIXEL * pw * ph,
        r is Err ==> r == Err::<Vec<u8>, Error>(Error::RenderInvariantViolation),
{
    if pw == 0 || cols.len() == 0 {
        return Err(Error::RenderInvariantViolation);
    }
    let pixels = match pw.checked_mul(ph) {
        Some(n) => n,
        None => {
            assert(BYTES_PER_PIXEL * pw * ph > usize::MAX) by (nonlinear_arith)
                requires
                    pw * ph > usize::MAX,
            ;
            return Err(Error::RenderInvariantViolation);
        },
    };
    assert(BYTES_PER_PIXEL * pw * ph == BYTES_PER_PIXEL * pixels) by (nonlinear_arith)
        requires
            pixels == pw * ph,
    ;
    if pixels > usize::MAX / BYTES_PER_PIXEL {
        return Err(Error::RenderInvariantViolation);
    }
    let mut buf = fill(pixels, background);
    match render_patch_to_bytes(store, cols, buf.as_mut_slice(), pw, ph, t0, t1, v0, v1, style) {
        Ok(()) => Ok(buf),
        Err(e) => Err(e),
    }
}

/// Draw the channels of one sample into column `x`.
fn render_channels(
    vs: &[Value],
    cols: &[Color],
    pb: &mut [u8],
    pbw: usize,
    pbh: usize,
    x: usize,
    v0: Value,
    v1: Value,
    style: PointStyle,
    Ghost(f): Ghost<Frame>,
)
    requires
        f.w == pbw,
        f.h == pbh,
        f.v0 == v0,
        f.v1 == v1,
        f.style == style,
        f.cols == cols@,
        patch_fits(old(pb)@.len(), cols@.len(), pbw as int, pbh as int),
        x < pbw,
    ensures
        final(pb)@ == plot_channels(f, old(pb)@, x as int, vs@, vs@.len() as int),
        final(pb)@.len() == old(pb)@.len(),
{
    proof {
        assert(pb.len() == pb@.len());
        assert(pbh == 0 || pbh < BYTES_PER_PIXEL * pbw * pbh) by (nonlinear_arith)
            requires
                pbw >= 1,
                pbh >= 0,
        ;
    }
    let mut ch: usize = 0;
    while ch < vs.len()
        invariant
            ch <= vs@.len(),
            f.w == pbw,
            f.h == pbh,
            f.v0 == v0,
            f.v1 == v1,
            f.style == style,
            f.cols == cols@,
            patch_fits(pb@.len(), cols@.len(), pbw as int, pbh as int),
            pbh < usize::MAX,
            x < pbw,
            pb@.len() == old(pb)@.len(),
            pb@ == plot_channels(f, old(pb)@, x as int, vs@, ch as int),
        decreases vs@.len() - ch,
    {
        let v = vs[ch];
        if v0 <= v && v < v1 {
            let col = cols[ch % cols.len()];
            let level = scaled((v - v0) as u32, (v1 - v0) as u32, pbh);
            point_func_select(style, x, pbh - level, pbw, pbh, pb, col);
        }
        ch += 1;
    }
}

/// `floor(a * n / d)` for `a < d`: the place of `a` on a scale of `n` steps
/// that spans `d`.
fn scaled(a: u32, d: u32, n: usize) -> (r: usize)
    requires
        a < d,
    ensures
        r == (a * n) / (d as int),
        n >= 1 ==> r < n,
        n == 0 ==> r == 0,
{
    proof {
        if n >= 1 {
            lemma_scaled_below(a as int, d as int, n as int);
        } else {
            assert(a * n == 0) by (nonlinear_arith)
                requires
                    n == 0,
            ;
        }
        assert(0 <= a * n <= 0xffff_ffff * 0xffff_ffff_ffff_ffff) by (nonlinear_arith)
            requires
                0 <= a <= 0xffff_ffff,
                0 <= n <= 0xffff_ffff_ffff_ffff,
        ;
    }
    let wide: u128 = (a as u128) * (n as u128) / (d as u128);
    wide as usize
}

/// Whether a buffer of `len` bytes holds four bytes for each pixel of a patch
/// `w` wide and `h` high.
fn buffer_fits(len: usize, w: usize, h: usize) -> (b: bool)
    ensures
        b == (len == BYTES_PER_PIXEL * w * h),
{
    match w.checked_mul(h) {
        Some(n) => match n.checked_mul(BYTES_PER_PIXEL) {
            Some(k) => {
                assert(k == BYTES_PER_PIXEL * w * h) by (nonlinear_arith)
                    requires
                        k == n * BYTES_PER_PIXEL,
                        n == w * h,
                ;
                k == len
            },
            None => {
                assert(BYTES_PER_PIXEL * w * h > usize::MAX) by (nonlinear_arith)
                    requires
                        n * BYTES_PER_PIXEL > usize::MAX,
                        n == w * h,
                ;
                false
            },
        },
        None => {
            assert(BYTES_PER_PIXEL * w * h > usize::MAX) by (nonlinear_arith)
                requires
                    w * h > usize::MAX,
            ;
            false
        },
    }
}

/// A fresh buffer of `n` pixels of color `col`.
fn fill(n: usize, col: Color) -> (buf: Vec<u8>)
    requires
        BYTES_PER_PIXEL * n <= usize::MAX,
    ensures
        buf@ == filled(n as int, col),
{
    let mut buf: Vec<u8> = Vec::with_capacity(BYTES_PER_PIXEL * n);
    let mut i: usize = 0;
    while i < n
        invariant
            i <= n,
            buf@ == filled(i as int, col),
        decreases n - i,
    {
        buf.push(col.0);
        buf.push(col.1);
        buf.push(col.2);
        buf.push(255);
        assert(buf@ =~= filled(i + 1, col));
        i += 1;
    }
    buf
}

/// Every time of the window has a pixel column inside the patch.
pub proof fn lemma_column_in_patch(f: Frame, t: Time)
    requires
        f.t0 <= t < f.t1,
        f.w >= 1,
    ensures
        0 <= column_of(f, t) < f.w,
{
    lemma_scaled_below(t - f.t0, f.t1 - f.t0, f.w);
}

/// A value of the window lies less than `h` rows above its lowest value; a
/// value at or above `v1` lies `h` rows above it, or more.
pub proof fn lemma_level_in_patch(f: Frame, v: Value)
    requires
        f.v0 < f.v1,
        f.v0 <= v,
        f.h >= 1,
    ensures
        in_window(f, v) <==> 0 <= level_of(f, v) < f.h,
        v >= f.v1 <==> level_of(f, v) >= f.h,
{
    if v < f.v1 {
        lemma_scaled_below(v - f.v0, f.v1 - f.v0, f.h);
    } else {
        lemma_scaled_above(v - f.v0, f.v1 - f.v0, f.h);
    }
}

/// A sample whose value lies outside the window `[v0, v1)` writes no pixel.
pub proof fn lemma_clipped_sample_writes_nothing(
    f: Frame,
    pb: Seq<u8>,
    x: int,
    vs: Seq<Value>,
    ch: int,
)
    requires
        !in_window(f, vs[ch]),
    ensures
        plot_sample(f, pb, x, vs, ch) == pb,
{
}

/// Where `m` holds no sample with a time in `[a, b)`, drawing up to `b` gives
/// what drawing up to `a` gives.
pub proof fn lemma_rendered_gap(f: Frame, pb: Seq<u8>, m: Map<Time, Seq<Value>>, a: int, b: int)
    requires
        f.t0 <= a <= b <= f.t1,
        forall|t: Time| a <= t < b ==> !m.contains_key(t),
    ensures
        rendered_upto(f, pb, m, b) == rendered_upto(f, pb, m, a),
    decreases b - a,
{
    if a < b {
        lemma_rendered_gap(f, pb, m, a, b - 1);
        assert(!m.contains_key((b - 1) as Time));
    }
}

/// Two sets of samples hold the same at time `t`: both nothing, or both the
/// same values.
pub open spec fn agree_at(m1: Map<Time, Seq<Value>>, m2: Map<Time, Seq<Value>>, t: Time) -> bool {
    m1.contains_key(t) == m2.contains_key(t) && (m1.contains_key(t) ==> m1[t] == m2[t])
}

/// Rendering looks at the samples of the window only: two sets of samples
/// that agree on every time in `[t0, upto)` give the same bytes, whatever
/// they hold at other times.
pub proof fn lemma_render_depends_on_window(
    f: Frame,
    pb: Seq<u8>,
    m1: Map<Time, Seq<Value>>,
    m2: Map<Time, Seq<Value>>,
    upto: int,
)
    requires
        upto <= f.t1,
        forall|t: Time| f.t0 <= t < upto ==> #[trigger] agree_at(m1, m2, t),
    ensures
        rendered_upto(f, pb, m1, upto) == rendered_upto(f, pb, m2, upto),
    decreases upto - f.t0,
{
    if upto > f.t0 {
        lemma_render_depends_on_window(f, pb, m1, m2, upto - 1);
        assert(agree_at(m1, m2, (upto - 1) as Time));
    }
}

/// Rendering depends on its arguments alone: two buffers that each hold what
/// the renderer gives for one frame, one background and one set of samples
/// are equal, byte for byte.
pub proof fn lemma_render_deterministic(
    f: Frame,
    pb: Seq<u8>,
    m: Map<Time, Seq<Value>>,
    first: Seq<u8>,
    second: Seq<u8>,
)
    requires
        first == rendered(f, pb, m),
        second == rendered(f, pb, m),
    ensures
        first == second,
{
}

/// With `0 <= a < d`, `floor(a * n / d)` lies in `0..n`.
proof fn lemma_scaled_below(a: int, d: int, n: int)
    requires
        0 <= a < d,
        0 < n,
    ensures
        0 <= (a * n) / d < n,
{
    assert(0 <= a * n && a * n < d * n) by (nonlinear_arith)
        requires
            0 <= a < d,
            0 < n,
    ;
    assert(0 <= (a * n) / d < n) by (nonlinear_arith)
        requires
            0 <= a * n < d * n,
            0 < d,
    ;
}

/// With `0 < d <= a`, `floor(a * n / d)` is at least `n`.
proof fn lemma_scaled_above(a: int, d: int, n: int)
    requires
        0 < d <= a,
        0 <= n,
    ensures
        (a * n) / d >= n,
{
    assert(a * n >= d * n) by (nonlinear_arith)
        requires
            0 < d <= a,
            0 <= n,
    ;
    assert((a * n) / d >= n) by (nonlinear_arith)
        requires
            a * n >= d * n,
            0 < d,
    ;
}

/// The four bytes of a pixel inside a patch lie inside its buffer.
proof fn lemma_pixel_in_buffer(w: int, h: int, x: int, y: int)
    requires
        0 <= x < w,
        0 <= y < h,
    ensures
        0 <= w * y + x < w * h,
        0 <= BYTES_PER_PIXEL * (w * y + x),
        BYTES_PER_PIXEL * (w * y + x) + 3 < BYTES_PER_PIXEL * w * h,
{
    assert(0 <= w * y && w * y + w <= w * h) by (nonlinear_arith)
        requires
            0 <= y < h,
            0 < w,
    ;
    assert(BYTES_PER_PIXEL * w * h == 4 * (w * h)) by (nonlinear_arith);
}

/// The time up to which the samples have been drawn once the first `i`
/// points of `points` are done.
spec fn drawn_upto(points: Seq<Point>, i: int, t0: Time) -> int {
    if i <= 0 {
        t0 as int
    } else {
        points[i - 1].t + 1
    }
}

/// Drawing the next point of a range takes the buffer from what the points
/// before it gave to what the points up to it give.
proof fn lemma_next_point(
    f: Frame,
    pb: Seq<u8>,
    m: Map<Time, Seq<Value>>,
    points: Seq<Point>,
    i: int,
)
    requires
        is_range_of(points, m, f.t0, f.t1),
        0 <= i < points.len(),
    ensures
        f.t0 <= points[i].t < f.t1,
        rendered_upto(f, pb, m, drawn_upto(points, i + 1, f.t0)) == plot_channels(
            f,
            rendered_upto(f, pb, m, drawn_upto(points, i, f.t0)),
            column_of(f, points[i].t),
            points[i].vs@,
            points[i].vs@.len() as int,
        ),
{
    let a = drawn_upto(points, i, f.t0);
    let b = points[i].t as int;
    assert(f.t0 <= points[i].t < f.t1);
    if i > 0 {
        assert(points[i - 1].t < points[i].t);
        assert(f.t0 <= points[i - 1].t);
    }
    assert forall|t: Time| a <= t < b implies !m.contains_key(t) by {
        if m.contains_key(t) {
            let j = choose|j: int| 0 <= j < points.len() && points[j].t == t;
            if j < i {
                if j < i - 1 {
                    assert(points[j].t < points[i - 1].t);
                }
            } else if j > i {
                assert(points[i].t < points[j].t);
            }
        }
    }
    lemma_rendered_gap(f, pb, m, a, b);
    assert((b + 1 - 1) as Time == points[i].t);
}

/// After the last point of a range, nothing is left to draw.
proof fn lemma_last_gap(f: Frame, pb: Seq<u8>, m: Map<Time, Seq<Value>>, points: Seq<Point>)
    requires
        is_range_of(points, m, f.t0, f.t1),
    ensures
        rendered(f, pb, m) == rendered_upto(
            f,
            pb,
            m,
            drawn_upto(points, points.len() as int, f.t0),
        ),
{
    let n = points.len() as int;
    let a = drawn_upto(points, n, f.t0);
    if n > 0 {
        assert(f.t0 <= points[n - 1].t < f.t1);
    }
    if f.t0 <= f.t1 {
        assert forall|t: Time| a <= t < f.t1 implies !m.contains_key(t) by {
            if m.contains_key(t) {
                let j = choose|j: int| 0 <= j < points.len() && points[j].t == t;
                if j < n - 1 {
                    assert(points[j].t < points[n - 1].t);
                }
            }
        }
        lemma_rendered_gap(f, pb, m, a, f.t1 as int);
    }
}

} // verus!
