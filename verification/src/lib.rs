//! Escape-time fractal rendering library: render configuration, cache and
//! render planning, box-filter downsampling, colormap selection and palette
//! parsing, and animation frame orchestration.
//!
//! Real-valued configuration fields (centers, zoom, Julia constants, color
//! multiplier and offset) are carried as IEEE 754 bit patterns: the library's
//! decisions never depend on their numeric value, only on their identity.

pub mod animation;
pub mod colors;
pub mod text;

use vstd::arithmetic::div_mod::{
    lemma_fundamental_div_mod, lemma_mod_division_less_than_divisor, lemma_multiply_divide_lt,
};
use vstd::arithmetic::mul::lemma_mul_is_associative;
use vstd::prelude::*;

verus! {

/// The failures the library itself can detect: a configuration the renderer
/// rejects (an image width that is not a multiple of the kernel lane width,
/// or dimensions too large to supersample), and a palette, gradient or points
/// file whose lines do not parse.
#[derive(Clone, Copy, Debug, PartialEq, Eq, Structural)]
pub enum FractalError {
    Configuration,
    Parse,
}

/// The kernel iterates eight pixels in lockstep; image widths must be a
/// multiple of this lane width.
pub const LANE_WIDTH: u32 = 8;

/// IEEE 754 double-precision bit pattern of zero.
pub const F64_ZERO_BITS: u64 = 0;

/// IEEE 754 double-precision bit pattern of one.
pub const F64_ONE_BITS: u64 = 0x3ff0_0000_0000_0000;

/// One render's full configuration. Immutable once built; every field takes
/// part in the cache fingerprint. The real-valued fields hold IEEE 754
/// double-precision bit patterns.
#[derive(Clone)]
pub struct FractalCfg {
    /// Image width in pixels; must be a multiple of [`LANE_WIDTH`].
    pub width: u32,
    /// Image height in pixels.
    pub height: u32,
    /// Iteration budget of the escape-time kernel.
    pub max_iterations: u32,
    /// Bit pattern of the real part of the view center.
    pub center_r: u64,
    /// Bit pattern of the imaginary part of the view center.
    pub center_i: u64,
    /// Bit pattern of the zoom factor.
    pub zoom: u64,
    /// Bit pattern of the real part of the Julia constant.
    pub cr: u64,
    /// Bit pattern of the imaginary part of the Julia constant.
    pub ci: u64,
    /// Bit pattern of the color multiplier.
    pub multiplier: u64,
    /// Render a Julia set rather than the Mandelbrot set.
    pub julia: bool,
    /// Bit pattern of the color offset.
    pub offset: u64,
    /// Colormap selector, as given on the command line.
    pub colormap: String,
    /// Render at doubled resolution, then box-filter back down.
    pub downsample: bool,
}

impl Default for FractalCfg {
    /// An 800 by 800 Mandelbrot render, 256 iterations, centered at the
    /// origin at zoom one, hot colormap, no supersampling.
    fn default() -> (c: Self)
        ensures
            c.width == 800,
            c.height == 800,
            c.max_iterations == 256,
            c.center_r == F64_ZERO_BITS,
            c.center_i == F64_ZERO_BITS,
            c.zoom == F64_ONE_BITS,
            c.cr == F64_ZERO_BITS,
            c.ci == F64_ZERO_BITS,
            c.multiplier == F64_ONE_BITS,
            !c.julia,
            c.offset == F64_ZERO_BITS,
            c.colormap@ == "hot"@,
            !c.downsample,
    {
        FractalCfg {
            width: 800,
            height: 800,
            max_iterations: 256,
            center_r: F64_ZERO_BITS,
            center_i: F64_ZERO_BITS,
            zoom: F64_ONE_BITS,
            cr: F64_ZERO_BITS,
            ci: F64_ZERO_BITS,
            multiplier: F64_ONE_BITS,
            julia: false,
            offset: F64_ZERO_BITS,
            colormap: "hot".to_owned(),
            downsample: false,
        }
    }
}

/// Whether two byte buffers hold the same bytes.
pub fn bytes_eq(a: &Vec<u8>, b: &Vec<u8>) -> (r: bool)
    ensures
        r == (a@ == b@),
{
    if a.len() != b.len() {
        return false;
    }
    let mut i: usize = 0;
    while i < a.len()
        invariant
            i <= a.len(),
            a@.len() == b@.len(),
            forall|j: int| 0 <= j < i ==> a@[j] == b@[j],
        decreases a.len() - i,
    {
        if a[i] != b[i] {
            return false;
        }
        i = i + 1;
    }
    proof {
        assert(a@ =~= b@);
    }
    true
}

/// The path of the metadata file that carries a render's fingerprint,
/// beside the image file.
pub fn metadata_path(output: &str) -> (p: String)
    ensures
        p@ == output@ + ".json"@,
{
    let mut p = output.to_owned();
    p.append(".json");
    p
}

/// The path of the optional raw kernel dump beside the image file.
pub fn bin_path(output: &str) -> (p: String)
    ensures
        p@ == output@ + ".bin"@,
{
    let mut p = output.to_owned();
    p.append(".bin");
    p
}

/// What one render call should do: nothing, because the persisted
/// fingerprint already matches, or run the kernel at the given dimensions
/// (doubled when supersampling is on).
#[derive(Clone, Copy, Debug, PartialEq, Eq, Structural)]
pub enum RenderPlan {
    Skip,
    Render { width: u32, height: u32 },
}

/// The render decision: skip when the prior fingerprint is byte-identical
/// to the current one; otherwise reject a width that is not a multiple of
/// the lane width, or dimensions that cannot be doubled, and else render at
/// the configured dimensions, doubled when supersampling is requested.
pub open spec fn spec_render_plan(
    cfg: FractalCfg,
    prev: Option<Seq<u8>>,
    cur: Seq<u8>,
) -> Result<RenderPlan, FractalError> {
    if prev == Some(cur) {
        Ok(RenderPlan::Skip)
    } else if cfg.width % LANE_WIDTH != 0 {
        Err(FractalError::Configuration)
    } else if cfg.downsample && (cfg.width > u32::MAX / 2 || cfg.height > u32::MAX / 2) {
        Err(FractalError::Configuration)
    } else if cfg.downsample {
        Ok(RenderPlan::Render { width: (2 * cfg.width) as u32, height: (2 * cfg.height) as u32 })
    } else {
        Ok(RenderPlan::Render { width: cfg.width, height: cfg.height })
    }
}

/// The bytes of a previously persisted fingerprint, if one was found.
pub open spec fn opt_bytes_view(prev: Option<&Vec<u8>>) -> Option<Seq<u8>> {
    match prev {
        Some(p) => Some(p@),
        None => None,
    }
}

/// Decide what a render call must do, given the persisted fingerprint found
/// beside the output (if any) and the serialized form of the current
/// configuration.
pub fn plan_render(cfg: &FractalCfg, prev: Option<&Vec<u8>>, cur: &Vec<u8>) -> (r: Result<
    RenderPlan,
    FractalError,
>)
    ensures
        r == spec_render_plan(*cfg, opt_bytes_view(prev), cur@),
{
    match prev {
        Some(p) => {
            if bytes_eq(p, cur) {
                return Ok(RenderPlan::Skip);
            }
        },
        None => {},
    }
    if cfg.width % LANE_WIDTH != 0 {
        return Err(FractalError::Configuration);
    }
    if cfg.downsample {
        if cfg.width > u32::MAX / 2 || cfg.height > u32::MAX / 2 {
            return Err(FractalError::Configuration);
        }
        Ok(RenderPlan::Render { width: 2 * cfg.width, height: 2 * cfg.height })
    } else {
        Ok(RenderPlan::Render { width: cfg.width, height: cfg.height })
    }
}

/// A render is skipped exactly when a persisted fingerprint exists and is
/// byte-identical to the current configuration's serialization. In
/// particular, re-rendering a configuration whose fingerprint was just
/// persisted is a no-op, and any change to the serialized configuration
/// invalidates the cache.
pub proof fn lemma_render_skipped_iff_fingerprint_match(
    cfg: FractalCfg,
    prev: Option<Seq<u8>>,
    cur: Seq<u8>,
)
    ensures
        (spec_render_plan(cfg, prev, cur) == Ok::<RenderPlan, FractalError>(RenderPlan::Skip))
            <==> prev == Some(cur),
{
}

/// Truncating average of one 2x2 block of channel bytes, as the box filter
/// computes it.
pub open spec fn avg4(a: u8, b: u8, c: u8, d: u8) -> int {
    (a + b + c + d) / 4
}

/// Average a 2x2 block of channel bytes, truncating toward zero.
pub fn average4(a: u8, b: u8, c: u8, d: u8) -> (r: u8)
    ensures
        r == avg4(a, b, c, d),
{
    let sum: u32 = a as u32 + b as u32 + c as u32 + d as u32;
    (sum / 4) as u8
}

/// The box-filter downsample of an interleaved RGB byte buffer of `w` by
/// `h` pixels: each output channel byte is the truncating average of the
/// corresponding channel bytes of one 2x2 source pixel block.
pub open spec fn spec_downsample(w: nat, h: nat, buf: Seq<u8>) -> Seq<u8> {
    let w2 = w / 2;
    let h2 = h / 2;
    Seq::new(
        3 * w2 * h2,
        |k: int|
            {
                let c = k % 3;
                let pix = k / 3;
                let x = pix % (w2 as int);
                let y = pix / (w2 as int);
                avg4(
                    buf[(2 * y * w + 2 * x) * 3 + c],
                    buf[(2 * y * w + 2 * x + 1) * 3 + c],
                    buf[((2 * y + 1) * w + 2 * x) * 3 + c],
                    buf[((2 * y + 1) * w + 2 * x + 1) * 3 + c],
                ) as u8
            },
    )
}

proof fn lemma_downsample_index(w: int, h: int, k: int)
    requires
        w % 2 == 0,
        h % 2 == 0,
        w >= 0,
        h >= 0,
        0 <= k < 3 * (w / 2) * (h / 2),
    ensures
        ({
            let w2 = w / 2;
            let h2 = h / 2;
            let c = k % 3;
            let pix = k / 3;
            let x = pix % w2;
            let y = pix / w2;
            &&& 0 < w2
            &&& 0 < h2
            &&& 0 <= c < 3
            &&& 0 <= pix < w2 * h2
            &&& 0 <= x < w2
            &&& 0 <= y < h2
            &&& 0 <= 2 * y * w + 2 * x
            &&& 2 * y * w + 2 * x + 1 < w * h
            &&& ((2 * y + 1) * w + 2 * x) < w * h
            &&& ((2 * y + 1) * w + 2 * x + 1) < w * h
            &&& ((2 * y + 1) * w + 2 * x + 1) * 3 + c < 3 * (w * h)
            &&& (2 * y * w + 2 * x) * 3 + c >= 0
            &&& (2 * y * w + 2 * x) <= (2 * y * w + 2 * x + 1) <= ((2 * y + 1) * w + 2 * x)
        }),
{
    let w2 = w / 2;
    let h2 = h / 2;
    let c = k % 3;
    let pix = k / 3;
    lemma_fundamental_div_mod(w, 2);
    lemma_fundamental_div_mod(h, 2);
    assert(w == 2 * w2);
    assert(h == 2 * h2);
    assert(0 < w2 && 0 < h2) by (nonlinear_arith)
        requires
            0 <= k < 3 * w2 * h2,
            w2 >= 0,
            h2 >= 0,
    ;
    let x = pix % w2;
    let y = pix / w2;
    lemma_mod_division_less_than_divisor(k, 3);
    lemma_mul_is_associative(3, w2, h2);
    lemma_multiply_divide_lt(k, 3, w2 * h2);
    lemma_mod_division_less_than_divisor(pix, w2);
    lemma_multiply_divide_lt(pix, w2, h2);
    assert(2 * y * w + 2 * x >= 0) by (nonlinear_arith)
        requires
            y >= 0,
            x >= 0,
            w >= 0,
    ;
    assert(((2 * y + 1) * w + 2 * x + 1) < w * h) by (nonlinear_arith)
        requires
            0 <= y,
            y < h2,
            0 <= x,
            x < w2,
            w == 2 * w2,
            h == 2 * h2,
            0 < w2,
            0 < h2,
    ;
    assert(((2 * y + 1) * w + 2 * x + 1) * 3 + c < 3 * (w * h)) by (nonlinear_arith)
        requires
            ((2 * y + 1) * w + 2 * x + 1) < w * h,
            0 <= c < 3,
            ((2 * y + 1) * w + 2 * x + 1) >= 0,
    ;
    assert((2 * y + 1) * w == 2 * y * w + w) by (nonlinear_arith);
}

/// Downsample an interleaved RGB buffer of `w` by `h` pixels (both even)
/// to half resolution with a truncating 2x2 box filter.
pub fn downsample(w: usize, h: usize, buf: Vec<u8>) -> (out: Vec<u8>)
    requires
        w % 2 == 0,
        h % 2 == 0,
        buf@.len() == 3 * w * h,
    ensures
        out@ == spec_downsample(w as nat, h as nat, buf@),
{
    let w2 = w / 2;
    let h2 = h / 2;
    let buf_len = buf.len();
    proof {
        lemma_fundamental_div_mod(w as int, 2);
        lemma_fundamental_div_mod(h as int, 2);
        assert(w == 2 * w2 && h == 2 * h2);
        assert(3 * (w2 as int) * (h2 as int) <= (w as int) * (h as int) <= 3 * (w as int) * (
        h as int)) by (nonlinear_arith)
            requires
                w == 2 * w2,
                h == 2 * h2,
                w2 >= 0,
                h2 >= 0,
        ;
        assert(3 * (w as int) * (h as int) == 3 * ((w as int) * (h as int))) by (nonlinear_arith);
        assert((w2 as int) * (h2 as int) <= 3 * (w2 as int) * (h2 as int)) by (nonlinear_arith)
            requires
                w2 >= 0,
                h2 >= 0,
        ;
        assert(buf_len == 3 * ((w as int) * (h as int)));
    }
    let pixels: usize = w2 * h2;
    let total: usize = 3 * pixels;
    proof {
        lemma_mul_is_associative(3, w2 as int, h2 as int);
    }
    let mut out: Vec<u8> = Vec::with_capacity(total);
    let mut k: usize = 0;
    while k < total
        invariant
            k <= total,
            w % 2 == 0,
            h % 2 == 0,
            w2 == w / 2,
            h2 == h / 2,
            w == 2 * w2,
            h == 2 * h2,
            total == 3 * (w2 as int) * (h2 as int),
            buf@.len() == 3 * w * h,
            buf@.len() == 3 * ((w as int) * (h as int)),
            (w as int) * (h as int) <= buf@.len() <= usize::MAX,
            out@.len() == k,
            forall|j: int|
                0 <= j < k ==> out@[j] == spec_downsample(w as nat, h as nat, buf@)[j],
        decreases total - k,
    {
        proof {
            lemma_downsample_index(w as int, h as int, k as int);
            assert(3 * ((w as int) * (h as int)) == 3 * (w as int) * (h as int))
                by (nonlinear_arith);
        }
        let c = k % 3;
        let pix = k / 3;
        let x = pix % w2;
        let y = pix / w2;
        let row0 = 2 * y * w + 2 * x;
        let row1 = (2 * y + 1) * w + 2 * x;
        let v = average4(
            buf[row0 * 3 + c],
            buf[(row0 + 1) * 3 + c],
            buf[row1 * 3 + c],
            buf[(row1 + 1) * 3 + c],
        );
        out.push(v);
        proof {
            let ghost sd = spec_downsample(w as nat, h as nat, buf@);
            assert(out@[k as int] == sd[k as int]);
        }
        k = k + 1;
    }
    proof {
        assert(out@ =~= spec_downsample(w as nat, h as nat, buf@));
    }
    out
}

/// A uniform 2x2 block downsamples to exactly its own value: the box filter
/// introduces no drift on constant regions, for every channel.
pub proof fn lemma_downsample_uniform(w: nat, h: nat, buf: Seq<u8>, v: u8)
    requires
        w % 2 == 0,
        h % 2 == 0,
        buf.len() == 3 * w * h,
        forall|i: int| 0 <= i < buf.len() ==> buf[i] == v,
    ensures
        spec_downsample(w, h, buf).len() == 3 * (w / 2) * (h / 2),
        forall|k: int|
            0 <= k < spec_downsample(w, h, buf).len() ==> spec_downsample(w, h, buf)[k] == v,
{
    let sd = spec_downsample(w, h, buf);
    assert forall|k: int| 0 <= k < sd.len() implies sd[k] == v by {
        lemma_downsample_index(w as int, h as int, k);
        assert(3 * ((w as int) * (h as int)) == 3 * (w as int) * (h as int)) by (nonlinear_arith);
        assert(avg4(v, v, v, v) == v);
    }
}

/// The elapsed-seconds string: whole seconds, then, when the nanosecond
/// part is not zero, a decimal point and the nine-digit nanosecond field
/// with its trailing zeros removed.
pub open spec fn spec_duration_str(secs: nat, nanos: nat) -> Seq<char> {
    if nanos == 0 {
        text::dec_rep(secs)
    } else {
        text::dec_rep(secs) + seq!['.'] + text::dec_rep_pad(
            trimmed_frac(nanos, 9).0,
            trimmed_frac(nanos, 9).1,
        )
    }
}

/// Drop trailing zero digits from a `w`-digit decimal field.
pub open spec fn trimmed_frac(n: nat, w: nat) -> (nat, nat)
    decreases w,
{
    if w > 0 && n % 10 == 0 {
        trimmed_frac(n / 10, (w - 1) as nat)
    } else {
        (n, w)
    }
}

/// Render an elapsed time, given as whole seconds and the nanosecond
/// remainder, as a decimal seconds string.
pub fn duration_str(secs: u64, nanos: u32) -> (s: String)
    requires
        nanos < 1_000_000_000,
    ensures
        s@ == spec_duration_str(secs as nat, nanos as nat),
{
    if nanos == 0 {
        return text::u64_to_dec(secs);
    }
    let mut m: u32 = nanos;
    let mut w: u32 = 9;
    while m % 10 == 0 && w > 0
        invariant
            trimmed_frac(nanos as nat, 9) == trimmed_frac(m as nat, w as nat),
            m > 0,
            w <= 9,
        decreases w,
    {
        m = m / 10;
        w = w - 1;
    }
    let mut s = text::u64_to_dec(secs);
    s.append(".");
    let frac = text::u32_to_dec_pad(m, w);
    s.append(frac.as_str());
    proof {
        reveal_strlit(".");
        assert("."@ =~= seq!['.']);
        assert(s@ =~= spec_duration_str(secs as nat, nanos as nat));
    }
    s
}

} // verus!
