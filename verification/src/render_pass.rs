//! Post-processing pipeline: chained passes that each rewrite an RGBA8
//! image in place, and the box blur that the blur pass applies.
use vstd::prelude::*;
use vstd::arithmetic::div_mod::{lemma_fundamental_div_mod, lemma_fundamental_div_mod_converse};

verus! {

// ---------------------------------------------------------------------------
// Pixel addressing
// ---------------------------------------------------------------------------

/// Channel of byte `i` of an RGBA8 image.
pub open spec fn chan(i: int) -> int {
    i % 4
}

/// Column of byte `i` of an RGBA8 image `w` pixels wide.
pub open spec fn col(i: int, w: int) -> int {
    (i / 4) % w
}

/// Row of byte `i` of an RGBA8 image `w` pixels wide.
pub open spec fn row(i: int, w: int) -> int {
    (i / 4) / w
}

/// Byte `i` is a color channel of a pixel with all eight neighbors inside
/// a `w` by `h` image; these are the bytes the box blur rewrites.
pub open spec fn blur_interior(i: int, w: int, h: int) -> bool {
    &&& chan(i) < 3
    &&& 1 <= col(i, w) && col(i, w) + 1 < w
    &&& 1 <= row(i, w) && row(i, w) + 1 < h
}

/// Channel `c` of the pixel at column `x`, row `y`.
pub open spec fn px(data: Seq<u8>, w: int, x: int, y: int, c: int) -> int {
    data[(y * w + x) * 4 + c] as int
}

/// Sum of channel `c` over the 3x3 block centred on `(x, y)`.
pub open spec fn block_sum(data: Seq<u8>, w: int, x: int, y: int, c: int) -> int {
    px(data, w, x - 1, y - 1, c) + px(data, w, x, y - 1, c) + px(data, w, x + 1, y - 1, c)
        + px(data, w, x - 1, y, c) + px(data, w, x, y, c) + px(data, w, x + 1, y, c)
        + px(data, w, x - 1, y + 1, c) + px(data, w, x, y + 1, c) + px(data, w, x + 1, y + 1, c)
}

/// The 3x3 box blur of an RGBA8 image: every color channel of an interior
/// pixel becomes the truncated mean of its 3x3 block in the input; alpha,
/// border pixels and bytes past the image keep their input value.
pub open spec fn box_blur_spec(data: Seq<u8>, w: int, h: int) -> Seq<u8> {
    Seq::new(
        data.len(),
        |i: int|
            if blur_interior(i, w, h) {
                (block_sum(data, w, col(i, w), row(i, w), chan(i)) / 9) as u8
            } else {
                data[i]
            },
    )
}

/// The byte of pixel `(x, y)`, channel `c`, has exactly those coordinates.
proof fn lemma_coords(w: int, x: int, y: int, c: int)
    requires
        w > 0,
        0 <= x < w,
        0 <= y,
        0 <= c < 4,
    ensures
        chan((y * w + x) * 4 + c) == c,
        col((y * w + x) * 4 + c, w) == x,
        row((y * w + x) * 4 + c, w) == y,
{
    let p = y * w + x;
    assert(p >= 0) by (nonlinear_arith)
        requires
            p == y * w + x,
            y >= 0,
            w > 0,
            x >= 0,
    ;
    lemma_fundamental_div_mod_converse((y * w + x) * 4 + c, 4, p, c);
    lemma_fundamental_div_mod_converse(p, w, y, x);
}

/// Every byte index is the index its coordinates give.
proof fn lemma_index_of_coords(i: int, w: int)
    requires
        i >= 0,
        w > 0,
    ensures
        i == (row(i, w) * w + col(i, w)) * 4 + chan(i),
        0 <= col(i, w) < w,
        0 <= row(i, w),
        0 <= chan(i) < 4,
{
    lemma_fundamental_div_mod(i, 4);
    lemma_fundamental_div_mod(i / 4, w);
    assert(row(i, w) * w == w * row(i, w)) by (nonlinear_arith);
}

/// Byte `i` precedes channel `c` of pixel `(x, y)` in row-major order.
pub open spec fn before(i: int, w: int, y: int, x: int, c: int) -> bool {
    row(i, w) < y || (row(i, w) == y && (col(i, w) < x || (col(i, w) == x && chan(i) < c)))
}

/// `out` is the input with the blur applied to every interior byte that
/// precedes `(x, y, c)`.
pub open spec fn blurred_up_to(out: Seq<u8>, data: Seq<u8>, w: int, h: int, y: int, x: int, c: int) -> bool {
    &&& out.len() == data.len()
    &&& forall|i: int|
        0 <= i < data.len() ==> #[trigger] out[i] == (if blur_interior(i, w, h) && before(i, w, y, x, c) {
            (block_sum(data, w, col(i, w), row(i, w), chan(i)) / 9) as u8
        } else {
            data[i]
        })
}

/// The input lengths on which the blur reads only inside the buffer: an
/// image with an interior must hold every byte up to the last color
/// channel of its last pixel.
pub open spec fn blur_reads_in_bounds(w: int, h: int, len: int) -> bool {
    w < 3 || h < 3 || 4 * w * h - 1 <= len
}

/// Simple 3x3 box blur for RGBA8 image data.
pub fn box_blur_rgba(data: &[u8], width: u32, height: u32) -> (out: Vec<u8>)
    requires
        blur_reads_in_bounds(width as int, height as int, data@.len() as int),
    ensures
        out@ == box_blur_spec(data@, width as int, height as int),
{
    let w = width as usize;
    let h = height as usize;
    let ghost wi = w as int;
    let ghost hi = h as int;
    let ghost d = data@;
    let n = data.len();
    let mut output = vstd::slice::slice_to_vec(data);
    let ym: usize = if h >= 1 { h - 1 } else { 0 };
    let xm: usize = if w >= 1 { w - 1 } else { 0 };
    let mut y: usize = 1;
    while y < ym
        invariant
            wi == w && hi == h && d == data@ && d.len() == n,
            ym == (if h >= 1 { h - 1 } else { 0 }),
            xm == (if w >= 1 { w - 1 } else { 0 }),
            1 <= y,
            y <= ym || y == 1,
            blur_reads_in_bounds(wi, hi, d.len() as int),
            blurred_up_to(output@, d, wi, hi, y as int, 1, 0),
        decreases ym - y,
    {
        let mut x: usize = 1;
        while x < xm
            invariant
                wi == w && hi == h && d == data@ && d.len() == n,
                ym == (if h >= 1 { h - 1 } else { 0 }),
                xm == (if w >= 1 { w - 1 } else { 0 }),
                1 <= y < ym,
                1 <= x,
                x <= xm || x == 1,
                blur_reads_in_bounds(wi, hi, d.len() as int),
                blurred_up_to(output@, d, wi, hi, y as int, x as int, 0),
            decreases xm - x,
        {
            proof {
                assert(w >= 3 && h >= 3);
                assert(((y + 1) * wi + (x + 1)) * 4 + 2 <= 4 * wi * hi - 2) by (nonlinear_arith)
                    requires
                        1 <= y + 1 < hi,
                        1 <= x + 1 < wi,
                ;
                assert(((y - 1) * wi + (x - 1)) * 4 >= 0) by (nonlinear_arith)
                    requires
                        y >= 1,
                        x >= 1,
                        wi >= 0,
                ;
            }
            let mut c: usize = 0;
            while c < 3
                invariant
                    wi == w && hi == h && d == data@ && d.len() == n,
                    ym == (if h >= 1 { h - 1 } else { 0 }),
                    xm == (if w >= 1 { w - 1 } else { 0 }),
                    w >= 3 && h >= 3,
                    1 <= y < ym,
                    1 <= x < xm,
                    c <= 3,
                    ((y + 1) * wi + (x + 1)) * 4 + 2 <= 4 * wi * hi - 2,
                    ((y - 1) * wi + (x - 1)) * 4 >= 0,
                    blur_reads_in_bounds(wi, hi, d.len() as int),
                    blurred_up_to(output@, d, wi, hi, y as int, x as int, c as int),
                decreases 3 - c,
            {
                let ghost yi = y as int;
                let ghost xi = x as int;
                let ghost ci = c as int;
                let ghost q0 = (yi - 1) * wi;
                let ghost q1 = yi * wi;
                let ghost q2 = (yi + 1) * wi;
                proof {
                    assert(q1 == q0 + wi && q2 == q1 + wi && q0 >= 0) by (nonlinear_arith)
                        requires
                            q0 == (yi - 1) * wi,
                            q1 == yi * wi,
                            q2 == (yi + 1) * wi,
                            yi >= 1,
                            wi >= 0,
                    ;
                    assert(q2 <= (hi - 1) * wi) by (nonlinear_arith)
                        requires
                            q2 == (yi + 1) * wi,
                            yi + 2 <= hi,
                            wi >= 0,
                    ;
                    assert((hi - 1) * wi == wi * hi - wi) by (nonlinear_arith);
                    assert(4 * wi * hi == 4 * (wi * hi)) by (nonlinear_arith);
                    assert(q2 + xi + 1 <= wi * hi - 1);
                }
                let r0 = (y - 1) * w;
                let r1 = y * w;
                let r2 = (y + 1) * w;
                let sum: u32 = data[(r0 + x - 1) * 4 + c] as u32 + data[(r0 + x) * 4 + c] as u32 + data[(r0 + x + 1) * 4 + c] as u32
                    + data[(r1 + x - 1) * 4 + c] as u32 + data[(r1 + x) * 4 + c] as u32 + data[(r1 + x + 1) * 4 + c] as u32
                    + data[(r2 + x - 1) * 4 + c] as u32 + data[(r2 + x) * 4 + c] as u32 + data[(r2 + x + 1) * 4 + c] as u32;
                let j = (r1 + x) * 4 + c;
                proof {
                    assert(sum == block_sum(d, wi, xi, yi, ci));
                    lemma_coords(wi, xi, yi, ci);
                    assert(blur_interior(j as int, wi, hi));
                }
                let ghost prev = output@;
                output.set(j, (sum / 9) as u8);
                proof {
                    assert forall|i: int| 0 <= i < d.len() implies #[trigger] output@[i] == (if blur_interior(i, wi, hi) && before(i, wi, yi, xi, ci + 1) {
                        (block_sum(d, wi, col(i, wi), row(i, wi), chan(i)) / 9) as u8
                    } else {
                        d[i]
                    }) by {
                        lemma_index_of_coords(i, wi);
                        if i != j {
                            assert(prev[i] == output@[i]);
                            if row(i, wi) == yi && col(i, wi) == xi && chan(i) == ci {
                                assert(i == j);
                            }
                        }
                    }
                }
                c = c + 1;
            }
            proof {
                assert forall|i: int| 0 <= i < d.len() && blur_interior(i, wi, hi) implies (before(i, wi, y as int, x as int, 3) <==> before(i, wi, y as int, x + 1, 0)) by {}
            }
            x = x + 1;
        }
        proof {
            assert forall|i: int| 0 <= i < d.len() && blur_interior(i, wi, hi) implies (before(i, wi, y as int, x as int, 0) <==> before(i, wi, y + 1, 1, 0)) by {}
        }
        y = y + 1;
    }
    proof {
        assert forall|i: int| 0 <= i < d.len() && blur_interior(i, wi, hi) implies before(i, wi, y as int, 1, 0) by {}
        assert(output@ =~= box_blur_spec(d, wi, hi));
    }
    output
}


// ---------------------------------------------------------------------------
// Passes and the pipeline
// ---------------------------------------------------------------------------

/// The images a pass is handed: `width` by `height` RGBA8 pixels, whose
/// byte count fits in `u32`, in a buffer that holds all of them.
pub open spec fn image_fits(width: u32, height: u32, len: int) -> bool {
    &&& width * height * 4 <= u32::MAX
    &&& width * height * 4 <= len
}

/// The bytes of an RGBA8 image, as the passes' contracts see them.
pub type PixelBytes = Seq<u8>;

/// A single render pass in the post-processing pipeline.
pub trait RenderPass: Send {
    /// Whether the pass is active: what `enabled` reports.
    spec fn spec_enabled(&self) -> bool;

    /// `process` can handle a `width` by `height` image in a buffer of
    /// `len` bytes.
    spec fn accepts(&self, width: u32, height: u32, len: usize) -> bool;

    /// `after` is an image that `process` may leave when handed `before`,
    /// a `width` by `height` image.
    spec fn spec_processes(&self, width: u32, height: u32, before: PixelBytes, after: PixelBytes) -> bool;

    /// The display name of this pass.
    fn name(&self) -> &str;

    /// Whether the pass is currently active.
    fn enabled(&self) -> (r: bool)
        ensures
            r == self.spec_enabled(),
    ;

    /// Process an RGBA8 image buffer in-place.
    fn process(&self, width: u32, height: u32, data: &mut [u8])
        requires
            self.accepts(width, height, old(data)@.len() as usize),
        ensures
            final(data)@.len() == old(data)@.len(),
            self.spec_processes(width, height, old(data)@, final(data)@),
    ;
}

/// A pipeline of chained post-processing passes.
pub struct PostProcessPipeline {
    passes: Vec<Box<dyn RenderPass>>,
}

impl PostProcessPipeline {
    /// The passes, in the order they run.
    pub closed spec fn passes(&self) -> Seq<Box<dyn RenderPass>> {
        self.passes@
    }

    /// Create a new empty post-processing pipeline.
    pub fn new() -> (r: Self)
        ensures
            r.passes() == Seq::<Box<dyn RenderPass>>::empty(),
            r.passes().len() == 0,
    {
        PostProcessPipeline { passes: Vec::new() }
    }

    /// Add a render pass to the end of the pipeline.
    pub fn add_pass(&mut self, pass: Box<dyn RenderPass>)
        ensures
            final(self).passes() == old(self).passes().push(pass),
            final(self).passes().len() == old(self).passes().len() + 1,
    {
        let ghost before = self.passes@;
        self.passes.push(pass);
        proof {
            // The quantified sequence axioms do not fire on a sequence of
            // trait objects, so the length is derived here by hand.
            vstd::seq::axiom_seq_push_len(before, pass);
        }
    }

    /// Remove a pass by index. Returns `true` if the index was valid.
    pub fn remove_pass(&mut self, index: usize) -> (r: bool)
        ensures
            r == (index < old(self).passes().len()),
            r ==> final(self).passes() == old(self).passes().remove(index as int),
            !r ==> final(self).passes() == old(self).passes(),
    {
        if index < self.passes.len() {
            self.passes.remove(index);
            true
        } else {
            false
        }
    }

    /// Process an image through all enabled passes in order: each enabled
    /// pass processes, once, the image the earlier passes left; disabled
    /// passes are skipped. Each enabled pass must accept the buffer (the
    /// blur needs the whole image in it; other passes may take any buffer).
    pub fn run(&self, width: u32, height: u32, data: &mut [u8])
        requires
            forall|k: int| 0 <= k < self.passes().len() && #[trigger] self.passes()[k].spec_enabled()
                ==> self.passes()[k].accepts(width, height, old(data)@.len() as usize),
        ensures
            final(data)@.len() == old(data)@.len(),
            exists|trace: Seq<PixelBytes>| {
                &&& trace.len() == self.passes().len() + 1
                &&& trace[0] == old(data)@
                &&& #[trigger] trace.last() == final(data)@
                &&& forall|k: int| 0 <= k < self.passes().len() ==> if #[trigger] self.passes()[k].spec_enabled() {
                    self.passes()[k].spec_processes(width, height, trace[k], trace[k + 1])
                } else {
                    trace[k + 1] == trace[k]
                }
            },
    {
        let ghost mut trace: Seq<PixelBytes> = seq![data@];
        assert forall|k: int| 0 <= k < self.passes@.len() && #[trigger] self.passes@[k].spec_enabled() implies self.passes@[
            k].accepts(width, height, old(data)@.len() as usize) by {
            assert(self.passes()[k] == self.passes@[k]);
        }
        let mut i: usize = 0;
        while i < self.passes.len()
            invariant
                i <= self.passes@.len(),
                data@.len() == old(data)@.len(),
                forall|k: int| 0 <= k < self.passes@.len() && #[trigger] self.passes@[k].spec_enabled()
                    ==> self.passes@[k].accepts(width, height, old(data)@.len() as usize),
                trace.len() == i + 1,
                trace[0] == old(data)@,
                trace.last() == data@,
                forall|k: int| 0 <= k < i ==> if #[trigger] self.passes@[k].spec_enabled() {
                    self.passes@[k].spec_processes(width, height, trace[k], trace[k + 1])
                } else {
                    trace[k + 1] == trace[k]
                },
            decreases self.passes@.len() - i,
        {
            let pass = &self.passes[i];
            let ghost before = data@;
            if pass.enabled() {
                proof {
                    assert(self.passes@[i as int].spec_enabled());
                }
                pass.process(width, height, data);
            }
            proof {
                let t0 = trace;
                assert(t0[i as int] == before);
                trace = trace.push(data@);
                assert forall|k: int| 0 <= k < i + 1 implies if #[trigger] self.passes@[k].spec_enabled() {
                    self.passes@[k].spec_processes(width, height, trace[k], trace[k + 1])
                } else {
                    trace[k + 1] == trace[k]
                } by {
                    if k < i {
                        assert(trace[k] == t0[k] && trace[k + 1] == t0[k + 1]);
                    } else {
                        assert(trace[k] == before && trace[k + 1] == data@);
                    }
                }
            }
            i = i + 1;
        }
    }

    /// Return the number of passes in the pipeline.
    pub fn pass_count(&self) -> (r: usize)
        ensures
            r == self.passes().len(),
    {
        self.passes.len()
    }
}

impl Default for PostProcessPipeline {
    fn default() -> (r: Self)
        ensures
            r.passes() == Seq::<Box<dyn RenderPass>>::empty(),
            r.passes().len() == 0,
    {
        PostProcessPipeline::new()
    }
}

/// Gaussian blur post-processing pass (applied as a 3x3 box blur).
#[derive(Debug, Clone, Copy, PartialEq, Eq, Structural)]
pub struct GaussianBlurPass {
    /// Blur radius in pixels.
    pub radius: u32,
    /// Whether this pass is enabled.
    pub enabled: bool,
}

impl Default for GaussianBlurPass {
    fn default() -> (r: Self)
        ensures
            r == (GaussianBlurPass { radius: 2, enabled: true }),
    {
        GaussianBlurPass { radius: 2, enabled: true }
    }
}

impl RenderPass for GaussianBlurPass {
    open spec fn spec_enabled(&self) -> bool {
        self.enabled
    }

    open spec fn accepts(&self, width: u32, height: u32, len: usize) -> bool {
        image_fits(width, height, len as int)
    }

    open spec fn spec_processes(&self, width: u32, height: u32, before: PixelBytes, after: PixelBytes) -> bool {
        after == box_blur_spec(before, width as int, height as int)
    }

    fn name(&self) -> (r: &str)
        ensures
            r@ == "GaussianBlur"@,
    {
        "GaussianBlur"
    }

    fn enabled(&self) -> (r: bool)
        ensures
            r == self.enabled,
    {
        self.enabled
    }

    fn process(&self, width: u32, height: u32, data: &mut [u8])
        ensures
            final(data)@ == box_blur_spec(old(data)@, width as int, height as int),
    {
        proof {
            assert(4 * width * height == width * height * 4) by (nonlinear_arith);
        }
        let result = box_blur_rgba(data, width, height);
        let len = (width * height * 4) as usize;
        let ghost d0 = data@;
        let mut i: usize = 0;
        while i < len
            invariant
                len == width * height * 4,
                len <= d0.len(),
                result@ == box_blur_spec(d0, width as int, height as int),
                data@.len() == d0.len(),
                forall|j: int| 0 <= j < i ==> data@[j] == result@[j],
                forall|j: int| i <= j < d0.len() ==> data@[j] == d0[j],
                i <= len,
            decreases len - i,
        {
            data[i] = result[i];
            i = i + 1;
        }
        proof {
            assert forall|j: int| len <= j < d0.len() implies !blur_interior(j, width as int, height as int) by {
                if blur_interior(j, width as int, height as int) {
                    lemma_index_of_coords(j, width as int);
                    let r = row(j, width as int);
                    let c = col(j, width as int);
                    assert((r * width + c) * 4 + chan(j) < width * height * 4) by (nonlinear_arith)
                        requires
                            r + 1 < height,
                            0 <= c < width,
                            0 <= chan(j) < 4,
                            r >= 0,
                    ;
                }
            }
            assert(data@ =~= box_blur_spec(d0, width as int, height as int));
        }
    }
}


// ---------------------------------------------------------------------------
// Laws
// ---------------------------------------------------------------------------

/// Every byte the blur reads for an interior byte lies inside the buffer.
proof fn lemma_block_in_bounds(w: int, h: int, len: int, i: int, dx: int, dy: int)
    requires
        blur_reads_in_bounds(w, h, len),
        0 <= i,
        w > 0,
        blur_interior(i, w, h),
        -1 <= dx <= 1,
        -1 <= dy <= 1,
    ensures
        0 <= ((row(i, w) + dy) * w + (col(i, w) + dx)) * 4 + chan(i) < len,
{
    let x = col(i, w);
    let y = row(i, w);
    let c = chan(i);
    assert(w >= 3 && h >= 3);
    assert(0 <= (y + dy) * w) by (nonlinear_arith)
        requires
            y + dy >= 0,
            w > 0,
    ;
    assert((y + dy) * w <= (h - 1) * w) by (nonlinear_arith)
        requires
            y + dy <= h - 1,
            w > 0,
    ;
    assert((h - 1) * w == w * h - w) by (nonlinear_arith);
    assert(4 * w * h == 4 * (w * h)) by (nonlinear_arith);
}

/// Blurring an image whose bytes all hold the same value changes nothing.
pub proof fn law_blur_keeps_uniform_image(data: Seq<u8>, w: int, h: int, v: u8)
    requires
        w >= 0 && h >= 0,
        blur_reads_in_bounds(w, h, data.len() as int),
        forall|i: int| 0 <= i < data.len() ==> #[trigger] data[i] == v,
    ensures
        box_blur_spec(data, w, h) == data,
{
    assert forall|i: int| 0 <= i < data.len() implies #[trigger] box_blur_spec(data, w, h)[i] == data[i] by {
        if blur_interior(i, w, h) {
            assert(w > 0);
            let x = col(i, w);
            let y = row(i, w);
            let c = chan(i);
            lemma_block_in_bounds(w, h, data.len() as int, i, -1, -1);
            lemma_block_in_bounds(w, h, data.len() as int, i, 0, -1);
            lemma_block_in_bounds(w, h, data.len() as int, i, 1, -1);
            lemma_block_in_bounds(w, h, data.len() as int, i, -1, 0);
            lemma_block_in_bounds(w, h, data.len() as int, i, 0, 0);
            lemma_block_in_bounds(w, h, data.len() as int, i, 1, 0);
            lemma_block_in_bounds(w, h, data.len() as int, i, -1, 1);
            lemma_block_in_bounds(w, h, data.len() as int, i, 0, 1);
            lemma_block_in_bounds(w, h, data.len() as int, i, 1, 1);
            assert(block_sum(data, w, x, y, c) == 9 * v);
        }
    }
    assert(box_blur_spec(data, w, h) =~= data);
}

/// The blur rewrites only color channels of interior pixels: alpha, the
/// border and bytes past the image keep their values.
pub proof fn law_blur_keeps_border_and_alpha(data: Seq<u8>, w: int, h: int, i: int)
    requires
        0 <= i < data.len(),
        !blur_interior(i, w, h),
    ensures
        box_blur_spec(data, w, h)[i] == data[i],
{
}

} // verus!

