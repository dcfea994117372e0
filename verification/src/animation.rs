//! Quantizing rendered frames to the fixed 216-color palette and
//! serializing them as a looping animation.

use vstd::prelude::*;
use crate::color::Rgb;
use crate::grid::Frame;
use crate::params::{FRAME_DELAY, MAX_ANIM_FRAMES};
use vstd::arithmetic::div_mod::lemma_fundamental_div_mod;

verus! {

/// An animation being serialized into a byte buffer. Opaque: it wraps
/// gif's `Encoder` over a `Vec<u8>` sink, which Verus cannot declare
/// with its writer bound; the `sink_*` names below model what has been
/// handed to it.
#[verifier::external_body]
pub struct GifSink {
    enc: gif::Encoder<Vec<u8>>,
}

/// The frame width the sink was created with.
pub uninterp spec fn sink_width(s: GifSink) -> u16;

/// The frame height the sink was created with.
pub uninterp spec fn sink_height(s: GifSink) -> u16;

/// The global palette bytes the sink was created with.
pub uninterp spec fn sink_palette(s: GifSink) -> Seq<u8>;

/// Whether the sink carries the infinite-repeat extension.
pub uninterp spec fn sink_loops(s: GifSink) -> bool;

/// The frames written to the sink so far, in order: width, height,
/// palette indices, delay.
pub uninterp spec fn sink_frames(s: GifSink) -> Seq<(u16, u16, Seq<u8>, u16)>;

/// The GIF byte stream that serializes the given screen size, global
/// palette, looping flag and frame sequence. The encoder is
/// deterministic, and the wrappers below only build sinks whose repeat
/// extension, if any, precedes every frame, so the stream is a function
/// of these five values alone.
pub uninterp spec fn gif_stream(
    width: u16,
    height: u16,
    palette: Seq<u8>,
    loops: bool,
    frames: Seq<(u16, u16, Seq<u8>, u16)>,
) -> Seq<u8>;

/// Relies on gif's `Encoder::new` over a fresh byte buffer: it writes
/// the screen descriptor and the global palette. A `Vec` sink's writes
/// cannot fail, and 768 palette bytes are exactly the 256 colors the
/// format allows, so the constructor's error paths are unreachable.
#[verifier::external_body]
fn gif_encoder_new(width: u16, height: u16, palette: &Vec<u8>) -> (s: GifSink)
    requires
        palette@.len() == 768,
    ensures
        sink_width(s) == width,
        sink_height(s) == height,
        sink_palette(s) == palette@,
        !sink_loops(s),
        sink_frames(s) == Seq::<(u16, u16, Seq<u8>, u16)>::empty(),
{
    GifSink { enc: gif::Encoder::new(Vec::new(), width, height, palette.as_slice()).unwrap() }
}

/// Relies on gif's `Encoder::set_repeat`: writes the extension that
/// makes the animation loop forever. Only a fresh sink takes it, so
/// the extension always precedes every frame; on a `Vec` sink the
/// write cannot fail.
#[verifier::external_body]
fn gif_set_infinite_repeat(sink: &mut GifSink)
    requires
        !sink_loops(*old(sink)),
        sink_frames(*old(sink)) == Seq::<(u16, u16, Seq<u8>, u16)>::empty(),
    ensures
        sink_width(*final(sink)) == sink_width(*old(sink)),
        sink_height(*final(sink)) == sink_height(*old(sink)),
        sink_palette(*final(sink)) == sink_palette(*old(sink)),
        sink_loops(*final(sink)),
        sink_frames(*final(sink)) == sink_frames(*old(sink)),
{
    sink.enc.set_repeat(gif::Repeat::Infinite).unwrap()
}

/// Relies on gif's `Frame::from_indexed_pixels` — which demands
/// exactly width times height indices, so its panic is ruled out
/// here — and on `Encoder::write_frame`: serializes one indexed frame
/// with the given delay. The length check passes by the precondition,
/// a `Vec` sink cannot fail, and the one error path left is a refused
/// buffer allocation, which this library treats as it treats every
/// allocation.
#[verifier::external_body]
fn gif_write_indexed_frame(
    sink: &mut GifSink,
    width: u16,
    height: u16,
    indices: Vec<u8>,
    delay: u16,
)
    requires
        indices@.len() == (width as int) * (height as int),
    ensures
        sink_width(*final(sink)) == sink_width(*old(sink)),
        sink_height(*final(sink)) == sink_height(*old(sink)),
        sink_palette(*final(sink)) == sink_palette(*old(sink)),
        sink_loops(*final(sink)) == sink_loops(*old(sink)),
        sink_frames(*final(sink)) == sink_frames(*old(sink)).push(
            (width, height, indices@, delay),
        ),
{
    let mut frame = gif::Frame::from_indexed_pixels(width, height, indices, None);
    frame.delay = delay;
    sink.enc.write_frame(&frame).unwrap()
}

/// Relies on gif's `Encoder::into_inner`: writes the trailer and hands
/// the buffer back — the serialized stream of everything the sink was
/// given. The writer is present, having never been taken, and a `Vec`
/// sink cannot fail.
#[verifier::external_body]
fn gif_into_bytes(sink: GifSink) -> (bytes: Vec<u8>)
    ensures
        bytes@ == gif_stream(
            sink_width(sink),
            sink_height(sink),
            sink_palette(sink),
            sink_loops(sink),
            sink_frames(sink),
        ),
{
    sink.enc.into_inner().unwrap()
}

/// The quantization level of a channel value, 0 to 5: its distance in
/// steps of 51 to the nearest of the byte levels 0, 51, 102, 153, 204,
/// 255. For an integer `v`, `(v + 25) / 51` is exactly `v / 51` rounded
/// to the nearest whole number; the clamp mirrors the encoder's.
pub open spec fn quant_level(v: u8) -> int {
    let q = ((v as int) + 25) / 51;
    if q > 5 {
        5
    } else {
        q
    }
}

/// The palette index of a color: red level times 36 plus green level
/// times 6 plus blue level.
pub open spec fn quant_index(c: Rgb) -> int {
    36 * quant_level(c.r) + 6 * quant_level(c.g) + quant_level(c.b)
}

/// Levels lie in 0 to 5, so every palette index lies in 0 to 215.
pub proof fn lemma_quant_bounds(c: Rgb)
    ensures
        0 <= quant_level(c.r) <= 5,
        0 <= quant_level(c.g) <= 5,
        0 <= quant_level(c.b) <= 5,
        0 <= quant_index(c) <= 215,
{
}

/// The three bytes of palette color (r, g, b) — at offset 3 times
/// (36 r + 6 g + b) — are the levels scaled by 51.
pub open spec fn palette_triple(p: Seq<u8>, r: int, g: int, b: int) -> bool {
    &&& p[3 * (36 * r + 6 * g + b)] == (51 * r) as u8
    &&& p[3 * (36 * r + 6 * g + b) + 1] == (51 * g) as u8
    &&& p[3 * (36 * r + 6 * g + b) + 2] == (51 * b) as u8
}

/// The fixed palette: every triple of levels below 6 has its scaled
/// bytes in place, and everything beyond the 216 colors is padded with
/// zero to 256 entries.
pub open spec fn palette_ok(p: Seq<u8>) -> bool {
    &&& p.len() == 768
    &&& forall|r: int, g: int, b: int|
        0 <= r < 6 && 0 <= g < 6 && 0 <= b < 6 ==> #[trigger] palette_triple(p, r, g, b)
    &&& forall|k: int| 648 <= k < 768 ==> #[trigger] p[k] == 0
}

/// Byte `k` of the fixed palette, in closed form.
pub open spec fn palette_byte(k: int) -> u8 {
    if 0 <= k < 648 {
        let color = k / 3;
        let chan = k % 3;
        let rem = color % 36;
        if chan == 0 {
            (51 * (color / 36)) as u8
        } else if chan == 1 {
            (51 * (rem / 6)) as u8
        } else {
            (51 * (rem % 6)) as u8
        }
    } else {
        0
    }
}

/// The fixed palette as one sequence.
pub open spec fn spec_palette() -> Seq<u8> {
    Seq::new(768, |k: int| palette_byte(k))
}

/// `palette_ok` pins every byte: a palette that satisfies it is the
/// fixed palette.
pub proof fn lemma_palette_ok_pins(p: Seq<u8>)
    requires
        palette_ok(p),
    ensures
        p == spec_palette(),
{
    assert forall|k: int| 0 <= k < 768 implies p[k] == spec_palette()[k] by {
        if k < 648 {
            let color = k / 3;
            let chan = k % 3;
            lemma_fundamental_div_mod(k, 3);
            assert(0 <= chan < 3) by (nonlinear_arith)
                requires
                    k >= 0,
                    chan == k % 3,
            ;
            let r = color / 36;
            let rem = color % 36;
            lemma_fundamental_div_mod(color, 36);
            assert(0 <= rem < 36) by (nonlinear_arith)
                requires
                    color >= 0,
                    rem == color % 36,
            ;
            let g = rem / 6;
            let b = rem % 6;
            lemma_fundamental_div_mod(rem, 6);
            assert(0 <= b < 6) by (nonlinear_arith)
                requires
                    rem >= 0,
                    b == rem % 6,
            ;
            assert(color == 36 * r + 6 * g + b);
            assert(0 <= r < 6 && 0 <= g < 6);
            assert(palette_triple(p, r, g, b));
            assert(k == 3 * color + chan);
        }
    }
    assert(p =~= spec_palette());
}

/// Every triple of levels below 6 indexes one of the 216 palette
/// colors.
pub proof fn lemma_palette_index_bound(r: int, g: int, b: int)
    requires
        0 <= r < 6,
        0 <= g < 6,
        0 <= b < 6,
    ensures
        0 <= 36 * r + 6 * g + b <= 215,
{
}

/// Builds the fixed 216-color palette, red outermost, blue innermost,
/// padded with zero bytes to 256 entries.
pub fn build_palette() -> (p: Vec<u8>)
    ensures
        palette_ok(p@),
        p@ == spec_palette(),
{
    let mut p: Vec<u8> = Vec::new();
    let mut r: usize = 0;
    while r < 6
        invariant
            r <= 6,
            p@.len() == 108 * r,
            forall|rr: int, gg: int, bb: int|
                0 <= rr < r && 0 <= gg < 6 && 0 <= bb < 6 ==> #[trigger] palette_triple(
                    p@,
                    rr,
                    gg,
                    bb,
                ),
        decreases 6 - r,
    {
        let mut g: usize = 0;
        while g < 6
            invariant
                r < 6,
                g <= 6,
                p@.len() == 108 * r + 18 * g,
                forall|rr: int, gg: int, bb: int|
                    0 <= rr < r && 0 <= gg < 6 && 0 <= bb < 6 ==> #[trigger] palette_triple(
                        p@,
                        rr,
                        gg,
                        bb,
                    ),
                forall|gg: int, bb: int|
                    0 <= gg < g && 0 <= bb < 6 ==> #[trigger] palette_triple(p@, r as int, gg, bb),
            decreases 6 - g,
        {
            let mut b: usize = 0;
            while b < 6
                invariant
                    r < 6,
                    g < 6,
                    b <= 6,
                    p@.len() == 108 * r + 18 * g + 3 * b,
                    forall|rr: int, gg: int, bb: int|
                        0 <= rr < r && 0 <= gg < 6 && 0 <= bb < 6 ==> #[trigger] palette_triple(
                            p@,
                            rr,
                            gg,
                            bb,
                        ),
                    forall|gg: int, bb: int|
                        0 <= gg < g && 0 <= bb < 6 ==> #[trigger] palette_triple(
                            p@,
                            r as int,
                            gg,
                            bb,
                        ),
                    forall|bb: int|
                        0 <= bb < b ==> #[trigger] palette_triple(p@, r as int, g as int, bb),
                decreases 6 - b,
            {
                let ghost p0 = p@;
                p.push((r * 51) as u8);
                p.push((g * 51) as u8);
                p.push((b * 51) as u8);
                proof {
                    assert forall|rr: int, gg: int, bb: int|
                        0 <= rr < r && 0 <= gg < 6 && 0 <= bb < 6 implies #[trigger] palette_triple(
                        p@,
                        rr,
                        gg,
                        bb,
                    ) by {
                        assert(palette_triple(p0, rr, gg, bb));
                        assert(3 * (36 * rr + 6 * gg + bb) + 2 < p0.len());
                    }
                    assert forall|gg: int, bb: int|
                        0 <= gg < g && 0 <= bb < 6 implies #[trigger] palette_triple(
                        p@,
                        r as int,
                        gg,
                        bb,
                    ) by {
                        assert(palette_triple(p0, r as int, gg, bb));
                        assert(3 * (36 * r + 6 * gg + bb) + 2 < p0.len());
                    }
                    assert forall|bb: int| 0 <= bb < b + 1 implies #[trigger] palette_triple(
                        p@,
                        r as int,
                        g as int,
                        bb,
                    ) by {
                        if bb < b {
                            assert(palette_triple(p0, r as int, g as int, bb));
                            assert(3 * (36 * r + 6 * g + bb) + 2 < p0.len());
                        } else {
                            assert(3 * (36 * r + 6 * g + bb) == p0.len());
                        }
                    }
                }
                b = b + 1;
            }
            proof {
                assert forall|gg: int, bb: int|
                    0 <= gg < g + 1 && 0 <= bb < 6 implies #[trigger] palette_triple(
                    p@,
                    r as int,
                    gg,
                    bb,
                ) by {
                    if gg == g {
                        assert(palette_triple(p@, r as int, g as int, bb));
                    }
                }
            }
            g = g + 1;
        }
        proof {
            assert forall|rr: int, gg: int, bb: int|
                0 <= rr < r + 1 && 0 <= gg < 6 && 0 <= bb < 6 implies #[trigger] palette_triple(
                p@,
                rr,
                gg,
                bb,
            ) by {
                if rr == r {
                    assert(palette_triple(p@, r as int, gg, bb));
                }
            }
        }
        r = r + 1;
    }
    while p.len() < 768
        invariant
            648 <= p@.len() <= 768,
            forall|rr: int, gg: int, bb: int|
                0 <= rr < 6 && 0 <= gg < 6 && 0 <= bb < 6 ==> #[trigger] palette_triple(
                    p@,
                    rr,
                    gg,
                    bb,
                ),
            forall|k: int| 648 <= k < p@.len() ==> #[trigger] p@[k] == 0,
        decreases 768 - p@.len(),
    {
        let ghost p0 = p@;
        p.push(0);
        proof {
            assert forall|rr: int, gg: int, bb: int|
                0 <= rr < 6 && 0 <= gg < 6 && 0 <= bb < 6 implies #[trigger] palette_triple(
                p@,
                rr,
                gg,
                bb,
            ) by {
                assert(palette_triple(p0, rr, gg, bb));
                assert(3 * (36 * rr + 6 * gg + bb) + 2 < p0.len());
            }
        }
    }
    proof {
        lemma_palette_ok_pins(p@);
    }
    p
}

/// Quantizes one channel value to its level, 0 to 5.
pub fn quantize_channel(v: u8) -> (q: u8)
    ensures
        q as int == quant_level(v),
        q <= 5,
{
    let q = ((v as u32) + 25) / 51;
    if q > 5 {
        5
    } else {
        q as u8
    }
}

/// The palette indices of a frame's pixels, row-major.
pub open spec fn quant_seq(f: Frame) -> Seq<u8> {
    Seq::new(f.pixels@.len(), |k: int| quant_index(f.pixels@[k]) as u8)
}

/// Quantizes every pixel of a frame to its palette index, row-major.
pub fn frame_indices(frame: &Frame) -> (idx: Vec<u8>)
    requires
        frame.wf(),
    ensures
        idx@ == quant_seq(*frame),
        idx@.len() == frame.pixels@.len(),
        forall|k: int|
            0 <= k < idx@.len() ==> (#[trigger] idx@[k]) as int == quant_index(frame.pixels@[k]),
{
    let mut idx: Vec<u8> = Vec::new();
    let mut k: usize = 0;
    while k < frame.pixels.len()
        invariant
            k <= frame.pixels@.len(),
            idx@.len() == k,
            forall|i: int|
                0 <= i < k ==> (#[trigger] idx@[i]) as int == quant_index(frame.pixels@[i]),
        decreases frame.pixels@.len() - k,
    {
        let c = frame.pixels[k];
        proof {
            lemma_quant_bounds(c);
        }
        let qr = quantize_channel(c.r);
        let qg = quantize_channel(c.g);
        let qb = quantize_channel(c.b);
        idx.push(qr * 36 + qg * 6 + qb);
        k = k + 1;
    }
    proof {
        assert forall|i: int| 0 <= i < idx@.len() implies #[trigger] idx@[i] == quant_seq(
            *frame,
        )[i] by {
            lemma_quant_bounds(frame.pixels@[i]);
        }
        assert(idx@ =~= quant_seq(*frame));
    }
    idx
}

/// How many frames step between kept frames: one — keep them all —
/// when the sequence fits the cap, else the truncated quotient.
pub open spec fn anim_stride(n: int) -> int {
    if n > MAX_ANIM_FRAMES {
        n / (MAX_ANIM_FRAMES as int)
    } else {
        1
    }
}

/// Computes the stride between kept frames.
pub fn frame_stride(n: usize) -> (s: usize)
    ensures
        s == anim_stride(n as int),
        s >= 1,
{
    if n > MAX_ANIM_FRAMES {
        n / MAX_ANIM_FRAMES
    } else {
        1
    }
}

/// The frame records the animation serializes: the quantized pixels of
/// exactly those frames whose index is divisible by the stride, in
/// increasing index order, each under the given dimensions and delay.
pub open spec fn anim_records(frames: Seq<Frame>, stride: int, w: u16, h: u16, delay: u16) -> Seq<
    (u16, u16, Seq<u8>, u16),
>
    recommends
        stride >= 1,
    decreases frames.len(),
{
    if frames.len() == 0 {
        Seq::empty()
    } else {
        let pre = anim_records(frames.drop_last(), stride, w, h, delay);
        if (frames.len() - 1) % stride == 0 {
            pre.push((w, h, quant_seq(frames.last()), delay))
        } else {
            pre
        }
    }
}

/// Quantizes the frames kept by the stride to the fixed palette and
/// serializes them as an animation that loops forever, each frame
/// under the fixed delay: the bytes are the GIF stream of exactly
/// those records, for the caller to store.
pub fn encode_animation(frames: &Vec<Frame>, size: usize) -> (bytes: Vec<u8>)
    requires
        1 <= size <= 0xFFFF,
        forall|f: int|
            0 <= f < frames@.len() ==> (#[trigger] frames@[f]).wf() && frames@[f].size == size,
    ensures
        bytes@ == gif_stream(
            size as u16,
            size as u16,
            spec_palette(),
            true,
            anim_records(
                frames@,
                anim_stride(frames@.len() as int),
                size as u16,
                size as u16,
                FRAME_DELAY,
            ),
        ),
{
    let palette = build_palette();
    let width = size as u16;
    let height = size as u16;
    let mut sink = gif_encoder_new(width, height, &palette);
    gif_set_infinite_repeat(&mut sink);
    let stride = frame_stride(frames.len());
    let mut i: usize = 0;
    while i < frames.len()
        invariant
            1 <= size <= 0xFFFF,
            width == size as u16,
            height == size as u16,
            stride >= 1,
            stride == anim_stride(frames@.len() as int),
            forall|f: int|
                0 <= f < frames@.len() ==> (#[trigger] frames@[f]).wf() && frames@[f].size == size,
            i <= frames@.len(),
            sink_width(sink) == width,
            sink_height(sink) == height,
            sink_palette(sink) == spec_palette(),
            sink_loops(sink),
            sink_frames(sink) == anim_records(
                frames@.take(i as int),
                stride as int,
                width,
                height,
                FRAME_DELAY,
            ),
        decreases frames@.len() - i,
    {
        proof {
            assert(frames@.take(i + 1).drop_last() =~= frames@.take(i as int));
            assert(frames@.take(i + 1).last() == frames@[i as int]);
        }
        if i % stride == 0 {
            let idx = frame_indices(&frames[i]);
            gif_write_indexed_frame(&mut sink, width, height, idx, FRAME_DELAY);
        }
        i = i + 1;
    }
    proof {
        assert(frames@.take(frames@.len() as int) =~= frames@);
    }
    gif_into_bytes(sink)
}

} // verus!
