use vstd::prelude::*;

use crate::grid::{index_of, lemma_index_bounds};
use crate::palette::{paint, paint_color, Rgb};

verus! {

/// A GIF stream being written into memory. The encoder is kept out of
/// Verus's sight: its type is generic over `std::io::Write`, which Verus
/// cannot declare.
#[verifier::external_body]
pub struct GifStream {
    enc: gif::Encoder<Vec<u8>>,
}

#[verifier::external_type_specification]
#[verifier::external_body]
pub struct ExEncodingError(gif::EncodingError);

#[verifier::external_type_specification]
#[verifier::external_body]
pub struct ExIoError(std::io::Error);

/// How a frame's pixels combine with the canvas left by the frame before.
#[derive(Clone, Copy, Debug, PartialEq, Eq, Structural)]
pub enum Disposal {
    /// The frame is drawn on a fresh canvas.
    Replace,
    /// The frame is drawn over what the earlier frames left, its transparent
    /// pixels showing what lies beneath.
    Keep,
}

/// Why an export produced no animation.
#[derive(Debug)]
pub enum ExportError {
    /// There were no snapshots to encode.
    NoFrames,
    /// A side of the grid or the cell size is zero, or the image would be
    /// wider or higher than a GIF allows (65535 pixels).
    BadCanvas,
    /// A snapshot does not hold one age per cell of the grid.
    FrameSize,
    /// The encoder refused a frame or its header.
    Encode(gif::EncodingError),
    /// Closing the stream failed.
    Io(std::io::Error),
}

/// The bytes written into a stream so far.
pub uninterp spec fn stream_bytes(stream: GifStream) -> Seq<u8>;

/// The bytes that the GIF encoder writes for one frame built from RGBA
/// `pixels` of a `width` by `height` image, shown for `delay` hundredths
/// of a second and kept under the next frame when `keep` holds: a graphic
/// control extension, an image descriptor, the frame's own palette and the
/// LZW-compressed indices.
pub uninterp spec fn gif_frame_block(
    width: u16,
    height: u16,
    pixels: Seq<u8>,
    delay: u16,
    keep: bool,
) -> Seq<u8>;

/// The start of a GIF stream with a `width` by `height` canvas and no
/// palette of its own: the signature, the logical screen descriptor and
/// the two-entry colour table that the descriptor's flags announce.
pub open spec fn gif_header(width: u16, height: u16) -> Seq<u8> {
    seq![0x47u8, 0x49, 0x46, 0x38, 0x39, 0x61]
        + seq![(width % 256) as u8, (width / 256) as u8, (height % 256) as u8, (height / 256) as u8]
        + seq![0x80u8, 0, 0, 0, 0, 0, 0, 0, 0]
}

/// The application extension that makes an animation loop forever.
pub open spec fn loop_forever_block() -> Seq<u8> {
    seq![0x21u8, 0xFF, 0x0B, 0x4E, 0x45, 0x54, 0x53, 0x43, 0x41, 0x50, 0x45, 0x32, 0x2E, 0x30]
        + seq![0x03u8, 0x01, 0x00, 0x00, 0x00]
}

/// The byte that ends a GIF stream.
pub const GIF_TRAILER: u8 = 0x3B;

/// Relies on gif::Encoder::new with an empty global palette: it writes the
/// header into the vector. Writing into a vector does not fail.
#[verifier::external_body]
fn new_encoder(width: u16, height: u16) -> (r: Result<GifStream, gif::EncodingError>)
    ensures
        r is Ok,
        r is Ok ==> stream_bytes(r->Ok_0) == gif_header(width, height),
{
    gif::Encoder::new(Vec::new(), width, height, &[]).map(|enc| GifStream { enc })
}

/// Relies on gif::Encoder::set_repeat with `Repeat::Infinite`: it appends
/// the looping extension. Writing into a vector does not fail.
#[verifier::external_body]
fn set_repeat_forever(stream: &mut GifStream) -> (r: Result<(), gif::EncodingError>)
    ensures
        r is Ok,
        stream_bytes(*final(stream)) == stream_bytes(*old(stream)) + loop_forever_block(),
{
    stream.enc.set_repeat(gif::Repeat::Infinite)
}

/// Relies on gif::Frame::from_rgba, which builds a frame with its own
/// palette of at most 256 colours (zero alpha meaning transparent) and
/// panics unless there are four bytes per pixel, and on
/// gif::Encoder::write_frame, which appends that frame, with the delay and
/// disposal set, to the stream. Writing into a vector does not fail: the
/// frame always has a palette and a full buffer.
#[verifier::external_body]
fn write_rgba_frame(
    stream: &mut GifStream,
    width: u16,
    height: u16,
    pixels: Vec<u8>,
    delay: u16,
    disposal: Disposal,
) -> (r: Result<(), gif::EncodingError>)
    requires
        pixels@.len() == width * height * 4,
    ensures
        r is Ok,
        stream_bytes(*final(stream)) == stream_bytes(*old(stream)) + gif_frame_block(
            width,
            height,
            pixels@,
            delay,
            disposal == Disposal::Keep,
        ),
{
    let mut pixels = pixels;
    let mut frame = gif::Frame::from_rgba(width, height, &mut pixels);
    frame.delay = delay;
    frame.dispose = match disposal {
        Disposal::Replace => gif::DisposalMethod::Any,
        Disposal::Keep => gif::DisposalMethod::Keep,
    };
    stream.enc.write_frame(&frame)
}

/// Relies on gif::Encoder::into_inner: it appends the trailer byte and
/// hands back the vector. Writing into a vector does not fail.
#[verifier::external_body]
fn finish(stream: GifStream) -> (r: Result<Vec<u8>, std::io::Error>)
    ensures
        r is Ok,
        r is Ok ==> r->Ok_0@ == stream_bytes(stream).push(GIF_TRAILER),
{
    stream.enc.into_inner()
}

/// A canvas of `width` by `height` cells, each `cell_size` pixels square,
/// that a GIF can hold and whose RGBA bytes fit in memory.
pub open spec fn canvas_fits(width: int, height: int, cell_size: int) -> bool {
    &&& width > 0
    &&& height > 0
    &&& cell_size > 0
    &&& width * cell_size <= u16::MAX
    &&& height * cell_size <= u16::MAX
    &&& width * cell_size * (height * cell_size) * 4 <= usize::MAX
}

/// Every snapshot holds one age per cell.
pub open spec fn snapshots_fit(frames: Seq<Vec<u16>>, width: int, height: int) -> bool {
    forall|f: int| 0 <= f < frames.len() ==> #[trigger] frames[f]@.len() == width * height
}

/// Whether cell `i` is painted in frame `f`: when its age differs from the
/// frame before, the first frame being compared with an all-dead board (so
/// there only live cells are painted).
pub open spec fn changed(frames: Seq<Vec<u16>>, f: int, i: int) -> bool {
    if f == 0 {
        frames[f]@[i] != 0
    } else {
        frames[f - 1]@[i] != frames[f]@[i]
    }
}

/// Channel `c` (red, green, blue, then alpha) of an opaque pixel of colour `rgb`.
pub open spec fn channel(rgb: Rgb, c: int) -> u8 {
    if c == 0 {
        rgb.r
    } else if c == 1 {
        rgb.g
    } else if c == 2 {
        rgb.b
    } else {
        255
    }
}

/// Channel `c` of a pixel of a cell of the given age: opaque in the cell's
/// colour when it changed, fully transparent (all zero) when it did not.
pub open spec fn cell_byte(age: u16, changed: bool, c: int) -> u8 {
    if changed {
        channel(paint(age), c)
    } else {
        0
    }
}

/// Byte `k` of the RGBA image of frame `f`, rows of pixels top to bottom.
pub open spec fn frame_byte(frames: Seq<Vec<u16>>, f: int, width: int, cell_size: int, k: int) -> u8 {
    let row_len = width * cell_size;
    let p = k / 4;
    let i = index_of(width, (p % row_len) / cell_size, (p / row_len) / cell_size);
    cell_byte(frames[f]@[i], changed(frames, f, i), k % 4)
}

/// The RGBA image of frame `f`.
pub open spec fn frame_image(
    frames: Seq<Vec<u16>>,
    f: int,
    width: int,
    height: int,
    cell_size: int,
) -> Seq<u8> {
    Seq::new(
        (width * cell_size * (height * cell_size) * 4) as nat,
        |k: int| frame_byte(frames, f, width, cell_size, k),
    )
}

/// Position of the byte for channel `c` of pixel `(px, py)` in an RGBA image
/// whose rows are `row_len` pixels long.
pub open spec fn byte_pos(row_len: int, px: int, py: int, c: int) -> int {
    4 * index_of(row_len, px, py) + c
}

/// The RGBA image of frame `f`: every cell of the grid becomes a square
/// block of `cell_size` pixels, opaque in the cell's colour where the cell
/// changed since the frame before and transparent where it did not.
pub fn frame_pixels(
    frames: &[Vec<u16>],
    f: usize,
    width: usize,
    height: usize,
    cell_size: usize,
) -> (pixels: Vec<u8>)
    requires
        f < frames@.len(),
        frames@[f as int]@.len() == width * height,
        f > 0 ==> frames@[f - 1]@.len() == width * height,
        canvas_fits(width as int, height as int, cell_size as int),
    ensures
        pixels@ == frame_image(frames@, f as int, width as int, height as int, cell_size as int),
{
    let row_len = width * cell_size;
    let rows = height * cell_size;
    let ghost w = width as int;
    let ghost cs = cell_size as int;
    let mut pixels: Vec<u8> = Vec::new();
    let mut py: usize = 0;
    while py < rows
        invariant
            canvas_fits(w, height as int, cs),
            w == width as int,
            cs == cell_size as int,
            f < frames@.len(),
            frames@[f as int]@.len() == width * height,
            f > 0 ==> frames@[f - 1]@.len() == width * height,
            row_len == w * cs,
            rows == height * cs,
            py <= rows,
            pixels@.len() == 4 * (py * row_len),
            forall|k: int|
                0 <= k < pixels@.len() ==> #[trigger] pixels@[k] == frame_byte(frames@, f as int, w, cs, k),
        decreases rows - py,
    {
        let mut px: usize = 0;
        while px < row_len
            invariant
                canvas_fits(w, height as int, cs),
                w == width as int,
                cs == cell_size as int,
                f < frames@.len(),
                frames@[f as int]@.len() == width * height,
                f > 0 ==> frames@[f - 1]@.len() == width * height,
                row_len == w * cs,
                rows == height * cs,
                py < rows,
                px <= row_len,
                pixels@.len() == 4 * (py * row_len + px),
                forall|k: int|
                    0 <= k < pixels@.len() ==> #[trigger] pixels@[k] == frame_byte(
                        frames@,
                        f as int,
                        w,
                        cs,
                        k,
                    ),
            decreases row_len - px,
        {
            let x = px / cell_size;
            let y = py / cell_size;
            proof {
                assert(x < width) by (nonlinear_arith)
                    requires
                        x == px / cell_size,
                        px < width * cell_size,
                        cell_size > 0,
                ;
                assert(y < height) by (nonlinear_arith)
                    requires
                        y == py / cell_size,
                        py < height * cell_size,
                        cell_size > 0,
                ;
                lemma_index_bounds(w, height as int, x as int, y as int);
                assert(w * height <= w * cs * (height * cs) * 4) by (nonlinear_arith)
                    requires
                        w > 0,
                        height > 0,
                        cs > 0,
                ;
                assert(py * row_len + px < rows * row_len) by (nonlinear_arith)
                    requires
                        py < rows,
                        px < row_len,
                ;
                assert(rows * row_len == w * cs * (height * cs)) by (nonlinear_arith)
                    requires
                        row_len == w * cs,
                        rows == height * cs,
                ;
            }
            let i = y * width + x;
            let age = frames[f][i];
            let painted = if f == 0 {
                age != 0
            } else {
                frames[f - 1][i] != age
            };
            let ghost start = pixels@.len() as int;
            let ghost p = py * row_len + px;
            if painted {
                let rgb = paint_color(age);
                pixels.push(rgb.r);
                pixels.push(rgb.g);
                pixels.push(rgb.b);
                pixels.push(255);
            } else {
                pixels.push(0);
                pixels.push(0);
                pixels.push(0);
                pixels.push(0);
            }
            proof {
                vstd::arithmetic::div_mod::lemma_fundamental_div_mod_converse(
                    p,
                    row_len as int,
                    py as int,
                    px as int,
                );
                assert forall|c: int| 0 <= c < 4 implies #[trigger] pixels@[start + c]
                    == frame_byte(frames@, f as int, w, cs, start + c) by {
                    vstd::arithmetic::div_mod::lemma_fundamental_div_mod_converse(
                        start + c,
                        4,
                        p,
                        c,
                    );
                }
                assert forall|k: int| 0 <= k < pixels@.len() implies #[trigger] pixels@[k]
                    == frame_byte(frames@, f as int, w, cs, k) by {
                    if k >= start {
                        assert(pixels@[start + (k - start)] == frame_byte(
                            frames@,
                            f as int,
                            w,
                            cs,
                            start + (k - start),
                        ));
                    }
                }
            }
            px = px + 1;
        }
        proof {
            assert(py * row_len + row_len == (py + 1) * row_len) by (nonlinear_arith);
        }
        py = py + 1;
    }
    proof {
        assert(rows * row_len == w * cs * (height * cs)) by (nonlinear_arith)
            requires
                row_len == w * cs,
                rows == height * cs,
        ;
        assert(pixels@ =~= frame_image(frames@, f as int, w, height as int, cs));
    }
    pixels
}

/// Display time of every frame, in the hundredths of a second that GIF
/// counts in, for a simulation ticking every `tick_ms` milliseconds
/// (rounded down).
pub fn frame_delay(tick_ms: u16) -> (r: u16)
    ensures
        r == tick_ms / 10,
{
    tick_ms / 10
}

/// The first frame is drawn on a fresh canvas; each later one over the
/// canvas its predecessors left.
pub fn frame_disposal(f: usize) -> (r: Disposal)
    ensures
        r == (if f == 0 {
            Disposal::Replace
        } else {
            Disposal::Keep
        }),
{
    if f == 0 {
        Disposal::Replace
    } else {
        Disposal::Keep
    }
}

/// The RGBA images of all the frames, in order.
pub open spec fn frame_images(
    frames: Seq<Vec<u16>>,
    width: int,
    height: int,
    cell_size: int,
) -> Seq<Seq<u8>> {
    Seq::new(frames.len(), |f: int| frame_image(frames, f, width, height, cell_size))
}

/// The encoded blocks of `images`, each shown for `delay`; every frame but
/// the first is kept under the next.
pub open spec fn frame_blocks(width: u16, height: u16, images: Seq<Seq<u8>>, delay: u16) -> Seq<u8>
    decreases images.len(),
{
    if images.len() == 0 {
        Seq::empty()
    } else {
        frame_blocks(width, height, images.drop_last(), delay) + gif_frame_block(
            width,
            height,
            images.last(),
            delay,
            images.len() > 1,
        )
    }
}

/// A complete looping GIF of `images` on a `width` by `height` canvas.
pub open spec fn animation(width: u16, height: u16, images: Seq<Seq<u8>>, delay: u16) -> Seq<u8> {
    (gif_header(width, height) + loop_forever_block() + frame_blocks(width, height, images, delay)).push(
        GIF_TRAILER,
    )
}

/// The GIF that `encode_gif` makes of valid snapshots.
pub open spec fn exported(
    frames: Seq<Vec<u16>>,
    width: int,
    height: int,
    cell_size: int,
    tick_ms: u16,
) -> Seq<u8> {
    animation(
        (width * cell_size) as u16,
        (height * cell_size) as u16,
        frame_images(frames, width, height, cell_size),
        tick_ms / 10,
    )
}

/// Encodes recorded snapshots of a `width` by `height` grid as a looping
/// GIF, each cell a square of `cell_size` pixels, each frame shown for the
/// simulation's tick of `tick_ms` milliseconds. Every frame after the first
/// paints only the cells whose age changed and leaves the rest transparent
/// over the frame before.
pub fn encode_gif(
    frames: &[Vec<u16>],
    width: usize,
    height: usize,
    cell_size: u16,
    tick_ms: u16,
) -> (r: Result<Vec<u8>, ExportError>)
    ensures
        (r matches Err(ExportError::NoFrames)) <==> frames@.len() == 0,
        (r matches Err(ExportError::BadCanvas)) <==> (frames@.len() > 0 && !canvas_fits(
            width as int,
            height as int,
            cell_size as int,
        )),
        (r matches Err(ExportError::FrameSize)) <==> (frames@.len() > 0 && canvas_fits(
            width as int,
            height as int,
            cell_size as int,
        ) && !snapshots_fit(frames@, width as int, height as int)),
        frames@.len() > 0 && canvas_fits(width as int, height as int, cell_size as int)
            && snapshots_fit(frames@, width as int, height as int) ==> r is Ok,
        r is Ok ==> r->Ok_0@ == exported(
            frames@,
            width as int,
            height as int,
            cell_size as int,
            tick_ms,
        ),
{
    if frames.len() == 0 {
        return Err(ExportError::NoFrames);
    }
    let cs = cell_size as usize;
    if width == 0 || height == 0 || cs == 0 || width > 65535 / cs || height > 65535 / cs {
        proof {
            if width > 0 && height > 0 && cs > 0 {
                assert(width * cs > 65535 || height * cs > 65535) by (nonlinear_arith)
                    requires
                        width > 65535usize / cs || height > 65535usize / cs,
                        cs > 0,
                ;
            }
        }
        return Err(ExportError::BadCanvas);
    }
    proof {
        assert(width * cs <= 65535 && height * cs <= 65535) by (nonlinear_arith)
            requires
                width <= 65535usize / cs,
                height <= 65535usize / cs,
                cs > 0,
        ;
    }
    let row_len = width * cs;
    let rows = height * cs;
    let pixel_count = row_len.checked_mul(rows);
    if pixel_count.is_none() {
        return Err(ExportError::BadCanvas);
    }
    let pixel_count = pixel_count.unwrap();
    if pixel_count.checked_mul(4).is_none() {
        return Err(ExportError::BadCanvas);
    }
    assert(canvas_fits(width as int, height as int, cs as int));
    proof {
        assert(width * height <= row_len * rows) by (nonlinear_arith)
            requires
                row_len == width * cs,
                rows == height * cs,
                cs > 0,
                width > 0,
                height > 0,
        ;
    }
    let cells = width * height;
    let mut g: usize = 0;
    while g < frames.len()
        invariant
            g <= frames@.len(),
            frames@.len() > 0,
            cs == cell_size as usize,
            cells == width * height,
            canvas_fits(width as int, height as int, cs as int),
            forall|j: int| 0 <= j < g ==> #[trigger] frames@[j]@.len() == width * height,
        decreases frames@.len() - g,
    {
        if frames[g].len() != cells {
            return Err(ExportError::FrameSize);
        }
        g = g + 1;
    }
    let mut stream = match new_encoder(row_len as u16, rows as u16) {
        Ok(s) => s,
        Err(e) => return Err(ExportError::Encode(e)),
    };
    match set_repeat_forever(&mut stream) {
        Ok(()) => {},
        Err(e) => return Err(ExportError::Encode(e)),
    }
    let delay = frame_delay(tick_ms);
    let ghost images = frame_images(frames@, width as int, height as int, cs as int);
    let ghost start = gif_header(row_len as u16, rows as u16) + loop_forever_block();
    let mut f: usize = 0;
    while f < frames.len()
        invariant
            f <= frames@.len(),
            frames@.len() > 0,
            cs == cell_size as usize,
            snapshots_fit(frames@, width as int, height as int),
            canvas_fits(width as int, height as int, cs as int),
            row_len == width * cs,
            rows == height * cs,
            row_len <= 65535,
            rows <= 65535,
            delay == tick_ms / 10,
            images == frame_images(frames@, width as int, height as int, cs as int),
            start == gif_header(row_len as u16, rows as u16) + loop_forever_block(),
            stream_bytes(stream) == start + frame_blocks(
                row_len as u16,
                rows as u16,
                images.take(f as int),
                delay,
            ),
        decreases frames@.len() - f,
    {
        let pixels = frame_pixels(frames, f, width, height, cs);
        proof {
            assert(row_len * rows * 4 == width * cs * (height * cs) * 4) by (nonlinear_arith)
                requires
                    row_len == width * cs,
                    rows == height * cs,
            ;
            let next = images.take(f as int + 1);
            assert(next.drop_last() =~= images.take(f as int));
            assert(next.last() == pixels@);
            assert(start + frame_blocks(row_len as u16, rows as u16, next, delay) =~= start
                + frame_blocks(row_len as u16, rows as u16, images.take(f as int), delay)
                + gif_frame_block(row_len as u16, rows as u16, pixels@, delay, f > 0));
        }
        match write_rgba_frame(&mut stream, row_len as u16, rows as u16, pixels, delay, frame_disposal(f)) {
            Ok(()) => {},
            Err(e) => return Err(ExportError::Encode(e)),
        }
        f = f + 1;
    }
    proof {
        assert(images.take(f as int) =~= images);
    }
    match finish(stream) {
        Ok(bytes) => Ok(bytes),
        Err(e) => Err(ExportError::Io(e)),
    }
}

/// In every frame after the first, each pixel of the block of a cell whose
/// age is the same as in the frame before is fully transparent (all four
/// bytes zero), and each pixel of the block of a cell whose age changed is
/// opaque in that age's colour. The first frame is compared with an
/// all-dead board: dead cells are transparent, live ones opaque.
pub proof fn lemma_unchanged_cells_transparent(
    frames: Seq<Vec<u16>>,
    f: int,
    width: int,
    height: int,
    cell_size: int,
    x: int,
    y: int,
    dx: int,
    dy: int,
    c: int,
)
    requires
        canvas_fits(width, height, cell_size),
        snapshots_fit(frames, width, height),
        0 <= f < frames.len(),
        0 <= x < width,
        0 <= y < height,
        0 <= dx < cell_size,
        0 <= dy < cell_size,
        0 <= c < 4,
    ensures
        ({
            let k = byte_pos(width * cell_size, x * cell_size + dx, y * cell_size + dy, c);
            let i = index_of(width, x, y);
            let image = frame_image(frames, f, width, height, cell_size);
            &&& 0 <= k < image.len()
            &&& f > 0 && frames[f - 1]@[i] == frames[f]@[i] ==> image[k] == 0
            &&& f > 0 && frames[f - 1]@[i] != frames[f]@[i] ==> image[k] == channel(
                paint(frames[f]@[i]),
                c,
            )
            &&& f == 0 && frames[f]@[i] == 0 ==> image[k] == 0
            &&& f == 0 && frames[f]@[i] != 0 ==> image[k] == channel(paint(frames[f]@[i]), c)
        }),
{
    let row_len = width * cell_size;
    let rows = height * cell_size;
    let px = x * cell_size + dx;
    let py = y * cell_size + dy;
    assert(px < row_len && py < rows) by (nonlinear_arith)
        requires
            px == x * cell_size + dx,
            py == y * cell_size + dy,
            row_len == width * cell_size,
            rows == height * cell_size,
            0 <= x < width,
            0 <= y < height,
            0 <= dx < cell_size,
            0 <= dy < cell_size,
    ;
    assert(0 <= px && 0 <= py) by (nonlinear_arith)
        requires
            px == x * cell_size + dx,
            py == y * cell_size + dy,
            0 <= x,
            0 <= y,
            0 <= dx,
            0 <= dy,
            cell_size > 0,
    ;
    let p = index_of(row_len, px, py);
    lemma_index_bounds(row_len, rows, px, py);
    let k = 4 * p + c;
    assert(0 <= k < row_len * rows * 4) by (nonlinear_arith)
        requires
            k == 4 * p + c,
            0 <= p < row_len * rows,
            0 <= c < 4,
    ;
    vstd::arithmetic::div_mod::lemma_fundamental_div_mod_converse(k, 4, p, c);
    vstd::arithmetic::div_mod::lemma_fundamental_div_mod_converse(px, cell_size, x, dx);
    vstd::arithmetic::div_mod::lemma_fundamental_div_mod_converse(py, cell_size, y, dy);
    assert(frame_image(frames, f, width, height, cell_size)[k] == frame_byte(
        frames,
        f,
        width,
        cell_size,
        k,
    ));
}

/// Exporting depends on the snapshots' contents and the parameters alone:
/// two snapshot sequences that hold the same ages give the same image for
/// every frame, and the same encoded animation, with the same delays.
pub proof fn lemma_export_deterministic(
    a: Seq<Vec<u16>>,
    b: Seq<Vec<u16>>,
    width: int,
    height: int,
    cell_size: int,
    tick_ms: u16,
)
    requires
        a.len() == b.len(),
        forall|f: int| 0 <= f < a.len() ==> #[trigger] a[f]@ == b[f]@,
    ensures
        forall|f: int|
            0 <= f < a.len() ==> #[trigger] frame_image(a, f, width, height, cell_size)
                == frame_image(b, f, width, height, cell_size),
        exported(a, width, height, cell_size, tick_ms) == exported(b, width, height, cell_size, tick_ms),
{
    assert forall|f: int| 0 <= f < a.len() implies #[trigger] frame_image(a, f, width, height, cell_size)
        == frame_image(b, f, width, height, cell_size) by {
        if f > 0 {
            assert(a[f - 1]@ == b[f - 1]@);
        }
        assert(frame_image(a, f, width, height, cell_size) =~= frame_image(
            b,
            f,
            width,
            height,
            cell_size,
        ));
    }
    assert(frame_images(a, width, height, cell_size) =~= frame_images(b, width, height, cell_size));
}

} // verus!
