//! The spritesheet forge: grouping numbered frame images by base name and
//! concatenating each group into one horizontal strip.
//!
//! The program shell walks the asset tree, reads each file's bytes and
//! writes the finished strips back out; everything in between — which files
//! are grouped and under what name, the deterministic frame order, the
//! strip's exact pixels, and the abort on the first undecodable frame — is
//! verified here.  Images are plain RGBA byte buffers; the PNG format
//! itself is handled by the image crate behind trusted wrappers.

use vstd::multiset::Multiset;
use vstd::prelude::*;

verus! {

/// The underscore byte, `_`: the separator between a frame file's base
/// name and its frame suffix.
pub const UNDERSCORE: u8 = 95;

/// A decoded image: RGBA bytes row by row, four per pixel, so the byte at
/// `4 * (y * width + x) + c` is channel `c` of pixel `(x, y)`.
#[derive(Clone, PartialEq, Eq, Debug)]
pub struct PixelImage {
    pub width: u32,
    pub height: u32,
    pub rgba: Vec<u8>,
}

impl View for PixelImage {
    type V = (u32, u32, Seq<u8>);

    open spec fn view(&self) -> (u32, u32, Seq<u8>) {
        (self.width, self.height, self.rgba@)
    }
}

impl PixelImage {
    /// The buffer holds exactly four bytes per pixel.
    pub open spec fn wf(self) -> bool {
        self.rgba@.len() == 4 * self.width * self.height
    }

    /// A blank, fully transparent image.
    pub fn new(width: u32, height: u32) -> (r: PixelImage)
        requires
            4 * width * height <= 1_000_000_000,
        ensures
            r.width == width && r.height == height,
            r.wf(),
            forall|k: int| 0 <= k < r.rgba@.len() ==> r.rgba@[k] == 0,
    {
        proof {
            lemma_buffer_len(width as int, height as int);
        }
        let len64: u64 = 4u64 * (width as u64) * (height as u64);
        let len: usize = len64 as usize;
        let mut rgba: Vec<u8> = Vec::new();
        let mut k: usize = 0;
        while k < len
            invariant
                k <= len,
                rgba@.len() == k,
                forall|j: int| 0 <= j < k ==> rgba@[j] == 0,
            decreases len - k,
        {
            rgba.push(0);
            k = k + 1;
        }
        PixelImage { width, height, rgba }
    }

    /// One channel of one pixel.
    pub fn pixel_byte(&self, x: u32, y: u32, c: u32) -> (r: u8)
        requires
            self.wf(),
            x < self.width,
            y < self.height,
            c < 4,
        ensures
            r == self.rgba@[4 * (y * self.width + x) + c],
    {
        let buffer_len: usize = self.rgba.len();
        proof {
            assert(buffer_len == 4 * self.width * self.height);
            lemma_pixel_index(x as int, y as int, c as int, self.width as int, self.height as int);
        }
        let idx: usize = 4 * ((y as usize) * (self.width as usize) + (x as usize)) + (c as usize);
        self.rgba[idx]
    }

    /// Overwrites one pixel with the given channel bytes.
    pub fn set_pixel(&mut self, x: u32, y: u32, px: [u8; 4])
        requires
            old(self).wf(),
            x < old(self).width,
            y < old(self).height,
        ensures
            final(self).width == old(self).width,
            final(self).height == old(self).height,
            final(self).wf(),
            forall|c: int|
                0 <= c < 4 ==> final(self).rgba@[4 * (y * old(self).width + x) + c] == px[c],
            forall|k: int|
                0 <= k < old(self).rgba@.len() && !(4 * (y * old(self).width + x) <= k < 4 * (y
                    * old(self).width + x) + 4) ==> final(self).rgba@[k] == old(self).rgba@[k],
    {
        let buffer_len: usize = self.rgba.len();
        proof {
            assert(buffer_len == 4 * old(self).width * old(self).height);
            lemma_pixel_index(x as int, y as int, 3, self.width as int, self.height as int);
        }
        let base: usize = 4 * ((y as usize) * (self.width as usize) + (x as usize));
        self.rgba.set(base, px[0]);
        self.rgba.set(base + 1, px[1]);
        self.rgba.set(base + 2, px[2]);
        self.rgba.set(base + 3, px[3]);
    }
}

/// A pixel's byte range lies inside a well-formed buffer.
proof fn lemma_pixel_index(x: int, y: int, c: int, width: int, height: int)
    requires
        0 <= x < width,
        0 <= y < height,
        0 <= c < 4,
    ensures
        0 <= 4 * (y * width + x) + c < 4 * width * height,
        4 * (y * width + x) + 3 < 4 * width * height,
        0 <= y * width + x < width * height,
        4 * (y * width + x) == 4 * (y * width) + 4 * x,
{
    assert(0 <= 4 * (y * width + x) && 4 * (y * width + x) + 3 < 4 * width * height && 0 <= y
        * width + x < width * height && 4 * (y * width + x) == 4 * (y * width) + 4 * x)
        by (nonlinear_arith)
        requires
            0 <= x < width,
            0 <= y < height,
            0 <= c < 4,
    ;
}

/// A buffer's byte length, recomputed stepwise, matches the product form.
proof fn lemma_buffer_len(width: int, height: int)
    requires
        0 <= width,
        0 <= height,
    ensures
        4 * (width * height) == 4 * width * height,
        0 <= width * height,
{
    assert(4 * (width * height) == 4 * width * height && 0 <= width * height) by (nonlinear_arith)
        requires
            0 <= width,
            0 <= height,
    ;
}

/// What a byte string decodes to as a PNG (or any format the image crate
/// recognizes), as width, height and RGBA bytes: a function of the bytes
/// alone, `None` where they do not decode.
pub uninterp spec fn png_decode_of(data: Seq<u8>) -> Option<(u32, u32, Seq<u8>)>;

/// Relies on image's `load_from_memory` and `to_rgba8`: what a byte string
/// decodes to depends on the bytes alone, and the RGBA buffer holds four
/// bytes per pixel of the decoded dimensions.
#[verifier::external_body]
pub fn decode_image(data: &Vec<u8>) -> (r: Option<PixelImage>)
    ensures
        match r {
            Some(img) => png_decode_of(data@) == Some((img.width, img.height, img.rgba@))
                && img.wf(),
            None => png_decode_of(data@) is None,
        },
{
    match image::load_from_memory(data.as_slice()) {
        Ok(decoded) => {
            let buffer = decoded.to_rgba8();
            let (width, height) = (buffer.width(), buffer.height());
            Some(PixelImage { width, height, rgba: buffer.into_raw() })
        },
        Err(_) => None,
    }
}

/// What an RGBA buffer of the given dimensions encodes to as a PNG: a
/// function of the dimensions and bytes alone, `None` where encoding is
/// refused.
pub uninterp spec fn png_encode_of(width: u32, height: u32, rgba: Seq<u8>) -> Option<Seq<u8>>;

/// Relies on image's `RgbaImage::from_raw` and `write_to` with the PNG
/// format: what a buffer encodes to depends on the dimensions and bytes
/// alone.
#[verifier::external_body]
pub fn encode_png(img: &PixelImage) -> (r: Option<Vec<u8>>)
    ensures
        match r {
            Some(out) => png_encode_of(img.width, img.height, img.rgba@) == Some(out@),
            None => png_encode_of(img.width, img.height, img.rgba@) is None,
        },
{
    let buffer = image::RgbaImage::from_raw(img.width, img.height, img.rgba.clone())?;
    let mut out: Vec<u8> = Vec::new();
    let mut cursor = std::io::Cursor::new(&mut out);
    buffer.write_to(&mut cursor, image::ImageFormat::Png).ok()?;
    Some(out)
}

/// The base name a file stem yields: the part before the first underscore,
/// provided the stem has at least one underscore — a stem without one
/// yields nothing and the file is left out of every group.
pub open spec fn spec_base_name(stem: Seq<u8>) -> Option<Seq<u8>>
    decreases stem.len(),
{
    if stem.len() == 0 {
        None
    } else if stem[0] == UNDERSCORE {
        Some(Seq::empty())
    } else {
        match spec_base_name(stem.drop_first()) {
            None => None,
            Some(rest) => Some(seq![stem[0]] + rest),
        }
    }
}

/// Splits a frame file's stem at its first underscore: the base name in
/// front of it, or nothing when the stem holds no underscore.
pub fn base_name(stem: &Vec<u8>) -> (r: Option<Vec<u8>>)
    ensures
        match r {
            Some(b) => spec_base_name(stem@) == Some(b@),
            None => spec_base_name(stem@) is None,
        },
{
    let mut i: usize = 0;
    while i < stem.len()
        invariant
            i <= stem@.len(),
            forall|j: int| 0 <= j < i ==> stem@[j] != UNDERSCORE,
        decreases stem@.len() - i,
    {
        if stem[i] == UNDERSCORE {
            let mut prefix: Vec<u8> = Vec::new();
            let mut j: usize = 0;
            while j < i
                invariant
                    j <= i,
                    i < stem@.len(),
                    prefix@.len() == j,
                    forall|k: int| 0 <= k < j ==> prefix@[k] == stem@[k],
                decreases i - j,
            {
                prefix.push(stem[j]);
                j = j + 1;
            }
            proof {
                lemma_base_name_found(stem@, i as int);
                assert(prefix@ =~= stem@.take(i as int));
            }
            return Some(prefix);
        }
        i = i + 1;
    }
    proof {
        lemma_base_name_absent(stem@);
    }
    None
}

/// A stem whose first underscore is at `i` has the prefix before `i` as
/// its base name.
proof fn lemma_base_name_found(stem: Seq<u8>, i: int)
    requires
        0 <= i < stem.len(),
        stem[i] == UNDERSCORE,
        forall|j: int| 0 <= j < i ==> stem[j] != UNDERSCORE,
    ensures
        spec_base_name(stem) == Some(stem.take(i)),
    decreases i,
{
    if i == 0 {
        assert(stem.take(0) =~= Seq::<u8>::empty());
    } else {
        lemma_base_name_found(stem.drop_first(), i - 1);
        assert(seq![stem[0]] + stem.drop_first().take(i - 1) =~= stem.take(i));
    }
}

/// A stem without an underscore has no base name.
proof fn lemma_base_name_absent(stem: Seq<u8>)
    requires
        forall|j: int| 0 <= j < stem.len() ==> stem[j] != UNDERSCORE,
    ensures
        spec_base_name(stem) is None,
    decreases stem.len(),
{
    if stem.len() > 0 {
        lemma_base_name_absent(stem.drop_first());
    }
}

/// Byte strings in lexicographic order: the empty string first, then by
/// the first differing byte, a prefix before its extensions.
pub open spec fn spec_lex_le(a: Seq<u8>, b: Seq<u8>) -> bool
    decreases a.len(),
{
    if a.len() == 0 {
        true
    } else if b.len() == 0 {
        false
    } else if a[0] < b[0] {
        true
    } else if a[0] > b[0] {
        false
    } else {
        spec_lex_le(a.drop_first(), b.drop_first())
    }
}

/// Compares two byte strings lexicographically.
pub fn lex_le(a: &Vec<u8>, b: &Vec<u8>) -> (r: bool)
    ensures
        r == spec_lex_le(a@, b@),
    decreases a@.len(),
{
    let mut i: usize = 0;
    proof {
        assert(a@.skip(0) =~= a@);
        assert(b@.skip(0) =~= b@);
    }
    loop
        invariant
            i <= a@.len(),
            i <= b@.len(),
            spec_lex_le(a@, b@) == spec_lex_le(a@.skip(i as int), b@.skip(i as int)),
        decreases a@.len() - i,
    {
        if i == a.len() {
            proof {
                assert(a@.skip(i as int).len() == 0);
            }
            return true;
        }
        if i == b.len() {
            proof {
                assert(b@.skip(i as int).len() == 0 && a@.skip(i as int).len() > 0);
            }
            return false;
        }
        let ca: u8 = a[i];
        let cb: u8 = b[i];
        proof {
            assert(a@.skip(i as int)[0] == a@[i as int]);
            assert(b@.skip(i as int)[0] == b@[i as int]);
            assert(a@.skip(i as int).drop_first() =~= a@.skip(i as int + 1));
            assert(b@.skip(i as int).drop_first() =~= b@.skip(i as int + 1));
        }
        if ca < cb {
            return true;
        }
        if ca > cb {
            return false;
        }
        i = i + 1;
    }
}

/// `strip` is the horizontal concatenation of `frames`: the first frame's
/// dimensions are canonical, frame `i` occupies columns `[i*w0, (i+1)*w0)`,
/// and within its slot each frame is drawn from its top-left corner —
/// pixels a frame does not cover (it being narrower or shorter than the
/// first) stay blank.
pub open spec fn strip_matches(strip: (u32, u32, Seq<u8>), frames: Seq<(u32, u32, Seq<u8>)>) -> bool {
    let w0 = frames[0].0 as int;
    let h0 = frames[0].1 as int;
    let total_w = w0 * frames.len();
    &&& frames.len() >= 1
    &&& strip.0 == total_w
    &&& strip.1 == h0
    &&& strip.2.len() == 4 * total_w * h0
    &&& forall|x: int, y: int, c: int|
        0 <= x < total_w && 0 <= y < h0 && 0 <= c < 4 ==> #[trigger] strip.2[4 * (y * total_w + x)
            + c] == spec_strip_byte(frames, x, y, c)
}

/// The byte of channel `c` of strip pixel `(x, y)`: taken from the frame
/// whose slot `x` falls in, or zero where that frame does not reach.
pub open spec fn spec_strip_byte(frames: Seq<(u32, u32, Seq<u8>)>, x: int, y: int, c: int) -> u8 {
    let w0 = frames[0].0 as int;
    let i = x / w0;
    let lx = x % w0;
    let fw = frames[i].0 as int;
    let fh = frames[i].1 as int;
    if lx < fw && y < fh {
        frames[i].2[4 * (y * fw + lx) + c]
    } else {
        0u8
    }
}

/// The group sizes the forge accepts: at least one frame, a strip at most
/// 100000 pixels wide and at most a billion bytes.  The caps are an
/// allocation guard, not a format rule: GPU texture edges top out orders
/// of magnitude below 100000 pixels, so no loadable spritesheet comes
/// near them, and a group beyond them could only exhaust memory — where
/// this tool reports the group by name, a run without the guard would die
/// on the failed allocation instead.
pub open spec fn spec_strip_size_ok(frames: Seq<(u32, u32, Seq<u8>)>) -> bool {
    &&& frames.len() >= 1
    &&& frames[0].0 * frames.len() <= 100_000
    &&& 4 * (frames[0].0 * frames.len()) * frames[0].1 <= 1_000_000_000
}

/// Concatenates a group's frames, sorted order already established, into
/// one horizontal strip: the first frame's size is canonical, frame `i` is
/// drawn at column `i` times the canonical width, and anything a frame
/// does not cover stays transparent.
pub fn compose_strip(frames: &Vec<PixelImage>) -> (r: PixelImage)
    requires
        frames@.len() >= 1,
        forall|i: int| 0 <= i < frames@.len() ==> (#[trigger] frames@[i]).wf(),
        spec_strip_size_ok(frames@.map_values(|f: PixelImage| f@)),
    ensures
        r.wf(),
        strip_matches(r@, frames@.map_values(|f: PixelImage| f@)),
{
    let ghost fm: Seq<(u32, u32, Seq<u8>)> = frames@.map_values(|f: PixelImage| f@);
    let w0: u32 = frames[0].width;
    let h0: u32 = frames[0].height;
    let n: usize = frames.len();
    proof {
        assert(fm[0] == frames@[0]@);
        lemma_strip_products(w0 as int, h0 as int, n as int);
    }
    let total_w64: u64 = (w0 as u64) * (n as u64);
    let total_w: u32 = total_w64 as u32;
    let mut rgba: Vec<u8> = Vec::new();
    let mut y: u32 = 0;
    while y < h0
        invariant
            y <= h0,
            rgba@.len() == 4 * (y * total_w),
            n == frames@.len(),
            fm == frames@.map_values(|f: PixelImage| f@),
            forall|i: int| 0 <= i < frames@.len() ==> (#[trigger] frames@[i]).wf(),
            spec_strip_size_ok(fm),
            w0 == fm[0].0 && h0 == fm[0].1,
            total_w == w0 * n,
            forall|x_: int, y_: int, c_: int|
                0 <= x_ < total_w && 0 <= y_ < y && 0 <= c_ < 4 ==> #[trigger] rgba@[4 * (y_
                    * total_w + x_) + c_] == spec_strip_byte(fm, x_, y_, c_),
        decreases h0 - y,
    {
        let mut x: u32 = 0;
        proof {
            lemma_pixel_row_start(y as int, total_w as int, h0 as int);
        }
        while x < total_w
            invariant
                x <= total_w,
                y < h0,
                rgba@.len() == 4 * (y * total_w) + 4 * x,
                n == frames@.len(),
                fm == frames@.map_values(|f: PixelImage| f@),
                forall|i: int| 0 <= i < frames@.len() ==> (#[trigger] frames@[i]).wf(),
                spec_strip_size_ok(fm),
                w0 == fm[0].0 && h0 == fm[0].1,
                total_w == w0 * n,
                0 <= 4 * ((y as int) * total_w) <= 400_000_000_000,
                forall|x_: int, y_: int, c_: int|
                    0 <= x_ < total_w && 0 <= y_ < y && 0 <= c_ < 4 ==> #[trigger] rgba@[4 * (y_
                        * total_w + x_) + c_] == spec_strip_byte(fm, x_, y_, c_),
                forall|x_: int, c_: int|
                    0 <= x_ < x && 0 <= c_ < 4 ==> #[trigger] rgba@[4 * ((y as int) * total_w + x_)
                        + c_] == spec_strip_byte(fm, x_, y as int, c_),
            decreases total_w - x,
        {
            let i: u32 = x / w0;
            let lx: u32 = x % w0;
            proof {
                lemma_slot_index(x as int, w0 as int, n as int);
                assert(fm[i as int] == frames@[i as int]@);
            }
            let frame: &PixelImage = &frames[i as usize];
            proof {
                lemma_pixel_push(y as int, x as int, total_w as int);
            }
            if lx < frame.width && y < frame.height {
                let b0: u8 = frame.pixel_byte(lx, y, 0);
                let b1: u8 = frame.pixel_byte(lx, y, 1);
                let b2: u8 = frame.pixel_byte(lx, y, 2);
                let b3: u8 = frame.pixel_byte(lx, y, 3);
                rgba.push(b0);
                rgba.push(b1);
                rgba.push(b2);
                rgba.push(b3);
            } else {
                rgba.push(0);
                rgba.push(0);
                rgba.push(0);
                rgba.push(0);
            }
            x = x + 1;
            proof {
                assert forall|x_: int, c_: int|
                    0 <= x_ < x && 0 <= c_ < 4 implies #[trigger] rgba@[4 * ((y as int) * total_w
                    + x_) + c_] == spec_strip_byte(fm, x_, y as int, c_) by {
                    lemma_pixel_push(y as int, x_, total_w as int);
                }
                assert forall|x_: int, y_: int, c_: int|
                    0 <= x_ < total_w && 0 <= y_ < y && 0 <= c_ < 4 implies #[trigger] rgba@[4 * (
                y_ * total_w + x_) + c_] == spec_strip_byte(fm, x_, y_, c_) by {
                    lemma_pixel_order(x_, y_, total_w as int, y as int);
                }
            }
        }
        y = y + 1;
        proof {
            assert(4 * ((y - 1) * total_w) + 4 * total_w == 4 * (y * total_w)) by (nonlinear_arith);
            assert forall|x_: int, y_: int, c_: int|
                0 <= x_ < total_w && 0 <= y_ < y && 0 <= c_ < 4 implies #[trigger] rgba@[4 * (y_
                * total_w + x_) + c_] == spec_strip_byte(fm, x_, y_, c_) by {
            }
        }
    }
    proof {
        assert(4 * ((h0 as int) * total_w) == 4 * total_w * h0) by (nonlinear_arith);
    }
    PixelImage { width: total_w, height: h0, rgba }
}

/// The strip's size arithmetic stays inside the machine integers: the
/// total width fits `u32` and the byte count fits far inside 64 bits.
proof fn lemma_strip_products(w0: int, h0: int, n: int)
    requires
        1 <= n,
        0 <= w0,
        0 <= h0,
        w0 * n <= 100_000,
        4 * (w0 * n) * h0 <= 1_000_000_000,
    ensures
        w0 <= 100_000,
        0 <= w0 * n <= 100_000,
        0 <= 4 * ((w0 * n) * h0) <= 1_000_000_000,
{
    assert(w0 <= 100_000 && 0 <= w0 * n && 0 <= 4 * ((w0 * n) * h0) && 4 * ((w0 * n) * h0) == 4 * (
    w0 * n) * h0) by (nonlinear_arith)
        requires
            1 <= n,
            0 <= w0,
            0 <= h0,
            w0 * n <= 100_000,
            4 * (w0 * n) * h0 <= 1_000_000_000,
    ;
}

/// A row start within the strip is within the buffer's total size.
proof fn lemma_pixel_row_start(y: int, total_w: int, h0: int)
    requires
        0 <= y < h0,
        0 <= total_w <= 100_000,
        4 * total_w * h0 <= 1_000_000_000,
    ensures
        0 <= 4 * (y * total_w) <= 400_000_000_000,
        4 * (y * total_w) + 4 * total_w <= 4 * total_w * h0,
{
    assert(0 <= 4 * (y * total_w) <= 400_000_000_000 && 4 * (y * total_w) + 4 * total_w <= 4
        * total_w * h0) by (nonlinear_arith)
        requires
            0 <= y < h0,
            0 <= total_w <= 100_000,
            4 * total_w * h0 <= 1_000_000_000,
    ;
}

/// The byte offset of pixel `(x, y)` splits into the row start plus the
/// pixel's offset in its row.
proof fn lemma_pixel_push(y: int, x: int, total_w: int)
    requires
        0 <= y,
        0 <= x,
        0 <= total_w,
    ensures
        4 * (y * total_w + x) == 4 * (y * total_w) + 4 * x,
{
    assert(4 * (y * total_w + x) == 4 * (y * total_w) + 4 * x) by (nonlinear_arith);
}

/// A byte of an earlier row lies before the current row's bytes.
proof fn lemma_pixel_order(x: int, y_prev: int, total_w: int, y: int)
    requires
        0 <= x < total_w,
        0 <= y_prev < y,
    ensures
        0 <= 4 * (y_prev * total_w + x) + 3 < 4 * (y * total_w),
{
    assert(0 <= 4 * (y_prev * total_w + x) + 3 < 4 * (y * total_w)) by (nonlinear_arith)
        requires
            0 <= x < total_w,
            0 <= y_prev < y,
    ;
}

/// The slot a strip column falls in is a valid frame index, and the column
/// within the slot is inside the canonical width.
proof fn lemma_slot_index(x: int, w0: int, n: int)
    requires
        0 <= x < w0 * n,
        0 < w0,
        0 < n,
    ensures
        0 <= x / w0 < n,
        0 <= x % w0 < w0,
{
    vstd::arithmetic::div_mod::lemma_div_pos_is_pos(x, w0);
    vstd::arithmetic::div_mod::lemma_mod_bound(x, w0);
    assert(x / w0 < n) by {
        vstd::arithmetic::div_mod::lemma_multiply_divide_lt(x, w0, n);
    }
}

/// Lexicographic order is total: any two byte strings compare one way or
/// the other.
pub proof fn lemma_lex_le_total(a: Seq<u8>, b: Seq<u8>)
    ensures
        spec_lex_le(a, b) || spec_lex_le(b, a),
    decreases a.len(),
{
    if a.len() > 0 && b.len() > 0 && a[0] == b[0] {
        lemma_lex_le_total(a.drop_first(), b.drop_first());
    }
}

/// Lexicographic order is transitive.
pub proof fn lemma_lex_le_trans(a: Seq<u8>, b: Seq<u8>, c: Seq<u8>)
    requires
        spec_lex_le(a, b),
        spec_lex_le(b, c),
    ensures
        spec_lex_le(a, c),
    decreases a.len(),
{
    if a.len() > 0 && b.len() > 0 && c.len() > 0 && a[0] == b[0] && b[0] == c[0] {
        lemma_lex_le_trans(a.drop_first(), b.drop_first(), c.drop_first());
    }
}

/// One frame file as the shell hands it in: its full path (the sort key),
/// its file stem (the name without directory or extension), and the raw
/// bytes of the file.
#[derive(Clone, PartialEq, Eq, Debug)]
pub struct FrameFile {
    pub path: Vec<u8>,
    pub stem: Vec<u8>,
    pub data: Vec<u8>,
}

/// Why a forge run stopped: a grouped frame file that does not decode, or
/// a group whose strip would exceed the size limits, each named by the
/// offending path or base name.
#[derive(Clone, PartialEq, Eq, Debug)]
pub enum ForgeError {
    Decode(Vec<u8>),
    TooLarge(Vec<u8>),
}

/// A frame pair as the specifications see it: the path and the decoded
/// image model.
pub open spec fn pairs_model(s: Seq<(Vec<u8>, PixelImage)>) -> Seq<(Seq<u8>, (u32, u32, Seq<u8>))> {
    s.map_values(|p: (Vec<u8>, PixelImage)| (p.0@, p.1@))
}

/// The image models of a sequence of frame pairs, in order.
pub open spec fn frames_of(s: Seq<(Seq<u8>, (u32, u32, Seq<u8>))>) -> Seq<(u32, u32, Seq<u8>)> {
    s.map_values(|p: (Seq<u8>, (u32, u32, Seq<u8>))| p.1)
}

/// An image model carries four bytes per pixel.
pub open spec fn model_wf(f: (u32, u32, Seq<u8>)) -> bool {
    f.2.len() == 4 * f.0 * f.1
}

/// What a frame file's bytes decode to; meaningful only where they decode
/// at all.
pub open spec fn spec_decoded(data: Seq<u8>) -> (u32, u32, Seq<u8>) {
    match png_decode_of(data) {
        Some(f) => f,
        None => (0u32, 0u32, Seq::empty()),
    }
}

/// The first file (in input order) that belongs to a group — its stem has
/// an underscore — but whose bytes do not decode; the whole run aborts on
/// it.
pub open spec fn spec_first_decode_failure(files: Seq<FrameFile>) -> Option<int>
    decreases files.len(),
{
    if files.len() == 0 {
        None
    } else {
        match spec_first_decode_failure(files.drop_last()) {
            Some(i) => Some(i),
            None => {
                let last = files.last();
                if spec_base_name(last.stem@) is Some && png_decode_of(last.data@) is None {
                    Some(files.len() - 1)
                } else {
                    None
                }
            },
        }
    }
}

/// The abort condition of a forge run, characterized: the run's decode
/// failure is exactly the earliest file that belongs to a group (its stem
/// has an underscore) and whose bytes do not decode; where no grouped
/// file fails to decode, there is no decode failure at all.  Together
/// with `forge_directory`'s contract this says in general that one bad
/// frame aborts the whole run — an `Err` carrying that frame's path and
/// no output beside it — and that a file outside every group can never
/// abort it.
pub proof fn lemma_first_decode_failure_characterized(files: Seq<FrameFile>)
    ensures
        match spec_first_decode_failure(files) {
            Some(i) => 0 <= i < files.len() && spec_base_name(files[i].stem@) is Some
                && png_decode_of(files[i].data@) is None && forall|j: int|
                0 <= j < i ==> !(spec_base_name((#[trigger] files[j]).stem@) is Some
                    && png_decode_of(files[j].data@) is None),
            None => forall|j: int|
                0 <= j < files.len() ==> !(spec_base_name((#[trigger] files[j]).stem@) is Some
                    && png_decode_of(files[j].data@) is None),
        },
    decreases files.len(),
{
    if files.len() > 0 {
        lemma_first_decode_failure_characterized(files.drop_last());
        assert(forall|j: int| 0 <= j < files.len() - 1 ==> (#[trigger] files[j])
            == files.drop_last()[j]);
    }
}

/// The distinct base names among the files' stems, in order of first
/// appearance; files without an underscore contribute none.
pub open spec fn spec_bases(files: Seq<FrameFile>) -> Seq<Seq<u8>>
    decreases files.len(),
{
    if files.len() == 0 {
        Seq::empty()
    } else {
        let prev = spec_bases(files.drop_last());
        match spec_base_name(files.last().stem@) {
            None => prev,
            Some(b) => if prev.contains(b) {
                prev
            } else {
                prev.push(b)
            },
        }
    }
}

/// The group of one base name: the path and decoded image of every file
/// whose stem yields that base, in input order.
pub open spec fn spec_group(files: Seq<FrameFile>, base: Seq<u8>) -> Seq<
    (Seq<u8>, (u32, u32, Seq<u8>)),
>
    decreases files.len(),
{
    if files.len() == 0 {
        Seq::empty()
    } else {
        let prev = spec_group(files.drop_last(), base);
        let last = files.last();
        if spec_base_name(last.stem@) == Some(base) {
            prev.push((last.path@, spec_decoded(last.data@)))
        } else {
            prev
        }
    }
}

/// Inserting a frame pair into a path-sorted sequence, before the first
/// entry whose path does not precede it.
pub open spec fn spec_insert_by_path(
    x: (Seq<u8>, (u32, u32, Seq<u8>)),
    s: Seq<(Seq<u8>, (u32, u32, Seq<u8>))>,
) -> Seq<(Seq<u8>, (u32, u32, Seq<u8>))>
    decreases s.len(),
{
    if s.len() == 0 {
        seq![x]
    } else if spec_lex_le(x.0, s[0].0) {
        seq![x] + s
    } else {
        seq![s[0]] + spec_insert_by_path(x, s.drop_first())
    }
}

/// A group's frame pairs in lexicographic path order: insertion sort, so
/// the frame order of a strip is deterministic.
pub open spec fn spec_sort_by_path(s: Seq<(Seq<u8>, (u32, u32, Seq<u8>))>) -> Seq<
    (Seq<u8>, (u32, u32, Seq<u8>)),
>
    decreases s.len(),
{
    if s.len() == 0 {
        Seq::empty()
    } else {
        spec_insert_by_path(s[0], spec_sort_by_path(s.drop_first()))
    }
}

/// Insertion keeps every element and adds the new one.
pub proof fn lemma_insert_by_path_multiset(
    x: (Seq<u8>, (u32, u32, Seq<u8>)),
    s: Seq<(Seq<u8>, (u32, u32, Seq<u8>))>,
)
    ensures
        spec_insert_by_path(x, s).to_multiset() == s.to_multiset().insert(x),
        spec_insert_by_path(x, s).len() == s.len() + 1,
    decreases s.len(),
{
    broadcast use vstd::seq_lib::group_to_multiset_ensures;

    if s.len() == 0 {
        assert(spec_insert_by_path(x, s) =~= Seq::empty().push(x));
    } else if spec_lex_le(x.0, s[0].0) {
        assert(seq![x] + s =~= s.insert(0, x));
        vstd::seq_lib::lemma_multiset_commutative(seq![x], s);
        assert(seq![x].to_multiset() =~= Multiset::empty().insert(x));
    } else {
        lemma_insert_by_path_multiset(x, s.drop_first());
        let rest = spec_insert_by_path(x, s.drop_first());
        assert(seq![s[0]] + rest =~= rest.insert(0, s[0]));
        vstd::seq_lib::lemma_multiset_commutative(seq![s[0]], rest);
        assert(seq![s[0]].to_multiset() =~= Multiset::empty().insert(s[0]));
        assert(s =~= seq![s[0]] + s.drop_first());
        vstd::seq_lib::lemma_multiset_commutative(seq![s[0]], s.drop_first());
    }
}

/// Sorting rearranges the group: same pairs, same count.
pub proof fn lemma_sort_by_path_multiset(s: Seq<(Seq<u8>, (u32, u32, Seq<u8>))>)
    ensures
        spec_sort_by_path(s).to_multiset() == s.to_multiset(),
        spec_sort_by_path(s).len() == s.len(),
    decreases s.len(),
{
    broadcast use vstd::seq_lib::group_to_multiset_ensures;

    if s.len() > 0 {
        lemma_sort_by_path_multiset(s.drop_first());
        lemma_insert_by_path_multiset(s[0], spec_sort_by_path(s.drop_first()));
        assert(s =~= seq![s[0]] + s.drop_first());
        vstd::seq_lib::lemma_multiset_commutative(seq![s[0]], s.drop_first());
        assert(seq![s[0]].to_multiset() =~= Multiset::empty().insert(s[0]));
        assert(s.to_multiset() == s.drop_first().to_multiset().insert(s[0]));
    }
}

/// The sequence is in lexicographic path order.
pub open spec fn sorted_by_path(s: Seq<(Seq<u8>, (u32, u32, Seq<u8>))>) -> bool {
    forall|i: int, j: int| 0 <= i < j < s.len() ==> spec_lex_le(#[trigger] s[i].0, #[trigger] s[j].0)
}

/// Insertion into a path-sorted sequence leaves it path-sorted.
pub proof fn lemma_insert_by_path_sorted(
    x: (Seq<u8>, (u32, u32, Seq<u8>)),
    s: Seq<(Seq<u8>, (u32, u32, Seq<u8>))>,
)
    requires
        sorted_by_path(s),
    ensures
        sorted_by_path(spec_insert_by_path(x, s)),
    decreases s.len(),
{
    broadcast use vstd::seq_lib::group_to_multiset_ensures;

    if s.len() == 0 {
    } else if spec_lex_le(x.0, s[0].0) {
        let r = seq![x] + s;
        assert forall|i: int, j: int| 0 <= i < j < r.len() implies spec_lex_le(
            #[trigger] r[i].0,
            #[trigger] r[j].0,
        ) by {
            if i == 0 && j > 1 {
                lemma_lex_le_trans(x.0, s[0].0, s[j - 1].0);
            }
        }
    } else {
        assert(sorted_by_path(s.drop_first())) by {
            assert(forall|i: int, j: int|
                0 <= i < j < s.drop_first().len() ==> spec_lex_le(
                    #[trigger] s.drop_first()[i].0,
                    #[trigger] s.drop_first()[j].0,
                ));
        }
        lemma_insert_by_path_sorted(x, s.drop_first());
        let rest = spec_insert_by_path(x, s.drop_first());
        let r = seq![s[0]] + rest;
        lemma_insert_by_path_multiset(x, s.drop_first());
        assert forall|i: int, j: int| 0 <= i < j < r.len() implies spec_lex_le(
            #[trigger] r[i].0,
            #[trigger] r[j].0,
        ) by {
            if i == 0 {
                let e = r[j];
                assert(rest.contains(e)) by {
                    assert(rest[j - 1] == e);
                }
                assert(rest.to_multiset().contains(e));
                assert(s.drop_first().to_multiset().insert(x).contains(e));
                if e == x {
                    lemma_lex_le_total(x.0, s[0].0);
                } else {
                    assert(s.drop_first().to_multiset().contains(e));
                    assert(s.drop_first().contains(e));
                    let k = choose|k: int|
                        0 <= k < s.drop_first().len() && s.drop_first()[k] == e;
                    assert(s[k + 1] == e);
                }
            }
        }
    }
}

/// A path-sorted rearrangement of every group: sorting sorts.
pub proof fn lemma_sort_by_path_sorted(s: Seq<(Seq<u8>, (u32, u32, Seq<u8>))>)
    ensures
        sorted_by_path(spec_sort_by_path(s)),
    decreases s.len(),
{
    if s.len() > 0 {
        lemma_sort_by_path_sorted(s.drop_first());
        lemma_insert_by_path_sorted(s[0], spec_sort_by_path(s.drop_first()));
    }
}

/// Whether two byte strings hold the same bytes.
pub fn bytes_eq(a: &Vec<u8>, b: &Vec<u8>) -> (r: bool)
    ensures
        r == (a@ == b@),
{
    if a.len() != b.len() {
        proof {
            assert(a@ != b@);
        }
        return false;
    }
    let mut i: usize = 0;
    while i < a.len()
        invariant
            i <= a@.len(),
            a@.len() == b@.len(),
            forall|j: int| 0 <= j < i ==> a@[j] == b@[j],
        decreases a@.len() - i,
    {
        if a[i] != b[i] {
            proof {
                assert(a@ != b@);
            }
            return false;
        }
        i = i + 1;
    }
    proof {
        assert(a@ =~= b@);
    }
    true
}

/// Inserts one frame pair into an already path-sorted group, keeping the
/// order.
fn insert_by_path(x: (Vec<u8>, PixelImage), s: Vec<(Vec<u8>, PixelImage)>) -> (r: Vec<
    (Vec<u8>, PixelImage),
>)
    ensures
        pairs_model(r@) == spec_insert_by_path((x.0@, x.1@), pairs_model(s@)),
    decreases s@.len(),
{
    let mut s = s;
    if s.len() == 0 {
        let mut r: Vec<(Vec<u8>, PixelImage)> = Vec::new();
        r.push(x);
        proof {
            assert(pairs_model(r@) =~= seq![(x.0@, x.1@)]);
        }
        r
    } else if lex_le(&x.0, &s[0].0) {
        proof {
            assert(pairs_model(s@)[0] == (s@[0].0@, s@[0].1@));
        }
        let ghost sm = pairs_model(s@);
        s.insert(0, x);
        proof {
            assert(pairs_model(s@) =~= seq![(x.0@, x.1@)] + sm);
        }
        s
    } else {
        proof {
            assert(pairs_model(s@)[0] == (s@[0].0@, s@[0].1@));
        }
        let ghost sm = pairs_model(s@);
        let first = s.remove(0);
        proof {
            assert(pairs_model(s@) =~= sm.drop_first());
        }
        let mut r = insert_by_path(x, s);
        let ghost rm = pairs_model(r@);
        r.insert(0, first);
        proof {
            assert(pairs_model(r@) =~= seq![(first.0@, first.1@)] + rm);
        }
        r
    }
}

/// Sorts a group's frame pairs by path, lexicographically: the
/// deterministic left-to-right frame order of the strip.
pub fn sort_by_path(s: Vec<(Vec<u8>, PixelImage)>) -> (r: Vec<(Vec<u8>, PixelImage)>)
    ensures
        pairs_model(r@) == spec_sort_by_path(pairs_model(s@)),
    decreases s@.len(),
{
    let mut s = s;
    if s.len() == 0 {
        proof {
            assert(pairs_model(s@) =~= Seq::<(Seq<u8>, (u32, u32, Seq<u8>))>::empty());
        }
        s
    } else {
        proof {
            assert(pairs_model(s@)[0] == (s@[0].0@, s@[0].1@));
        }
        let ghost sm = pairs_model(s@);
        let first = s.remove(0);
        proof {
            assert(pairs_model(s@) =~= sm.drop_first());
        }
        let rest = sort_by_path(s);
        insert_by_path(first, rest)
    }
}

/// The first base name, in group order, whose sorted group would break the
/// strip size limits; the run aborts on it after decoding.
pub open spec fn spec_first_oversized(files: Seq<FrameFile>, bases: Seq<Seq<u8>>) -> Option<
    Seq<u8>,
>
    decreases bases.len(),
{
    if bases.len() == 0 {
        None
    } else if !spec_strip_size_ok(frames_of(spec_sort_by_path(spec_group(files, bases[0])))) {
        Some(bases[0])
    } else {
        spec_first_oversized(files, bases.drop_first())
    }
}

/// The base names are distinct: a base enters the list only on its first
/// appearance.
pub proof fn lemma_bases_distinct(files: Seq<FrameFile>)
    ensures
        forall|i: int, j: int|
            0 <= i < j < spec_bases(files).len() ==> spec_bases(files)[i] != spec_bases(files)[j],
    decreases files.len(),
{
    if files.len() > 0 {
        lemma_bases_distinct(files.drop_last());
        let prev = spec_bases(files.drop_last());
        let cur = spec_bases(files);
        assert forall|i: int, j: int| 0 <= i < j < cur.len() implies cur[i] != cur[j] by {
            if j < prev.len() {
            } else {
                assert(!prev.contains(cur[j]));
                assert(prev[i] == cur[i]);
            }
        }
    }
}

/// A decode failure found in a prefix is the failure of the whole list:
/// nothing later comes before it.
proof fn lemma_first_failure_extends(files: Seq<FrameFile>, k: int)
    requires
        0 <= k <= files.len(),
        spec_first_decode_failure(files.take(k)) is Some,
    ensures
        spec_first_decode_failure(files) == spec_first_decode_failure(files.take(k)),
    decreases files.len() - k,
{
    if k < files.len() {
        assert(files.take(k + 1).drop_last() =~= files.take(k));
        lemma_first_failure_extends(files, k + 1);
    } else {
        assert(files.take(k) =~= files);
    }
}

/// Copies a byte string.
fn copy_bytes(a: &Vec<u8>) -> (r: Vec<u8>)
    ensures
        r@ == a@,
{
    let mut r: Vec<u8> = Vec::new();
    let mut i: usize = 0;
    while i < a.len()
        invariant
            i <= a@.len(),
            r@.len() == i,
            forall|j: int| 0 <= j < i ==> r@[j] == a@[j],
        decreases a@.len() - i,
    {
        r.push(a[i]);
        i = i + 1;
    }
    proof {
        assert(r@ =~= a@);
    }
    r
}

/// Finds the group already opened for a base name, if any.
fn find_group(groups: &Vec<(Vec<u8>, Vec<(Vec<u8>, PixelImage)>)>, base: &Vec<u8>) -> (r: Option<
    usize,
>)
    ensures
        match r {
            Some(g) => 0 <= g < groups@.len() && groups@[g as int].0@ == base@,
            None => forall|g: int| 0 <= g < groups@.len() ==> (#[trigger] groups@[g]).0@ != base@,
        },
{
    let mut g: usize = 0;
    while g < groups.len()
        invariant
            g <= groups@.len(),
            forall|k: int| 0 <= k < g ==> (#[trigger] groups@[k]).0@ != base@,
        decreases groups@.len() - g,
    {
        if bytes_eq(&groups[g].0, base) {
            return Some(g);
        }
        g = g + 1;
    }
    None
}

/// One finished strip: the base name it is written under and its pixels.
pub type ForgeOutput = (Vec<u8>, PixelImage);

/// Processes one source subdirectory of the forge: groups every `.png`
/// frame file whose stem has an underscore by base name, skipping the
/// rest; aborts on the first grouped file that does not decode, or on a
/// group whose strip would exceed the size limits; and otherwise yields,
/// per base name in order of first appearance, the horizontal strip of the
/// group's frames in lexicographic path order.
pub fn forge_directory(files: &Vec<FrameFile>) -> (r: Result<Vec<ForgeOutput>, ForgeError>)
    ensures
        ({
            let bases = spec_bases(files@);
            match spec_first_decode_failure(files@) {
                Some(i) => r matches Err(e) && (e matches ForgeError::Decode(p) && p@
                    == files@[i].path@),
                None => match spec_first_oversized(files@, bases) {
                    Some(b) => r matches Err(e) && (e matches ForgeError::TooLarge(bv) && bv@ == b),
                    None => r matches Ok(outs) && {
                        &&& outs@.len() == bases.len()
                        &&& forall|g: int|
                            0 <= g < bases.len() ==> (#[trigger] outs@[g]).0@ == bases[g]
                        &&& forall|g: int|
                            0 <= g < bases.len() ==> (#[trigger] outs@[g]).1.wf() && strip_matches(
                                outs@[g].1@,
                                frames_of(spec_sort_by_path(spec_group(files@, bases[g]))),
                            )
                    },
                },
            }
        }),
{
    let ghost all: Seq<FrameFile> = files@;
    let mut groups: Vec<(Vec<u8>, Vec<(Vec<u8>, PixelImage)>)> = Vec::new();
    let mut idx: usize = 0;
    proof {
        assert(all.take(0) =~= Seq::<FrameFile>::empty());
    }
    while idx < files.len()
        invariant
            idx <= all.len(),
            all == files@,
            spec_first_decode_failure(all.take(idx as int)) is None,
            groups@.len() == spec_bases(all.take(idx as int)).len(),
            forall|g: int|
                0 <= g < groups@.len() ==> (#[trigger] groups@[g]).0@ == spec_bases(
                    all.take(idx as int),
                )[g],
            forall|g: int|
                0 <= g < groups@.len() ==> pairs_model((#[trigger] groups@[g]).1@) == spec_group(
                    all.take(idx as int),
                    spec_bases(all.take(idx as int))[g],
                ),
            forall|g: int| 0 <= g < groups@.len() ==> (#[trigger] groups@[g]).1@.len() >= 1,
            forall|g: int, k: int|
                0 <= g < groups@.len() && 0 <= k < groups@[g].1@.len() ==> (#[trigger] groups@[g].1@[k]).1.wf(),
        decreases all.len() - idx,
    {
        let ghost p: Seq<FrameFile> = all.take(idx as int);
        let ghost p1: Seq<FrameFile> = all.take(idx as int + 1);
        proof {
            assert(p1.drop_last() =~= p);
            assert(p1.last() == all[idx as int]);
        }
        let file: &FrameFile = &files[idx];
        match base_name(&file.stem) {
            None => {
                proof {
                    assert(spec_bases(p1) == spec_bases(p));
                    assert(spec_first_decode_failure(p1) is None);
                    assert(forall|b: Seq<u8>| spec_group(p1, b) == spec_group(p, b));
                }
            },
            Some(b) => {
                match decode_image(&file.data) {
                    None => {
                        proof {
                            assert(spec_first_decode_failure(p1) == Some(idx as int));
                            lemma_first_failure_extends(all, idx as int + 1);
                        }
                        return Err(ForgeError::Decode(copy_bytes(&file.path)));
                    },
                    Some(img) => {
                        proof {
                            assert(spec_first_decode_failure(p1) is None);
                            assert(spec_decoded(file.data@) == img@);
                            lemma_bases_distinct(p);
                        }
                        let pair: (Vec<u8>, PixelImage) = (copy_bytes(&file.path), img);
                        match find_group(&groups, &b) {
                            Some(g) => {
                                proof {
                                    assert(spec_bases(p).contains(b@)) by {
                                        assert(spec_bases(p)[g as int] == b@);
                                    }
                                    assert(spec_bases(p1) == spec_bases(p));
                                }
                                let ghost old_groups = groups@;
                                let mut entry = groups.remove(g);
                                entry.1.push(pair);
                                groups.insert(g, entry);
                                proof {
                                    assert(groups@ =~= old_groups.update(g as int, entry));
                                    assert(pairs_model(entry.1@) =~= pairs_model(
                                        old_groups[g as int].1@,
                                    ).push((file.path@, spec_decoded(file.data@))));
                                    assert forall|g2: int| 0 <= g2 < groups@.len() implies
                                        pairs_model((#[trigger] groups@[g2]).1@) == spec_group(
                                        p1,
                                        spec_bases(p1)[g2],
                                    ) by {
                                        if g2 == g {
                                            assert(spec_bases(p1)[g2] == b@);
                                        } else {
                                            assert(spec_bases(p1)[g2] != b@);
                                            assert(spec_group(p1, spec_bases(p1)[g2])
                                                == spec_group(p, spec_bases(p)[g2]));
                                        }
                                    }
                                }
                            },
                            None => {
                                proof {
                                    assert(!spec_bases(p).contains(b@)) by {
                                        if spec_bases(p).contains(b@) {
                                            let w = choose|w: int|
                                                0 <= w < spec_bases(p).len() && spec_bases(p)[w]
                                                    == b@;
                                            assert(groups@[w].0@ == b@);
                                        }
                                    }
                                    assert(spec_bases(p1) == spec_bases(p).push(b@));
                                }
                                let mut members: Vec<(Vec<u8>, PixelImage)> = Vec::new();
                                members.push(pair);
                                let ghost old_groups = groups@;
                                groups.push((b, members));
                                proof {
                                    assert(pairs_model(members@) =~= Seq::<
                                        (Seq<u8>, (u32, u32, Seq<u8>)),
                                    >::empty().push((file.path@, spec_decoded(file.data@))));
                                    assert forall|g2: int| 0 <= g2 < groups@.len() implies
                                        pairs_model((#[trigger] groups@[g2]).1@) == spec_group(
                                        p1,
                                        spec_bases(p1)[g2],
                                    ) by {
                                        if g2 < old_groups.len() {
                                            assert(spec_bases(p1)[g2] == spec_bases(p)[g2]);
                                            assert(spec_bases(p)[g2] != b@) by {
                                                assert(groups@[g2].0@ == spec_bases(p)[g2]);
                                            }
                                            assert(spec_group(p1, spec_bases(p1)[g2])
                                                == spec_group(p, spec_bases(p)[g2]));
                                        } else {
                                            assert(spec_bases(p1)[g2] == b@);
                                            assert(spec_group(p, b@) =~= Seq::<
                                                (Seq<u8>, (u32, u32, Seq<u8>)),
                                            >::empty()) by {
                                                lemma_absent_base_group_empty(p, b@);
                                            }
                                        }
                                    }
                                }
                            },
                        }
                    },
                }
            },
        }
        idx = idx + 1;
    }
    proof {
        assert(all.take(all.len() as int) =~= all);
        lemma_bases_distinct(all);
    }
    let ghost bases: Seq<Seq<u8>> = spec_bases(all);
    let mut outs: Vec<ForgeOutput> = Vec::new();
    let mut gidx: usize = 0;
    let ghost total_groups: int = bases.len() as int;
    proof {
        assert(bases.skip(0) =~= bases);
    }
    while groups.len() > 0
        invariant
            all == files@,
            bases == spec_bases(all),
            spec_first_decode_failure(all) is None,
            gidx + groups@.len() == bases.len(),
            outs@.len() == gidx,
            spec_first_oversized(all, bases) == spec_first_oversized(all, bases.skip(gidx as int)),
            forall|k: int|
                0 <= k < groups@.len() ==> (#[trigger] groups@[k]).0@ == bases[gidx + k],
            forall|k: int|
                0 <= k < groups@.len() ==> pairs_model((#[trigger] groups@[k]).1@) == spec_group(
                    all,
                    bases[gidx + k],
                ),
            forall|k: int| 0 <= k < groups@.len() ==> (#[trigger] groups@[k]).1@.len() >= 1,
            forall|k: int, j: int|
                0 <= k < groups@.len() && 0 <= j < groups@[k].1@.len() ==> (#[trigger] groups@[k].1@[j]).1.wf(),
            forall|g: int|
                0 <= g < gidx ==> (#[trigger] outs@[g]).0@ == bases[g],
            forall|g: int|
                0 <= g < gidx ==> (#[trigger] outs@[g]).1.wf() && strip_matches(
                    outs@[g].1@,
                    frames_of(spec_sort_by_path(spec_group(all, bases[g]))),
                ),
        decreases groups@.len(),
    {
        let entry = groups.remove(0);
        let base: Vec<u8> = entry.0;
        let members: Vec<(Vec<u8>, PixelImage)> = entry.1;
        let ghost gm: Seq<(Seq<u8>, (u32, u32, Seq<u8>))> = spec_group(all, bases[gidx as int]);
        let ghost sm: Seq<(Seq<u8>, (u32, u32, Seq<u8>))> = spec_sort_by_path(gm);
        proof {
            lemma_sort_by_path_multiset(gm);
        }
        let mut sorted: Vec<(Vec<u8>, PixelImage)> = sort_by_path(members);
        let mut frames: Vec<PixelImage> = Vec::new();
        proof {
            assert(pairs_model(sorted@) == sm);
            assert(sorted@.len() == sm.len());
            assert(sm.skip(0) =~= sm);
        }
        while sorted.len() > 0
            invariant
                frames@.len() + sorted@.len() == sm.len(),
                pairs_model(sorted@) == sm.skip(frames@.len() as int),
                forall|i: int|
                    0 <= i < frames@.len() ==> (#[trigger] frames@[i])@ == frames_of(sm)[i],
            decreases sorted@.len(),
        {
            let ghost i: int = frames@.len() as int;
            proof {
                assert(pairs_model(sorted@)[0] == (sorted@[0].0@, sorted@[0].1@));
                assert(sm.skip(i)[0] == sm[i]);
            }
            let ghost before = pairs_model(sorted@);
            let p = sorted.remove(0);
            proof {
                assert(pairs_model(sorted@) =~= before.drop_first());
                assert(before.drop_first() =~= sm.skip(i + 1));
            }
            frames.push(p.1);
        }
        proof {
            assert(frames@.len() == sm.len());
            assert(frames@.map_values(|f: PixelImage| f@) =~= frames_of(sm));
            broadcast use vstd::seq_lib::group_to_multiset_ensures;

            assert forall|i: int| 0 <= i < frames@.len() implies (#[trigger] frames@[i]).wf() by {
                assert(sm[i] == sm.skip(0)[i]);
                assert(sm.to_multiset().contains(sm[i])) by {
                    assert(sm[i] == sm[i]);
                }
                assert(gm.to_multiset().contains(sm[i]));
                assert(gm.contains(sm[i]));
                let k = choose|k: int| 0 <= k < gm.len() && gm[k] == sm[i];
                assert(frames@[i]@ == frames_of(sm)[i]);
            }
        }
        let w0: u32 = frames[0].width;
        let h0: u32 = frames[0].height;
        let n: usize = frames.len();
        proof {
            assert(frames@[0]@ == frames_of(sm)[0]);
            assert(bases.skip(gidx as int)[0] == bases[gidx as int]);
            assert(bases.skip(gidx as int).drop_first() =~= bases.skip(gidx as int + 1));
        }
        let tw: u64 = match (w0 as u64).checked_mul(n as u64) {
            Some(v) => v,
            None => {
                proof {
                    assert(!spec_strip_size_ok(frames_of(sm)));
                    assert(spec_first_oversized(all, bases.skip(gidx as int)) == Some(
                        bases[gidx as int],
                    ));
                }
                return Err(ForgeError::TooLarge(base));
            },
        };
        if tw > 100_000 {
            proof {
                assert(!spec_strip_size_ok(frames_of(sm)));
                assert(spec_first_oversized(all, bases.skip(gidx as int)) == Some(
                    bases[gidx as int],
                ));
            }
            return Err(ForgeError::TooLarge(base));
        }
        proof {
            assert(4 * tw * (h0 as int) <= 4 * 100_000 * 0xffff_ffffu64) by (nonlinear_arith)
                requires
                    0 <= tw <= 100_000,
                    0 <= h0 <= 0xffff_ffffu64,
            ;
        }
        let tb: u64 = 4 * tw * (h0 as u64);
        if tb > 1_000_000_000 {
            proof {
                assert(!spec_strip_size_ok(frames_of(sm)));
                assert(spec_first_oversized(all, bases.skip(gidx as int)) == Some(
                    bases[gidx as int],
                ));
            }
            return Err(ForgeError::TooLarge(base));
        }
        proof {
            assert(spec_strip_size_ok(frames_of(sm)));
            assert(spec_first_oversized(all, bases.skip(gidx as int)) == spec_first_oversized(
                all,
                bases.skip(gidx as int + 1),
            ));
        }
        let strip: PixelImage = compose_strip(&frames);
        outs.push((base, strip));
        gidx = outs.len();
    }
    proof {
        assert(bases.skip(gidx as int).len() == 0);
        assert(bases.skip(gidx as int) =~= Seq::<Seq<u8>>::empty());
    }
    Ok(outs)
}

/// A base that no open group carries has an empty group in the files seen
/// so far.
proof fn lemma_absent_base_group_empty(p: Seq<FrameFile>, b: Seq<u8>)
    requires
        !spec_bases(p).contains(b),
    ensures
        spec_group(p, b) =~= Seq::<(Seq<u8>, (u32, u32, Seq<u8>))>::empty(),
    decreases p.len(),
{
    if p.len() > 0 {
        assert(!spec_bases(p.drop_last()).contains(b)) by {
            if spec_bases(p.drop_last()).contains(b) {
                let w = choose|w: int|
                    0 <= w < spec_bases(p.drop_last()).len() && spec_bases(p.drop_last())[w] == b;
                match spec_base_name(p.last().stem@) {
                    None => {
                        assert(spec_bases(p)[w] == b);
                    },
                    Some(lb) => {
                        assert(spec_bases(p)[w] == b);
                    },
                }
            }
        }
        lemma_absent_base_group_empty(p.drop_last(), b);
        assert(spec_base_name(p.last().stem@) != Some(b)) by {
            if spec_base_name(p.last().stem@) == Some(b) {
                assert(spec_bases(p).contains(b)) by {
                    let prev = spec_bases(p.drop_last());
                    if prev.contains(b) {
                        let w = choose|w: int| 0 <= w < prev.len() && prev[w] == b;
                        assert(spec_bases(p)[w] == b);
                    } else {
                        assert(spec_bases(p).last() == b);
                    }
                }
            }
        }
    }
}

} // verus!
