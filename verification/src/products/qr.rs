//! QR codes of products: the public trace URL a code encodes, the file it is
//! stored in (named by the URL's hash, so that a changed host or port gives a
//! new file), media paths, and the PNG rendering.
use crate::text::{concat, is_blank, blank, strip_trailing, trim_end_char};
use image::{GrayImage, ImageFormat, Luma};
use qrcode::QrCode;
use std::collections::hash_map::DefaultHasher;
use std::hash::Hasher;
use std::io::Cursor;
use vstd::prelude::*;
use vstd::std_specs::hash::DefaultHasherAdditionalSpecFns;
use vstd::string::*;

verus! {

/// The lowercase hexadecimal digit of `n` (for `n < 16`).
pub open spec fn hex_digit(n: nat) -> Seq<char> {
    "0123456789abcdef"@.subrange(n as int, n as int + 1)
}

/// `{:x}` of `n`: lowercase hexadecimal without leading zeros.
pub open spec fn hex_text(n: nat) -> Seq<char>
    decreases n,
{
    if n < 16 {
        hex_digit(n)
    } else {
        hex_text(n / 16) + hex_digit(n % 16)
    }
}

/// Nibble `k` (0 the most significant) of a 128-bit id.
pub open spec fn nibble(id: u128, k: int) -> nat {
    ((id >> ((4 * (31 - k)) as u128)) & 15u128) as nat
}

/// The first `k` nibbles of `id` in hyphenated form.
pub open spec fn uuid_prefix(id: u128, k: int) -> Seq<char>
    decreases k,
{
    if k <= 0 {
        Seq::empty()
    } else {
        uuid_prefix(id, k - 1) + (if k - 1 == 8 || k - 1 == 12 || k - 1 == 16 || k - 1 == 20 {
            "-"@
        } else {
            Seq::empty()
        }) + hex_digit(nibble(id, k - 1))
    }
}

/// The hyphenated lowercase form of a UUID (`8-4-4-4-12` hex digits).
pub open spec fn uuid_text(id: u128) -> Seq<char> {
    uuid_prefix(id, 32)
}

fn hex_char(n: u64) -> (r: &'static str)
    requires
        n < 16,
    ensures
        r@ == hex_digit(n as nat),
{
    let digits = "0123456789abcdef";
    proof {
        reveal_strlit("0123456789abcdef");
    }
    let u = n as usize;
    digits.substring_char(u, u + 1)
}

/// `{:x}` of `n`.
pub fn hex_string(n: u64) -> (r: String)
    ensures
        r@ == hex_text(n as nat),
    decreases n,
{
    if n < 16 {
        String::from_str(hex_char(n))
    } else {
        let head = hex_string(n / 16);
        let d = hex_char(n % 16);
        head.concat(d)
    }
}

/// The hyphenated lowercase form of a UUID.
pub fn uuid_string(id: u128) -> (r: String)
    ensures
        r@ == uuid_text(id),
{
    let mut r = String::new();
    let mut k: u32 = 0;
    while k < 32
        invariant
            k <= 32,
            r@ == uuid_prefix(id, k as int),
        decreases 32 - k,
    {
        let shift: u128 = (4 * (31 - k)) as u128;
        let m: u128 = (id >> shift) & 15u128;
        proof {
            assert(((id >> shift) & 15u128) <= 15u128) by (bit_vector);
        }
        let n = m as u64;
        proof {
            assert(n == nibble(id, k as int));
        }
        if k == 8 || k == 12 || k == 16 || k == 20 {
            r.append("-");
        }
        r.append(hex_char(n));
        proof {
            assert(r@ =~= uuid_prefix(id, k + 1));
        }
        k = k + 1;
    }
    r
}

/// The URL of the public traceability screen for a product: the configured
/// base (unless blank; `http://localhost/trace` otherwise) without trailing
/// slashes, then `/` and the product's QR token.
pub open spec fn trace_url(configured: Option<Seq<char>>, qr_token: u128) -> Seq<char> {
    let base = match configured {
        Some(c) => if is_blank(c) {
            "http://localhost/trace"@
        } else {
            c
        },
        None => "http://localhost/trace"@,
    };
    strip_trailing(base, '/') + "/"@ + uuid_text(qr_token)
}

/// The text of an optional setting.
pub open spec fn configured_text(configured: Option<&str>) -> Option<Seq<char>> {
    match configured {
        Some(c) => Some(c@),
        None => None,
    }
}

/// The URL a product's QR code leads to.
pub fn trace_target_url(configured: Option<&str>, qr_token: u128) -> (r: String)
    ensures
        r@ == trace_url(
            match configured {
                Some(c) => Some(c@),
                None => None,
            },
            qr_token,
        ),
{
    let base = match configured {
        Some(c) => if blank(c) {
            "http://localhost/trace"
        } else {
            c
        },
        None => "http://localhost/trace",
    };
    let trimmed = trim_end_char(base, '/');
    let with_slash = concat(trimmed, "/");
    let token = uuid_string(qr_token);
    with_slash.concat(token.as_str())
}

/// The `DefaultHasher` value of a string hashed with `Hash`: its bytes, then `0xff`.
pub open spec fn url_hash(url: Seq<char>) -> u64 {
    DefaultHasher::spec_finish(seq![encode_as_bytes(url), seq![0xffu8]])
}

pub open spec fn encode_as_bytes(s: Seq<char>) -> Seq<u8> {
    vstd::utf8::encode_utf8(s)
}

/// Hashes `s` as `Hash for str` feeds a `DefaultHasher`.
pub fn hash_str(s: &str) -> (r: u64)
    ensures
        r == url_hash(s@),
{
    let mut h = DefaultHasher::new();
    h.write(s.as_bytes());
    let tail: Vec<u8> = vec![0xffu8];
    h.write(tail.as_slice());
    proof {
        assert(tail@ =~= seq![0xffu8]);
        assert(h@ =~= seq![encode_as_bytes(s@), seq![0xffu8]]);
    }
    h.finish()
}

/// The file a product's QR code is stored in, relative to the uploads directory:
/// `qr/<token>-<hash of the URL in hex>.png`.
pub open spec fn qr_relative_path(url: Seq<char>, qr_token: u128) -> Seq<char> {
    "qr/"@ + uuid_text(qr_token) + "-"@ + hex_text(url_hash(url) as nat) + ".png"@
}

/// The relative path of the QR image for `url`.
pub fn qr_file(url: &str, qr_token: u128) -> (r: String)
    ensures
        r@ == qr_relative_path(url@, qr_token),
{
    let hash = hash_str(url);
    let token = uuid_string(qr_token);
    let mut r = String::from_str("qr/");
    r.append(token.as_str());
    r.append("-");
    let hex = hex_string(hash);
    r.append(hex.as_str());
    r.append(".png");
    r
}

/// `Path::new(base).join(rel)` on Unix: an absolute `rel` replaces the base;
/// otherwise a separator is added unless the base is empty or ends with one.
pub open spec fn joined_path(base: Seq<char>, rel: Seq<char>) -> Seq<char> {
    if rel.len() > 0 && rel[0] == '/' {
        rel
    } else if base.len() == 0 || base.last() == '/' {
        base + rel
    } else {
        base + "/"@ + rel
    }
}

/// The filesystem path of a stored media file.
pub fn media_path(relative: &str, uploads_dir: &str) -> (r: String)
    ensures
        r@ == joined_path(uploads_dir@, relative@),
{
    let rl = relative.unicode_len();
    if rl > 0 && relative.get_char(0) == '/' {
        return String::from_str(relative);
    }
    let bl = uploads_dir.unicode_len();
    if bl == 0 || uploads_dir.get_char(bl - 1) == '/' {
        concat(uploads_dir, relative)
    } else {
        let with_sep = concat(uploads_dir, "/");
        with_sep.concat(relative)
    }
}

/// The pixels `qrcode` renders for `data` in the medium error-correction level,
/// as gray bytes, at least `min_size` pixels wide and high, with a quiet zone.
pub uninterp spec fn qr_raster(data: Seq<char>, min_size: u32) -> Option<(u32, u32, Seq<u8>)>;

/// The PNG encoding `image` writes for a gray image.
pub uninterp spec fn gray_png(width: u32, height: u32, pixels: Seq<u8>) -> Option<Seq<u8>>;

/// Renders `data` as a QR code with `QrCode::new` and `Renderer::build`. The
/// renderer computes the side in `u32` pixels from `min_size`, so the size is
/// kept well below the range where that could overflow.
#[verifier::external_body]
fn render_qr(data: &str, min_size: u32) -> (r: Option<(u32, u32, Vec<u8>)>)
    requires
        min_size <= 4096,
    ensures
        match r {
            Some((w, h, p)) => qr_raster(data@, min_size) == Some((w, h, p@)),
            None => qr_raster(data@, min_size) is None,
        },
{
    let code = QrCode::new(data.as_bytes()).ok()?;
    let img = code.render::<Luma<u8>>().min_dimensions(min_size, min_size).quiet_zone(true).build();
    Some((img.width(), img.height(), img.into_raw()))
}

/// Encodes a gray image as PNG with `ImageBuffer::write_to`.
#[verifier::external_body]
fn encode_gray_png(width: u32, height: u32, pixels: Vec<u8>) -> (r: Option<Vec<u8>>)
    ensures
        match r {
            Some(b) => gray_png(width, height, pixels@) == Some(b@),
            None => gray_png(width, height, pixels@) is None,
        },
{
    let img = GrayImage::from_raw(width, height, pixels)?;
    let mut out = Cursor::new(Vec::new());
    img.write_to(&mut out, ImageFormat::Png).ok()?;
    Some(out.into_inner())
}

/// The smallest side, in pixels, of a product's QR image.
pub const QR_MIN_SIZE: u32 = 300;

/// The PNG image of the QR code for `url`; `None` when the URL cannot be encoded.
pub fn qr_png(url: &str) -> (r: Option<Vec<u8>>)
    ensures
        match qr_raster(url@, QR_MIN_SIZE) {
            Some((w, h, p)) => match gray_png(w, h, p) {
                Some(b) => r is Some && r->0@ == b,
                None => r is None,
            },
            None => r is None,
        },
{
    match render_qr(url, QR_MIN_SIZE) {
        None => None,
        Some((w, h, pixels)) => encode_gray_png(w, h, pixels),
    }
}

/// Where a product's QR images are stored.
pub struct QrService {
    pub uploads_dir: String,
}

impl QrService {
    pub fn new(uploads_dir: String) -> (r: QrService)
        ensures
            r.uploads_dir@ == uploads_dir@,
    {
        QrService { uploads_dir }
    }

    /// The relative path and the PNG of a product's QR code, for the configured
    /// public trace URL; `None` when the URL cannot be encoded.
    pub fn generate(&self, configured: Option<&str>, qr_token: u128) -> (r: Option<(String, Vec<u8>)>)
        ensures
            ({
                let url = trace_url(configured_text(configured), qr_token);
                match qr_raster(url, QR_MIN_SIZE) {
                    Some((w, h, p)) => match gray_png(w, h, p) {
                        Some(png) => r matches Some((path, bytes)) && path@ == qr_relative_path(
                            url,
                            qr_token,
                        ) && bytes@ == png,
                        None => r is None,
                    },
                    None => r is None,
                }
            }),
    {
        let url = trace_target_url(configured, qr_token);
        let path = qr_file(url.as_str(), qr_token);
        match qr_png(url.as_str()) {
            Some(png) => Some((path, png)),
            None => None,
        }
    }

    /// The filesystem path of a stored QR image.
    pub fn full_path(&self, relative: &str) -> (r: String)
        ensures
            r@ == joined_path(self.uploads_dir@, relative@),
    {
        media_path(relative, self.uploads_dir.as_str())
    }
}

/// Whether the stored QR path must be replaced by `relative`.
pub fn qr_path_changed(stored: &Option<String>, relative: &str) -> (r: bool)
    ensures
        r == !(stored is Some && stored->0@ == relative@),
{
    match stored {
        Some(p) => !crate::text::str_eq(p.as_str(), relative),
        None => true,
    }
}

} // verus!
