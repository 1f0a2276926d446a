//! Which files the viewer decodes, and the step from encoded bytes to RGBA
//! pixels. Reading files and resizing belong to the caller.
use vstd::prelude::*;

use std::path::Path;

verus! {

#[verifier::external_type_specification]
#[verifier::external_body]
pub struct ExPath(Path);

/// What `str::to_lowercase` makes of a string.
pub uninterp spec fn lower_of(s: Seq<char>) -> Seq<char>;

/// What zune-jpeg's decoder makes of some bytes: pixels, width, height and
/// number of components; `None` when it refuses them.
pub uninterp spec fn jpeg_decoded(data: Seq<u8>) -> Option<(Seq<u8>, u32, u32, u8)>;

/// What the image crate makes of some bytes, converted to RGBA8: pixels,
/// width and height; `None` when it refuses them.
pub uninterp spec fn image_decoded(data: Seq<u8>) -> Option<(Seq<u8>, u32, u32)>;

/// Relies on `Path::extension`: the file extension, when there is one,
/// converted to text when it is valid UTF-8.
#[verifier::external_body]
fn extension_text(path: &Path) -> Option<String> {
    path.extension().and_then(|e| e.to_str()).map(|e| e.to_string())
}

/// Relies on `str::to_lowercase`: the result depends on the characters alone.
#[verifier::external_body]
fn lowercase(s: &str) -> (r: String)
    ensures
        r@ == lower_of(s@),
{
    s.to_lowercase()
}

/// Relies on zune-jpeg's `JpegDecoder`: `decode` gives the pixels, then
/// `info` the dimensions and number of components.
#[verifier::external_body]
fn zune_decode(data: &[u8]) -> (r: Option<(Vec<u8>, u32, u32, u8)>)
    ensures
        match r {
            Some((p, w, h, c)) => jpeg_decoded(data@) == Some((p@, w, h, c)),
            None => jpeg_decoded(data@) is None,
        },
{
    let mut decoder = zune_jpeg::JpegDecoder::new(data);
    let pixels = decoder.decode().ok()?;
    let info = decoder.info()?;
    Some((pixels, info.width as u32, info.height as u32, info.components))
}

/// Relies on `image::load_from_memory` and `DynamicImage::to_rgba8`: the
/// image whose format the bytes show, as RGBA8.
#[verifier::external_body]
fn image_decode(data: &[u8]) -> (r: Option<(Vec<u8>, u32, u32)>)
    ensures
        match r {
            Some((p, w, h)) => image_decoded(data@) == Some((p@, w, h)),
            None => image_decoded(data@) is None,
        },
{
    let img = image::load_from_memory(data).ok()?;
    let rgba = img.to_rgba8();
    Some((rgba.as_raw().to_vec(), rgba.width(), rgba.height()))
}

/// Whether `e` is one of `exts`.
pub open spec fn listed(exts: Seq<&'static str>, e: Seq<char>) -> bool {
    exists|i: int| 0 <= i < exts.len() && (#[trigger] exts[i])@ == e
}

/// RGB pixels (`s`, three bytes each) as RGBA, opaque; a trailing partial
/// pixel is dropped.
pub open spec fn rgb_to_rgba(s: Seq<u8>) -> Seq<u8> {
    Seq::new(
        (s.len() / 3 * 4) as nat,
        |i: int|
            if i % 4 == 3 {
                255u8
            } else {
                s[i / 4 * 3 + i % 4]
            },
    )
}

/// Gray pixels (`s`, one byte each) as RGBA, opaque.
pub open spec fn gray_to_rgba(s: Seq<u8>) -> Seq<u8> {
    Seq::new(
        (s.len() * 4) as nat,
        |i: int|
            if i % 4 == 3 {
                255u8
            } else {
                s[i / 4]
            },
    )
}

/// Pixels with `components` bytes each as RGBA: four are kept as they are,
/// three (RGB) and one (gray) are expanded, anything else is kept as it is.
pub open spec fn rgba_of(s: Seq<u8>, components: u8) -> Seq<u8> {
    if components == 3 {
        rgb_to_rgba(s)
    } else if components == 1 {
        gray_to_rgba(s)
    } else {
        s
    }
}

/// Decoder for images: knows the supported formats and turns bytes into RGBA.
pub struct Decoder {
    supported_extensions: Vec<&'static str>,
}

impl Decoder {
    /// Supported extensions, lower case, without the dot.
    pub closed spec fn spec_extensions(&self) -> Seq<&'static str> {
        self.supported_extensions@
    }

    pub fn new() -> (r: Self)
        ensures
            r.spec_extensions() == seq!["jpg", "jpeg", "png", "gif", "bmp", "webp"],
    {
        let r = Decoder { supported_extensions: vec!["jpg", "jpeg", "png", "gif", "bmp", "webp"] };
        assert(r.supported_extensions@ =~= seq!["jpg", "jpeg", "png", "gif", "bmp", "webp"]);
        r
    }

    /// Whether a file's extension, compared without regard to case, is supported.
    pub fn is_supported(&self, path: &Path) -> (r: bool)
        ensures
            r ==> exists|e: Seq<char>| #[trigger] listed(self.spec_extensions(), lower_of(e)),
    {
        match extension_text(path) {
            Some(ext) => self.is_supported_extension(ext.as_str()),
            None => false,
        }
    }

    /// Whether `ext`, lowered, is one of the supported extensions.
    pub fn is_supported_extension(&self, ext: &str) -> (r: bool)
        ensures
            r == listed(self.spec_extensions(), lower_of(ext@)),
    {
        let lower = lowercase(ext);
        let mut i: usize = 0;
        while i < self.supported_extensions.len()
            invariant
                i <= self.spec_extensions().len(),
                lower@ == lower_of(ext@),
                forall|k: int| 0 <= k < i ==> (#[trigger] self.spec_extensions()[k])@ != lower@,
            decreases self.spec_extensions().len() - i,
        {
            let candidate = self.supported_extensions[i].to_owned();
            if candidate == lower {
                return true;
            }
            i = i + 1;
        }
        false
    }

    /// Supported extensions, lower case, without the dot.
    pub fn extensions(&self) -> (r: &[&'static str])
        ensures
            r@ == self.spec_extensions(),
    {
        self.supported_extensions.as_slice()
    }

    /// Whether a file is a JPEG, by its extension.
    pub fn is_jpeg(path: &Path) -> (r: bool)
        ensures
            r ==> exists|e: Seq<char>|
                #[trigger] lower_of(e) == seq!['j', 'p', 'g'] || lower_of(e) == seq!['j', 'p', 'e', 'g'],
    {
        match extension_text(path) {
            Some(ext) => Self::is_jpeg_extension(ext.as_str()),
            None => false,
        }
    }

    /// Whether `ext`, lowered, is `jpg` or `jpeg`.
    pub fn is_jpeg_extension(ext: &str) -> (r: bool)
        ensures
            r == (lower_of(ext@) == seq!['j', 'p', 'g'] || lower_of(ext@) == seq![
                'j',
                'p',
                'e',
                'g',
            ]),
    {
        let lower = lowercase(ext);
        let jpg = "jpg".to_owned();
        let jpeg = "jpeg".to_owned();
        proof {
            reveal_strlit("jpg");
            reveal_strlit("jpeg");
            assert(jpg@ =~= seq!['j', 'p', 'g']);
            assert(jpeg@ =~= seq!['j', 'p', 'e', 'g']);
        }
        lower == jpg || lower == jpeg
    }

    /// Decodes JPEG bytes with zune-jpeg, falling back to the image crate.
    pub fn decode_jpeg(data: &[u8]) -> (r: Option<(Vec<u8>, u32, u32)>)
        ensures
            match jpeg_decoded(data@) {
                Some((p, w, h, c)) => r matches Some((q, w2, h2)) && q@ == rgba_of(p, c) && w2 == w
                    && h2 == h,
                None => match image_decoded(data@) {
                    Some((p, w, h)) => r matches Some((q, w2, h2)) && q@ == p && w2 == w && h2 == h,
                    None => r is None,
                },
            },
    {
        match zune_decode(data) {
            Some((pixels, width, height, components)) => {
                Some((Self::to_rgba(pixels, components), width, height))
            },
            None => Self::decode_generic(data),
        }
    }

    /// Decodes bytes of any supported format with the image crate, as RGBA8.
    pub fn decode_generic(data: &[u8]) -> (r: Option<(Vec<u8>, u32, u32)>)
        ensures
            match image_decoded(data@) {
                Some((p, w, h)) => r matches Some((q, w2, h2)) && q@ == p && w2 == w && h2 == h,
                None => r is None,
            },
    {
        image_decode(data)
    }

    /// Converts pixels with `components` bytes each to RGBA.
    pub fn to_rgba(pixels: Vec<u8>, components: u8) -> (r: Vec<u8>)
        ensures
            r@ == rgba_of(pixels@, components),
    {
        if components == 3 {
            let n = pixels.len() / 3;
            let mut out: Vec<u8> = Vec::new();
            let mut k: usize = 0;
            let mut j: usize = 0;
            proof {
                vstd::arithmetic::div_mod::lemma_fundamental_div_mod(pixels@.len() as int, 3);
            }
            while k < n
                invariant
                    k <= n,
                    j == 3 * k,
                    n == pixels@.len() / 3,
                    3 * n <= pixels@.len(),
                    out@.len() == 4 * k,
                    forall|i: int| 0 <= i < 4 * k ==> #[trigger] out@[i] == rgb_to_rgba(pixels@)[i],
                decreases n - k,
            {
                assert(3 * k + 2 < pixels@.len()) by (nonlinear_arith)
                    requires
                        k < n,
                        3 * n <= pixels@.len(),
                ;
                assert(j + 2 < pixels.len());
                out.push(pixels[j]);
                out.push(pixels[j + 1]);
                out.push(pixels[j + 2]);
                out.push(255);
                proof {
                    assert forall|i: int| 0 <= i < 4 * (k + 1) implies #[trigger] out@[i] == rgb_to_rgba(
                        pixels@,
                    )[i] by {
                        if i >= 4 * k {
                            assert(i / 4 == k) by (nonlinear_arith)
                                requires
                                    4 * k <= i < 4 * (k + 1),
                            ;
                            assert(i % 4 == i - 4 * k) by (nonlinear_arith)
                                requires
                                    4 * k <= i < 4 * (k + 1),
                            ;
                        }
                    }
                }
                k = k + 1;
                j = j + 3;
            }
            assert(out@ =~= rgb_to_rgba(pixels@));
            out
        } else if components == 1 {
            let n = pixels.len();
            let mut out: Vec<u8> = Vec::new();
            let mut k: usize = 0;
            while k < n
                invariant
                    k <= n,
                    n == pixels@.len(),
                    out@.len() == 4 * k,
                    forall|i: int| 0 <= i < 4 * k ==> #[trigger] out@[i] == gray_to_rgba(pixels@)[i],
                decreases n - k,
            {
                let g = pixels[k];
                out.push(g);
                out.push(g);
                out.push(g);
                out.push(255);
                proof {
                    assert forall|i: int| 0 <= i < 4 * (k + 1) implies #[trigger] out@[i] == gray_to_rgba(
                        pixels@,
                    )[i] by {
                        if i >= 4 * k {
                            assert(i / 4 == k) by (nonlinear_arith)
                                requires
                                    4 * k <= i < 4 * (k + 1),
                            ;
                            assert(i % 4 == i - 4 * k) by (nonlinear_arith)
                                requires
                                    4 * k <= i < 4 * (k + 1),
                            ;
                        }
                    }
                }
                k = k + 1;
            }
            assert(out@ =~= gray_to_rgba(pixels@));
            out
        } else {
            pixels
        }
    }
}

impl Default for Decoder {
    fn default() -> (r: Self)
        ensures
            r.spec_extensions() == seq!["jpg", "jpeg", "png", "gif", "bmp", "webp"],
    {
        Self::new()
    }
}

} // verus!
