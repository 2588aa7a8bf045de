//! Rasterizing the composed vector document and transforming the raster
//! for the physical display. The vector and bitmap work itself is done by
//! outside code behind trusted wrappers; the pipeline around the calls —
//! sizing, the quarter turn, the radar composition, the degrade-to-
//! placeholder composition — is verified.

use vstd::prelude::*;
use crate::compose::{spec_compose, compose_document};
use crate::model::DisplayModel;
use crate::raster::{RasterImage, GrayImage, rotate90, hide_banner, spec_rotated90,
    spec_banner_hidden};

verus! {

/// A failure to turn the composed document into a bitmap: the document did
/// not parse or describes a bitmap too large to allocate. Treated as fatal
/// for the cycle — a malformed document is a pipeline defect, not a data
/// problem.
#[derive(Debug, Clone, Copy, PartialEq, Eq, Structural)]
pub enum RenderError {
    InvalidDocument,
    TooLarge,
}

/// The raster geometry the document declares once parsed with the two given
/// fonts loaded: its size rounded to whole pixels, or nothing when the text
/// is not a valid document. The result depends on the three arguments
/// alone.
pub uninterp spec fn svg_doc_size(doc: Seq<char>, font_regular: Seq<u8>, font_bold: Seq<u8>) -> Option<(int, int)>;

/// The pixels the renderer produces for the document at its declared
/// geometry, with the two given fonts loaded. The result depends on the
/// three arguments alone.
pub uninterp spec fn svg_raster_of(doc: Seq<char>, font_regular: Seq<u8>, font_bold: Seq<u8>) -> Seq<u8>;

/// Relies on usvg's `Tree::from_str` with the two given fonts loaded and on
/// `Tree::size`: parsing succeeds or fails on the text and fonts alone, and
/// a parsed document's size rounds to whole pixels of at least one each
/// way.
#[verifier::external_body]
fn svg_parse_size(doc: &str, font_regular: &Vec<u8>, font_bold: &Vec<u8>) -> (r: Option<
    (u32, u32),
>)
    ensures
        (match r {
            Some(d) => svg_doc_size(doc@, font_regular@, font_bold@) == Some(
                (d.0 as int, d.1 as int),
            ) && d.0 >= 1 && d.1 >= 1,
            None => svg_doc_size(doc@, font_regular@, font_bold@) is None,
        }),
{
    let mut db = usvg::fontdb::Database::new();
    db.load_font_data(font_regular.clone());
    db.load_font_data(font_bold.clone());
    let mut opt = usvg::Options::default();
    opt.fontdb = std::sync::Arc::new(db);
    match usvg::Tree::from_str(doc, &opt) {
        Ok(t) => {
            let s = t.size().to_int_size();
            Some((s.width(), s.height()))
        },
        Err(_) => None,
    }
}

/// Relies on resvg's `render` through a tiny-skia pixmap borrowing the
/// buffer: at the document's declared geometry, with a zeroed buffer of
/// exactly that many bytes, the pixmap exists, the document parses again,
/// and rendering — which draws onto the buffer — leaves exactly the
/// document's raster, the length unchanged.
#[verifier::external_body]
fn svg_render_into(
    doc: &str,
    font_regular: &Vec<u8>,
    font_bold: &Vec<u8>,
    width: u32,
    height: u32,
    buf: &mut Vec<u8>,
)
    requires
        svg_doc_size(doc@, font_regular@, font_bold@) == Some((width as int, height as int)),
        1 <= width <= 0xFFFF,
        1 <= height <= 0xFFFF,
        old(buf)@.len() == 4 * width * height,
        forall|k: int| 0 <= k < old(buf)@.len() ==> old(buf)@[k] == 0u8,
    ensures
        final(buf)@.len() == old(buf)@.len(),
        final(buf)@ == svg_raster_of(doc@, font_regular@, font_bold@),
{
    let mut db = usvg::fontdb::Database::new();
    db.load_font_data(font_regular.clone());
    db.load_font_data(font_bold.clone());
    let mut opt = usvg::Options::default();
    opt.fontdb = std::sync::Arc::new(db);
    let tree = usvg::Tree::from_str(doc, &opt).expect("the document parsed for its size");
    let mut pm = tiny_skia::PixmapMut::from_bytes(buf.as_mut_slice(), width, height)
        .expect("the buffer holds the declared geometry");
    resvg::render(&tree, tiny_skia::Transform::identity(), &mut pm);
}

/// Whether a declared geometry is one the pipeline can allocate.
pub open spec fn raster_size_ok(w: int, h: int) -> bool {
    w <= 0xFFFF && h <= 0xFFFF && 4 * w * h <= usize::MAX
}

/// Parse the composed document and rasterize it to a pixel buffer of
/// exactly the document's declared size, with the embedded fonts and no
/// filesystem font lookup. An unparseable document — a pipeline defect —
/// is the typed error; so is a declared geometry too large to hold.
pub fn render_document(doc: &str, font_regular: &Vec<u8>, font_bold: &Vec<u8>) -> (r: Result<
    RasterImage,
    RenderError,
>)
    ensures
        ({
            let ds = svg_doc_size(doc@, font_regular@, font_bold@);
            &&& (r == Err::<RasterImage, RenderError>(RenderError::InvalidDocument) <==> ds
                is None)
            &&& (r == Err::<RasterImage, RenderError>(RenderError::TooLarge) <==> (ds matches Some(
                d,
            ) && !raster_size_ok(d.0, d.1)))
            &&& (match r {
                Ok(img) => {
                    &&& img.wf()
                    &&& ds == Some((img.width as int, img.height as int))
                    &&& img.pixels@ == svg_raster_of(doc@, font_regular@, font_bold@)
                },
                Err(_) => true,
            })
        }),
{
    let (width, height) = match svg_parse_size(doc, font_regular, font_bold) {
        Some(d) => d,
        None => {
            return Err(RenderError::InvalidDocument);
        },
    };
    if width > 0xFFFF || height > 0xFFFF {
        return Err(RenderError::TooLarge);
    }
    proof {
        assert(4 * (width as int) * (height as int) <= 4 * 0xFFFF * 0xFFFF) by (nonlinear_arith)
            requires
                0 <= width <= 0xFFFF,
                0 <= height <= 0xFFFF,
        ;
    }
    let n64: u64 = 4u64 * (width as u64) * (height as u64);
    if n64 > (usize::MAX as u64) {
        return Err(RenderError::TooLarge);
    }
    let n: usize = n64 as usize;
    let mut buf: Vec<u8> = Vec::new();
    let mut i: usize = 0;
    while i < n
        invariant
            buf@.len() == i,
            i <= n,
            forall|k: int| 0 <= k < buf@.len() ==> buf@[k] == 0u8,
        decreases n - i,
    {
        buf.push(0u8);
        i += 1;
    }
    svg_render_into(doc, font_regular, font_bold, width, height, &mut buf);
    Ok(RasterImage { width, height, pixels: buf })
}

/// What the resampling filter produces for the given source pixels and
/// geometries. The result depends on the arguments alone.
pub uninterp spec fn lanczos_resized(p: Seq<u8>, w: int, h: int, tw: int, th: int) -> Seq<u8>;

/// Relies on image's `resize_exact` with the high-quality Lanczos filter:
/// the result has exactly the requested geometry.
#[verifier::external_body]
fn resize_exact_image(img: &RasterImage, tw: u32, th: u32) -> (r: RasterImage)
    requires
        img.wf(),
        tw >= 1,
        th >= 1,
    ensures
        r.width == tw,
        r.height == th,
        r.pixels@ == lanczos_resized(
            img.pixels@,
            img.width as int,
            img.height as int,
            tw as int,
            th as int,
        ),
        r.pixels@.len() == 4 * tw * th,
{
    let buf = image::RgbaImage::from_raw(img.width, img.height, img.pixels.clone()).unwrap();
    let resized = image::DynamicImage::ImageRgba8(buf)
        .resize_exact(tw, th, image::imageops::FilterType::Lanczos3)
        .into_rgba8();
    RasterImage { width: tw, height: th, pixels: resized.into_raw() }
}

/// What the grayscale conversion produces for the given pixel bytes: one
/// luminance byte per four-byte pixel, alpha dropped. The result depends on
/// the bytes alone.
pub uninterp spec fn luma_of(p: Seq<u8>) -> Seq<u8>;

/// Relies on image's `into_luma8` after dropping alpha: a single channel,
/// one byte per source pixel.
#[verifier::external_body]
fn to_gray_image(img: &RasterImage) -> (r: GrayImage)
    requires
        img.wf(),
    ensures
        r.width == img.width,
        r.height == img.height,
        r.pixels@ == luma_of(img.pixels@),
        r.pixels@.len() == img.width * img.height,
{
    let buf = image::RgbaImage::from_raw(img.width, img.height, img.pixels.clone()).unwrap();
    let rgb: image::RgbImage = image::DynamicImage::ImageRgba8(buf).into();
    let gray = image::DynamicImage::ImageRgb8(rgb).into_luma8();
    GrayImage { width: img.width, height: img.height, pixels: gray.into_raw() }
}

/// What the encoder produces for a bitmap of the given pixels and
/// geometry: the encoded bytes, or nothing when the encoder refuses the
/// bitmap. The result, refusal included, depends on the arguments alone.
pub uninterp spec fn png_encoding_of(p: Seq<u8>, w: int, h: int) -> Option<Seq<u8>>;

/// Relies on image's `write_to` with the PNG format: encoding a bitmap into
/// an in-memory buffer succeeds or fails on the pixels and geometry alone.
#[verifier::external_body]
pub fn encode_png(img: &RasterImage) -> (r: Option<Vec<u8>>)
    requires
        img.wf(),
    ensures
        (match r {
            Some(b) => png_encoding_of(img.pixels@, img.width as int, img.height as int) == Some(
                b@,
            ),
            None => png_encoding_of(img.pixels@, img.width as int, img.height as int) is None,
        }),
{
    let buf = image::RgbaImage::from_raw(img.width, img.height, img.pixels.clone()).unwrap();
    let dynimg = image::DynamicImage::ImageRgba8(buf);
    let mut out = std::io::Cursor::new(Vec::new());
    match dynimg.write_to(&mut out, image::ImageFormat::Png) {
        Ok(_) => Some(out.into_inner()),
        Err(_) => None,
    }
}

/// What decoding an encoded image yields: pixels, width and height, or
/// nothing when the bytes are not a supported image. The result, refusal
/// included, depends on the bytes alone.
pub uninterp spec fn decoded_image_of(b: Seq<u8>) -> Option<(Seq<u8>, int, int)>;

/// Relies on image's `load_from_memory`: decoding in-memory bytes to an
/// RGBA bitmap succeeds or fails on the bytes alone.
#[verifier::external_body]
pub fn decode_image(bytes: &Vec<u8>) -> (r: Option<RasterImage>)
    ensures
        (match r {
            Some(img) => {
                &&& img.wf()
                &&& decoded_image_of(bytes@) == Some(
                    (img.pixels@, img.width as int, img.height as int),
                )
            },
            None => decoded_image_of(bytes@) is None,
        }),
{
    match image::load_from_memory(bytes) {
        Ok(d) => {
            let rgba = d.to_rgba8();
            let (w, h) = (rgba.width(), rgba.height());
            Some(RasterImage { width: w, height: h, pixels: rgba.into_raw() })
        },
        Err(_) => None,
    }
}

/// What alpha-compositing `top` onto `bottom` at the origin yields. The
/// result depends on the arguments alone.
pub uninterp spec fn overlay_of(
    bottom: Seq<u8>,
    bw: int,
    bh: int,
    top: Seq<u8>,
    tw: int,
    th: int,
) -> Seq<u8>;

/// Relies on image's `imageops::overlay` at the origin: it draws `top`
/// over `bottom` in place, leaving `bottom`'s geometry unchanged.
#[verifier::external_body]
fn overlay_onto(bottom: &mut RasterImage, top: &RasterImage)
    requires
        old(bottom).wf(),
        top.wf(),
    ensures
        final(bottom).width == old(bottom).width,
        final(bottom).height == old(bottom).height,
        final(bottom).pixels@ == overlay_of(
            old(bottom).pixels@,
            old(bottom).width as int,
            old(bottom).height as int,
            top.pixels@,
            top.width as int,
            top.height as int,
        ),
        final(bottom).pixels@.len() == old(bottom).pixels@.len(),
{
    let mut b = image::RgbaImage::from_raw(bottom.width, bottom.height, bottom.pixels.clone())
        .unwrap();
    let t = image::RgbaImage::from_raw(top.width, top.height, top.pixels.clone()).unwrap();
    image::imageops::overlay(&mut b, &t, 0, 0);
    bottom.pixels = b.into_raw();
}

/// Whether a decoded geometry is one the radar composition accepts: wide
/// enough to carry the copyright strip and within the transform bounds.
pub open spec fn radar_geometry_ok(w: int, h: int) -> bool {
    512 <= w <= 0x8000 && 16 <= h <= 0x8000
}

/// Decode a fetched radar rain layer and admit it only with a geometry the
/// radar composition accepts.
pub fn decode_radar_layer(bytes: &Vec<u8>) -> (r: Option<RasterImage>)
    ensures
        (match r {
            Some(img) => {
                &&& img.wf()
                &&& decoded_image_of(bytes@) == Some(
                    (img.pixels@, img.width as int, img.height as int),
                )
                &&& radar_geometry_ok(img.width as int, img.height as int)
            },
            None => (match decoded_image_of(bytes@) {
                Some(t) => !radar_geometry_ok(t.1, t.2),
                None => true,
            }),
        }),
{
    match decode_image(bytes) {
        Some(img) => {
            if 512 <= img.width && img.width <= 0x8000 && 16 <= img.height && img.height
                <= 0x8000 {
                Some(img)
            } else {
                None
            }
        },
        None => None,
    }
}

/// Compose the radar picture: blank the copyright strip of the rain layer,
/// then draw it over the background map.
pub fn compose_radar(rain: RasterImage, background: RasterImage) -> (r: RasterImage)
    requires
        rain.wf(),
        background.wf(),
        rain.width >= 512,
        rain.height >= 16,
        rain.width <= 0x8000,
        rain.height <= 0x8000,
    ensures
        r.wf(),
        r.width == background.width,
        r.height == background.height,
        r.pixels@ == overlay_of(
            background.pixels@,
            background.width as int,
            background.height as int,
            spec_banner_hidden(rain.pixels@, rain.width as int),
            rain.width as int,
            rain.height as int,
        ),
{
    let cleaned = hide_banner(rain);
    let mut base = background;
    overlay_onto(&mut base, &cleaned);
    base
}

/// Resize the rendered bitmap to the display's geometry, turn it a quarter
/// turn, and reduce it to a single channel: the output has exactly the
/// display's geometry, rotated from the rendered orientation.
pub fn device_transform(img: &RasterImage, screen_width: u32, screen_height: u32) -> (g: GrayImage)
    requires
        img.wf(),
        1 <= screen_width <= 0x8000,
        1 <= screen_height <= 0x8000,
    ensures
        g.wf(),
        g.width == screen_width,
        g.height == screen_height,
        g.pixels@ == luma_of(
            spec_rotated90(
                lanczos_resized(
                    img.pixels@,
                    img.width as int,
                    img.height as int,
                    screen_height as int,
                    screen_width as int,
                ),
                screen_height as int,
                screen_width as int,
            ),
        ),
        g.pixels@.len() == screen_width * screen_height,
{
    let resized = resize_exact_image(img, screen_height, screen_width);
    proof {
        assert(resized.wf());
    }
    let turned = rotate90(&resized);
    to_gray_image(&turned)
}

/// Compose the full document for the model: a present radar bitmap is
/// PNG-encoded and embedded exactly when the encoder accepts it, and the
/// document is otherwise composed exactly as `compose_document` states.
pub fn compose_template(template: &str, model: &DisplayModel, icons: &Vec<String>, now: i64) -> (r:
    String)
    requires
        icons@.len() == 8,
        0 <= now <= 0x1000_0000_0000_0000,
        (match model.calendar_event {
            Some(Some(e)) => -0x2000_0000_0000_0000 <= e.start_time - now
                <= 0x2000_0000_0000_0000,
            _ => true,
        }),
        (match model.stats {
            Some(s) => match s.btc_halving {
                Some(h) => -0x2000_0000_0000_0000 <= h - now <= 0x2000_0000_0000_0000,
                None => true,
            },
            None => true,
        }),
        (match model.weather {
            Some(w) => forall|k: int|
                0 <= k < w@.len() ==> (#[trigger] w@[k]).data_points >= 0,
            None => true,
        }),
        (match model.radar_image {
            Some(img) => img.wf(),
            None => true,
        }),
    ensures
        r@ == spec_compose(
            template@,
            crate::model::news_view(model),
            crate::model::event_view(model),
            crate::model::stats_view(model),
            crate::model::weather_view(model),
            icons@.map(|k: int, s: String| s@),
            now as int,
            match model.radar_image {
                None => None,
                Some(ref img) => png_encoding_of(
                    img.pixels@,
                    img.width as int,
                    img.height as int,
                ),
            },
        ),
{
    let png: Option<Vec<u8>> = match &model.radar_image {
        Some(img) => encode_png(img),
        None => None,
    };
    compose_document(template, model, icons, now, &png)
}

} // verus!
