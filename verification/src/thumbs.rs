//! The thumbnail generator: validation, the deterministic cache location,
//! the modification-time freshness rule, and the verified square-resize
//! pipeline over the image library.

use vstd::prelude::*;
use crate::geometry::{compute_square_crop_target, crop_scaled_dims, nat_min, pick_thumbnail_filter};
use crate::paths::{base_name_of, ext_of, parent_of, stem_of, file_stem, path_base_name,
    path_parent};
use crate::text::{lower_seq, to_lower};
use crate::types::ScannerError;

verus! {

#[verifier::external_type_specification]
#[verifier::external_body]
pub struct ExDynamicImage(image::DynamicImage);

/// A decoded image together with its dimensions and whether its pixel
/// format carries an alpha channel.  Values are built only by
/// [`probe_image`] and the resize operations, which read those properties
/// from the image itself.
pub struct SizedImage {
    img: image::DynamicImage,
    width: u32,
    height: u32,
    has_alpha: bool,
}

impl SizedImage {
    /// The pixel width recorded for the image.
    pub closed spec fn spec_width(&self) -> u32 {
        self.width
    }

    /// The pixel height recorded for the image.
    pub closed spec fn spec_height(&self) -> u32 {
        self.height
    }

    /// Whether the pixel format carries an alpha channel.
    pub closed spec fn spec_has_alpha(&self) -> bool {
        self.has_alpha
    }

    /// The pixel width.
    pub fn width(&self) -> (r: u32)
        ensures
            r == self.spec_width(),
    {
        self.width
    }

    /// The pixel height.
    pub fn height(&self) -> (r: u32)
        ensures
            r == self.spec_height(),
    {
        self.height
    }

    /// Whether the image has transparency.
    pub fn has_alpha(&self) -> (r: bool)
        ensures
            r == self.spec_has_alpha(),
    {
        self.has_alpha
    }

    /// The decoded image, for the host to encode.
    pub fn image(&self) -> &image::DynamicImage {
        &self.img
    }
}

/// Relies on `DynamicImage::dimensions` and `ColorType::has_alpha`: reads
/// the image's width, height and alpha flag.
#[verifier::external_body]
pub fn probe_image(img: image::DynamicImage) -> (r: SizedImage) {
    let w = img.width();
    let h = img.height();
    let a = img.color().has_alpha();
    SizedImage { img, width: w, height: h, has_alpha: a }
}

/// Relies on `DynamicImage::resize`: the result is scaled to the largest
/// size that fits within the bounds, so each side lands between 1 and its
/// bound; the pixel format, and with it the alpha flag, is kept.
#[verifier::external_body]
fn img_resize(src: &SizedImage, w: u32, h: u32, fast: bool) -> (r: SizedImage)
    requires
        w >= 1,
        h >= 1,
    ensures
        1 <= r.spec_width() <= w,
        1 <= r.spec_height() <= h,
        r.spec_has_alpha() == src.spec_has_alpha(),
{
    let filter = if fast {
        image::imageops::FilterType::Triangle
    } else {
        image::imageops::FilterType::Lanczos3
    };
    let d = src.img.resize(w, h, filter);
    let dw = d.width();
    let dh = d.height();
    SizedImage { img: d, width: dw, height: dh, has_alpha: src.has_alpha }
}

/// Relies on `DynamicImage::crop_imm` at the top-left corner: the cut-out's
/// sides are the requested sides clamped to the image; the pixel format is
/// kept.
#[verifier::external_body]
fn img_crop_top_left(src: &SizedImage, w: u32, h: u32) -> (r: SizedImage)
    ensures
        r.spec_width() == nat_min(w as nat, src.spec_width() as nat),
        r.spec_height() == nat_min(h as nat, src.spec_height() as nat),
        r.spec_has_alpha() == src.spec_has_alpha(),
{
    let d = src.img.crop_imm(0, 0, w, h);
    let dw = d.width();
    let dh = d.height();
    SizedImage { img: d, width: dw, height: dh, has_alpha: src.has_alpha }
}

/// Relies on `DynamicImage::resize_exact`: the result has exactly the
/// requested dimensions; the pixel format is kept.
#[verifier::external_body]
fn img_resize_exact(src: &SizedImage, w: u32, h: u32, fast: bool) -> (r: SizedImage)
    ensures
        r.spec_width() == w,
        r.spec_height() == h,
        r.spec_has_alpha() == src.spec_has_alpha(),
{
    let filter = if fast {
        image::imageops::FilterType::Triangle
    } else {
        image::imageops::FilterType::Lanczos3
    };
    let d = src.img.resize_exact(w, h, filter);
    let dw = d.width();
    let dh = d.height();
    SizedImage { img: d, width: dw, height: dh, has_alpha: src.has_alpha }
}

/// Scales an image so its shorter side equals `size`, then crops a square
/// of that side anchored at the top-left corner, correcting by an exact
/// resize if rounding in the scaler left the crop short.
///
/// Fails on a zero size, zero source dimensions, or scaled dimensions out
/// of pixel-coordinate range; every success is an exact `size` by `size`
/// square with the source's alpha flag.
pub fn resize_to_square(img: SizedImage, size: u32) -> (r: Result<SizedImage, ScannerError>)
    ensures
        size == 0 ==> r is Err && r->Err_0 is Validation,
        size > 0 && (img.spec_width() == 0 || img.spec_height() == 0) ==> r is Err
            && r->Err_0 is Validation,
        r is Ok ==> r->Ok_0.spec_width() == size && r->Ok_0.spec_height() == size
            && r->Ok_0.spec_has_alpha() == img.spec_has_alpha(),
        size > 0 && img.spec_width() > 0 && img.spec_height() > 0 && crop_scaled_dims(
            img.spec_width() as nat,
            img.spec_height() as nat,
            size as nat,
        ).0 <= u32::MAX && crop_scaled_dims(
            img.spec_width() as nat,
            img.spec_height() as nat,
            size as nat,
        ).1 <= u32::MAX ==> r is Ok,
{
    if size == 0 {
        return Err(ScannerError::Validation(String::from_str("thumbnail size must be non-zero")));
    }
    let w = img.width();
    let h = img.height();
    if w == 0 || h == 0 {
        return Err(ScannerError::Validation(String::from_str("image has invalid dimensions")));
    }
    if w == size && h == size {
        return Ok(img);
    }
    let target = match compute_square_crop_target(w, h, size) {
        Ok(t) => t,
        Err(e) => {
            return Err(e);
        },
    };
    proof {
        crate::geometry::lemma_scaled_dims_pos(w as nat, h as nat, size as nat);
    }
    let fast = pick_thumbnail_filter(size);
    let resized = img_resize(&img, target.scaled_w, target.scaled_h, fast);
    let cropped = img_crop_top_left(&resized, size, size);
    if cropped.width() != size || cropped.height() != size {
        Ok(img_resize_exact(&cropped, size, size, fast))
    } else {
        Ok(cropped)
    }
}

/// The WebP quality policy: 80 for images with transparency, 75 otherwise.
pub open spec fn webp_quality_of(has_alpha: bool) -> u8 {
    if has_alpha {
        80
    } else {
        75
    }
}

/// An extension the thumbnail pipeline accepts, lower-cased.
pub open spec fn supported_image_ext(e: Seq<char>) -> bool {
    ||| e == "jpg"@
    ||| e == "jpeg"@
    ||| e == "png"@
    ||| e == "webp"@
    ||| e == "bmp"@
    ||| e == "tiff"@
    ||| e == "tga"@
}

/// The derived locations of a thumbnail: the cache directory, the artifact
/// path, and its bare file name.
pub struct ThumbnailPaths {
    pub cache_dir: String,
    pub thumbnail_path: String,
    pub thumbnail_file_name: String,
}

/// The thumbnail artifact's file name: the source's stem with `.thumb`.
pub open spec fn thumb_file_name_of(path: Seq<char>) -> Seq<char> {
    stem_of(base_name_of(path)) + ".thumb"@
}

/// The freshness rule of the cache: the artifact counts as current exactly
/// when it exists, both modification times could be read, and the
/// artifact's is at least the source's.
pub open spec fn thumbnail_current(
    thumb_exists: bool,
    image_mtime: Option<u64>,
    thumb_mtime: Option<u64>,
) -> bool {
    thumb_exists && image_mtime is Some && thumb_mtime is Some && thumb_mtime->0
        >= image_mtime->0
}

/// Generating a thumbnail leaves the cache fresh: an artifact written no
/// earlier than the source's last change is served from the cache on the
/// next call, so that call decodes nothing and leaves the artifact's bytes
/// untouched.
pub proof fn lemma_thumbnail_idempotent(image_mtime: u64, thumb_mtime: u64)
    requires
        thumb_mtime >= image_mtime,
    ensures
        thumbnail_current(true, Some(image_mtime), Some(thumb_mtime)),
{
}

/// Touching the source invalidates the cache: a source changed after the
/// artifact was written forces a regeneration, and the fresh artifact,
/// written no earlier than the touched source, is current again.
pub proof fn lemma_thumbnail_touch_regenerates(
    touched_mtime: u64,
    old_thumb_mtime: u64,
    new_thumb_mtime: u64,
)
    requires
        touched_mtime > old_thumb_mtime,
        new_thumb_mtime >= touched_mtime,
    ensures
        !thumbnail_current(true, Some(touched_mtime), Some(old_thumb_mtime)),
        thumbnail_current(true, Some(touched_mtime), Some(new_thumb_mtime)),
{
}

/// The thumbnail generator: the square side it produces and the name of
/// the cache directory it keeps artifacts under.
pub struct ThumbnailGenerator {
    pub thumbnail_size: u32,
    pub cache_dir_name: String,
}

impl Default for ThumbnailGenerator {
    /// The default generator: 256-pixel squares cached under `.cache`.
    fn default() -> (r: Self)
        ensures
            r.thumbnail_size == 256,
            r.cache_dir_name@ == ".cache"@,
    {
        ThumbnailGenerator { thumbnail_size: 256, cache_dir_name: String::from_str(".cache") }
    }
}

impl ThumbnailGenerator {
    /// A generator for squares of the given side, cached under `.cache`.
    pub fn new(thumbnail_size: u32) -> (r: Self)
        ensures
            r.thumbnail_size == thumbnail_size,
            r.cache_dir_name@ == ".cache"@,
    {
        ThumbnailGenerator { thumbnail_size, cache_dir_name: String::from_str(".cache") }
    }

    /// A generator taking its square side and cache-directory name from a
    /// scanner configuration.
    pub fn from_config(config: &crate::types::ScannerConfig) -> (r: Self)
        ensures
            r.thumbnail_size == config.thumbnail_size,
            r.cache_dir_name@ == config.cache_dir_name@,
    {
        ThumbnailGenerator {
            thumbnail_size: config.thumbnail_size,
            cache_dir_name: config.cache_dir_name.clone(),
        }
    }

    /// The encoder quality for the generated artifact, by the alpha policy.
    pub fn get_webp_quality(&self, has_alpha: bool) -> (r: u8)
        ensures
            r == webp_quality_of(has_alpha),
    {
        if has_alpha {
            80
        } else {
            75
        }
    }

    /// Whether the cached artifact may be served without regenerating, by
    /// the freshness rule: any unreadable modification time counts as
    /// stale, so the artifact is regenerated.
    pub fn is_thumbnail_current(
        &self,
        thumb_exists: bool,
        image_mtime: Option<u64>,
        thumb_mtime: Option<u64>,
    ) -> (r: bool)
        ensures
            r == thumbnail_current(thumb_exists, image_mtime, thumb_mtime),
    {
        if !thumb_exists {
            return false;
        }
        match (image_mtime, thumb_mtime) {
            (Some(im), Some(tm)) => tm >= im,
            _ => false,
        }
    }

    /// Validates a thumbnail request and derives the cache locations: the
    /// path must be non-empty, the file must exist, and the extension must
    /// be one the pipeline supports, case-insensitively.
    ///
    /// The artifact lives at `parent/cache_dir_name/stem.thumb`.
    pub fn thumbnail_paths(&self, image_path: &str, image_exists: bool) -> (r: Result<
        ThumbnailPaths,
        ScannerError,
    >)
        ensures
            image_path@.len() == 0 ==> r is Err && r->Err_0 is Validation,
            image_path@.len() > 0 && !image_exists ==> r is Err && r->Err_0 is NotFound,
            image_path@.len() > 0 && image_exists && !(ext_of(base_name_of(image_path@)) is Some
                && supported_image_ext(lower_seq(ext_of(base_name_of(image_path@))->0))) ==> r
                is Err && r->Err_0 is Codec,
            r is Ok <==> (image_path@.len() > 0 && image_exists && ext_of(
                base_name_of(image_path@),
            ) is Some && supported_image_ext(lower_seq(ext_of(base_name_of(image_path@))->0))),
            r is Ok ==> {
                let p = r->Ok_0;
                &&& p.cache_dir@ == parent_of(image_path@) + self.cache_dir_name@
                &&& p.thumbnail_path@ == parent_of(image_path@) + self.cache_dir_name@ + seq!['/']
                    + thumb_file_name_of(image_path@)
                &&& p.thumbnail_file_name@ == thumb_file_name_of(image_path@)
            },
    {
        let n = crate::paths::s_len(image_path);
        if n == 0 {
            return Err(ScannerError::Validation(String::from_str("image path cannot be empty")));
        }
        if !image_exists {
            return Err(ScannerError::NotFound(String::from_str("image file does not exist")));
        }
        let base = path_base_name(image_path);
        let supported = match crate::paths::file_extension(base.as_str()) {
            Some(e) => {
                let low = to_lower(e.as_str());
                self.ext_is_supported(&low)
            },
            None => false,
        };
        if !supported {
            return Err(ScannerError::Codec(String::from_str("unsupported image format")));
        }
        let parent = path_parent(image_path);
        let cache_dir = parent.concat(self.cache_dir_name.as_str());
        let stem = file_stem(base.as_str());
        let thumb_name = stem.concat(".thumb");
        let mut tp: Vec<char> = crate::text::string_to_chars(cache_dir.as_str());
        tp.push('/');
        let tp_s = crate::text::chars_to_string(&tp);
        let thumbnail_path = tp_s.concat(thumb_name.as_str());
        proof {
            assert(thumbnail_path@ =~= parent_of(image_path@) + self.cache_dir_name@ + seq!['/']
                + thumb_file_name_of(image_path@));
        }
        Ok(ThumbnailPaths { cache_dir, thumbnail_path, thumbnail_file_name: thumb_name })
    }

    /// Whether a lower-cased extension is in the supported set.
    fn ext_is_supported(&self, low: &String) -> (r: bool)
        ensures
            r == supported_image_ext(low@),
    {
        low.eq(&String::from_str("jpg")) || low.eq(&String::from_str("jpeg")) || low.eq(
            &String::from_str("png"),
        ) || low.eq(&String::from_str("webp")) || low.eq(&String::from_str("bmp")) || low.eq(
            &String::from_str("tiff"),
        ) || low.eq(&String::from_str("tga"))
    }

    /// Renders the square thumbnail for a decoded source image and picks
    /// the encoder quality for it.
    pub fn render_thumbnail(&self, img: SizedImage) -> (r: Result<(SizedImage, u8), ScannerError>)
        ensures
            r is Ok ==> {
                let (t, q) = r->Ok_0;
                &&& t.spec_width() == self.thumbnail_size
                &&& t.spec_height() == self.thumbnail_size
                &&& t.spec_has_alpha() == img.spec_has_alpha()
                &&& q == webp_quality_of(img.spec_has_alpha())
            },
            self.thumbnail_size == 0 ==> r is Err,
            img.spec_width() == 0 || img.spec_height() == 0 ==> r is Err,
            self.thumbnail_size > 0 && img.spec_width() > 0 && img.spec_height() > 0
                && crop_scaled_dims(
                img.spec_width() as nat,
                img.spec_height() as nat,
                self.thumbnail_size as nat,
            ).0 <= u32::MAX && crop_scaled_dims(
                img.spec_width() as nat,
                img.spec_height() as nat,
                self.thumbnail_size as nat,
            ).1 <= u32::MAX ==> r is Ok,
    {
        let alpha = img.has_alpha();
        let t = match resize_to_square(img, self.thumbnail_size) {
            Ok(t) => t,
            Err(e) => {
                return Err(e);
            },
        };
        Ok((t, self.get_webp_quality(alpha)))
    }
}

} // verus!
