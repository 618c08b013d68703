//! Thumbnail generation and caching

use vstd::prelude::*;
use crate::error::FileManagerError;
use crate::path::{extension, join, join_spec, path_extension};
use crate::places::cache_dir;
use std::collections::hash_map::DefaultHasher;
use std::hash::{Hash, Hasher};
use vstd::std_specs::hash::DefaultHasherAdditionalSpecFns;
use crate::text::{format_digits, digits, lowercase, string_from_chars, to_lowercase};

verus! {

#[verifier::external_type_specification]
#[verifier::external_body]
pub struct ExDynamicImage(image::DynamicImage);

/// Thumbnail size
pub const THUMBNAIL_SIZE: u32 = 128;

/// Image format enum
#[derive(Debug, Clone, Copy, PartialEq, Eq, Structural)]
pub enum ImageFormat {
    Png,
    Jpeg,
    Gif,
    Webp,
    Bmp,
    Unknown,
}

/// The image format named by an extension that is already lowercase.
pub open spec fn format_of_lowercase(ext: Seq<char>) -> ImageFormat {
    if ext == "png"@ {
        ImageFormat::Png
    } else if ext == "jpg"@ || ext == "jpeg"@ {
        ImageFormat::Jpeg
    } else if ext == "gif"@ {
        ImageFormat::Gif
    } else if ext == "webp"@ {
        ImageFormat::Webp
    } else if ext == "bmp"@ {
        ImageFormat::Bmp
    } else {
        ImageFormat::Unknown
    }
}

/// The image formats by extension: `png` is PNG, `jpg` and `jpeg` are JPEG,
/// `gif` is GIF, `webp` is WebP, `bmp` is BMP, and every other (lowercase)
/// extension is unknown.
pub proof fn lemma_image_formats_by_extension(ext: Seq<char>)
    ensures
        (format_of_lowercase(ext) == ImageFormat::Png) == (ext == "png"@),
        (format_of_lowercase(ext) == ImageFormat::Jpeg) == (ext == "jpg"@ || ext == "jpeg"@),
        (format_of_lowercase(ext) == ImageFormat::Gif) == (ext == "gif"@),
        (format_of_lowercase(ext) == ImageFormat::Webp) == (ext == "webp"@),
        (format_of_lowercase(ext) == ImageFormat::Bmp) == (ext == "bmp"@),
        (format_of_lowercase(ext) == ImageFormat::Unknown) == !(ext == "png"@ || ext == "jpg"@ || ext
            == "jpeg"@ || ext == "gif"@ || ext == "webp"@ || ext == "bmp"@),
{
    reveal_strlit("png");
    reveal_strlit("jpg");
    reveal_strlit("jpeg");
    reveal_strlit("gif");
    reveal_strlit("webp");
    reveal_strlit("bmp");
    assert("png"@[0] == 'p' && "jpg"@[0] == 'j' && "jpeg"@[0] == 'j' && "gif"@[0] == 'g');
    assert("webp"@[0] == 'w' && "bmp"@[0] == 'b' && "jpg"@.len() != "jpeg"@.len());
}

fn equals_literal(s: &String, lit: &str) -> (r: bool)
    ensures
        r == (s@ == lit@),
{
    *s == String::from_str(lit)
}

impl ImageFormat {
    /// The format named by an extension, ignoring case.
    pub fn from_extension(ext: &str) -> (f: Self)
        ensures
            f == format_of_lowercase(lowercase(ext@)),
    {
        let lower = to_lowercase(ext);
        if equals_literal(&lower, "png") {
            ImageFormat::Png
        } else if equals_literal(&lower, "jpg") || equals_literal(&lower, "jpeg") {
            ImageFormat::Jpeg
        } else if equals_literal(&lower, "gif") {
            ImageFormat::Gif
        } else if equals_literal(&lower, "webp") {
            ImageFormat::Webp
        } else if equals_literal(&lower, "bmp") {
            ImageFormat::Bmp
        } else {
            ImageFormat::Unknown
        }
    }
}

/// Thumbnail data
#[derive(Debug)]
pub struct Thumbnail {
    pub data: Vec<u8>,
    pub format: ImageFormat,
    pub width: u32,
    pub height: u32,
}

impl Clone for Thumbnail {
    fn clone(&self) -> (r: Self)
        ensures
            r.data@ == self.data@,
            r.format == self.format,
            r.width == self.width,
            r.height == self.height,
    {
        Thumbnail {
            data: self.data.clone(),
            format: self.format,
            width: self.width,
            height: self.height,
        }
    }
}

impl Thumbnail {
    /// Create a new empty thumbnail
    pub fn new() -> (t: Self)
        ensures
            t.data@ == Seq::<u8>::empty(),
            t.format == ImageFormat::Unknown,
            t.width == 0,
            t.height == 0,
    {
        Thumbnail { data: Vec::new(), format: ImageFormat::Unknown, width: 0, height: 0 }
    }

    /// Check if thumbnail is valid: it holds some data.
    pub fn is_valid(&self) -> (r: bool)
        ensures
            r == (self.data@.len() > 0),
    {
        self.data.len() > 0
    }

    /// A thumbnail read back from the cache: PNG data at the thumbnail size.
    pub fn cached(data: Vec<u8>) -> (t: Self)
        ensures
            t.data == data,
            t.format == ImageFormat::Png,
            t.width == THUMBNAIL_SIZE,
            t.height == THUMBNAIL_SIZE,
    {
        Thumbnail { data, format: ImageFormat::Png, width: THUMBNAIL_SIZE, height: THUMBNAIL_SIZE }
    }
}

impl Default for Thumbnail {
    fn default() -> (t: Self)
        ensures
            t.data@ == Seq::<u8>::empty(),
            t.format == ImageFormat::Unknown,
            t.width == 0,
            t.height == 0,
    {
        Thumbnail::new()
    }
}

/// The thumbnail folder under a cache folder (`/tmp` where there is none):
/// `wayland-file-manager/thumbnails`.
pub open spec fn thumbnail_dir_in(cache: Option<Seq<char>>) -> Seq<char> {
    let base = match cache {
        Some(c) => c,
        None => "/tmp"@,
    };
    join_spec(join_spec(base, "wayland-file-manager"@), "thumbnails"@)
}

/// The cache file of a path whose hash is `hash`: the hash in lowercase
/// hexadecimal with `.png`, in the thumbnail folder.
pub open spec fn cache_file_for_hash(cache_dir: Seq<char>, hash: u64) -> Seq<char> {
    join_spec(cache_dir, digits(hash as nat, 16) + ".png"@)
}

/// Cached thumbnails older than a day are not used.
pub open spec fn is_stale_age(age_secs: u64) -> bool {
    age_secs > 24 * 3600
}

/// The image formats the file manager decodes and encodes.
#[derive(Debug, Clone, Copy, PartialEq, Eq, Structural)]
pub enum ImageCodec {
    Png,
    Jpeg,
    Gif,
    Webp,
    Bmp,
}

/// The codec of a supported image format.
pub open spec fn codec_of(format: ImageFormat) -> Option<ImageCodec> {
    match format {
        ImageFormat::Png => Some(ImageCodec::Png),
        ImageFormat::Jpeg => Some(ImageCodec::Jpeg),
        ImageFormat::Gif => Some(ImageCodec::Gif),
        ImageFormat::Webp => Some(ImageCodec::Webp),
        ImageFormat::Bmp => Some(ImageCodec::Bmp),
        ImageFormat::Unknown => None,
    }
}

impl ImageFormat {
    /// The codec that reads and writes this format; none for `Unknown`.
    pub fn codec(&self) -> (c: Option<ImageCodec>)
        ensures
            c == codec_of(*self),
    {
        match self {
            ImageFormat::Png => Some(ImageCodec::Png),
            ImageFormat::Jpeg => Some(ImageCodec::Jpeg),
            ImageFormat::Gif => Some(ImageCodec::Gif),
            ImageFormat::Webp => Some(ImageCodec::Webp),
            ImageFormat::Bmp => Some(ImageCodec::Bmp),
            ImageFormat::Unknown => None,
        }
    }
}

/// The resampling filters of the `image` crate's resize.
#[derive(Debug, Clone, Copy, PartialEq, Eq, Structural)]
pub enum ResizeFilter {
    Nearest,
    Triangle,
    CatmullRom,
    Gaussian,
    Lanczos3,
}

/// The width and height of an image, as `DynamicImage::dimensions` gives
/// them.
pub uninterp spec fn image_size(img: image::DynamicImage) -> (u32, u32);

/// The colour type `DynamicImage::color` gives is one the PNG encoder
/// writes: luma, luma with alpha, RGB or RGBA at 8 or 16 bits per channel.
pub uninterp spec fn has_png_color(img: image::DynamicImage) -> bool;

/// The message of the `image` crate's error on decoding `data` as `codec`,
/// or none where it decodes.
pub uninterp spec fn decode_error(data: Seq<u8>, codec: ImageCodec) -> Option<Seq<char>>;

/// Calls `image::load_from_memory_with_format` with the `image` crate's
/// format for `codec`; an error becomes its message. Whether it fails, and
/// with which message, is `decode_error` of the arguments. The decoders of
/// these five formats give luma, luma with alpha, RGB or RGBA images at 8 or
/// 16 bits per channel; nothing else is stated of the image.
#[verifier::external_body]
fn decode_image(data: &[u8], codec: ImageCodec) -> (r: Result<image::DynamicImage, String>)
    ensures
        match r {
            Ok(img) => decode_error(data@, codec) is None && has_png_color(img),
            Err(m) => decode_error(data@, codec) == Some(m@),
        },
{
    let format = match codec {
        ImageCodec::Png => image::ImageFormat::Png,
        ImageCodec::Jpeg => image::ImageFormat::Jpeg,
        ImageCodec::Gif => image::ImageFormat::Gif,
        ImageCodec::Webp => image::ImageFormat::WebP,
        ImageCodec::Bmp => image::ImageFormat::Bmp,
    };
    image::load_from_memory_with_format(data, format).map_err(|e| e.to_string())
}

/// Calls `DynamicImage::resize`: the image scaled to fit `width` by `height`
/// with its aspect ratio kept, resampled with `filter`, in the same colour
/// type. Each side is at least one pixel (the crate rounds a side down to no
/// less than one) and fits the bounds. The filters compute in floating point,
/// so nothing is stated of the pixels.
#[verifier::external_body]
fn resize_image(img: &image::DynamicImage, width: u32, height: u32, filter: ResizeFilter) -> (r:
    image::DynamicImage)
    requires
        width >= 1,
        height >= 1,
    ensures
        1 <= image_size(r).0 <= width,
        1 <= image_size(r).1 <= height,
        has_png_color(r) == has_png_color(*img),
{
    let f = match filter {
        ResizeFilter::Nearest => image::imageops::FilterType::Nearest,
        ResizeFilter::Triangle => image::imageops::FilterType::Triangle,
        ResizeFilter::CatmullRom => image::imageops::FilterType::CatmullRom,
        ResizeFilter::Gaussian => image::imageops::FilterType::Gaussian,
        ResizeFilter::Lanczos3 => image::imageops::FilterType::Lanczos3,
    };
    img.resize(width, height, f)
}

/// Calls `DynamicImage::write_to` into a byte buffer with the `image`
/// crate's format for `codec`; an error becomes its message. The PNG encoder
/// fails only on a colour type it does not write or an empty side, and writing
/// into memory does not fail, so a small image with a PNG colour type encodes
/// (starting with the PNG signature, so the bytes are not empty). The bytes
/// themselves are not stated: the images come from a resize whose pixels are
/// not.
#[verifier::external_body]
fn encode_image(img: &image::DynamicImage, codec: ImageCodec) -> (r: Result<Vec<u8>, String>)
    ensures
        match r {
            Ok(v) => codec == ImageCodec::Png ==> v@.len() > 0,
            Err(_) => !(codec == ImageCodec::Png && has_png_color(*img) && 1 <= image_size(*img).0
                <= THUMBNAIL_SIZE && 1 <= image_size(*img).1 <= THUMBNAIL_SIZE),
        },
{
    let format = match codec {
        ImageCodec::Png => image::ImageFormat::Png,
        ImageCodec::Jpeg => image::ImageFormat::Jpeg,
        ImageCodec::Gif => image::ImageFormat::Gif,
        ImageCodec::Webp => image::ImageFormat::WebP,
        ImageCodec::Bmp => image::ImageFormat::Bmp,
    };
    let mut buffer: Vec<u8> = Vec::new();
    let written = img.write_to(&mut std::io::Cursor::new(&mut buffer), format);
    written.map(|_| buffer).map_err(|e| e.to_string())
}

/// The byte strings that `Hash::hash` of the path `path` writes into a
/// hasher, in order.
pub uninterp spec fn path_hash_writes(path: Seq<char>) -> Seq<Seq<u8>>;

/// Calls `Hash::hash` of `Path` on `path` with `hasher`: it writes
/// `path_hash_writes(path@)` after what the hasher already holds. The writes
/// are the bytes of the path's components and their count as a `usize`, so
/// for a given build they depend on the path alone.
#[verifier::external_body]
fn hash_path(path: &str, hasher: &mut DefaultHasher)
    ensures
        final(hasher)@ == old(hasher)@ + path_hash_writes(path@),
{
    std::path::Path::new(path).hash(hasher);
}

/// The hash that names a path's cache file: a fresh `DefaultHasher` fed the
/// path, finished.
pub open spec fn path_cache_hash(path: Seq<char>) -> u64 {
    DefaultHasher::spec_finish(path_hash_writes(path))
}

/// The thumbnail made from encoding's outcome: the bytes as a PNG at the
/// thumbnail size, or the message as an `Operation` error.
pub fn thumbnail_from_encoded(encoded: Result<Vec<u8>, String>) -> (r: Result<Thumbnail, FileManagerError>)
    ensures
        match encoded {
            Ok(bytes) => r matches Ok(t) && t.data == bytes && t.format == ImageFormat::Png && t.width
                == THUMBNAIL_SIZE && t.height == THUMBNAIL_SIZE,
            Err(m) => r matches Err(FileManagerError::Operation(e)) && e == m,
        },
{
    match encoded {
        Ok(buffer) => Ok(
            Thumbnail {
                data: buffer,
                format: ImageFormat::Png,
                width: THUMBNAIL_SIZE,
                height: THUMBNAIL_SIZE,
            },
        ),
        Err(m) => Err(FileManagerError::Operation(m)),
    }
}

/// The thumbnail cache is used for a file when its cache file exists and is
/// not stale (an unknown age counts as fresh); otherwise a thumbnail is
/// rendered.
pub open spec fn uses_cache(cache_exists: bool, age_secs: Option<u64>) -> bool {
    cache_exists && match age_secs {
        Some(a) => !is_stale_age(a),
        None => true,
    }
}

/// Whether the thumbnail cache is used for a file (see `uses_cache`).
pub fn use_cached(cache_exists: bool, age_secs: Option<u64>) -> (r: bool)
    ensures
        r == uses_cache(cache_exists, age_secs),
{
    if !cache_exists {
        return false;
    }
    match age_secs {
        Some(a) => a <= 24 * 3600,
        None => true,
    }
}

/// The bytes a cache lookup gives back: what was read from the cache file,
/// where the cache is used and the read succeeded.
pub open spec fn cache_hit(used: bool, read: Option<Seq<u8>>) -> Option<Seq<u8>> {
    if used {
        read
    } else {
        None
    }
}

/// The thumbnail a cache lookup gives: the bytes read from the cache file as
/// a PNG at the thumbnail size (see `cache_hit`), or none.
pub fn cached_thumbnail(used: bool, read: Option<Vec<u8>>) -> (r: Option<Thumbnail>)
    ensures
        match cache_hit(used, match read {
            Some(v) => Some(v@),
            None => None,
        }) {
            Some(bytes) => r matches Some(t) && t.data@ == bytes && t.format == ImageFormat::Png
                && t.width == THUMBNAIL_SIZE && t.height == THUMBNAIL_SIZE,
            None => r is None,
        },
{
    if !used {
        return None;
    }
    match read {
        Some(data) => Some(Thumbnail::cached(data)),
        None => None,
    }
}

/// A thumbnail cached for a path comes back while its cache file is fresh
/// (writing and reading use the one cache file `get_cache_path` names): a
/// file read back at most a day after it was written gives the written
/// bytes, an older one or a missing one gives nothing.
pub proof fn lemma_cache_round_trip(written: Seq<u8>, age: u64)
    ensures
        age <= 24 * 3600 ==> cache_hit(uses_cache(true, Some(age)), Some(written)) == Some(written),
        age > 24 * 3600 ==> cache_hit(uses_cache(true, Some(age)), Some(written)) is None,
        cache_hit(uses_cache(false, Some(age)), Some(written)) is None,
{
}

/// Thumbnail manager for generating and caching thumbnails
#[derive(Debug)]
pub struct ThumbnailManager {
    cache_dir: String,
    max_size: usize,
}

impl ThumbnailManager {
    /// The manager's cache folder.
    pub closed spec fn cache_dir_spec(&self) -> Seq<char> {
        self.cache_dir@
    }

    /// The manager's cache size budget in bytes.
    pub closed spec fn max_size_spec(&self) -> usize {
        self.max_size
    }

    /// A manager caching under the thumbnail folder of `cache` (see
    /// `thumbnail_dir_in`), with a 100 MB budget.
    pub fn with_cache_root(cache: Option<String>) -> (m: Self)
        ensures
            m.cache_dir_spec() == thumbnail_dir_in(match cache {
                Some(c) => Some(c@),
                None => None,
            }),
            m.max_size_spec() == 100 * 1024 * 1024,
    {
        let base = match cache {
            Some(c) => c,
            None => String::from_str("/tmp"),
        };
        let dir = join(join(base.as_str(), "wayland-file-manager").as_str(), "thumbnails");
        ThumbnailManager { cache_dir: dir, max_size: 100 * 1024 * 1024 }
    }

    /// Create a new thumbnail manager caching under the user's cache folder.
    /// (Creating the folder on disk is the caller's part.)
    pub fn new() -> (m: Self)
        ensures
            exists|cache: Option<Seq<char>>| m.cache_dir_spec() == thumbnail_dir_in(cache),
            m.max_size_spec() == 100 * 1024 * 1024,
    {
        ThumbnailManager::with_cache_root(cache_dir())
    }

    /// The cache folder.
    pub fn cache_dir(&self) -> (r: &String)
        ensures
            r@ == self.cache_dir_spec(),
    {
        &self.cache_dir
    }

    /// The cache size budget in bytes.
    pub fn max_size(&self) -> (r: usize)
        ensures
            r == self.max_size_spec(),
    {
        self.max_size
    }

    /// The cache file for a path whose hash is `hash` (see `cache_file_for_hash`).
    pub fn cache_path_for_hash(&self, hash: u64) -> (r: String)
        ensures
            r@ == cache_file_for_hash(self.cache_dir_spec(), hash),
    {
        let hex = format_digits(hash, 16);
        let name = string_from_chars(hex.as_slice()).concat(".png");
        join(self.cache_dir.as_str(), name.as_str())
    }

    /// Get thumbnail cache path for a file: named by the hash of its path
    /// (see `path_cache_hash`), so one path always has the same cache file.
    pub fn get_cache_path(&self, path: &str) -> (r: String)
        ensures
            r@ == cache_file_for_hash(self.cache_dir_spec(), path_cache_hash(path@)),
    {
        let mut hasher = DefaultHasher::new();
        hash_path(path, &mut hasher);
        assert(hasher@ =~= path_hash_writes(path@));
        let hash = hasher.finish();
        self.cache_path_for_hash(hash)
    }

    /// Whether a cached thumbnail of this age (in seconds) is too old to use.
    pub fn is_stale(age_secs: u64) -> (r: bool)
        ensures
            r == is_stale_age(age_secs),
    {
        age_secs > 24 * 3600
    }

    /// The checks before generating a thumbnail for `path`: it must exist and
    /// its extension must name a supported image format (the extension is
    /// empty where the path has none).
    pub fn thumbnail_format(&self, path: &str, exists: bool) -> (r: Result<ImageFormat, FileManagerError>)
        ensures
            ({
                let ext = match path_extension(path@) {
                    Some(x) => x,
                    None => Seq::<char>::empty(),
                };
                &&& !exists ==> (r matches Err(FileManagerError::NotFound(p)) && p@ == path@)
                &&& exists && format_of_lowercase(lowercase(ext)) == ImageFormat::Unknown ==> (r matches Err(
                    FileManagerError::Operation(m),
                ) && m@ == "Unsupported image format: "@ + ext)
                &&& exists && format_of_lowercase(lowercase(ext)) != ImageFormat::Unknown ==> r == Ok::<
                    ImageFormat,
                    FileManagerError,
                >(format_of_lowercase(lowercase(ext)))
            }),
    {
        if !exists {
            return Err(FileManagerError::NotFound(path.to_owned()));
        }
        let ext = match extension(path) {
            Some(x) => x,
            None => String::new(),
        };
        let format = ImageFormat::from_extension(ext.as_str());
        if format == ImageFormat::Unknown {
            return Err(
                FileManagerError::Operation(
                    String::from_str("Unsupported image format: ").concat(ext.as_str()),
                ),
            );
        }
        Ok(format)
    }

    /// Generate a thumbnail from the data of an image file with extension
    /// `ext`: decoded as the format the extension names, scaled with the
    /// Lanczos3 filter to fit the thumbnail size and encoded as PNG (see
    /// `thumbnail_from_encoded`). An extension naming no supported format and
    /// data that does not decode are `Operation` errors; data that decodes
    /// gives a thumbnail with PNG data. Which PNG bytes is not stated: the
    /// scaling computes in floating point.
    pub fn render_thumbnail(&self, data: &[u8], ext: &str) -> (r: Result<Thumbnail, FileManagerError>)
        ensures
            ({
                let format = format_of_lowercase(lowercase(ext@));
                &&& format == ImageFormat::Unknown ==> (r matches Err(FileManagerError::Operation(m))
                    && m@ == "Unsupported image format: "@ + ext@)
                &&& format != ImageFormat::Unknown && decode_error(data@, codec_of(format).unwrap())
                    is Some ==> (r matches Err(FileManagerError::Operation(m)) && Some(m@)
                    == decode_error(data@, codec_of(format).unwrap()))
                &&& format != ImageFormat::Unknown && decode_error(data@, codec_of(format).unwrap())
                    is None ==> (r matches Ok(t) && t.format == ImageFormat::Png && t.width
                    == THUMBNAIL_SIZE && t.height == THUMBNAIL_SIZE && t.data@.len() > 0)
            }),
    {
        let format = ImageFormat::from_extension(ext);
        let codec = match format.codec() {
            Some(c) => c,
            None => {
                return Err(
                    FileManagerError::Operation(
                        String::from_str("Unsupported image format: ").concat(ext),
                    ),
                );
            },
        };
        let img = match decode_image(data, codec) {
            Ok(i) => i,
            Err(m) => {
                return Err(FileManagerError::Operation(m));
            },
        };
        let small = resize_image(&img, THUMBNAIL_SIZE, THUMBNAIL_SIZE, ResizeFilter::Lanczos3);
        thumbnail_from_encoded(encode_image(&small, ImageCodec::Png))
    }
}

impl Default for ThumbnailManager {
    fn default() -> (m: Self)
        ensures
            exists|cache: Option<Seq<char>>| m.cache_dir_spec() == thumbnail_dir_in(cache),
            m.max_size_spec() == 100 * 1024 * 1024,
    {
        ThumbnailManager::new()
    }
}

} // verus!
