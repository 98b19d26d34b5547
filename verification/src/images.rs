//! Uploaded recipe photos: recognising the format, naming the stored files,
//! making the thumbnail, and the checks made before a stored file is served.

use vstd::prelude::*;
use crate::errors::{api_error, not_found_text, plain_error, ApiError, ApiErrorView, STATUS_INTERNAL, STATUS_NOT_FOUND};
use crate::recipes::ImagePaths;
use crate::text::{after_last_dot, concat, extension_of, lemma_after_last_dot_suffix, str_eq};

verus! {

// ---------------------------------------------------------------------------
// Trusted calls into `image` and `uuid`
// ---------------------------------------------------------------------------

/// The name (`Debug` text) of the format that `image::guess_format`
/// recognises from the leading bytes, if any.
pub uninterp spec fn guessed_format_name(bytes: Seq<u8>) -> Option<Seq<char>>;

/// Calls `image::guess_format`, which matches the leading bytes against a
/// fixed table of magic numbers. Trusted: the result is the named format name
/// of the bytes, given as the variant's `Debug` text (e.g. `Jpeg`, `Png`,
/// `WebP`).
#[verifier::external_body]
fn guess_format_name(bytes: &[u8]) -> (r: Option<String>)
    ensures
        r.deep_view() == guessed_format_name(bytes@),
{
    match image::guess_format(bytes) {
        Ok(format) => Some(format!("{:?}", format)),
        Err(_) => None,
    }
}

/// A character of a hyphenated, lower-case UUID.
pub open spec fn is_uuid_char(c: char) -> bool {
    ('0' <= c && c <= '9') || ('a' <= c && c <= 'f') || c == '-'
}

/// Calls `uuid::Uuid::new_v4` and displays the identifier. The value is
/// random; trusted only for its form, which the crate's `Display` (lower-case
/// hyphenated hex) fixes: 36 characters, each a lower-case hex digit or `-`.
#[verifier::external_body]
fn new_image_id() -> (r: String)
    ensures
        r@.len() == 36,
        forall|i: int| 0 <= i < r@.len() ==> is_uuid_char(#[trigger] r@[i]),
{
    uuid::Uuid::new_v4().to_string()
}

#[verifier::external_type_specification]
#[verifier::external_body]
pub struct ExDynamicImage(image::DynamicImage);

/// Calls `image::load_from_memory`, which guesses the format and decodes the
/// bytes. Nothing is stated of the outcome: which formats decode depends on
/// the decoders registered with the crate, which is process state.
#[verifier::external_body]
fn decode_image(bytes: &[u8]) -> (r: Result<image::DynamicImage, String>) {
    image::load_from_memory(bytes).map_err(|e| e.to_string())
}

/// What `image::DynamicImage::thumbnail` gives for an image and bounds.
pub uninterp spec fn thumbnail_image(img: image::DynamicImage, width: u32, height: u32) -> image::DynamicImage;

/// What `image::DynamicImage::width` gives for an image.
pub uninterp spec fn image_width(img: image::DynamicImage) -> u32;

/// What `image::DynamicImage::height` gives for an image.
pub uninterp spec fn image_height(img: image::DynamicImage) -> u32;

/// Calls `image::DynamicImage::thumbnail`, which scales the image to the
/// largest size that fits within the bounds, keeping its aspect ratio (a
/// function of the image and the bounds alone). Trusted: the result is the
/// named thumbnail of the image, and its width and height fit within the
/// (non-zero) bounds. Nothing is stated of the pixels.
#[verifier::external_body]
fn scale_down(img: &image::DynamicImage, width: u32, height: u32) -> (r: image::DynamicImage)
    requires
        width > 0,
        height > 0,
    ensures
        r == thumbnail_image(*img, width, height),
        image_width(r) <= width,
        image_height(r) <= height,
{
    img.thumbnail(width, height)
}

/// Calls `image::DynamicImage::width`. Trusted: the result is the named
/// width of the image.
#[verifier::external_body]
fn width_of(img: &image::DynamicImage) -> (r: u32)
    ensures
        r == image_width(*img),
{
    img.width()
}

/// Calls `image::DynamicImage::height`. Trusted: the result is the named
/// height of the image.
#[verifier::external_body]
fn height_of(img: &image::DynamicImage) -> (r: u32)
    ensures
        r == image_height(*img),
{
    img.height()
}

// ---------------------------------------------------------------------------
// Naming the stored files
// ---------------------------------------------------------------------------

pub open spec fn jpg() -> Seq<char> {
    seq!['j', 'p', 'g']
}

pub open spec fn png() -> Seq<char> {
    seq!['p', 'n', 'g']
}

pub open spec fn webp() -> Seq<char> {
    seq!['w', 'e', 'b', 'p']
}

/// The file extension kept for a recognised format: only JPEG, PNG and WebP
/// photos are accepted.
pub open spec fn extension_for(format: Seq<char>) -> Option<Seq<char>> {
    if format == seq!['J', 'p', 'e', 'g'] {
        Some(jpg())
    } else if format == seq!['P', 'n', 'g'] {
        Some(png())
    } else if format == seq!['W', 'e', 'b', 'P'] {
        Some(webp())
    } else {
        None
    }
}

/// `"unknown image format (use JPEG, PNG or WebP)"`.
pub open spec fn unknown_format_text() -> Seq<char> {
    seq!['u', 'n', 'k', 'n', 'o', 'w', 'n', ' ', 'i', 'm', 'a', 'g', 'e', ' ', 'f', 'o', 'r', 'm', 'a', 't', ' ', '(', 'u', 's', 'e', ' ', 'J', 'P', 'E', 'G', ',', ' ', 'P', 'N', 'G', ' ', 'o', 'r', ' ', 'W', 'e', 'b', 'P', ')']
}

/// `"unsupported image format: "`.
pub open spec fn unsupported_format_prefix() -> Seq<char> {
    seq!['u', 'n', 's', 'u', 'p', 'p', 'o', 'r', 't', 'e', 'd', ' ', 'i', 'm', 'a', 'g', 'e', ' ', 'f', 'o', 'r', 'm', 'a', 't', ':', ' ']
}

/// The extension for a guessed format, or the internal error for an
/// unrecognised or unsupported one.
pub open spec fn extension_result(format: Option<Seq<char>>) -> Result<Seq<char>, ApiErrorView> {
    match format {
        None => Err(api_error(STATUS_INTERNAL, unknown_format_text())),
        Some(name) => match extension_for(name) {
            Some(ext) => Ok(ext),
            None => Err(api_error(STATUS_INTERNAL, unsupported_format_prefix() + name)),
        },
    }
}

/// The extension under which a photo of the guessed format is stored.
pub fn image_extension(format: Option<String>) -> (r: Result<String, ApiError>)
    ensures
        match (r, extension_result(format.deep_view())) {
            (Ok(e), Ok(ev)) => e@ == ev,
            (Err(e), Err(ev)) => e.deep_view() == ev,
            _ => false,
        },
{
    match format {
        None => {
            let text = "unknown image format (use JPEG, PNG or WebP)".to_owned();
            proof {
                reveal_strlit("unknown image format (use JPEG, PNG or WebP)");
                assert(text@ =~= unknown_format_text());
            }
            Err(ApiError::internal(text))
        },
        Some(name) => {
            proof {
                reveal_strlit("Jpeg");
                reveal_strlit("Png");
                reveal_strlit("WebP");
                reveal_strlit("jpg");
                reveal_strlit("png");
                reveal_strlit("webp");
                assert("Jpeg"@ =~= seq!['J', 'p', 'e', 'g']);
                assert("Png"@ =~= seq!['P', 'n', 'g']);
                assert("WebP"@ =~= seq!['W', 'e', 'b', 'P']);
                assert("jpg"@ =~= jpg());
                assert("png"@ =~= png());
                assert("webp"@ =~= webp());
            }
            if str_eq(name.as_str(), "Jpeg") {
                Ok("jpg".to_owned())
            } else if str_eq(name.as_str(), "Png") {
                Ok("png".to_owned())
            } else if str_eq(name.as_str(), "WebP") {
                Ok("webp".to_owned())
            } else {
                let prefix = "unsupported image format: ";
                proof {
                    reveal_strlit("unsupported image format: ");
                    assert(prefix@ =~= unsupported_format_prefix());
                }
                Err(ApiError::internal(concat(prefix, name.as_str())))
            }
        },
    }
}

/// `"images/"`.
pub open spec fn images_dir() -> Seq<char> {
    seq!['i', 'm', 'a', 'g', 'e', 's', '/']
}

/// `"images/thumbs/"`.
pub open spec fn thumbs_dir() -> Seq<char> {
    seq!['i', 'm', 'a', 'g', 'e', 's', '/', 't', 'h', 'u', 'm', 'b', 's', '/']
}

/// The stored paths of a photo with identifier `id` and extension `ext`: the
/// uploaded bytes under `images/`, the JPEG thumbnail under `images/thumbs/`.
pub open spec fn paths_for(id: Seq<char>, ext: Seq<char>, p: ImagePaths) -> bool {
    &&& p.image@ == images_dir() + id + seq!['.'] + ext
    &&& p.thumb@ == thumbs_dir() + id + seq!['.'] + jpg()
}

// ---------------------------------------------------------------------------
// Serving stored files
// ---------------------------------------------------------------------------

/// Whether a path holds `..`.
pub open spec fn has_dotdot(s: Seq<char>) -> bool {
    exists|i: int| 0 <= i < s.len() - 1 && #[trigger] s[i] == '.' && s[i + 1] == '.'
}

pub open spec fn image_jpeg() -> Seq<char> {
    seq!['i', 'm', 'a', 'g', 'e', '/', 'j', 'p', 'e', 'g']
}

pub open spec fn image_png() -> Seq<char> {
    seq!['i', 'm', 'a', 'g', 'e', '/', 'p', 'n', 'g']
}

pub open spec fn image_webp() -> Seq<char> {
    seq!['i', 'm', 'a', 'g', 'e', '/', 'w', 'e', 'b', 'p']
}

pub open spec fn image_avif() -> Seq<char> {
    seq!['i', 'm', 'a', 'g', 'e', '/', 'a', 'v', 'i', 'f']
}

pub open spec fn octet_stream() -> Seq<char> {
    seq!['a', 'p', 'p', 'l', 'i', 'c', 'a', 't', 'i', 'o', 'n', '/', 'o', 'c', 't', 'e', 't', '-', 's', 't', 'r', 'e', 'a', 'm']
}

/// The content type a stored file is served with, by its extension.
pub open spec fn served_mime(ext: Seq<char>) -> Seq<char> {
    if ext == jpg() || ext == seq!['j', 'p', 'e', 'g'] {
        image_jpeg()
    } else if ext == png() {
        image_png()
    } else if ext == webp() {
        image_webp()
    } else if ext == seq!['a', 'v', 'i', 'f'] {
        image_avif()
    } else {
        octet_stream()
    }
}

/// Whether a requested image path may be served, and with which content
/// type: paths that are empty, absolute or hold `..` are not found.
pub open spec fn serve_check(path: Seq<char>) -> Result<Seq<char>, ApiErrorView> {
    if has_dotdot(path) || (path.len() > 0 && path[0] == '/') || path.len() == 0 {
        Err(plain_error(STATUS_NOT_FOUND, not_found_text()))
    } else {
        Ok(served_mime(after_last_dot(path)))
    }
}

/// Check a requested image path and give the content type to serve it with.
pub fn serve_image_check(path: &str) -> (r: Result<String, ApiError>)
    ensures
        match (r, serve_check(path@)) {
            (Ok(m), Ok(mv)) => m@ == mv,
            (Err(e), Err(ev)) => e.deep_view() == ev,
            _ => false,
        },
{
    let n = path.unicode_len();
    if n == 0 || path.get_char(0) == '/' {
        return Err(ApiError::not_found());
    }
    let mut i: usize = 0;
    while i < n - 1
        invariant
            n == path@.len(),
            n > 0,
            i <= n,
            forall|j: int| 0 <= j < i && j + 1 < n ==> !(#[trigger] path@[j] == '.' && path@[j + 1] == '.'),
        decreases n - i,
    {
        if path.get_char(i) == '.' && path.get_char(i + 1) == '.' {
            return Err(ApiError::not_found());
        }
        i = i + 1;
    }
    proof {
        assert(!has_dotdot(path@));
    }
    let ext = extension_of(path);
    proof {
        reveal_strlit("jpg");
        reveal_strlit("jpeg");
        reveal_strlit("png");
        reveal_strlit("webp");
        reveal_strlit("avif");
        reveal_strlit("image/jpeg");
        reveal_strlit("image/png");
        reveal_strlit("image/webp");
        reveal_strlit("image/avif");
        reveal_strlit("application/octet-stream");
        assert("jpg"@ =~= jpg());
        assert("jpeg"@ =~= seq!['j', 'p', 'e', 'g']);
        assert("png"@ =~= png());
        assert("webp"@ =~= webp());
        assert("avif"@ =~= seq!['a', 'v', 'i', 'f']);
        assert("image/jpeg"@ =~= image_jpeg());
        assert("image/png"@ =~= image_png());
        assert("image/webp"@ =~= image_webp());
        assert("image/avif"@ =~= image_avif());
        assert("application/octet-stream"@ =~= octet_stream());
    }
    let e = ext.as_str();
    let mime = if str_eq(e, "jpg") || str_eq(e, "jpeg") {
        "image/jpeg"
    } else if str_eq(e, "png") {
        "image/png"
    } else if str_eq(e, "webp") {
        "image/webp"
    } else if str_eq(e, "avif") {
        "image/avif"
    } else {
        "application/octet-stream"
    };
    Ok(mime.to_owned())
}

/// A stored path built from dot-free parts around one dot is served with the
/// type of its extension.
proof fn lemma_stored_path_served(dir: Seq<char>, id: Seq<char>, ext: Seq<char>)
    requires
        dir.len() > 0,
        dir[0] != '/',
        forall|j: int| 0 <= j < dir.len() ==> dir[j] != '.',
        forall|j: int| 0 <= j < id.len() ==> id[j] != '.',
        ext.len() > 0,
        forall|j: int| 0 <= j < ext.len() ==> ext[j] != '.',
    ensures
        serve_check(dir + id + seq!['.'] + ext) == Ok::<Seq<char>, ApiErrorView>(served_mime(ext)),
{
    let p = dir + id;
    let s = p + seq!['.'] + ext;
    assert forall|j: int| 0 <= j < p.len() implies p[j] != '.' by {
        if j < dir.len() {
            assert(p[j] == dir[j]);
        } else {
            assert(p[j] == id[j - dir.len()]);
        }
    }
    assert(!has_dotdot(s)) by {
        if has_dotdot(s) {
            let i = choose|i: int| 0 <= i < s.len() - 1 && #[trigger] s[i] == '.' && s[i + 1] == '.';
            if i < p.len() {
                assert(s[i] == p[i]);
            } else {
                assert(i == p.len());
                assert(s[i + 1] == ext[0]);
            }
        }
    }
    assert(s[0] == dir[0]);
    lemma_after_last_dot_suffix(p, ext);
}

/// Plan the storage of an uploaded photo: its format must be recognised and
/// be JPEG, PNG or WebP; the photo is named by a fresh identifier, kept
/// under `images/` with its own extension, its thumbnail under
/// `images/thumbs/` as JPEG. Both stored paths pass the serving check, with
/// the content type of their extension.
pub fn plan_image_storage(bytes: &[u8]) -> (r: Result<ImagePaths, ApiError>)
    ensures
        match extension_result(guessed_format_name(bytes@)) {
            Err(ev) => r matches Err(e) && e.deep_view() == ev,
            Ok(ext) => r matches Ok(p) && exists|id: Seq<char>| #![trigger paths_for(id, ext, p)]
                id.len() == 36 && (forall|i: int| 0 <= i < id.len() ==> is_uuid_char(#[trigger] id[i]))
                && paths_for(id, ext, p),
        },
        r matches Ok(p) ==> serve_check(p.image@) == Ok::<Seq<char>, ApiErrorView>(
            served_mime(extension_result(guessed_format_name(bytes@))->Ok_0)),
        r matches Ok(p) ==> serve_check(p.thumb@) == Ok::<Seq<char>, ApiErrorView>(image_jpeg()),
{
    let ext = image_extension(guess_format_name(bytes))?;
    let id = new_image_id();
    let images = "images/";
    let thumbs = "images/thumbs/";
    let dot_jpg = ".jpg";
    let dot = ".";
    proof {
        reveal_strlit("images/");
        reveal_strlit("images/thumbs/");
        reveal_strlit(".jpg");
        reveal_strlit(".");
        assert(images@ =~= images_dir());
        assert(thumbs@ =~= thumbs_dir());
        assert(dot_jpg@ =~= seq!['.'] + jpg());
        assert(dot@ =~= seq!['.']);
    }
    let image = concat(concat(concat(images, id.as_str()).as_str(), dot).as_str(), ext.as_str());
    let thumb = concat(concat(thumbs, id.as_str()).as_str(), dot_jpg);
    let p = ImagePaths { image, thumb };
    proof {
        assert(p.thumb@ =~= thumbs_dir() + id@ + seq!['.'] + jpg());
        assert(paths_for(id@, ext@, p));
        assert forall|j: int| 0 <= j < id@.len() implies id@[j] != '.' by {
            assert(is_uuid_char(id@[j]));
        }
        let ev = extension_result(guessed_format_name(bytes@))->Ok_0;
        assert(ext@ == ev);
        assert(ev == jpg() || ev == png() || ev == webp());
        assert forall|j: int| 0 <= j < ext@.len() implies ext@[j] != '.' by {}
        assert forall|j: int| 0 <= j < images_dir().len() implies images_dir()[j] != '.' by {}
        assert forall|j: int| 0 <= j < thumbs_dir().len() implies thumbs_dir()[j] != '.' by {}
        lemma_stored_path_served(images_dir(), id@, ext@);
        lemma_stored_path_served(thumbs_dir(), id@, jpg());
        assert(served_mime(jpg()) == image_jpeg());
    }
    Ok(p)
}

/// `"failed to decode image"`.
pub open spec fn decode_failure_text() -> Seq<char> {
    seq!['f', 'a', 'i', 'l', 'e', 'd', ' ', 't', 'o', ' ', 'd', 'e', 'c', 'o', 'd', 'e', ' ', 'i', 'm', 'a', 'g', 'e']
}

/// The largest width of a thumbnail, in pixels.
pub const THUMBNAIL_WIDTH: u32 = 480;

/// A scaled-down image with its dimensions in pixels (those of the image).
pub struct Thumbnail {
    pub image: image::DynamicImage,
    pub width: u32,
    pub height: u32,
}

/// The thumbnail of a decoding's outcome: a decoded image is scaled down to
/// the thumbnail width (the height is not bounded); a failed decoding is an
/// internal error.
pub fn thumbnail_of(decoded: Result<image::DynamicImage, String>) -> (r: Result<Thumbnail, ApiError>)
    ensures
        r is Ok <==> decoded is Ok,
        r matches Ok(t) ==> decoded matches Ok(img) && t.image == thumbnail_image(img, THUMBNAIL_WIDTH, u32::MAX),
        r matches Ok(t) ==> t.width == image_width(t.image) && t.height == image_height(t.image),
        r matches Ok(t) ==> t.width <= THUMBNAIL_WIDTH,
        r matches Err(e) ==> e.deep_view() == api_error(STATUS_INTERNAL, decode_failure_text()),
{
    match decoded {
        Ok(img) => {
            let image = scale_down(&img, THUMBNAIL_WIDTH, u32::MAX);
            let width = width_of(&image);
            let height = height_of(&image);
            Ok(Thumbnail { image, width, height })
        },
        Err(_) => {
            let text = "failed to decode image".to_owned();
            proof {
                reveal_strlit("failed to decode image");
                assert(text@ =~= decode_failure_text());
            }
            Err(ApiError::internal(text))
        },
    }
}

/// Decode an uploaded photo and scale it down to the thumbnail width (the
/// height is not bounded); a photo that does not decode is an internal error.
/// Whether the bytes decode is the `image` crate's decision.
pub fn make_thumbnail(bytes: &[u8]) -> (r: Result<Thumbnail, ApiError>)
    ensures
        r matches Ok(t) ==> exists|img: image::DynamicImage| t.image == thumbnail_image(img, THUMBNAIL_WIDTH, u32::MAX),
        r matches Ok(t) ==> t.width == image_width(t.image) && t.height == image_height(t.image),
        r matches Ok(t) ==> t.width <= THUMBNAIL_WIDTH,
        r matches Err(e) ==> e.deep_view() == api_error(STATUS_INTERNAL, decode_failure_text()),
{
    thumbnail_of(decode_image(bytes))
}

} // verus!
