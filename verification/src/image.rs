//! Decoded images: the leaves of the content graph.

use bevy::render::render_resource::TextureFormat;
use bevy::render::texture::{CompressedImageFormats, Image, ImageType, TextureError};
use vstd::prelude::*;

verus! {

/// How the bytes of a decoded image are grouped into pixels.
#[derive(Clone, Copy, Debug, PartialEq, Eq, Structural)]
pub enum PixelFormat {
    /// Four channels of eight bits, sRGB.
    Rgba8UnormSrgb,
    /// One channel of sixteen bits.
    R16Uint,
    /// Two channels of sixteen bits.
    Rg16Uint,
    /// Four channels of sixteen bits.
    Rgba16Uint,
    /// Four channels of thirty-two bits.
    Rgba32Float,
    /// A format that this library has no name for.
    Other,
}

/// A decoded image: its size, its pixel format and its pixel bytes, row by
/// row. It refers to no other content.
#[derive(Clone, Debug, PartialEq, Eq)]
pub struct LeafImage {
    pub width: u32,
    pub height: u32,
    pub format: PixelFormat,
    pub data: Vec<u8>,
}

/// A decoded image as a mathematical value.
pub struct LeafImageView {
    pub width: u32,
    pub height: u32,
    pub format: PixelFormat,
    pub data: Seq<u8>,
}

impl View for LeafImage {
    type V = LeafImageView;

    open spec fn view(&self) -> LeafImageView {
        LeafImageView {
            width: self.width,
            height: self.height,
            format: self.format,
            data: self.data@,
        }
    }
}

/// bevy's `TextureError`: why the decoder refused a buffer. The library
/// reads nothing from it.
#[verifier::external_type_specification]
#[verifier::external_body]
pub struct ExTextureError(TextureError);

/// What bevy's `Image::from_buffer` makes of `bytes` when they are taken
/// to be a file with the given extension, every compressed format allowed
/// and colours in sRGB: the image, or `None` where it refuses them.
pub uninterp spec fn decoded_image(bytes: Seq<u8>, extension: Seq<char>) -> Option<LeafImageView>;

/// Whether `outcome` is what decoding `bytes` gives. Size and format are
/// those of `decoded_image`. So are the pixel bytes of an eight-bit image;
/// wider channels are stored in the byte order of the machine, and nothing
/// is said of them.
pub open spec fn decodes_to(
    bytes: Seq<u8>,
    extension: Seq<char>,
    outcome: Option<LeafImageView>,
) -> bool {
    match outcome {
        Some(image) => {
            &&& decoded_image(bytes, extension) matches Some(d)
            &&& d.width == image.width
            &&& d.height == image.height
            &&& d.format == image.format
            &&& image.format == PixelFormat::Rgba8UnormSrgb ==> d.data == image.data
        },
        None => decoded_image(bytes, extension) is None,
    }
}

/// Calls bevy's `Image::from_buffer` on `bytes`, with the format chosen by
/// `extension`, every compressed format allowed and sRGB colours, and
/// copies size, format and pixel bytes out of the image it returns.
///
/// Trusted: that the call is a function of the buffer and the extension,
/// as far as size, format and the pixel bytes of an eight-bit image go.
#[verifier::external_body]
fn decode_buffer(bytes: &[u8], extension: &str) -> (r: Result<LeafImage, TextureError>)
    ensures
        match r {
            Ok(image) => {
                &&& decoded_image(bytes@, extension@) matches Some(d)
                &&& d.width == image.width
                &&& d.height == image.height
                &&& d.format == image.format
                &&& image.format == PixelFormat::Rgba8UnormSrgb ==> d.data == image.data@
            },
            Err(_) => decoded_image(bytes@, extension@) is None,
        },
{
    let kind = ImageType::Extension(extension);
    let image = Image::from_buffer(bytes, kind, CompressedImageFormats::all(), true)?;
    let format = match image.texture_descriptor.format {
        TextureFormat::R16Uint => PixelFormat::R16Uint,
        TextureFormat::Rg16Uint => PixelFormat::Rg16Uint,
        TextureFormat::Rgba16Uint => PixelFormat::Rgba16Uint,
        TextureFormat::Rgba32Float => PixelFormat::Rgba32Float,
        TextureFormat::Rgba8UnormSrgb => PixelFormat::Rgba8UnormSrgb,
        _ => PixelFormat::Other,
    };
    let size = image.texture_descriptor.size;
    Ok(LeafImage { width: size.width, height: size.height, format, data: image.data })
}

/// Decoding is repeatable: two outcomes of decoding the same bytes under
/// the same extension agree on whether there is an image, on its size and
/// on its format, and, for an eight-bit image, on every pixel byte.
pub proof fn lemma_decode_is_repeatable(
    bytes: Seq<u8>,
    extension: Seq<char>,
    first: Option<LeafImageView>,
    second: Option<LeafImageView>,
)
    requires
        decodes_to(bytes, extension, first),
        decodes_to(bytes, extension, second),
    ensures
        first is Some <==> second is Some,
        first is Some ==> {
            let a = first.unwrap();
            let b = second.unwrap();
            &&& a.width == b.width
            &&& a.height == b.height
            &&& a.format == b.format
            &&& a.format == PixelFormat::Rgba8UnormSrgb ==> a.data == b.data
        },
{
}

/// The view of an image that may be missing.
pub open spec fn image_view(image: Option<LeafImage>) -> Option<LeafImageView> {
    match image {
        Some(i) => Some(i@),
        None => None,
    }
}

/// Whether position `dot` of `path` holds the dot that starts the
/// extension: a dot that is not the first character of the file name and
/// that no other dot and no `/` follows.
pub open spec fn is_extension_dot(path: Seq<char>, dot: int) -> bool {
    &&& 0 < dot < path.len()
    &&& path[dot] == '.'
    &&& path[dot - 1] != '/'
    &&& forall|k: int| dot < k < path.len() ==> path[k] != '.' && path[k] != '/'
}

/// The extension of the file that `path` names: what follows the last dot
/// of the file name. A name without a dot, or with its only dot in front,
/// has none.
pub open spec fn extension(path: Seq<char>) -> Option<Seq<char>> {
    if exists|dot: int| is_extension_dot(path, dot) {
        let dot = choose|dot: int| is_extension_dot(path, dot);
        Some(path.subrange(dot + 1, path.len() as int))
    } else {
        None
    }
}

/// There is at most one extension dot in a path.
pub proof fn lemma_extension_dot_unique(path: Seq<char>, a: int, b: int)
    requires
        is_extension_dot(path, a),
        is_extension_dot(path, b),
    ensures
        a == b,
{
    if a < b {
        assert(path[b] != '.');
    } else if b < a {
        assert(path[a] != '.');
    }
}

/// The extension of `path`, computed.
pub fn extension_of(path: &str) -> (r: Option<String>)
    ensures
        match r {
            Some(e) => extension(path@) == Some(e@),
            None => extension(path@) is None,
        },
{
    let n: usize = path.unicode_len();
    let mut i: usize = n;
    while i > 0
        invariant
            i <= n,
            n == path@.len(),
            forall|k: int| i <= k < n ==> path@[k] != '.' && path@[k] != '/',
        decreases i,
    {
        let c = path.get_char(i - 1);
        if c == '/' {
            assert forall|dot: int| !is_extension_dot(path@, dot) by {
                if is_extension_dot(path@, dot) {
                    if dot < i - 1 {
                        assert(path@[i - 1] != '/');
                    }
                }
            }
            return None;
        }
        if c == '.' {
            let at_start = if i == 1 {
                true
            } else {
                path.get_char(i - 2) == '/'
            };
            if at_start {
                assert forall|dot: int| !is_extension_dot(path@, dot) by {
                    if is_extension_dot(path@, dot) {
                        if dot < i - 1 {
                            assert(path@[i - 1] != '.');
                        }
                    }
                }
                return None;
            }
            let tail = path.substring_char(i, n);
            let owned = String::from_str(tail);
            proof {
                let d = (i - 1) as int;
                assert(is_extension_dot(path@, d));
                let chosen = choose|dot: int| is_extension_dot(path@, dot);
                lemma_extension_dot_unique(path@, d, chosen);
            }
            return Some(owned);
        }
        i = i - 1;
    }
    assert forall|dot: int| !is_extension_dot(path@, dot) by {}
    None
}

/// Decodes the bytes of the image file at `path`. The extension of the
/// path chooses the format; a path without one cannot be decoded.
pub fn decode_image(bytes: &Vec<u8>, path: &str) -> (r: Option<LeafImage>)
    ensures
        match extension(path@) {
            Some(e) => decodes_to(bytes@, e, image_view(r)),
            None => r is None,
        },
{
    match extension_of(path) {
        None => None,
        Some(e) => match decode_buffer(bytes.as_slice(), e.as_str()) {
            Ok(image) => Some(image),
            Err(_) => None,
        },
    }
}

} // verus!
