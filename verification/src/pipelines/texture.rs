//! Texture decoding.
//!
//! A texture arrives as encoded image bytes; decoding them to RGBA pixels
//! is delegated to the `image` crate behind one trusted wrapper, and the
//! decoded form is held as plain values.  Uploading the pixels to a GPU
//! texture is an external collaborator's job.

use vstd::prelude::*;

verus! {

#[verifier::external_type_specification]
#[verifier::external_body]
pub struct ExImageError(image::ImageError);

/// What decoding a byte string yields: `None` when the bytes are not a
/// decodable image, else the image's width, height, and its pixels as
/// rows of RGBA quadruples.  The result depends on the bytes alone.
pub uninterp spec fn image_rgba(bytes: Seq<u8>) -> Option<(nat, nat, Seq<u8>)>;

/// Relies on `image::load_from_memory` to decode the bytes, and on
/// `image::DynamicImage::to_rgba8` to lay the decoded image out as
/// width x height RGBA quadruples; both are deterministic in the bytes.
#[verifier::external_body]
fn decode_image(bytes: &[u8]) -> (r: Result<(u32, u32, Vec<u8>), image::ImageError>)
    ensures
        match r {
            Ok(t) => image_rgba(bytes@) == Some((t.0 as nat, t.1 as nat, t.2@)) && t.2@.len() == 4
                * t.0 * t.1,
            Err(_) => image_rgba(bytes@) is None,
        },
{
    match image::load_from_memory(bytes) {
        Ok(img) => {
            let rgba = img.to_rgba8();
            let w = rgba.width();
            let h = rgba.height();
            Ok((w, h, rgba.into_raw()))
        },
        Err(e) => Err(e),
    }
}

/// Why a texture could not be loaded: the bytes did not decode as an
/// image, or they could not be read at all.  A missing texture is
/// reported, never silently replaced.
#[derive(Debug)]
pub enum MatrixTextureLoadError {
    ImageError(image::ImageError),
    IOError(String),
}

/// A decoded texture: its dimensions and its RGBA pixels.
#[derive(Debug)]
pub struct MatrixTexture {
    width: u32,
    height: u32,
    rgba: Vec<u8>,
}

impl MatrixTexture {
    /// The decoded width.
    pub closed spec fn width_spec(self) -> nat {
        self.width as nat
    }

    /// The decoded height.
    pub closed spec fn height_spec(self) -> nat {
        self.height as nat
    }

    /// The decoded pixels.
    pub closed spec fn pixels_spec(self) -> Seq<u8> {
        self.rgba@
    }

    /// The shape invariant: four bytes per pixel.
    pub open spec fn wf(self) -> bool {
        self.pixels_spec().len() == 4 * self.width_spec() * self.height_spec()
    }

    /// Decodes a texture from encoded image bytes.  Succeeds exactly when
    /// the bytes decode, and then carries exactly the decoded dimensions
    /// and pixels.
    pub fn from_bytes(img: &[u8]) -> (r: Result<MatrixTexture, MatrixTextureLoadError>)
        ensures
            r is Ok <==> image_rgba(img@) is Some,
            r is Ok ==> (r->Ok_0).wf() && image_rgba(img@) == Some(
                ((r->Ok_0).width_spec(), (r->Ok_0).height_spec(), (r->Ok_0).pixels_spec()),
            ),
            r is Err ==> (r->Err_0) is ImageError,
    {
        match decode_image(img) {
            Ok((w, h, rgba)) => Ok(MatrixTexture { width: w, height: h, rgba }),
            Err(e) => Err(MatrixTextureLoadError::ImageError(e)),
        }
    }

    /// The texture's width in pixels.
    pub fn width(&self) -> (w: u32)
        ensures
            w as nat == self.width_spec(),
    {
        self.width
    }

    /// The texture's height in pixels.
    pub fn height(&self) -> (h: u32)
        ensures
            h as nat == self.height_spec(),
    {
        self.height
    }

    /// The texture's pixels, as rows of RGBA quadruples.
    pub fn pixels(&self) -> (r: &Vec<u8>)
        ensures
            r@ == self.pixels_spec(),
    {
        &self.rgba
    }
}

} // verus!
