use vstd::prelude::*;

use image::RgbaImage;

verus! {

/// An RGBA image as plain values: its dimensions and its bytes, four per
/// pixel, row by row.
#[derive(Debug)]
pub struct RgbaPixels {
    pub width: u32,
    pub height: u32,
    pub data: Vec<u8>,
}

/// One uncompressed pixel of a texture stored inside a model file.
#[derive(Copy, Clone, Debug, PartialEq, Eq, Structural)]
pub struct Texel {
    pub r: u8,
    pub g: u8,
    pub b: u8,
    pub a: u8,
}

/// A texture stored inside a model file: either the bytes of an encoded
/// image file, or raw pixels with the texture's dimensions.
#[derive(Debug)]
pub enum EmbeddedTexture {
    Compressed(Vec<u8>),
    Texels { width: u32, height: u32, texels: Vec<Texel> },
}

/// What `image::load_from_memory` followed by `to_rgba8` makes of these
/// bytes: the format is recognised from the bytes and decoded with the
/// formats built in; `None` where that fails.
pub uninterp spec fn decoded_rgba(bytes: Seq<u8>) -> Option<(u32, u32, Seq<u8>)>;

/// An image's plain values.
pub open spec fn pixels_view(p: RgbaPixels) -> (u32, u32, Seq<u8>) {
    (p.width, p.height, p.data@)
}

/// Channel `j` (red, green, blue, alpha) of a texel.
pub open spec fn channel(t: Texel, j: int) -> u8 {
    if j == 0 {
        t.r
    } else if j == 1 {
        t.g
    } else if j == 2 {
        t.b
    } else {
        t.a
    }
}

/// The texels' channels one after another, four bytes per texel.
pub open spec fn rgba_bytes(texels: Seq<Texel>) -> Seq<u8> {
    Seq::new(4 * texels.len(), |i: int| channel(texels[i / 4], i % 4))
}

/// A texel becomes its red, green, blue and alpha bytes in that order, and
/// a list of texels becomes the bytes of each texel one after another.
pub proof fn lemma_rgba_bytes_concat(a: Seq<Texel>, b: Seq<Texel>, t: Texel)
    ensures
        rgba_bytes(seq![t]) == seq![t.r, t.g, t.b, t.a],
        rgba_bytes(a + b) == rgba_bytes(a) + rgba_bytes(b),
        rgba_bytes(Seq::<Texel>::empty()).len() == 0,
{
    assert(rgba_bytes(seq![t]) =~= seq![t.r, t.g, t.b, t.a]);
    assert forall|i: int| 0 <= i < 4 * (a.len() + b.len()) implies #[trigger] rgba_bytes(a + b)[i]
        == (rgba_bytes(a) + rgba_bytes(b))[i] by {
        if i < 4 * a.len() {
            assert((a + b)[i / 4] == a[i / 4]);
        } else {
            assert((i - 4 * a.len()) / 4 == i / 4 - a.len() && (i - 4 * a.len()) % 4 == i % 4);
            assert((a + b)[i / 4] == b[i / 4 - a.len()]);
        }
    }
    assert(rgba_bytes(a + b) =~= rgba_bytes(a) + rgba_bytes(b));
}

/// Whether an embedded texture yields an image.
pub open spec fn yields_image(tex: EmbeddedTexture) -> bool {
    match tex {
        EmbeddedTexture::Compressed(bytes) => decoded_rgba(bytes@) is Some,
        EmbeddedTexture::Texels { width, height, texels } => 4 * width * height <= 4 * texels@.len(),
    }
}

/// The plain values of the image an embedded texture yields.
pub open spec fn embedded_view(tex: EmbeddedTexture) -> (u32, u32, Seq<u8>) {
    match tex {
        EmbeddedTexture::Compressed(bytes) => decoded_rgba(bytes@).unwrap(),
        EmbeddedTexture::Texels { width, height, texels } => (width, height, rgba_bytes(texels@)),
    }
}

/// The images of the first `k` textures that yield one, in order.
pub open spec fn images_of(textures: Seq<EmbeddedTexture>, k: nat) -> Seq<(u32, u32, Seq<u8>)>
    decreases k,
{
    if k == 0 {
        Seq::empty()
    } else {
        let prev = images_of(textures, (k - 1) as nat);
        if yields_image(textures[k - 1]) {
            prev.push(embedded_view(textures[k - 1]))
        } else {
            prev
        }
    }
}

/// The image a texture yields, if any.
pub open spec fn image_option(t: EmbeddedTexture) -> Option<(u32, u32, Seq<u8>)> {
    if yields_image(t) {
        Some(embedded_view(t))
    } else {
        None
    }
}

/// The images kept from a list of embedded textures are exactly the images
/// of the textures that yield one, in list order, one per such texture: no
/// usable texture is skipped and nothing else is added.
pub proof fn lemma_images_are_the_usable_ones(textures: Seq<EmbeddedTexture>, k: nat)
    requires
        k <= textures.len(),
    ensures
        images_of(textures, k) == textures.take(k as int).filter_map(
            |t: EmbeddedTexture| image_option(t),
        ),
    decreases k,
{
    if k > 0 {
        lemma_images_are_the_usable_ones(textures, (k - 1) as nat);
        assert(textures.take(k as int).drop_last() =~= textures.take(k - 1));
        assert(textures.take(k as int).last() == textures[k - 1]);
        if yields_image(textures[k - 1]) {
            assert(images_of(textures, k) =~= textures.take(k as int).filter_map(
                |t: EmbeddedTexture| image_option(t),
            ));
        }
    } else {
        assert(textures.take(0) =~= Seq::<EmbeddedTexture>::empty());
    }
}

/// A list whose only texture is usable gives exactly that texture's image;
/// a list whose only texture is not usable gives none.
pub proof fn lemma_single_texture(t: EmbeddedTexture)
    ensures
        yields_image(t) ==> images_of(seq![t], 1) == seq![embedded_view(t)],
        !yields_image(t) ==> images_of(seq![t], 1).len() == 0,
{
    lemma_images_are_the_usable_ones(seq![t], 1);
    assert(seq![t].take(1) =~= seq![t]);
    reveal_with_fuel(Seq::filter_map, 2);
    assert(seq![t].drop_last() =~= Seq::<EmbeddedTexture>::empty());
}

/// `ImageBuffer::from_raw` for RGBA bytes: it gives an image exactly when
/// the buffer holds at least `4 * width * height` bytes (its check takes
/// the product with `checked_mul`, so a product past `usize` fails too),
/// and the image keeps the given dimensions and buffer.
#[verifier::external_body]
fn rgba_from_raw(width: u32, height: u32, raw: Vec<u8>) -> (r: Option<RgbaPixels>)
    ensures
        r is Some <==> 4 * width * height <= raw@.len(),
        r matches Some(p) ==> pixels_view(p) == (width, height, raw@),
{
    RgbaImage::from_raw(width, height, raw).map(
        |img| RgbaPixels { width: img.width(), height: img.height(), data: img.into_raw() },
    )
}

/// `image::load_from_memory` followed by `DynamicImage::to_rgba8`; its
/// result is named `decoded_rgba`.
#[verifier::external_body]
fn decode_rgba(bytes: &[u8]) -> (r: Option<RgbaPixels>)
    ensures
        r matches Some(p) ==> decoded_rgba(bytes@) == Some(pixels_view(p)),
        r is None ==> decoded_rgba(bytes@) is None,
{
    image::load_from_memory(bytes).ok().map(
        |img| {
            let rgba = img.to_rgba8();
            RgbaPixels { width: rgba.width(), height: rgba.height(), data: rgba.into_raw() }
        },
    )
}

/// The texels' channels as one RGBA byte buffer.
pub fn texels_to_rgba(texels: &Vec<Texel>) -> (raw: Vec<u8>)
    requires
        4 * texels@.len() <= usize::MAX,
    ensures
        raw@ == rgba_bytes(texels@),
{
    let mut raw: Vec<u8> = Vec::new();
    let mut k: usize = 0;
    while k < texels.len()
        invariant
            k <= texels@.len(),
            4 * texels@.len() <= usize::MAX,
            raw@ == rgba_bytes(texels@.take(k as int)),
        decreases texels@.len() - k,
    {
        let p = texels[k];
        raw.push(p.r);
        raw.push(p.g);
        raw.push(p.b);
        raw.push(p.a);
        assert(raw@ =~= rgba_bytes(texels@.take(k + 1))) by {
            assert forall|i: int| 0 <= i < 4 * (k + 1) implies #[trigger] raw@[i] == rgba_bytes(
                texels@.take(k + 1),
            )[i] by {
                assert(texels@.take(k + 1)[i / 4] == texels@[i / 4]);
                if i < 4 * k {
                    assert(texels@.take(k as int)[i / 4] == texels@[i / 4]);
                }
            }
        }
        k = k + 1;
    }
    assert(texels@.take(texels@.len() as int) =~= texels@);
    raw
}

/// The image an embedded texture holds, if it decodes (encoded bytes) or
/// has enough pixels for its dimensions (raw texels).
pub fn embedded_image(tex: &EmbeddedTexture) -> (r: Option<RgbaPixels>)
    requires
        tex matches EmbeddedTexture::Texels { texels, .. } ==> 4 * texels@.len() <= usize::MAX,
    ensures
        r is Some <==> yields_image(*tex),
        r matches Some(p) ==> pixels_view(p) == embedded_view(*tex),
{
    match tex {
        EmbeddedTexture::Compressed(bytes) => decode_rgba(bytes.as_slice()),
        EmbeddedTexture::Texels { width, height, texels } => {
            let raw = texels_to_rgba(texels);
            rgba_from_raw(*width, *height, raw)
        },
    }
}

/// The images of the embedded textures that yield one, in order.
pub fn embedded_images(textures: &Vec<EmbeddedTexture>) -> (r: Vec<RgbaPixels>)
    requires
        forall|k: int|
            0 <= k < textures@.len() ==> (#[trigger] textures@[k] matches EmbeddedTexture::Texels {
                texels,
                ..
            } ==> 4 * texels@.len() <= usize::MAX),
    ensures
        r@.map_values(|p: RgbaPixels| pixels_view(p)) == images_of(textures@, textures@.len()),
{
    let mut images: Vec<RgbaPixels> = Vec::new();
    let mut k: usize = 0;
    while k < textures.len()
        invariant
            k <= textures@.len(),
            forall|j: int|
                0 <= j < textures@.len() ==> (#[trigger] textures@[j] matches EmbeddedTexture::Texels {
                    texels,
                    ..
                } ==> 4 * texels@.len() <= usize::MAX),
            images@.map_values(|p: RgbaPixels| pixels_view(p)) == images_of(textures@, k as nat),
        decreases textures@.len() - k,
    {
        if let Some(img) = embedded_image(&textures[k]) {
            let ghost v = pixels_view(img);
            images.push(img);
            assert(images@.map_values(|p: RgbaPixels| pixels_view(p)) =~= images_of(
                textures@,
                (k + 1) as nat,
            ));
        } else {
            assert(images@.map_values(|p: RgbaPixels| pixels_view(p)) =~= images_of(
                textures@,
                (k + 1) as nat,
            ));
        }
        k = k + 1;
    }
    images
}

} // verus!
