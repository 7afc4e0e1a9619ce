//! The PEX8112 register-list/shared-memory image: grammar, reference
//! image, and the round-trip law for writing an image to flash and
//! extracting it again.

use vstd::prelude::*;

verus! {

/// Offset of the five-byte ASCII `axxon` marker inside the EEPROM.
pub const EEPROM_SIGNATURE_OFFSET: usize = 0x78;

/// Ways a flash image can be malformed.
#[derive(Clone, Copy, PartialEq, Eq, Structural, Debug)]
pub enum ImageError {
    /// The stream ended before the image was complete.
    Truncated,
    /// The first byte is not the `0x5A` magic.
    BadMagic(u8),
    /// The flags byte has bits above `0x03` set.
    BadFlags(u8),
    /// The register byte count is not a multiple of six.
    BadRegCount(u16),
    /// The shared-memory byte count is not a multiple of four.
    BadMemCount(u16),
}

/// The ASCII `axxon` signature bytes.
pub open spec fn spec_signature() -> Seq<u8> {
    seq![0x61u8, 0x78u8, 0x78u8, 0x6fu8, 0x6eu8]
}

/// The image at the front of a flash byte stream: magic `0x5A`, flags at
/// most `0x03`, a little-endian register byte count (multiple of six) and
/// those bytes, then a little-endian shared-memory byte count (multiple
/// of four) and those bytes.
pub open spec fn spec_decode_image(f: Seq<u8>) -> Result<Seq<u8>, ImageError> {
    if f.len() < 4 {
        Err(ImageError::Truncated)
    } else if f[0] != 0x5a {
        Err(ImageError::BadMagic(f[0]))
    } else if f[1] & 0xfc != 0 {
        Err(ImageError::BadFlags(f[1]))
    } else {
        let reg = f[2] + f[3] * 0x100;
        if reg % 6 != 0 {
            Err(ImageError::BadRegCount(reg as u16))
        } else if f.len() < 4 + reg + 2 {
            Err(ImageError::Truncated)
        } else {
            let mem = f[4 + reg] + f[5 + reg] * 0x100;
            if mem % 4 != 0 {
                Err(ImageError::BadMemCount(mem as u16))
            } else if f.len() < 4 + reg + 2 + mem {
                Err(ImageError::Truncated)
            } else {
                Ok(f.subrange(0, 4 + reg + 2 + mem))
            }
        }
    }
}

/// Decode the image at the front of a byte stream, as
/// `spec_decode_image` describes it.
pub fn decode_image(f: &[u8]) -> (r: Result<Vec<u8>, ImageError>)
    ensures
        ({
            match spec_decode_image(f@) {
                Ok(img) => r is Ok && r->Ok_0@ == img,
                Err(e) => r == Err::<Vec<u8>, ImageError>(e),
            }
        }),
{
    if f.len() < 4 {
        return Err(ImageError::Truncated);
    }
    if f[0] != 0x5a {
        return Err(ImageError::BadMagic(f[0]));
    }
    if f[1] & 0xfc != 0 {
        return Err(ImageError::BadFlags(f[1]));
    }
    let reg: usize = (f[2] as usize) + (f[3] as usize) * 0x100;
    if reg % 6 != 0 {
        return Err(ImageError::BadRegCount(reg as u16));
    }
    if f.len() < 4 + reg + 2 {
        return Err(ImageError::Truncated);
    }
    let mem: usize = (f[4 + reg] as usize) + (f[5 + reg] as usize) * 0x100;
    if mem % 4 != 0 {
        return Err(ImageError::BadMemCount(mem as u16));
    }
    if f.len() < 4 + reg + 2 + mem {
        return Err(ImageError::Truncated);
    }
    let total: usize = 4 + reg + 2 + mem;
    let mut img: Vec<u8> = Vec::new();
    let mut i: usize = 0;
    while i < total
        invariant
            i <= total <= f@.len(),
            img@ =~= f@.subrange(0, i as int),
        decreases total - i,
    {
        img.push(f[i]);
        i = i + 1;
    }
    Ok(img)
}

/// A decoded image is complete: it decodes to itself.
pub open spec fn spec_image_wf(img: Seq<u8>) -> bool {
    spec_decode_image(img) == Ok::<Seq<u8>, ImageError>(img)
}

/// The flash contents after writing `img`: the image, `0xFF` padding up
/// to the signature offset, then the `axxon` signature.
pub open spec fn spec_written_flash(img: Seq<u8>) -> Seq<u8>
    recommends
        img.len() <= EEPROM_SIGNATURE_OFFSET,
{
    img + Seq::new((EEPROM_SIGNATURE_OFFSET - img.len()) as nat, |i: int| 0xffu8)
        + spec_signature()
}

/// An image that decodes within a stream decodes identically from any
/// extension of that stream: the decoder never looks past what it
/// consumes.
pub proof fn lemma_image_decode_extend(f: Seq<u8>, q: Seq<u8>)
    requires
        spec_decode_image(f) is Ok,
    ensures
        spec_decode_image(f + q) == spec_decode_image(f),
{
    let e = f + q;
    let reg = f[2] + f[3] * 0x100;
    let mem = f[4 + reg] + f[5 + reg] * 0x100;
    assert(e.subrange(0, 4 + reg + 2 + mem) =~= f.subrange(0, 4 + reg + 2 + mem));
}

/// Round trip: a complete well-formed image of at most `0x78` bytes,
/// written to flash (with its padding and signature) and extracted again,
/// gives the image back, and the signature offset reads `axxon` exactly.
pub proof fn lemma_image_round_trip(img: Seq<u8>)
    requires
        spec_image_wf(img),
        img.len() <= EEPROM_SIGNATURE_OFFSET,
    ensures
        spec_decode_image(spec_written_flash(img)) == Ok::<Seq<u8>, ImageError>(img),
        spec_written_flash(img).subrange(
            EEPROM_SIGNATURE_OFFSET as int,
            EEPROM_SIGNATURE_OFFSET + 5,
        ) == spec_signature(),
{
    let pad = Seq::new((EEPROM_SIGNATURE_OFFSET - img.len()) as nat, |i: int| 0xffu8);
    let w = spec_written_flash(img);
    assert(w =~= img + (pad + spec_signature()));
    lemma_image_decode_extend(img, pad + spec_signature());
    assert(w.subrange(EEPROM_SIGNATURE_OFFSET as int, EEPROM_SIGNATURE_OFFSET + 5)
        =~= spec_signature());
}

/// The reference image: 0x3C register bytes and four shared-memory bytes.
/// Its registers disable the power-management capability, set the default
/// vendor/device pair, raise the retry counts and configure the GPIO
/// block; the codec treats all of it as opaque bytes.
pub open spec fn spec_reference_image() -> Seq<u8> {
    seq![
        0x5Au8, 0x03u8, 0x3Cu8, 0x00u8, 0x10u8, 0x00u8, 0x00u8, 0x00u8,
        0x00u8, 0x00u8, 0x00u8, 0x00u8, 0xB5u8, 0x10u8, 0x12u8, 0x81u8,
        0x64u8, 0x00u8, 0x20u8, 0x00u8, 0x00u8, 0x00u8, 0x00u8, 0x01u8,
        0x04u8, 0x00u8, 0x01u8, 0x00u8, 0x0Cu8, 0x10u8, 0x00u8, 0xFEu8,
        0xFEu8, 0x03u8, 0x20u8, 0x10u8, 0xF0u8, 0x10u8, 0x00u8, 0x00u8,
        0x00u8, 0x10u8, 0x33u8, 0x00u8, 0x00u8, 0x00u8, 0x70u8, 0x00u8,
        0x00u8, 0x00u8, 0x11u8, 0x00u8, 0x48u8, 0x00u8, 0x00u8, 0x00u8,
        0x00u8, 0x00u8, 0x34u8, 0x00u8, 0x50u8, 0x00u8, 0x00u8, 0x00u8,
        0x04u8, 0x00u8, 0x55u8, 0x66u8, 0x77u8, 0x88u8,
    ]
}

pub fn reference_image() -> (r: Vec<u8>)
    ensures
        r@ == spec_reference_image(),
{
    let r: Vec<u8> = vec![
        0x5A, 0x03, 0x3C, 0x00, 0x10, 0x00, 0x00, 0x00,
        0x00, 0x00, 0x00, 0x00, 0xB5, 0x10, 0x12, 0x81,
        0x64, 0x00, 0x20, 0x00, 0x00, 0x00, 0x00, 0x01,
        0x04, 0x00, 0x01, 0x00, 0x0C, 0x10, 0x00, 0xFE,
        0xFE, 0x03, 0x20, 0x10, 0xF0, 0x10, 0x00, 0x00,
        0x00, 0x10, 0x33, 0x00, 0x00, 0x00, 0x70, 0x00,
        0x00, 0x00, 0x11, 0x00, 0x48, 0x00, 0x00, 0x00,
        0x00, 0x00, 0x34, 0x00, 0x50, 0x00, 0x00, 0x00,
        0x04, 0x00, 0x55, 0x66, 0x77, 0x88,
    ];
    proof {
        assert(r@ =~= spec_reference_image());
    }
    r
}

/// The signature bytes as a value.
pub fn signature_bytes() -> (r: Vec<u8>)
    ensures
        r@ == spec_signature(),
{
    let r: Vec<u8> = vec![0x61, 0x78, 0x78, 0x6f, 0x6e];
    proof {
        assert(r@ =~= spec_signature());
    }
    r
}

} // verus!
