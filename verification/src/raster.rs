//! Monochrome encoding of a rendered pixel buffer: every pixel is classified
//! as on or off and eight pixels are packed into each byte, first pixel in the
//! least significant bit.

use vstd::prelude::*;

verus! {

/// One pixel of a rendered image, by channel.
#[derive(Clone, Copy, Debug, PartialEq, Eq, Structural)]
pub struct Pixel {
    pub red: u8,
    pub green: u8,
    pub blue: u8,
    pub alpha: u8,
}

/// The pixel count of a buffer that cannot be packed into whole bytes.
#[derive(Clone, Copy, Debug, PartialEq, Eq, Structural)]
pub struct DimensionMismatchError {
    pub pixel_count: usize,
}

impl Pixel {
    /// A pixel is on when any colour channel is non-zero; alpha is ignored.
    pub open spec fn lit(self) -> bool {
        self.red != 0 || self.green != 0 || self.blue != 0
    }

    /// Classifies the pixel as on or off.
    pub fn is_lit(&self) -> (b: bool)
        ensures
            b == self.lit(),
    {
        self.red != 0 || self.green != 0 || self.blue != 0
    }
}

/// The on/off classification of a pixel buffer, in buffer order.
pub open spec fn on_off(pixels: Seq<Pixel>) -> Seq<bool> {
    Seq::new(pixels.len(), |i: int| pixels[i].lit())
}

/// Bit `k` of a byte, counted from the least significant bit.
pub open spec fn bit_at(byte: u8, k: u8) -> bool {
    (byte >> k) & 1u8 == 1u8
}

/// The boolean sequence that a packed stream stands for: pixel `i` is bit
/// `i % 8` of byte `i / 8`.
pub open spec fn unpacked(bytes: Seq<u8>) -> Seq<bool> {
    Seq::new(8 * bytes.len(), |i: int| bit_at(bytes[i / 8], (i % 8) as u8))
}

proof fn lemma_set_bit(acc: u8, k: u8, i: u8)
    by (bit_vector)
    requires
        k < 8,
        i < 8,
    ensures
        bit_at(acc | (1u8 << k), i) == (i == k || bit_at(acc, i)),
{
}

proof fn lemma_zero_bits(i: u8)
    by (bit_vector)
    requires
        i < 8,
    ensures
        !bit_at(0u8, i),
{
}

proof fn lemma_bits_decide(a: u8, b: u8)
    by (bit_vector)
    requires
        bit_at(a, 0) == bit_at(b, 0),
        bit_at(a, 1) == bit_at(b, 1),
        bit_at(a, 2) == bit_at(b, 2),
        bit_at(a, 3) == bit_at(b, 3),
        bit_at(a, 4) == bit_at(b, 4),
        bit_at(a, 5) == bit_at(b, 5),
        bit_at(a, 6) == bit_at(b, 6),
        bit_at(a, 7) == bit_at(b, 7),
    ensures
        a == b,
{
}

/// Two streams that unpack to the same booleans are the same stream, so the
/// packed form of a buffer is unique.
pub proof fn lemma_unpacked_injective(a: Seq<u8>, b: Seq<u8>)
    requires
        unpacked(a) == unpacked(b),
    ensures
        a == b,
{
    assert(unpacked(a).len() == 8 * a.len());
    assert(unpacked(b).len() == 8 * b.len());
    assert(a.len() == b.len());
    assert forall|j: int| 0 <= j < a.len() implies a[j] == b[j] by {
        assert forall|k: u8| k < 8 implies bit_at(a[j], k) == bit_at(b[j], k) by {
            let i = 8 * j + k;
            assert(i / 8 == j && i % 8 == k);
            assert(unpacked(a)[i] == bit_at(a[j], k));
            assert(unpacked(b)[i] == bit_at(b[j], k));
        }
        lemma_bits_decide(a[j], b[j]);
    }
    assert(a =~= b);
}

/// Packs eight pixels, starting at `start`, into one byte.
fn pack_byte(pixels: &Vec<Pixel>, start: usize) -> (byte: u8)
    requires
        start + 8 <= pixels.len(),
    ensures
        forall|k: u8| k < 8 ==> bit_at(byte, k) == pixels[start + k].lit(),
{
    let mut byte: u8 = 0;
    let mut k: u8 = 0;
    proof {
        assert forall|i: u8| i < 8 implies !bit_at(byte, i) by {
            lemma_zero_bits(i);
        }
    }
    while k < 8
        invariant
            k <= 8,
            start + 8 <= pixels.len(),
            forall|i: u8| i < k ==> bit_at(byte, i) == pixels[start + i].lit(),
            forall|i: u8| k <= i < 8 ==> !bit_at(byte, i),
        decreases 8 - k,
    {
        let ghost before = byte;
        if pixels[start + k as usize].is_lit() {
            byte = byte | (1u8 << k);
            proof {
                assert forall|i: u8| i < 8 implies bit_at(byte, i) == (i == k || bit_at(
                    before,
                    i,
                )) by {
                    lemma_set_bit(before, k, i);
                }
            }
        }
        k = k + 1;
    }
    byte
}

/// Packs a pixel buffer into a monochrome stream, one bit per pixel in buffer
/// order. A buffer whose pixel count is not a multiple of eight is rejected;
/// otherwise unpacking the stream gives back exactly the on/off
/// classification of the buffer.
pub fn gen_raw(pixels: &Vec<Pixel>) -> (raw: Result<Vec<u8>, DimensionMismatchError>)
    ensures
        raw is Err <==> pixels.len() % 8 != 0,
        raw matches Err(e) ==> e.pixel_count == pixels.len(),
        raw matches Ok(bytes) ==> 8 * bytes.len() == pixels.len() && unpacked(bytes@) == on_off(
            pixels@,
        ),
{
    let n: usize = pixels.len();
    if n % 8 != 0 {
        return Err(DimensionMismatchError { pixel_count: n });
    }
    let count: usize = n / 8;
    let mut bytes: Vec<u8> = Vec::new();
    let mut j: usize = 0;
    while j < count
        invariant
            n == pixels.len(),
            n == 8 * count,
            j <= count,
            bytes.len() == j,
            forall|b: int, k: u8|
                0 <= b < j && k < 8 ==> #[trigger] bit_at(bytes[b], k) == pixels[8 * b + k].lit(),
        decreases count - j,
    {
        let byte = pack_byte(pixels, 8 * j);
        bytes.push(byte);
        j = j + 1;
    }
    proof {
        assert forall|i: int| 0 <= i < 8 * bytes.len() implies unpacked(bytes@)[i] == on_off(
            pixels@,
        )[i] by {
            let b = i / 8;
            let k = (i % 8) as u8;
            assert(bit_at(bytes[b], k) == pixels[8 * b + k].lit());
        }
        assert(unpacked(bytes@) =~= on_off(pixels@));
    }
    Ok(bytes)
}

/// Unpacks a monochrome stream into one boolean per pixel.
pub fn unpack_raw(bytes: &Vec<u8>) -> (bits: Vec<bool>)
    requires
        8 * bytes.len() <= usize::MAX,
    ensures
        bits@ == unpacked(bytes@),
{
    let mut bits: Vec<bool> = Vec::new();
    let mut j: usize = 0;
    while j < bytes.len()
        invariant
            j <= bytes.len(),
            8 * bytes.len() <= usize::MAX,
            bits.len() == 8 * j,
            forall|i: int| 0 <= i < bits.len() ==> bits[i] == bit_at(bytes[i / 8], (i % 8) as u8),
        decreases bytes.len() - j,
    {
        let byte: u8 = bytes[j];
        let mut k: u8 = 0;
        while k < 8
            invariant
                k <= 8,
                j < bytes.len(),
                byte == bytes[j as int],
                8 * bytes.len() <= usize::MAX,
                bits.len() == 8 * j + k,
                forall|i: int|
                    0 <= i < bits.len() ==> bits[i] == bit_at(bytes[i / 8], (i % 8) as u8),
            decreases 8 - k,
        {
            bits.push((byte >> k) & 1u8 == 1u8);
            k = k + 1;
        }
        j = j + 1;
    }
    assert(bits@ =~= unpacked(bytes@));
    bits
}

/// Packing then unpacking reconstructs the on/off classification, for every
/// buffer whose pixel count is a multiple of eight, and no other stream does.
pub proof fn lemma_pack_round_trip(pixels: Seq<Pixel>, bytes: Seq<u8>, other: Seq<u8>)
    requires
        pixels.len() % 8 == 0,
        unpacked(bytes) == on_off(pixels),
        unpacked(other) == on_off(pixels),
    ensures
        other == bytes,
        unpacked(bytes).len() == pixels.len(),
        forall|i: int| 0 <= i < pixels.len() ==> unpacked(bytes)[i] == pixels[i].lit(),
{
    lemma_unpacked_injective(other, bytes);
}

} // verus!
