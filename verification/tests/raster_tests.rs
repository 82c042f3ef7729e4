use bitvec::order::Lsb0;
use bitvec::vec::BitVec;
use tinker::raster::{gen_raw, unpack_raw, DimensionMismatchError, Pixel};

fn pixel(red: u8, green: u8, blue: u8) -> Pixel {
    Pixel { red, green, blue, alpha: 255 }
}

fn pattern(count: usize) -> Vec<Pixel> {
    let mut pixels = Vec::new();
    for i in 0..count {
        let lit = (i * 7 + i / 3) % 5 < 2;
        pixels.push(if lit { pixel((i % 200) as u8 + 1, 0, 0) } else { pixel(0, 0, 0) });
    }
    pixels
}

#[test]
fn a_pixel_is_on_when_any_colour_channel_is_set() {
    assert!(pixel(1, 0, 0).is_lit());
    assert!(pixel(0, 1, 0).is_lit());
    assert!(pixel(0, 0, 1).is_lit());
    assert!(!pixel(0, 0, 0).is_lit());
    assert!(!Pixel { red: 0, green: 0, blue: 0, alpha: 255 }.is_lit());
}

#[test]
fn first_pixel_goes_to_the_lowest_bit() {
    let mut pixels = vec![pixel(0, 0, 0); 8];
    pixels[0] = pixel(9, 0, 0);
    assert_eq!(gen_raw(&pixels), Ok(vec![0b0000_0001]));
    let mut pixels = vec![pixel(0, 0, 0); 8];
    pixels[7] = pixel(0, 0, 3);
    assert_eq!(gen_raw(&pixels), Ok(vec![0b1000_0000]));
}

#[test]
fn sixteen_pixels_pack_into_two_bytes_in_order() {
    let mut pixels = vec![pixel(0, 0, 0); 16];
    pixels[1] = pixel(0, 5, 0);
    pixels[3] = pixel(1, 1, 1);
    pixels[8] = pixel(0, 0, 200);
    pixels[15] = pixel(255, 255, 255);
    assert_eq!(gen_raw(&pixels), Ok(vec![0b0000_1010, 0b1000_0001]));
}

#[test]
fn a_count_that_is_no_multiple_of_eight_is_rejected() {
    assert_eq!(gen_raw(&pattern(5)), Err(DimensionMismatchError { pixel_count: 5 }));
    assert_eq!(gen_raw(&pattern(9)), Err(DimensionMismatchError { pixel_count: 9 }));
    assert_eq!(gen_raw(&pattern(15)), Err(DimensionMismatchError { pixel_count: 15 }));
}

#[test]
fn an_empty_buffer_packs_to_nothing() {
    assert_eq!(gen_raw(&Vec::new()), Ok(Vec::new()));
}

#[test]
fn packing_then_unpacking_gives_back_the_classification() {
    for count in [8usize, 16, 64, 800] {
        let pixels = pattern(count);
        let expected: Vec<bool> = pixels.iter().map(|p| p.is_lit()).collect();
        let raw = gen_raw(&pixels).unwrap();
        assert_eq!(raw.len() * 8, count);
        assert_eq!(unpack_raw(&raw), expected);
    }
}

#[test]
fn packing_agrees_with_a_least_significant_first_bit_vector() {
    for count in [8usize, 24, 256] {
        let pixels = pattern(count);
        let bits: BitVec<u8, Lsb0> = pixels.iter().map(|p| p.is_lit()).collect();
        assert_eq!(gen_raw(&pixels).unwrap(), bits.into_vec());
    }
}
