use ssaa_blend::ssaa::locate;
use ssaa_blend::{
    blend8, ssaa8, ssaa8_by_count, AlphaConfig, EightPixels, Entry, PixelArray, SsaaCoords,
};

/// An image whose pixels are given one by one; reading past them panics.
struct Image {
    width: usize,
    height: usize,
    pixels: Vec<[u8; 4]>,
}

impl Image {
    fn uniform(width: usize, height: usize, color: [u8; 4]) -> Self {
        Image { width, height, pixels: vec![color; width * height] }
    }

    fn numbered(width: usize, height: usize) -> Self {
        let pixels = (0..width * height)
            .map(|i| [i as u8, (2 * i) as u8, (3 * i) as u8, 255 - i as u8])
            .collect();
        Image { width, height, pixels }
    }
}

impl PixelArray for Image {
    fn get(&self, index: usize) -> [u8; 4] {
        assert!(index < self.pixels.len());
        self.pixels[index]
    }

    fn width(&self) -> usize {
        self.width
    }

    fn height(&self) -> usize {
        self.height
    }

    fn length(&self) -> usize {
        self.pixels.len()
    }

    fn bytes_per_pixel() -> usize {
        4
    }

    fn has_alpha() -> bool {
        true
    }
}

fn bytes(pack: EightPixels) -> [u8; 32] {
    let mut out = [0xEEu8; 32];
    pack.write(&mut out);
    out
}

fn repeat(pixel: [u8; 4]) -> [u8; 32] {
    let mut out = [0u8; 32];
    for p in 0..8 {
        out[4 * p..4 * p + 4].copy_from_slice(&pixel);
    }
    out
}

/// A 2x2 block of samples for each of eight output pixels in a row.
fn two_by_two() -> SsaaCoords<4> {
    let mut coords = SsaaCoords::<4>::new();
    for pixel in 0..8 {
        for sub in 0..4 {
            coords.set(pixel, sub, 2 * pixel + sub % 2, sub / 2);
        }
    }
    coords
}

#[test]
fn uniform_source_two_by_two() {
    let image = Image::uniform(16, 2, [40, 80, 120, 160]);
    assert_eq!(bytes(ssaa8(two_by_two(), &image)), repeat([40, 80, 120, 160]));
}

#[test]
fn one_sample_out_of_bounds_darkens() {
    let image = Image::uniform(16, 2, [40, 80, 120, 160]);
    let mut coords = two_by_two();
    coords.set(0, 3, 16, 1);
    let out = bytes(ssaa8(coords, &image));
    assert_eq!(&out[..4], &[30, 60, 90, 120]);
    assert_eq!(&out[4..], &repeat([40, 80, 120, 160])[4..]);
}

#[test]
fn row_out_of_bounds_is_dropped() {
    let image = Image::uniform(16, 2, [40, 80, 120, 160]);
    let mut coords = two_by_two();
    coords.set(5, 0, 3, 2);
    coords.set(5, 1, 3, usize::MAX);
    let out = bytes(ssaa8(coords, &image));
    assert_eq!(&out[20..24], &[20, 40, 60, 80]);
    assert_eq!(&out[..20], &repeat([40, 80, 120, 160])[..20]);
    assert_eq!(&out[24..], &repeat([40, 80, 120, 160])[24..]);
}

#[test]
fn empty_coords_give_zero_lanes() {
    let image = Image::uniform(16, 2, [40, 80, 120, 160]);
    assert_eq!(bytes(ssaa8(SsaaCoords::<4>::new(), &image)), [0u8; 32]);
    assert_eq!(bytes(ssaa8(SsaaCoords::<1>::new(), &image)), [0u8; 32]);
    assert_eq!(bytes(ssaa8(SsaaCoords::<257>::new(), &image)), [0u8; 32]);
}

#[test]
fn unset_slots_stay_zero() {
    let image = Image::uniform(4, 4, [9, 19, 29, 39]);
    let mut coords = SsaaCoords::<2>::new();
    coords.set(2, 0, 0, 0);
    coords.set(2, 1, 3, 3);
    coords.set(7, 1, 1, 1);
    let out = bytes(ssaa8(coords, &image));
    let mut expected = [0u8; 32];
    expected[8..12].copy_from_slice(&[9, 19, 29, 39]);
    // one sample of two: 9 / 2, 19 / 2, 29 / 2, 39 / 2
    expected[28..32].copy_from_slice(&[4, 9, 14, 19]);
    assert_eq!(out, expected);
}

#[test]
fn constant_image_for_other_sample_counts() {
    let image = Image::uniform(3, 3, [255, 1, 0, 77]);
    let mut one = SsaaCoords::<1>::new();
    let mut nine = SsaaCoords::<9>::new();
    for pixel in 0..8 {
        one.set(pixel, 0, pixel % 3, pixel / 3);
        for sub in 0..9 {
            nine.set(pixel, sub, sub % 3, sub / 3);
        }
    }
    assert_eq!(bytes(ssaa8(one, &image)), repeat([255, 1, 0, 77]));
    assert_eq!(bytes(ssaa8(nine, &image)), repeat([255, 1, 0, 77]));
}

#[test]
fn average_truncates() {
    let image = Image::numbered(4, 2);
    let mut coords = SsaaCoords::<2>::new();
    // pixels 2 and 5: (2, 4, 6, 253) and (5, 10, 15, 250)
    coords.set(0, 0, 2, 0);
    coords.set(0, 1, 1, 1);
    // pixels 7 and 7: (7, 14, 21, 248) twice
    coords.set(1, 0, 3, 1);
    coords.set(1, 1, 3, 1);
    let out = bytes(ssaa8(coords, &image));
    assert_eq!(&out[..4], &[3, 7, 10, 251]);
    assert_eq!(&out[4..8], &[7, 14, 21, 248]);
    assert_eq!(&out[8..], &[0u8; 24]);
}

#[test]
fn samples_are_read_row_major() {
    let image = Image::numbered(5, 3);
    let mut coords = SsaaCoords::<1>::new();
    for pixel in 0..8 {
        coords.set(pixel, 0, pixel % 5, pixel / 5 + 1);
    }
    let out = bytes(ssaa8(coords, &image));
    for pixel in 0..8usize {
        let index = (pixel / 5 + 1) * 5 + pixel % 5;
        let expected = [index as u8, (2 * index) as u8, (3 * index) as u8, 255 - index as u8];
        assert_eq!(&out[4 * pixel..4 * pixel + 4], &expected);
    }
}

#[test]
fn later_set_replaces_earlier() {
    let image = Image::numbered(4, 2);
    let mut coords = SsaaCoords::<1>::new();
    coords.set(3, 0, 0, 0);
    coords.set(3, 0, 2, 1);
    let out = bytes(ssaa8(coords, &image));
    assert_eq!(&out[12..16], &[6, 12, 18, 249]);
    let mut coords = SsaaCoords::<1>::new();
    coords.set(3, 0, 2, 1);
    coords.set(3, 0, usize::MAX, usize::MAX);
    assert_eq!(bytes(ssaa8(coords, &image)), [0u8; 32]);
}

#[test]
fn short_source_is_not_read_past_its_length() {
    // Four columns and two rows are declared, but only six pixels can be read.
    let mut image = Image::numbered(4, 2);
    image.pixels.truncate(6);
    let mut coords = SsaaCoords::<2>::new();
    coords.set(0, 0, 1, 1);
    coords.set(0, 1, 2, 1);
    coords.set(1, 0, 3, 1);
    let out = bytes(ssaa8(coords, &image));
    // pixel 5 is (5, 10, 15, 250); pixels 6 and 7 are past the length
    assert_eq!(&out[..4], &[2, 5, 7, 125]);
    assert_eq!(&out[4..], &[0u8; 28]);
}

#[test]
fn index_beyond_the_word_is_not_read() {
    let image = Image { width: usize::MAX, height: usize::MAX, pixels: vec![[1, 2, 3, 4]; 10] };
    let mut coords = SsaaCoords::<1>::new();
    coords.set(0, 0, 3, 0);
    // 2 * usize::MAX + 1 does not fit in a word
    coords.set(1, 0, 1, 2);
    coords.set(2, 0, usize::MAX - 1, usize::MAX - 1);
    coords.set(3, 0, 9, 0);
    coords.set(4, 0, 10, 0);
    let out = bytes(ssaa8(coords, &image));
    let mut expected = [0u8; 32];
    expected[..4].copy_from_slice(&[1, 2, 3, 4]);
    expected[12..16].copy_from_slice(&[1, 2, 3, 4]);
    assert_eq!(out, expected);
}

#[test]
fn empty_source_gives_zero_lanes() {
    let image = Image { width: 0, height: 0, pixels: Vec::new() };
    let mut coords = SsaaCoords::<4>::new();
    for pixel in 0..8 {
        for sub in 0..4 {
            coords.set(pixel, sub, 0, 0);
        }
    }
    assert_eq!(bytes(ssaa8(coords, &image)), [0u8; 32]);
}

#[test]
fn most_samples_of_brightest_pixels() {
    let image = Image::uniform(1, 1, [255, 255, 255, 255]);
    let mut coords = SsaaCoords::<257>::new();
    for pixel in 0..8 {
        for sub in 0..257 {
            coords.set(pixel, sub, 0, 0);
        }
    }
    let pack = ssaa8(coords, &image);
    assert_eq!(bytes(pack), [255u8; 32]);
    // The lanes hold channel values: blending them stays within bytes.
    let mut dst = [0u8; 32];
    blend8(pack, &mut dst, AlphaConfig::Byte3);
    assert_eq!(dst, [255u8; 32]);
}

#[test]
fn sixteen_by_sixteen_samples() {
    let image = Image::uniform(16, 16, [200, 3, 100, 255]);
    let mut coords = SsaaCoords::<256>::new();
    for pixel in 0..8 {
        for sub in 0..256 {
            coords.set(pixel, sub, sub % 16, sub / 16);
        }
    }
    coords.set(6, 255, 16, 15);
    let out = bytes(ssaa8(coords, &image));
    assert_eq!(&out[..24], &repeat([200, 3, 100, 255])[..24]);
    // 255 samples of 256: 51000 / 256, 765 / 256, 25500 / 256, 65025 / 256
    assert_eq!(&out[24..28], &[199, 2, 99, 254]);
    assert_eq!(&out[28..], &[200, 3, 100, 255]);
}

#[test]
fn sampling_twice_gives_the_same_pack() {
    let image = Image::numbered(16, 2);
    assert_eq!(bytes(ssaa8(two_by_two(), &image)), bytes(ssaa8(two_by_two(), &image)));
}

#[test]
fn numbered_source_two_by_two() {
    let image = Image::numbered(16, 2);
    let out = bytes(ssaa8(two_by_two(), &image));
    for pixel in 0..8usize {
        // samples 2p, 2p + 1, 16 + 2p, 17 + 2p
        let indices = [2 * pixel, 2 * pixel + 1, 16 + 2 * pixel, 17 + 2 * pixel];
        let mut sums = [0u32; 4];
        for index in indices {
            let px = image.pixels[index];
            for c in 0..4 {
                sums[c] += px[c] as u32;
            }
        }
        for c in 0..4 {
            assert_eq!(out[4 * pixel + c] as u32, sums[c] / 4);
        }
    }
    // pixel 0: samples 0, 1, 16, 17 give (34, 68, 102, 986) / 4
    assert_eq!(&out[..4], &[8, 17, 25, 246]);
}

#[test]
fn sampled_pack_blends_onto_a_destination() {
    let image = Image::uniform(16, 2, [200, 100, 50, 128]);
    let mut dst = repeat([0, 0, 0, 255]);
    blend8(ssaa8(two_by_two(), &image), &mut dst, AlphaConfig::Byte3);
    assert_eq!(dst, repeat([100, 50, 25, 191]));
}

#[test]
fn locate_checks_column_row_and_length() {
    assert_eq!(locate(0, 0, 4, 2, 8), Some(0));
    assert_eq!(locate(3, 1, 4, 2, 8), Some(7));
    assert_eq!(locate(4, 1, 4, 2, 8), None);
    assert_eq!(locate(3, 2, 4, 2, 8), None);
    assert_eq!(locate(3, 1, 4, 2, 7), None);
    assert_eq!(locate(2, 1, 4, 2, 7), Some(6));
    assert_eq!(locate(0, 0, 0, 0, 0), None);
    assert_eq!(locate(usize::MAX, usize::MAX, usize::MAX, usize::MAX, usize::MAX), None);
    assert_eq!(locate(1, 2, usize::MAX, usize::MAX, 10), None);
    assert_eq!(locate(5, 0, usize::MAX, usize::MAX, 10), Some(5));
}

#[test]
fn descriptors_are_the_implementations_own() {
    assert_eq!(Image::bytes_per_pixel(), 4);
    assert!(Image::has_alpha());
}

#[test]
fn by_count_keeps_edge_brightness() {
    let image = Image::uniform(16, 2, [40, 80, 120, 160]);
    let mut coords = two_by_two();
    coords.set(0, 3, 16, 1);
    coords.set(1, 0, 0, 2);
    coords.set(1, 1, 0, 2);
    coords.set(1, 2, 0, 2);
    assert_eq!(bytes(ssaa8_by_count(coords, &image)), repeat([40, 80, 120, 160]));
}

#[test]
fn by_count_divides_by_the_samples_read() {
    let image = Image::numbered(4, 2);
    let mut coords = SsaaCoords::<4>::new();
    // pixels 1, 2 and 4: (1, 2, 3, 254), (2, 4, 6, 253), (4, 8, 12, 251)
    coords.set(0, 0, 1, 0);
    coords.set(0, 1, 2, 0);
    coords.set(0, 2, 0, 1);
    coords.set(0, 3, 4, 0);
    // pixel 7 alone: (7, 14, 21, 248)
    coords.set(5, 2, 3, 1);
    let mut expected = [0u8; 32];
    // sums (7, 14, 21, 758) over three samples
    expected[..4].copy_from_slice(&[2, 4, 7, 252]);
    expected[20..24].copy_from_slice(&[7, 14, 21, 248]);
    assert_eq!(bytes(ssaa8_by_count(coords, &image)), expected);
}

#[test]
fn by_count_of_nothing_is_zero() {
    let image = Image::uniform(16, 2, [40, 80, 120, 160]);
    assert_eq!(bytes(ssaa8_by_count(SsaaCoords::<4>::new(), &image)), [0u8; 32]);
    assert_eq!(bytes(ssaa8_by_count(SsaaCoords::<0>::new(), &image)), [0u8; 32]);
}

#[test]
fn by_count_agrees_where_every_sample_is_read() {
    let image = Image::numbered(16, 2);
    assert_eq!(bytes(ssaa8_by_count(two_by_two(), &image)), bytes(ssaa8(two_by_two(), &image)));
}

#[test]
fn by_count_of_most_samples_of_brightest_pixels() {
    let image = Image::uniform(1, 1, [255, 255, 255, 255]);
    let mut coords = SsaaCoords::<257>::new();
    for pixel in 0..8 {
        for sub in 0..257 {
            coords.set(pixel, sub, 0, 0);
        }
    }
    assert_eq!(bytes(ssaa8_by_count(coords, &image)), [255u8; 32]);
}

fn entries<const K: usize>(coords: &SsaaCoords<K>) -> Vec<Entry> {
    let mut all = Vec::new();
    for sub in 0..K {
        for pixel in 0..8 {
            all.push(coords.entry(pixel, sub));
        }
    }
    all
}

#[test]
fn new_table_holds_the_sentinel_in_every_field() {
    let coords = SsaaCoords::<3>::new();
    let unset = Entry { slot: usize::MAX, x: usize::MAX, y: usize::MAX };
    assert_eq!(entries(&coords), vec![unset; 24]);
    assert_eq!(entries(&SsaaCoords::<0>::new()), Vec::new());
}

#[test]
fn set_stores_the_pixel_as_the_slot() {
    let mut coords = SsaaCoords::<3>::new();
    coords.set(5, 1, 10, 20);
    assert_eq!(coords.entry(5, 1), Entry { slot: 5, x: 10, y: 20 });
    coords.set(0, 2, usize::MAX, usize::MAX);
    assert_eq!(coords.entry(0, 2), Entry { slot: 0, x: usize::MAX, y: usize::MAX });
    coords.set(7, 0, usize::MAX, 3);
    assert_eq!(coords.entry(7, 0), Entry { slot: 7, x: usize::MAX, y: 3 });
}

#[test]
fn set_changes_one_entry() {
    let mut coords = SsaaCoords::<3>::new();
    coords.set(2, 0, 1, 1);
    let before = entries(&coords);
    coords.set(5, 1, 10, 20);
    let after = entries(&coords);
    for (index, (old, new)) in before.iter().zip(after.iter()).enumerate() {
        if index == 8 + 5 {
            assert_eq!(*new, Entry { slot: 5, x: 10, y: 20 });
        } else {
            assert_eq!(old, new);
        }
    }
}

#[test]
fn setting_twice_is_setting_once() {
    let mut once = SsaaCoords::<2>::new();
    once.set(4, 1, usize::MAX, 9);
    let mut twice = SsaaCoords::<2>::new();
    twice.set(4, 1, 3, 3);
    twice.set(4, 1, usize::MAX, 9);
    assert_eq!(entries(&once), entries(&twice));
    twice.set(4, 1, usize::MAX, 9);
    assert_eq!(entries(&once), entries(&twice));
}
