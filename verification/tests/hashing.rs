//! Perceptual hashes and groups of them.

use nai_gallery::dup::group_hashes;
use nai_gallery::hash::{dhash, hash_of_grid};
use nai_gallery::scanner::hash_file;

fn pattern(w: u32, h: u32, f: impl Fn(u32, u32) -> u8) -> image::DynamicImage {
    image::DynamicImage::ImageLuma8(image::GrayImage::from_fn(w, h, |x, y| image::Luma([f(x, y)])))
}

fn distance(a: i64, b: i64) -> u32 {
    (a ^ b).count_ones()
}

#[test]
fn dhash_survives_resize_and_reencode() {
    let base = pattern(256, 256, |x, y| ((x * 13 + y * 7) % 256) as u8);
    let hash = dhash(&base);

    // same content at thumbnail size hashes identically or nearly so
    let small = base.resize_exact(128, 128, image::imageops::FilterType::Triangle);
    assert!(distance(hash, dhash(&small)) <= 4);

    // jpeg round-trip (thumbnail cache) stays close
    let mut buf = std::io::Cursor::new(Vec::new());
    base.to_rgb8().write_to(&mut buf, image::ImageFormat::Jpeg).unwrap();
    let data = buf.into_inner();
    let rejpg = image::load_from_memory(&data).unwrap();
    assert!(distance(hash, dhash(&rejpg)) <= 4);
    assert_eq!(hash_file(&data), Some(dhash(&rejpg)));

    // unrelated pattern lands far away
    let other = pattern(256, 256, |x, y| ((x * 5 + y * 27 + 91) % 256) as u8);
    assert!(distance(hash, dhash(&other)) > 12);
}

#[test]
fn bits_record_brighter_than_the_right_neighbour() {
    let falling = pattern(9, 8, |x, _| (200 - 20 * x) as u8);
    assert_eq!(dhash(&falling), -1);
    let rising = pattern(9, 8, |x, _| (20 * x) as u8);
    assert_eq!(dhash(&rising), 0);
    let flat = pattern(9, 8, |_, _| 77);
    assert_eq!(dhash(&flat), 0);
    // only the first pixel of the last row is brighter than the next
    let mut grid = vec![5u8; 72];
    grid[63] = 9;
    assert_eq!(hash_of_grid(&grid), 0b1000_0000);
    // the very first pixel gives the highest bit
    let mut grid = vec![5u8; 72];
    grid[0] = 9;
    assert_eq!(hash_of_grid(&grid), i64::MIN);
}

#[test]
fn a_file_that_is_no_image_has_no_hash() {
    assert_eq!(hash_file(b"not a jpeg"), None);
}

#[test]
fn groups_chain_transitively_and_skip_singletons() {
    // 0b0000 – 0b0001 – 0b0011 chain within distance 1; 0b0011 is
    // distance 2 from 0b0000 but still joins the group transitively.
    // The far-away hash stays out entirely.
    let hashes = [0b0000, 0b0001, 0b0011, 0x7AF0_F0F0_F0F0_F0F0_u64 as i64];
    let groups = group_hashes(&hashes, 1);
    assert_eq!(groups.len(), 1);
    let mut members: Vec<usize> = groups[0].iter().map(|&(i, _)| i).collect();
    members.sort();
    assert_eq!(members, vec![0, 1, 2]);
    // middle member touches both neighbors at distance 1
    let dist_of = |idx: usize| groups[0].iter().find(|&&(i, _)| i == idx).unwrap().1;
    assert_eq!(dist_of(1), 1);
    assert_eq!(dist_of(0), 1);
}

#[test]
fn no_groups_when_nothing_close() {
    let hashes = [0, 0x00FF_FF00_1234_5678_u64 as i64, -1];
    assert!(group_hashes(&hashes, 4).is_empty());
}

#[test]
fn groups_stay_apart_and_tell_the_closest() {
    let far = 0x0FFF_FFFF_0000_0000_u64 as i64;
    let hashes = [0, far, 0b111, far, 0b1];
    let mut groups = group_hashes(&hashes, 3);
    groups.sort();
    assert_eq!(groups, vec![vec![(0, 1), (2, 2), (4, 1)], vec![(1, 0), (3, 0)]]);
    assert!(group_hashes(&[], 64).is_empty());
    assert!(group_hashes(&[5], 64).is_empty());
    assert_eq!(group_hashes(&[0, -1], 64), vec![vec![(0, 64), (1, 64)]]);
    assert!(group_hashes(&[0, -1], 63).is_empty());
}
