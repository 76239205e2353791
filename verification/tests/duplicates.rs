use hive::duplicates::{decode_hashes, duplicate_clusters, hash_distance, UnionFind, DUPLICATE_THRESHOLD};
use image_hasher::HasherConfig;

fn gradient(seed: u8) -> image::RgbImage {
    image::RgbImage::from_fn(64, 64, |x, y| {
        image::Rgb([((x * 4) as u8).wrapping_add(seed), ((y * 4) as u8).wrapping_add(seed), 128])
    })
}

fn noise(seed: u32) -> image::RgbImage {
    let mut state = seed;
    image::RgbImage::from_fn(64, 64, |_, _| {
        state = state.wrapping_mul(1_103_515_245).wrapping_add(12_345);
        let v = (state >> 16) as u8;
        image::Rgb([v, v.wrapping_add(64), v.wrapping_add(128)])
    })
}

fn encoded(img: &image::RgbImage) -> String {
    let hasher = HasherConfig::new().to_hasher();
    hasher.hash_image(&image::DynamicImage::ImageRgb8(img.clone())).to_base64()
}

#[test]
fn clusters_near_identical_images_and_separates_distinct_ones() {
    let stored = vec![encoded(&gradient(0)), encoded(&gradient(1)), encoded(&noise(42))];
    let (positions, hashes) = decode_hashes(&stored);
    assert_eq!(positions, vec![0, 1, 2]);

    let groups = duplicate_clusters(&hashes);
    assert_eq!(groups.len(), 1, "expected exactly one duplicate cluster");
    let mut members = groups[0].clone();
    members.sort();
    assert_eq!(members, vec![0, 1]);
}

#[test]
fn hashes_that_do_not_decode_are_left_out() {
    let stored = vec!["not base64!".to_string(), encoded(&gradient(0)), String::new()];
    let (positions, hashes) = decode_hashes(&stored);
    assert_eq!(positions, vec![1]);
    assert_eq!(hashes.len(), 1);
    assert!(!hashes[0].is_empty());
}

#[test]
fn the_distance_counts_differing_bits() {
    assert_eq!(hash_distance(&vec![0b1010_0000, 0xFF], &vec![0b0110_0000, 0x00]), 10);
    assert_eq!(hash_distance(&vec![1, 2, 3], &vec![1, 2, 3]), 0);
    // Only the common length is compared.
    assert_eq!(hash_distance(&vec![0xFF], &vec![0x00, 0xFF]), 8);
    assert_eq!(DUPLICATE_THRESHOLD, 8);
}

#[test]
fn near_duplicates_chain_into_one_group() {
    // 0 and 1 differ by 8 bits, 1 and 2 by 8 more: 0 and 2 are 16 apart, yet
    // all three end up together. A photo with no neighbour is in no group.
    let hashes = vec![vec![0x00, 0x00, 0x00], vec![0xFF, 0x00, 0x00], vec![0xFF, 0xFF, 0x00], vec![0x0F, 0x0F, 0xFF]];
    let groups = duplicate_clusters(&hashes);
    assert_eq!(groups.len(), 1);
    let mut members = groups[0].clone();
    members.sort();
    assert_eq!(members, vec![0, 1, 2]);
}

#[test]
fn union_find_joins_and_finds() {
    let mut uf = UnionFind::new(5);
    assert_eq!(uf.len(), 5);
    uf.union(0, 1);
    uf.union(3, 4);
    uf.union(1, 4);
    let root = uf.find(0);
    assert_eq!(uf.find(3), root);
    assert_eq!(uf.find(4), root);
    assert_ne!(uf.find(2), root);
}
