use hive::inpaint::work_region;

fn mask(width: u32, height: u32, marked: &[(u32, u32)]) -> Vec<u8> {
    let mut mask = vec![0u8; (width * height) as usize];
    for &(x, y) in marked {
        mask[(y * width + x) as usize] = 255;
    }
    mask
}

#[test]
fn the_work_region_hugs_the_mask_rather_than_the_photo() {
    // The whole point: a small mark in a large photo must not spend the
    // model's 512 pixels on the rest of the frame.
    let mut square = Vec::new();
    for y in 400..460 {
        for x in 600..660 {
            square.push((x, y));
        }
    }
    let m = mask(1300, 900, &square);

    let (x, y, w, h) = work_region(&m, 1300, 900).unwrap();
    assert!(w < 300 && h < 300, "region {w}×{h} is far too wide");
    // And it must still contain the mark, with room around it.
    assert!(x < 600 && y < 400);
    assert!(x + w > 660 && y + h > 460);
}

#[test]
fn the_work_region_stays_inside_the_photo() {
    // A mark in the corner cannot pad past the edge.
    let m = mask(100, 80, &[(1, 1)]);

    let (x, y, w, h) = work_region(&m, 100, 80).unwrap();
    assert!(x + w <= 100 && y + h <= 80, "region {x},{y} {w}×{h} escapes");
}

#[test]
fn an_empty_mask_has_no_region() {
    assert!(work_region(&vec![0u8; 40 * 40], 40, 40).is_none());
}

#[test]
fn the_padding_is_three_quarters_of_the_longest_side() {
    // A 4×2 mark: pad round(3) = 3 on each side.
    let m = mask(20, 20, &[(8, 8), (11, 8), (8, 9), (11, 9)]);
    assert_eq!(work_region(&m, 20, 20), Some((5, 5, 10, 8)));
    // 127 already counts as marked for the eraser.
    let mut m = vec![0u8; 400];
    m[10 * 20 + 10] = 127;
    assert_eq!(work_region(&m, 20, 20), Some((9, 9, 3, 3)));
}
