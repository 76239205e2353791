use hive::upscale::{output_size, plan_tiles, OVERLAP, SCALE, TILE};

#[test]
fn one_tile_covers_an_image_smaller_than_the_tile() {
    let tiles = plan_tiles(100, 80, TILE, OVERLAP, SCALE);
    assert_eq!(tiles.len(), 1);
    let only = &tiles[0];
    assert_eq!((only.src_w, only.src_h), (100, 80));
    assert_eq!((only.keep_w, only.keep_h), (400, 320));
    assert_eq!((only.dst_x, only.dst_y), (0, 0));
}

#[test]
fn every_output_pixel_is_written_exactly_once() {
    // The property that matters: overlap happens on the way in, never out.
    // Written twice means seams, written zero times means holes.
    let (width, height) = (600u32, 400u32);
    let tiles = plan_tiles(width, height, TILE, OVERLAP, SCALE);

    let mut written = vec![0u8; (width * SCALE) as usize * (height * SCALE) as usize];
    for tile in &tiles {
        for row in 0..tile.keep_h {
            for column in 0..tile.keep_w {
                let index = (tile.dst_y + row) as usize * (width * SCALE) as usize
                    + (tile.dst_x + column) as usize;
                written[index] += 1;
            }
        }
    }

    assert!(written.iter().all(|count| *count == 1));
}

#[test]
fn tiles_never_read_past_the_edge() {
    let (width, height) = (513u32, 257u32);
    for tile in plan_tiles(width, height, TILE, OVERLAP, SCALE) {
        assert!(tile.src_x + tile.src_w <= width, "{tile:?}");
        assert!(tile.src_y + tile.src_h <= height, "{tile:?}");
    }
}

#[test]
fn inner_tiles_carry_context_on_every_side() {
    let tiles = plan_tiles(800, 800, TILE, OVERLAP, SCALE);
    // The second tile along has neighbours left and right, so it reads
    // TILE + two margins and keeps only the middle.
    let inner = tiles.iter().find(|t| t.dst_x == TILE * SCALE && t.dst_y == 0).unwrap();
    assert_eq!(inner.src_w, TILE + OVERLAP * 2);
    assert_eq!(inner.keep_x, OVERLAP * SCALE);
    assert_eq!(inner.keep_w, TILE * SCALE);
}

#[test]
fn an_enormous_result_is_refused_with_a_reason() {
    // A 12 MP photo would become 192 MP.
    let error = output_size(4000, 3000).unwrap_err();
    assert!(error.contains("16000×12000"), "{error}");

    assert_eq!(output_size(1000, 800).unwrap(), (4000, 3200));
}

#[test]
fn tiles_are_laid_out_row_by_row() {
    let tiles = plan_tiles(600, 300, TILE, OVERLAP, SCALE);
    assert_eq!(tiles.len(), 6);
    let origins: Vec<(u32, u32)> = tiles.iter().map(|t| (t.dst_x, t.dst_y)).collect();
    assert_eq!(
        origins,
        vec![(0, 0), (1024, 0), (2048, 0), (0, 1024), (1024, 1024), (2048, 1024)]
    );
    // The last tile is narrower and reads its left margin only.
    let last = &tiles[5];
    assert_eq!((last.src_x, last.src_w, last.keep_x, last.keep_w), (496, 104, 64, 352));
}

#[test]
fn tiles_are_enlarged_in_order_until_done_or_stopped() {
    let mut run = hive::upscale::TileRun::new(2);
    assert_eq!(run.next(false), hive::upscale::TileStep::Enlarge(0));
    assert_eq!(run.tile_done(), (1, 2));
    assert_eq!(run.next(true), hive::upscale::TileStep::Cancelled);
    assert_eq!(run.next(false), hive::upscale::TileStep::Enlarge(1));
    assert_eq!(run.tile_done(), (2, 2));
    assert_eq!(run.next(true), hive::upscale::TileStep::Finished);
}
