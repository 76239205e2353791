use hive::generate::{check_request, prompt_ids, work_region, working_size, EOT, SIZE_STEP};

#[test]
fn a_square_photo_is_fitted_to_the_trained_size() {
    assert_eq!(working_size(1000, 1000), (512, 512));
}

#[test]
fn a_wide_photo_keeps_its_shape() {
    // Squashing to a square is the lazy option and it distorts faces.
    let (w, h) = working_size(2000, 1000);
    assert_eq!(w, 512);
    assert_eq!(h, 256);
}

#[test]
fn every_working_size_survives_the_unets_halving() {
    // Not just the VAE's 8: the UNet halves three more times and rejoins,
    // and an odd latent side fails inside `/up_blocks.2/Concat` with an
    // "invalid parameter" that names nothing useful.
    for (w, h) in [(1913, 1077), (100, 37), (4000, 2251), (640, 640), (560, 503)] {
        let (fitted_w, fitted_h) = working_size(w, h);
        assert_eq!(fitted_w % SIZE_STEP, 0, "{w}x{h} gave width {fitted_w}");
        assert_eq!(fitted_h % SIZE_STEP, 0, "{w}x{h} gave height {fitted_h}");
        assert!(fitted_w >= SIZE_STEP && fitted_h >= SIZE_STEP);
    }
}

#[test]
fn a_tiny_photo_is_enlarged_rather_than_left_alone() {
    let (w, h) = working_size(64, 64);
    assert_eq!((w, h), (512, 512));
}

#[test]
fn working_sizes_round_to_the_nearest_step() {
    // 8 × 1077 / 1913 ≈ 4.5039 rounds to 5 steps of 64.
    assert_eq!(working_size(1913, 1077), (512, 320));
    // 8 × 37 / 100 = 2.96 rounds to 3.
    assert_eq!(working_size(100, 37), (512, 192));
    // A sliver still gets one step.
    assert_eq!(working_size(5000, 10), (512, 64));
    assert_eq!(working_size(0, 0), (64, 64));
}

#[test]
fn the_generative_window_uses_its_own_threshold() {
    let mut mask = vec![0u8; 20 * 20];
    mask[10 * 20 + 10] = 127;
    assert_eq!(work_region(&mask, 20, 20), None);
    mask[10 * 20 + 10] = 128;
    // One marked pixel: pad round(0.75) = 1 on every side.
    assert_eq!(work_region(&mask, 20, 20), Some((9, 9, 3, 3)));
}

#[test]
fn prompts_are_padded_and_cut_to_the_context() {
    let short = prompt_ids(vec![49406, 320, 1929, 49407]);
    assert_eq!(short.len(), 77);
    assert_eq!(&short[..4], &[49406, 320, 1929, 49407]);
    assert!(short[4..].iter().all(|id| *id == EOT));

    let long: Vec<i64> = (0..100).collect();
    let cut = prompt_ids(long);
    assert_eq!(cut.len(), 77);
    assert_eq!(cut[75], 75);
    assert_eq!(cut[76], EOT);
}

#[test]
fn a_fill_request_is_checked_before_any_model_runs() {
    let mut mask = vec![0u8; 4 * 4];
    assert_eq!(
        check_request("  ", (4, 4), &mask, (4, 4)),
        Err("describe what should appear there".to_string())
    );
    assert_eq!(
        check_request("a boat", (4, 4), &mask, (4, 3)),
        Err("the mask does not match the photo".to_string())
    );
    assert_eq!(
        check_request("a boat", (4, 4), &mask, (4, 4)),
        Err("nothing was selected to replace".to_string())
    );
    mask[5] = 128;
    assert_eq!(check_request("a boat", (4, 4), &mask, (4, 4)), Ok(()));
}
