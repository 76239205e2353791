//! Where the face thumbnails are kept.
use vstd::prelude::*;
use crate::paths::{join_path, platform_join};

verus! {

/// The directory face crops are saved in: `<app data>/face_crops`.
pub fn crop_dir(app_data_dir: &str) -> (r: String)
    ensures
        r@ == platform_join(app_data_dir@, "face_crops"@),
{
    join_path(app_data_dir, "face_crops")
}

} // verus!
