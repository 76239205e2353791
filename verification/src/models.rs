//! The records the library hands to the interface.
use vstd::prelude::*;

verus! {

#[derive(Debug, Clone)]
pub struct Folder {
    pub id: String,
    pub path: String,
    pub name: String,
    pub is_watched: bool,
    pub added_at: String,
}

#[derive(Debug, Clone)]
pub struct JobProgress {
    pub id: String,
    pub kind: String,
    pub status: String,
    pub current: i64,
    pub total: i64,
    pub message: Option<String>,
}

#[derive(Debug, Clone)]
pub struct FolderStats {
    pub folder: Folder,
    pub item_count: i64,
    pub cover_media_id: Option<String>,
}

#[derive(Debug, Clone)]
pub struct PersonSummary {
    pub id: String,
    pub name: Option<String>,
    pub face_count: i64,
    pub cover_face_id: String,
}

#[derive(Debug, Clone)]
pub struct LibraryStats {
    pub total_items: i64,
    pub total_bytes: i64,
    pub favorites: i64,
    pub trashed: i64,
    pub image_count: i64,
    pub video_count: i64,
    pub album_count: i64,
    pub place_count: i64,
    pub hidden_count: i64,
    pub archived_count: i64,
    pub folder_count: i64,
}

#[derive(Debug, Clone)]
pub struct Album {
    pub id: String,
    pub name: String,
    pub description: Option<String>,
    pub cover_media_id: Option<String>,
    pub item_count: i64,
    pub created_at: String,
    pub updated_at: String,
}

/// A row in the file explorer: either a directory to descend into, or a media file.
#[derive(Debug, Clone)]
pub struct ExplorerEntry {
    pub name: String,
    pub path: String,
    pub is_directory: bool,
    pub media_count: i64,
    pub indexed_count: i64,
    pub is_watched: bool,
}

/// Outcome of a batch operation. `bytesBefore`/`bytesAfter` are only meaningful
/// for compression and conversion, where the point is the size difference.
#[derive(Debug, Clone)]
pub struct BatchReport {
    pub processed: i64,
    pub skipped: i64,
    pub failed: i64,
    pub bytes_before: i64,
    pub bytes_after: i64,
    pub destination: Option<String>,
    pub first_error: Option<String>,
}

/// One line of the rename preview, so nothing is renamed sight unseen.
#[derive(Debug, Clone)]
pub struct RenamePreview {
    pub media_id: String,
    pub from: String,
    pub to: String,
    /// True when the target name already exists on disk or repeats inside the batch.
    pub conflict: bool,
}

#[derive(Debug, Clone)]
pub struct BackupInfo {
    pub path: String,
    pub bytes: i64,
    pub created_at: String,
    pub item_count: i64,
}

#[derive(Debug, Clone)]
pub struct FolderUsage {
    pub folder_id: String,
    pub name: String,
    pub path: String,
    pub item_count: i64,
    pub bytes: i64,
}

#[derive(Debug, Clone)]
pub struct StorageStats {
    pub total_items: i64,
    pub image_count: i64,
    pub video_count: i64,
    pub original_bytes: i64,
    pub thumbnail_bytes: i64,
    pub database_bytes: i64,
    pub by_folder: Vec<FolderUsage>,
}

/// One slice of the timeline: a year, a month or a day.
#[derive(Debug, Clone)]
pub struct TimelineBucket {
    /// The value `strftime` produced, e.g. "2024" or "2024-06".
    pub key: String,
    pub label: String,
    pub count: i64,
    pub cover_media_id: Option<String>,
    pub start: String,
    pub end: String,
}

/// State of the thumbnail cache after a limit was applied. `limitBytes` of 0
/// means no ceiling is set.
#[derive(Debug, Clone)]
pub struct CacheReport {
    pub used_bytes: i64,
    pub limit_bytes: i64,
    pub freed_bytes: i64,
    pub removed: i64,
}

#[derive(Debug, Clone)]
pub struct ExportReport {
    pub exported: i64,
    pub skipped: i64,
    pub destination: String,
}

/// How far semantic search has got through the library.
#[derive(Debug, Clone)]
pub struct AiStatus {
    pub models_ready: bool,
    pub model_loaded: bool,
    pub embedded_count: i64,
    pub eligible_count: i64,
}

/// Which editor tools have their models in place.
#[derive(Debug, Clone)]
pub struct AiEditorStatus {
    pub upscale_ready: bool,
    pub cutout_ready: bool,
    pub segment_ready: bool,
    pub inpaint_ready: bool,
    pub generate_ready: bool,
    /// "DirectML", or absent when everything runs on the processor.
    pub gpu_backend: Option<String>,
}

/// A result waiting to be saved: what to draw, and how it got there.
#[derive(Debug, Clone)]
pub struct AiPreview {
    /// PNG bytes, scaled down for display.
    pub preview: Vec<u8>,
    /// Full-resolution size, so the editor can say what will be written.
    pub width: u32,
    pub height: u32,
    /// The tools applied so far, oldest first.
    pub steps: Vec<String>,
}

/// The assistant's answer and the photos it was grounded in.
#[derive(Debug, Clone)]
pub struct ChatResponse {
    pub answer: String,
    pub media_ids: Vec<String>,
}

/// One tag of the vocabulary, with how often it is used.
#[derive(Debug, Clone)]
pub struct TagSummary {
    pub tag: String,
    pub count: i64,
    pub cover_media_id: Option<String>,
}

} // verus!
