//! Verified core of the Hive photo library.

pub mod cutout;
pub mod text;
pub mod upscale;
pub mod models;
pub mod smart_albums;
pub mod duplicates;
pub mod batch;
pub mod paths;
pub mod model_manager;
pub mod ddim;
pub mod session;
pub mod thumbnails;
pub mod indexing;
pub mod media;
pub mod utilities;
pub mod captioning;
pub mod inpaint;
pub mod generate;
pub mod organize;
pub mod geocode;
pub mod preferences;
pub mod chat;
pub mod explorer;
pub mod ai_editor;
pub mod quality;
pub mod db;
pub mod segment;
pub mod best_photo;
pub mod faces;
pub mod backfill;
pub mod scan;
pub mod images;
