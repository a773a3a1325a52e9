//! Pixel-shift burst merging.

pub mod alignment;
pub mod basic_merge;
pub mod blurred_masks;
pub mod cfa_fusion;
pub mod confidences;
pub mod displaced_frames;
pub mod drizzle;
pub mod dropped_samples;
pub mod exact;
pub mod float;
pub mod frame;
pub mod frame_extraction;
pub mod gpu_fusion;
pub mod grid;
pub mod merged_values;
pub mod metadata;
pub mod mosaic_levels;
pub mod mosaic_merge;
pub mod motion_detection;
pub mod noise_model;
pub mod numbered_names;
pub mod order;
pub mod paths;
pub mod pipeline;
pub mod plain_frames;
pub mod progress;
pub mod raw;
pub mod refined_shifts;
pub mod skr_fusion;
pub mod skr_merge;
pub mod steering;
pub mod text;
pub mod trusted_samples;
pub mod weighted_pixels;
