//! Finds CEA-608 closed captions carried in the H.264/H.265 video of MPEG
//! transport stream segments, and reads the HLS playlists that list them.
pub mod caption;
pub mod cea608;
pub mod cea708;
pub mod hls;
pub mod libcaption_compat;
pub mod mpeg_bitstream;
pub mod mpeg_ts;
pub mod optimized_ts_parser;
pub mod pipeline;
pub mod text;
