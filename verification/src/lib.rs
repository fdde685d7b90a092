//! The verified core of a desktop video sniffer.

pub mod aes;
pub mod aes_laws;
pub mod analysis;
pub mod course_laws;
pub mod display;
pub mod downloader;
pub mod downloader_laws;
pub mod ffmpeg;
pub mod hls;
pub mod hls_laws;
pub mod ids;
pub mod intake;
pub mod lists;
pub mod manifest;
pub mod manifest_laws;
pub mod media_laws;
pub mod net;
pub mod outside;
pub mod panel;
pub mod panel_laws;
pub mod plan;
pub mod playlist_laws;
pub mod record;
pub mod record_laws;
pub mod report_laws;
pub mod request_laws;
pub mod resume_laws;
pub mod run;
pub mod sniffer;
pub mod sniffer_laws;
pub mod state;
pub mod step_laws;
pub mod text;
pub mod text_laws;
pub mod window_laws;
