//! Verified core of the DevFlow activity recorder.
pub mod text;
pub mod window;
pub mod clock;
pub mod timeline;
pub mod recorder;
pub mod ingest;
pub mod json;
pub mod provider;
pub mod process;
pub mod http;
pub mod bridge;
pub mod storage;
