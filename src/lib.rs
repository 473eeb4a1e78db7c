//! Ogg pages and Vorbis header packets, read and written directly over bytes.
pub mod builder;
pub mod bytes;
pub mod crc;
pub mod lacing;
pub mod laws;
pub mod page;
pub mod reader;
pub mod recapture;
pub mod track;
pub mod vorbis;

pub use builder::OggBuilder;
pub use page::{ChecksumGuard, OggPage, OggPageBuf, OggPageCheckError, RawPackets};
pub use recapture::Recapture;
pub use track::{duration_ms, OggTrack, OggTrackBuf, TrackPageIter, TrackPageIterMut};
