//! The external executables the media pipeline leans on, and the names they
//! are looked up under: first as a bundled sidecar, then on the system
//! `PATH`.

use vstd::prelude::*;

verus! {

/// Supported external executables.
#[derive(Clone, Copy, Debug, PartialEq, Eq, Structural)]
pub enum Binary {
    /// Media-platform extraction and downloading.
    YtDlp,
    /// Muxing of separate video and audio streams.
    Ffmpeg,
}

impl Binary {
    /// The bundled sidecar identifier.
    pub fn name(&self) -> (r: &'static str)
        ensures
            *self == Binary::YtDlp ==> r@ == "yt-dlp"@,
            *self == Binary::Ffmpeg ==> r@ == "ffmpeg"@,
    {
        match self {
            Binary::YtDlp => "yt-dlp",
            Binary::Ffmpeg => "ffmpeg",
        }
    }

    /// The executable name expected on the system `PATH`.
    pub fn system_name(&self) -> (r: &'static str)
        ensures
            *self == Binary::YtDlp ==> r@ == "yt-dlp"@,
            *self == Binary::Ffmpeg ==> r@ == "ffmpeg"@,
    {
        match self {
            Binary::YtDlp => "yt-dlp",
            Binary::Ffmpeg => "ffmpeg",
        }
    }
}

} // verus!
