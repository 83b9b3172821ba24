//! Settings and handles of the application that drives the muxer: its runtime limits, the
//! hardware encoder it hands final transcoding to, and the directories it works in.
use vstd::prelude::*;
use std::sync::atomic::{AtomicU64, Ordering};

verus! {

/// Application wide limits, held in atomics so that they can be adjusted while running through
/// a shared reference.
pub struct Limits {
    pub meta_size: AtomicU64,
}

impl Limits {
    /// The largest project metadata accepted, in bytes, as currently set.
    pub fn meta_size(&self) -> u64 {
        self.meta_size.load(Ordering::Relaxed)
    }
}

impl Default for Limits {
    fn default() -> Self {
        Limits { meta_size: AtomicU64::new(2_000_000) }
    }
}

/// The hardware acceleration used for the final transcoding.
#[derive(Clone, Copy, Debug, PartialEq, Eq)]
pub enum HwAccelFlavor {
    NoAccel,
    NvEnc,
    VdPau,
}

impl HwAccelFlavor {
    pub open spec fn encoder_name(self) -> Seq<char> {
        match self {
            HwAccelFlavor::NoAccel => "libx264"@,
            HwAccelFlavor::VdPau => "h264_vdpau"@,
            HwAccelFlavor::NvEnc => "h264_nvenc"@,
        }
    }

    /// The name of the H.264 encoder that this flavour uses.
    pub fn as_encoder_str(self) -> (r: &'static str)
        ensures
            r@ == self.encoder_name(),
    {
        match self {
            HwAccelFlavor::NoAccel => "libx264",
            HwAccelFlavor::VdPau => "h264_vdpau",
            HwAccelFlavor::NvEnc => "h264_nvenc",
        }
    }
}

/// The directory that collects the files produced, shareable between threads.
#[derive(Clone)]
pub struct SyncSink {
    path: String,
}

impl SyncSink {
    pub closed spec fn view_path(&self) -> Seq<char> {
        self.path@
    }

    /// A sink collecting into the directory `path`.
    pub fn new(path: String) -> (r: SyncSink)
        ensures
            r.view_path() == path@,
    {
        SyncSink { path }
    }

    /// The directory the files are collected in.
    pub fn work_dir(&self) -> (r: &str)
        ensures
            r@ == self.view_path(),
    {
        self.path.as_str()
    }
}

/// A path and its unique identifier.
pub struct UniquePath {
    /// Fully qualified directory for the project.
    pub path: String,
    /// Identifier for that project.
    pub identifier: [u8; 16],
}

} // verus!
