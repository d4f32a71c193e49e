//! Client settings: defaults, and the optional overrides that replace them.
use vstd::prelude::*;

verus! {

/// Frames per second asked of the camera unless overridden.
pub const DEFAULT_CAMERA_FPS: u32 = 30;

/// JPEG quality used to compress frames unless overridden.
pub const DEFAULT_JPEG_QUALITY: i32 = 25;

/// Samples per audio capture.
pub const AUDIO_FRAME_LENGTH: i32 = 512;

/// Audio captures concatenated into one packet unless overridden.
pub const DEFAULT_AUDIO_FRAME_ACCUMULATOR_LENGTH: usize = 2;

/// A camera format: width and height in pixels.
#[derive(Clone, Copy, Debug, PartialEq, Eq, Structural)]
pub struct CameraFormat {
    pub width: u32,
    pub height: u32,
}

/// Optional replacements for the client's defaults.
#[derive(Clone, Copy, Debug, PartialEq, Eq, Structural)]
pub struct Overrides {
    pub format: Option<CameraFormat>,
    pub camera_fps: Option<u32>,
    pub jpeg_quality: Option<i32>,
    pub audio_frame_accumulator_length: Option<usize>,
}

/// The settings a client runs with.
#[derive(Clone, Copy, Debug, PartialEq, Eq, Structural)]
pub struct ClientSettings {
    pub format: CameraFormat,
    pub camera_fps: u32,
    pub jpeg_quality: i32,
    pub audio_frame_accumulator_length: usize,
}

/// `o` if present, else `d`.
pub open spec fn or_default<T>(o: Option<T>, d: T) -> T {
    match o {
        Some(v) => v,
        None => d,
    }
}

impl Overrides {
    /// The settings: each override where one is given, else the default;
    /// the camera format is the one the device reports unless overridden.
    pub fn resolve(&self, device_format: CameraFormat) -> (r: ClientSettings)
        ensures
            r.format == or_default(self.format, device_format),
            r.camera_fps == or_default(self.camera_fps, DEFAULT_CAMERA_FPS),
            r.jpeg_quality == or_default(self.jpeg_quality, DEFAULT_JPEG_QUALITY),
            r.audio_frame_accumulator_length == or_default(
                self.audio_frame_accumulator_length,
                DEFAULT_AUDIO_FRAME_ACCUMULATOR_LENGTH,
            ),
    {
        ClientSettings {
            format: match self.format {
                Some(f) => f,
                None => device_format,
            },
            camera_fps: match self.camera_fps {
                Some(v) => v,
                None => DEFAULT_CAMERA_FPS,
            },
            jpeg_quality: match self.jpeg_quality {
                Some(v) => v,
                None => DEFAULT_JPEG_QUALITY,
            },
            audio_frame_accumulator_length: match self.audio_frame_accumulator_length {
                Some(v) => v,
                None => DEFAULT_AUDIO_FRAME_ACCUMULATOR_LENGTH,
            },
        }
    }
}

} // verus!
