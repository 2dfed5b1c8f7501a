//! Transcoding: what a run does, and the frames that it hands on.
use vstd::prelude::*;

use crate::codec::{FrameType, VideoFrame};
use crate::contract::Packet;

verus! {

/// What a run is for.
#[derive(Debug, Clone, Copy, PartialEq, Eq, Structural)]
pub enum PipelineMode {
    Analyze,
    Import,
    Transcode,
}

/// A run, by the paths of its files.
#[derive(Debug, Clone)]
pub struct PipelineRequest {
    pub input: String,
    pub output: Option<String>,
    pub mode: PipelineMode,
}

/// What a run does with its input.
#[derive(Debug, Clone, Copy, PartialEq, Eq, Structural)]
pub enum PipelineAction {
    /// Looks at the source and does nothing else.
    Probe,
    /// Hands every packet to the transcoder.
    Import,
}

impl PipelineRequest {
    /// What the run does with its input.
    pub fn action(&self) -> (a: PipelineAction)
        ensures
            a == if self.mode is Analyze {
                PipelineAction::Probe
            } else {
                PipelineAction::Import
            },
    {
        match self.mode {
            PipelineMode::Analyze => PipelineAction::Probe,
            PipelineMode::Import | PipelineMode::Transcode => PipelineAction::Import,
        }
    }
}

/// Why a run stopped.
#[derive(Debug, Clone, PartialEq, Eq)]
pub struct PipelineError {
    pub message: String,
}

/// Takes the packets of a source.
pub trait NativeTranscoder: Send {
    fn transcode_packet(&mut self, packet: Packet) -> Result<(), PipelineError>;

    fn finalize(&mut self) -> Result<(), PipelineError>;
}

/// Counts packets and drops them.
#[derive(Debug)]
pub struct NoopNativeTranscoder {
    pub packet_count: usize,
}

impl Default for NoopNativeTranscoder {
    fn default() -> (t: Self)
        ensures
            t.packet_count == 0,
    {
        NoopNativeTranscoder { packet_count: 0 }
    }
}

impl NoopNativeTranscoder {
    pub fn packet_count(&self) -> (n: usize)
        ensures
            n == self.packet_count,
    {
        self.packet_count
    }
}

impl NativeTranscoder for NoopNativeTranscoder {
    /// Counts the packet; the count stops at the largest one that there is.
    fn transcode_packet(&mut self, packet: Packet) -> (r: Result<(), PipelineError>)
        ensures
            r is Ok,
            final(self).packet_count == if old(self).packet_count < usize::MAX {
                old(self).packet_count + 1
            } else {
                usize::MAX as int
            },
    {
        self.packet_count = self.packet_count.saturating_add(1);
        Ok(())
    }

    fn finalize(&mut self) -> (r: Result<(), PipelineError>)
        ensures
            r is Ok,
            final(self).packet_count == old(self).packet_count,
    {
        Ok(())
    }
}

/// Interleaved PCM samples.
#[derive(Debug, Clone, PartialEq, Eq)]
pub struct AudioFrame {
    pub sample_rate: u32,
    pub channels: u8,
    pub frame_index: u32,
    pub samples: Vec<i16>,
}

/// A decoded grayscale picture.
pub trait DecodedVideoFrame {
    fn width(&self) -> u32;

    fn height(&self) -> u32;

    fn frame_index(&self) -> u32;

    fn frame_type(&self) -> FrameType;

    /// The samples, row by row.
    fn gray8_pixels(&self) -> &[u8];
}

/// Decoded audio.
pub trait DecodedAudioFrame {
    fn sample_rate(&self) -> u32;

    fn channels(&self) -> u8;

    fn frame_index(&self) -> u32;

    /// The samples, channel by channel for each moment.
    fn samples_i16_interleaved(&self) -> &[i16];
}

impl DecodedVideoFrame for VideoFrame {
    fn width(&self) -> (r: u32)
        ensures
            r == self.width,
    {
        self.width
    }

    fn height(&self) -> (r: u32)
        ensures
            r == self.height,
    {
        self.height
    }

    fn frame_index(&self) -> (r: u32)
        ensures
            r == self.frame_index,
    {
        self.frame_index
    }

    fn frame_type(&self) -> (r: FrameType)
        ensures
            r == self.frame_type,
    {
        self.frame_type
    }

    fn gray8_pixels(&self) -> (r: &[u8])
        ensures
            r@ == self.data@,
    {
        self.data.as_slice()
    }
}

impl DecodedAudioFrame for AudioFrame {
    fn sample_rate(&self) -> (r: u32)
        ensures
            r == self.sample_rate,
    {
        self.sample_rate
    }

    fn channels(&self) -> (r: u8)
        ensures
            r == self.channels,
    {
        self.channels
    }

    fn frame_index(&self) -> (r: u32)
        ensures
            r == self.frame_index,
    {
        self.frame_index
    }

    fn samples_i16_interleaved(&self) -> (r: &[i16])
        ensures
            r@ == self.samples@,
    {
        self.samples.as_slice()
    }
}

/// Decodes native payloads.
pub trait MediaDecoder: Send {
    fn decode_video_packet(&mut self, payload: &[u8]) -> Result<VideoFrame, PipelineError>;

    fn decode_audio_packet(&mut self, payload: &[u8]) -> Result<AudioFrame, PipelineError>;
}

/// Takes decoded frames and writes native packets.
pub trait NativeEncoderSink: Send {
    /// Without a time the sink picks one that keeps growing.
    fn push_video<F: DecodedVideoFrame>(&mut self, frame: &F, pts_ticks: Option<u64>) -> Result<
        (),
        PipelineError,
    >;

    fn push_audio<F: DecodedAudioFrame>(&mut self, frame: &F, pts_ticks: Option<u64>) -> Result<
        (),
        PipelineError,
    >;

    fn finalize_mux(&mut self) -> Result<(), PipelineError>;
}

/// Whether video can be encoded on a graphics card; by default it cannot.
pub trait GpuEncodeDispatch: Send {
    fn gpu_video_encode_available(&self) -> (r: bool)
        default_ensures
            !r,
    {
        false
    }
}

} // verus!
