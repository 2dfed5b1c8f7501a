//! Marker traits for accelerated backends; no kernel stands behind them yet.
use vstd::prelude::*;

verus! {

/// An accelerator on a graphics card.
pub trait GpuVideoAccelerator: Send + Sync {

}

/// The fallback on the processor.
pub trait CpuVideoAccelerator: Send + Sync {

}

pub trait ColorConvertBackend: Send + Sync {

}

pub trait MotionSearchBackend: Send + Sync {

}

pub trait TransformBackend: Send + Sync {

}

pub trait QuantBackend: Send + Sync {

}

} // verus!
