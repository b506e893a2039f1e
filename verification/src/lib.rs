//! `imq` is a Sans-I/O image and video quality library.
//!
//! Every module computes on plain values: borrowed or owned frames, the bytes of
//! an `imqraw` bundle, rules, reports and the state of a terminal browser. What
//! each function returns or changes is stated in its contract and proved.
//!
//! - [`frame`]: validated image buffers and their layouts.
//! - [`imqraw`]: the raw bundle format, with the proof that decoding undoes
//!   encoding; [`capi`] and [`web`] offer it to C callers and to browsers.
//! - [`adapters`]: views of common buffers, bit-packed gray, decoded images.
//! - [`gate`], [`external`], [`diff`], [`metrics`], [`color`]: scores and what
//!   is decided from them.
//! - [`gpu`]: workload limits, exact error sums and fallback decisions.
//! - [`cli`] and [`tui`]: the decisions, reports and layouts of the frontends.
//!
//! A score is a binary64 value. The library carries its bit pattern as a
//! [`metrics::Score`], orders scores by it, and leaves arithmetic on scores to
//! its callers.

pub mod adapters;
pub mod bytes;
pub mod capi;
pub mod cli;
pub mod color;
pub mod diff;
pub mod error;
pub mod external;
pub mod frame;
pub mod gate;
pub mod gpu;
pub mod imqraw;
pub mod metrics;
pub mod strings;
pub mod text;
pub mod tui;
pub mod web;

pub use color::ColorTransformOptions;
pub use diff::{DiffImageMode, RgbaImageData};
pub use error::{Error, Result};
pub use external::{ExternalMetricCommand, ExternalMetricParser, ExternalMetricRun};
pub use frame::{
    ChromaSampling, ColorRange, ColorSpace, Dimensions, FormatSpec, FrameOwned, FrameView,
    FullRange, LimitedRange, OwnedPlane, PixelFormat, PlaneView, Transfer, Unchecked, Validated,
};
pub use gate::{
    evaluate_thresholds, GateEvaluation, GateOperator, MetricThresholdCheck, MetricThresholdRule,
};
pub use imqraw::{
    decode_bundle as decode_imqraw_bundle, encode_bundle as encode_imqraw_bundle, RawImageBundle,
    RawImageRecord, RawImageSelector,
};
pub use metrics::{Direction, MetricOutput};
