//! The stateful per-stream encoders. Every codec keeps its own
//! reconstruction: the replay of the updates it has emitted so far. The first
//! frame is always emitted whole; each later frame is diffed against the
//! reconstruction (never the true previous source frame) and the
//! reconstruction is advanced by the emitted update, so encoder and receiver
//! can never drift apart. An optional debug mode replaces the wire output by
//! a snapshot of the delta laid over a neutral-gray canvas, without touching
//! the stored reconstruction.

use crate::codec::{budget_delta, budget_delta_view, threshold_delta, threshold_delta_view,
    ColorMetric};
use crate::color::Color;
use crate::frame::{Frame, FrameData, FrameDataView, FrameView};
use crate::levels::{CompressionLevelArg, CompressionLevelV1, CompressionLevelV2};
use crate::Error;
use vstd::prelude::*;

verus! {

/// How a codec picks the pixels of a delta: gate each pixel by a threshold,
/// or rank all pixels and spend a fixed budget.
#[derive(Debug, Clone, Copy, PartialEq, Eq, Structural)]
pub enum DeltaStrategy {
    Threshold(CompressionLevelV1),
    Budget { k: usize, floor_plus_one: usize, metric: ColorMetric },
}

/// The delta a strategy computes against the stored reconstruction.
#[verifier::opaque]
pub open spec fn strategy_delta(
    s: DeltaStrategy,
    last: FrameView,
    new: FrameView,
) -> FrameDataView {
    match s {
        DeltaStrategy::Threshold(level) => threshold_delta_view(last, new, level),
        DeltaStrategy::Budget { k, floor_plus_one, metric } => budget_delta_view(
            last,
            new,
            k as int,
            floor_plus_one as int,
            metric,
        ),
    }
}

/// The strategy that a codec configuration denotes, if the level fits the
/// algorithm: the threshold codec takes a named preset, the budget codec a
/// numeric budget.
pub open spec fn strategy_for(alg: CompressionAlgConfig, level: CompressionLevelArg) -> Option<
    DeltaStrategy,
> {
    match alg {
        CompressionAlgConfig::V1 => match level {
            CompressionLevelArg::Off => Some(DeltaStrategy::Threshold(CompressionLevelV1::Off)),
            CompressionLevelArg::Low => Some(DeltaStrategy::Threshold(CompressionLevelV1::Low)),
            CompressionLevelArg::Medium => Some(
                DeltaStrategy::Threshold(CompressionLevelV1::Medium),
            ),
            CompressionLevelArg::High => Some(DeltaStrategy::Threshold(CompressionLevelV1::High)),
            CompressionLevelArg::TrashCompactor => Some(
                DeltaStrategy::Threshold(CompressionLevelV1::TrashCompactor),
            ),
            CompressionLevelArg::Number(_) => Option::None,
        },
        CompressionAlgConfig::V2 => match level {
            CompressionLevelArg::Number(n) => Some(
                DeltaStrategy::Budget { k: n, floor_plus_one: 3, metric: ColorMetric::Cielab },
            ),
            _ => Option::None,
        },
    }
}

/// A neutral-gray raster of the given dimensions.
pub open spec fn gray_view(width: int, height: int) -> FrameView {
    FrameView {
        width,
        height,
        data: Seq::new((width * height) as nat, |i: int| Color { r: 128, g: 128, b: 128 }),
    }
}

/// What the debug mode puts on the wire instead of the delta: a full snapshot
/// of the delta applied over a neutral-gray canvas, so the selected pixels
/// are visible to a human.
pub open spec fn debug_output(new: FrameView, d: FrameDataView) -> FrameDataView {
    gray_view(new.width, new.height).apply(d).snapshot()
}

/// The shared encoder engine: the stored reconstruction, the delta strategy,
/// and the debug flag.
pub struct DeltaEngine {
    last_frame: Option<Frame>,
    strategy: DeltaStrategy,
    debug: bool,
}

impl DeltaEngine {
    /// The codec's stored reconstruction, if a first frame was seen.
    pub closed spec fn state(self) -> Option<FrameView> {
        match self.last_frame {
            Some(f) => Some(f@),
            Option::None => Option::None,
        }
    }

    pub closed spec fn strategy_of(self) -> DeltaStrategy {
        self.strategy
    }

    pub closed spec fn debug_of(self) -> bool {
        self.debug
    }

    /// The stored reconstruction, when present, is a well-formed raster small
    /// enough to snapshot.
    pub open spec fn wf(self) -> bool {
        match self.state() {
            Some(f) => f.wf() && f.width <= u16::MAX && f.height <= u16::MAX,
            Option::None => true,
        }
    }

    pub fn new(strategy: DeltaStrategy, debug: bool) -> (r: DeltaEngine)
        ensures
            r.state() is None,
            r.strategy_of() == strategy,
            r.debug_of() == debug,
            r.wf(),
    {
        DeltaEngine { last_frame: Option::None, strategy, debug }
    }

    /// Encodes the next frame. The first call snapshots the frame whole and
    /// stores it; every later call emits the strategy's delta against the
    /// stored reconstruction and advances the reconstruction by that delta —
    /// not by the input frame. In debug mode the wire output is replaced by
    /// the delta over a gray canvas; the reconstruction still advances by the
    /// real delta.
    pub fn compress_frame(&mut self, new_frame: &Frame) -> (r: FrameData)
        requires
            old(self).wf(),
            new_frame@.wf(),
            new_frame@.width <= u16::MAX,
            new_frame@.height <= u16::MAX,
            old(self).state() matches Some(lf) ==> lf.width == new_frame@.width && lf.height
                == new_frame@.height,
        ensures
            final(self).strategy_of() == old(self).strategy_of(),
            final(self).debug_of() == old(self).debug_of(),
            final(self).wf(),
            match old(self).state() {
                Option::None => {
                    &&& r@ == new_frame@.snapshot()
                    &&& final(self).state() == Some(new_frame@)
                },
                Some(lf) => {
                    let d = strategy_delta(old(self).strategy_of(), lf, new_frame@);
                    &&& final(self).state() == Some(lf.apply(d))
                    &&& r@ == if old(self).debug_of() {
                        debug_output(new_frame@, d)
                    } else {
                        d
                    }
                },
            },
    {
        proof {
            reveal(strategy_delta);
        }
        match &self.last_frame {
            Some(lf) => {
                let d = match self.strategy {
                    DeltaStrategy::Threshold(level) => threshold_delta(lf, new_frame, level),
                    DeltaStrategy::Budget { k, floor_plus_one, metric } => budget_delta(
                        lf,
                        new_frame,
                        k,
                        floor_plus_one,
                        metric,
                    ),
                };
                let applied = lf.apply_frame_data(&d);
                let out = if self.debug {
                    proof {
                        new_frame.lemma_len_bound();
                    }
                    let canvas = Frame::debug(new_frame.width(), new_frame.height());
                    proof {
                        assert(canvas@ =~= gray_view(new_frame@.width, new_frame@.height));
                    }
                    let shown = canvas.apply_frame_data(&d);
                    shown.to_full_frame_data()
                } else {
                    d
                };
                self.last_frame = Some(applied);
                out
            },
            Option::None => {
                let snap = new_frame.to_full_frame_data();
                self.last_frame = Some(new_frame.duplicate());
                snap
            },
        }
    }
}

/// The threshold-gated codec: a pixel is retransmitted when its luma or
/// chroma moved past the level's threshold.
pub struct DeltaCompressorV1 {
    engine: DeltaEngine,
}

impl DeltaCompressorV1 {
    pub closed spec fn state(self) -> Option<FrameView> {
        self.engine.state()
    }

    pub closed spec fn level_of(self) -> CompressionLevelV1 {
        match self.engine.strategy {
            DeltaStrategy::Threshold(level) => level,
            _ => CompressionLevelV1::Off,
        }
    }

    pub closed spec fn debug_of(self) -> bool {
        self.engine.debug
    }

    pub closed spec fn wf(self) -> bool {
        self.engine.wf() && self.engine.strategy_of() == DeltaStrategy::Threshold(self.level_of())
    }

    pub fn new(level: CompressionLevelV1, debug: bool) -> (r: DeltaCompressorV1)
        ensures
            r.state() is None,
            r.level_of() == level,
            r.debug_of() == debug,
            r.wf(),
    {
        DeltaCompressorV1 { engine: DeltaEngine::new(DeltaStrategy::Threshold(level), debug) }
    }

    /// Encodes the next frame: a full snapshot on the first call, then the
    /// threshold-gated delta against the stored reconstruction, which
    /// advances by the emitted delta.
    pub fn compress_frame(&mut self, new_frame: &Frame) -> (r: FrameData)
        requires
            old(self).wf(),
            new_frame@.wf(),
            new_frame@.width <= u16::MAX,
            new_frame@.height <= u16::MAX,
            old(self).state() matches Some(lf) ==> lf.width == new_frame@.width && lf.height
                == new_frame@.height,
        ensures
            final(self).level_of() == old(self).level_of(),
            final(self).debug_of() == old(self).debug_of(),
            final(self).wf(),
            match old(self).state() {
                Option::None => {
                    &&& r@ == new_frame@.snapshot()
                    &&& final(self).state() == Some(new_frame@)
                },
                Some(lf) => {
                    let d = threshold_delta_view(lf, new_frame@, old(self).level_of());
                    &&& final(self).state() == Some(lf.apply(d))
                    &&& r@ == if old(self).debug_of() {
                        debug_output(new_frame@, d)
                    } else {
                        d
                    }
                },
            },
    {
        proof {
            reveal(strategy_delta);
        }
        self.engine.compress_frame(new_frame)
    }
}

/// The budget-ranked codec over the luma/chroma space: all pixels are scored
/// by squared distance and the top of the ranking is kept, within budget.
pub struct DeltaCompressorV2 {
    engine: DeltaEngine,
}

impl DeltaCompressorV2 {
    pub closed spec fn state(self) -> Option<FrameView> {
        self.engine.state()
    }

    pub closed spec fn budget_of(self) -> usize {
        match self.engine.strategy {
            DeltaStrategy::Budget { k, .. } => k,
            _ => 0,
        }
    }

    pub closed spec fn debug_of(self) -> bool {
        self.engine.debug
    }

    pub closed spec fn wf(self) -> bool {
        self.engine.wf() && self.engine.strategy_of() == (DeltaStrategy::Budget {
            k: self.budget_of(),
            floor_plus_one: 0,
            metric: ColorMetric::Yuv,
        })
    }

    pub fn new(level: CompressionLevelV2, debug: bool) -> (r: DeltaCompressorV2)
        ensures
            r.state() is None,
            r.budget_of() == level.target_pixels_per_frame,
            r.debug_of() == debug,
            r.wf(),
    {
        DeltaCompressorV2 {
            engine: DeltaEngine::new(
                DeltaStrategy::Budget {
                    k: level.target_pixels_per_frame,
                    floor_plus_one: 0,
                    metric: ColorMetric::Yuv,
                },
                debug,
            ),
        }
    }

    /// Encodes the next frame: a full snapshot on the first call, then the
    /// budget-ranked delta (luma/chroma distance, no noise floor) against the
    /// stored reconstruction, which advances by the emitted delta.
    pub fn compress_frame(&mut self, new_frame: &Frame) -> (r: FrameData)
        requires
            old(self).wf(),
            new_frame@.wf(),
            new_frame@.width <= u16::MAX,
            new_frame@.height <= u16::MAX,
            old(self).state() matches Some(lf) ==> lf.width == new_frame@.width && lf.height
                == new_frame@.height,
        ensures
            final(self).budget_of() == old(self).budget_of(),
            final(self).debug_of() == old(self).debug_of(),
            final(self).wf(),
            match old(self).state() {
                Option::None => {
                    &&& r@ == new_frame@.snapshot()
                    &&& final(self).state() == Some(new_frame@)
                },
                Some(lf) => {
                    let d = budget_delta_view(
                        lf,
                        new_frame@,
                        old(self).budget_of() as int,
                        0,
                        ColorMetric::Yuv,
                    );
                    &&& final(self).state() == Some(lf.apply(d))
                    &&& r@ == if old(self).debug_of() {
                        debug_output(new_frame@, d)
                    } else {
                        d
                    }
                },
            },
    {
        proof {
            reveal(strategy_delta);
        }
        self.engine.compress_frame(new_frame)
    }
}

/// The threshold-gated codec behind the level-argument interface.
pub struct VideoCompressorV1 {
    inner: DeltaCompressorV1,
}

impl VideoCompressorV1 {
    pub closed spec fn state(self) -> Option<FrameView> {
        self.inner.state()
    }

    pub closed spec fn level_of(self) -> CompressionLevelV1 {
        self.inner.level_of()
    }

    pub closed spec fn debug_of(self) -> bool {
        self.inner.debug_of()
    }

    pub closed spec fn wf(self) -> bool {
        self.inner.wf()
    }

    /// Builds the codec from a level argument; only named presets carry
    /// thresholds, a numeric budget is rejected.
    pub fn new(level: CompressionLevelArg, debug: bool) -> (r: Result<VideoCompressorV1, Error>)
        ensures
            match r {
                Ok(c) => {
                    &&& c.state() is None
                    &&& c.debug_of() == debug
                    &&& c.wf()
                    &&& Some(DeltaStrategy::Threshold(c.level_of())) == strategy_for(
                        CompressionAlgConfig::V1,
                        level,
                    )
                },
                Err(e) => strategy_for(CompressionAlgConfig::V1, level) is None && e
                    is InvalidArgs,
            },
    {
        match CompressionLevelV1::try_from_arg(level) {
            Ok(l) => Ok(VideoCompressorV1 { inner: DeltaCompressorV1::new(l, debug) }),
            Err(e) => Err(e),
        }
    }

    /// Encodes the next frame, as the threshold-gated codec does.
    pub fn compress_frame(&mut self, new_frame: &Frame) -> (r: FrameData)
        requires
            old(self).wf(),
            new_frame@.wf(),
            new_frame@.width <= u16::MAX,
            new_frame@.height <= u16::MAX,
            old(self).state() matches Some(lf) ==> lf.width == new_frame@.width && lf.height
                == new_frame@.height,
        ensures
            final(self).level_of() == old(self).level_of(),
            final(self).debug_of() == old(self).debug_of(),
            final(self).wf(),
            match old(self).state() {
                Option::None => {
                    &&& r@ == new_frame@.snapshot()
                    &&& final(self).state() == Some(new_frame@)
                },
                Some(lf) => {
                    let d = threshold_delta_view(lf, new_frame@, old(self).level_of());
                    &&& final(self).state() == Some(lf.apply(d))
                    &&& r@ == if old(self).debug_of() {
                        debug_output(new_frame@, d)
                    } else {
                        d
                    }
                },
            },
    {
        proof {
            reveal(strategy_delta);
        }
        self.inner.compress_frame(new_frame)
    }
}

/// The budget-ranked codec behind the level-argument interface: CIELAB-like
/// distance with a small noise floor, so imperceptible dithering never
/// spends budget.
pub struct VideoCompressorV2 {
    inner: DeltaEngine,
}

impl VideoCompressorV2 {
    pub closed spec fn state(self) -> Option<FrameView> {
        self.inner.state()
    }

    pub closed spec fn budget_of(self) -> usize {
        match self.inner.strategy_of() {
            DeltaStrategy::Budget { k, .. } => k,
            _ => 0,
        }
    }

    pub closed spec fn debug_of(self) -> bool {
        self.inner.debug_of()
    }

    pub closed spec fn wf(self) -> bool {
        self.inner.wf() && self.inner.strategy_of() == (DeltaStrategy::Budget {
            k: self.budget_of(),
            floor_plus_one: 3,
            metric: ColorMetric::Cielab,
        })
    }

    /// Builds the codec from a level argument; only a numeric budget fits,
    /// named presets are rejected.
    pub fn new(level: CompressionLevelArg, debug: bool) -> (r: Result<VideoCompressorV2, Error>)
        ensures
            match r {
                Ok(c) => {
                    &&& c.state() is None
                    &&& c.debug_of() == debug
                    &&& c.wf()
                    &&& Some(
                        DeltaStrategy::Budget {
                            k: c.budget_of(),
                            floor_plus_one: 3,
                            metric: ColorMetric::Cielab,
                        },
                    ) == strategy_for(CompressionAlgConfig::V2, level)
                },
                Err(e) => strategy_for(CompressionAlgConfig::V2, level) is None && e
                    is InvalidArgs,
            },
    {
        match CompressionLevelV2::try_from_arg(level) {
            Ok(l) => Ok(
                VideoCompressorV2 {
                    inner: DeltaEngine::new(
                        DeltaStrategy::Budget {
                            k: l.target_pixels_per_frame,
                            floor_plus_one: 3,
                            metric: ColorMetric::Cielab,
                        },
                        debug,
                    ),
                },
            ),
            Err(e) => Err(e),
        }
    }

    /// Encodes the next frame, as the budget-ranked codec does: a full
    /// snapshot first, then CIELAB-ranked deltas; a squared distance of 2 or
    /// less is noise and never spends budget.
    pub fn compress_frame(&mut self, new_frame: &Frame) -> (r: FrameData)
        requires
            old(self).wf(),
            new_frame@.wf(),
            new_frame@.width <= u16::MAX,
            new_frame@.height <= u16::MAX,
            old(self).state() matches Some(lf) ==> lf.width == new_frame@.width && lf.height
                == new_frame@.height,
        ensures
            final(self).budget_of() == old(self).budget_of(),
            final(self).debug_of() == old(self).debug_of(),
            final(self).wf(),
            match old(self).state() {
                Option::None => {
                    &&& r@ == new_frame@.snapshot()
                    &&& final(self).state() == Some(new_frame@)
                },
                Some(lf) => {
                    let d = budget_delta_view(
                        lf,
                        new_frame@,
                        old(self).budget_of() as int,
                        3,
                        ColorMetric::Cielab,
                    );
                    &&& final(self).state() == Some(lf.apply(d))
                    &&& r@ == if old(self).debug_of() {
                        debug_output(new_frame@, d)
                    } else {
                        d
                    }
                },
            },
    {
        proof {
            reveal(strategy_delta);
        }
        self.inner.compress_frame(new_frame)
    }
}

/// Which codec a stream uses.
#[derive(Debug, Clone, Copy, PartialEq, Eq, Structural)]
pub enum CompressionAlgConfig {
    V1,
    V2,
}

impl Default for CompressionAlgConfig {
    fn default() -> (r: Self)
        ensures
            r == CompressionAlgConfig::V2,
    {
        CompressionAlgConfig::V2
    }
}

/// A codec of either strategy, dispatched by pattern match.
pub enum VideoCompressor {
    V1(VideoCompressorV1),
    V2(VideoCompressorV2),
}

impl VideoCompressor {
    pub open spec fn state(self) -> Option<FrameView> {
        match self {
            VideoCompressor::V1(c) => c.state(),
            VideoCompressor::V2(c) => c.state(),
        }
    }

    pub open spec fn debug_of(self) -> bool {
        match self {
            VideoCompressor::V1(c) => c.debug_of(),
            VideoCompressor::V2(c) => c.debug_of(),
        }
    }

    pub open spec fn wf(self) -> bool {
        match self {
            VideoCompressor::V1(c) => c.wf(),
            VideoCompressor::V2(c) => c.wf(),
        }
    }

    /// The delta strategy this codec runs.
    pub open spec fn strategy_of(self) -> DeltaStrategy {
        match self {
            VideoCompressor::V1(c) => DeltaStrategy::Threshold(c.level_of()),
            VideoCompressor::V2(c) => DeltaStrategy::Budget {
                k: c.budget_of(),
                floor_plus_one: 3,
                metric: ColorMetric::Cielab,
            },
        }
    }

    /// The delta this codec computes against a stored reconstruction.
    pub open spec fn delta_of(self, last: FrameView, new: FrameView) -> FrameDataView {
        strategy_delta(self.strategy_of(), last, new)
    }

    /// The codec's configuration, without its state.
    pub open spec fn config_of(self) -> (CompressionAlgConfig, DeltaStrategy, bool) {
        match self {
            VideoCompressor::V1(c) => (
                CompressionAlgConfig::V1,
                self.strategy_of(),
                c.debug_of(),
            ),
            VideoCompressor::V2(c) => (
                CompressionAlgConfig::V2,
                self.strategy_of(),
                c.debug_of(),
            ),
        }
    }

    /// Builds the configured codec: the threshold strategy takes a named
    /// preset, the budget strategy a numeric budget; a mismatched level is
    /// rejected.
    pub fn new(alg: CompressionAlgConfig, level: CompressionLevelArg, debug: bool) -> (r: Result<
        VideoCompressor,
        Error,
    >)
        ensures
            match r {
                Ok(c) => {
                    &&& c.state() is None
                    &&& c.debug_of() == debug
                    &&& c.wf()
                    &&& c.config_of().0 == alg
                    &&& Some(c.strategy_of()) == strategy_for(alg, level)
                },
                Err(e) => strategy_for(alg, level) is None && e is InvalidArgs,
            },
    {
        match alg {
            CompressionAlgConfig::V1 => {
                match VideoCompressorV1::new(level, debug) {
                    Ok(c) => Ok(VideoCompressor::V1(c)),
                    Err(e) => Err(e),
                }
            },
            CompressionAlgConfig::V2 => {
                match VideoCompressorV2::new(level, debug) {
                    Ok(c) => Ok(VideoCompressor::V2(c)),
                    Err(e) => Err(e),
                }
            },
        }
    }

    /// Encodes the next frame with whichever codec is configured: a full
    /// snapshot on the first call, then the strategy's delta against the
    /// stored reconstruction, which advances by the emitted delta.
    pub fn compress_frame(&mut self, new_frame: &Frame) -> (r: FrameData)
        requires
            old(self).wf(),
            new_frame@.wf(),
            new_frame@.width <= u16::MAX,
            new_frame@.height <= u16::MAX,
            old(self).state() matches Some(lf) ==> lf.width == new_frame@.width && lf.height
                == new_frame@.height,
        ensures
            final(self).config_of() == old(self).config_of(),
            final(self).wf(),
            match old(self).state() {
                Option::None => {
                    &&& r@ == new_frame@.snapshot()
                    &&& final(self).state() == Some(new_frame@)
                },
                Some(lf) => {
                    let d = old(self).delta_of(lf, new_frame@);
                    &&& final(self).state() == Some(lf.apply(d))
                    &&& r@ == if old(self).debug_of() {
                        debug_output(new_frame@, d)
                    } else {
                        d
                    }
                },
            },
    {
        proof {
            reveal(strategy_delta);
        }
        match self {
            VideoCompressor::V1(c) => c.compress_frame(new_frame),
            VideoCompressor::V2(c) => c.compress_frame(new_frame),
        }
    }
}

} // verus!
