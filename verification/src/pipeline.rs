//! The chunked compression pipeline. A frame sequence is partitioned into
//! contiguous chunks of a fixed group size; every chunk is compressed by a
//! fresh, independent codec, so chunks can be processed in any order or in
//! parallel, at the deliberate cost that the first frame of every chunk is
//! emitted whole. The functions here are the sequential core; a caller may
//! run one `compress_chunk` per worker and stitch the disjoint output ranges
//! back together.

use crate::compression::{debug_output, strategy_delta, strategy_for, CompressionAlgConfig,
    DeltaStrategy, VideoCompressor};
use crate::levels::CompressionLevelArg;
use crate::frame::{Frame, FrameData, FrameDataView, FrameView};
use crate::Error;
use vstd::prelude::*;

verus! {

/// The views of a list of frames.
pub open spec fn frame_views(s: Seq<Frame>) -> Seq<FrameView> {
    s.map_values(|f: Frame| f@)
}

/// The views of a list of frame updates.
pub open spec fn fd_views(s: Seq<FrameData>) -> Seq<FrameDataView> {
    s.map_values(|d: FrameData| d@)
}

/// All frames of a stream are well-formed, small enough to snapshot, and
/// share one set of dimensions.
pub open spec fn frames_uniform(s: Seq<FrameView>) -> bool {
    forall|i: int|
        0 <= i < s.len() ==> (#[trigger] s[i]).wf() && s[i].width <= u16::MAX && s[i].height
            <= u16::MAX && s[i].width == s[0].width && s[i].height == s[0].height
}

/// What one codec step emits from a stored reconstruction.
pub open spec fn step_output(
    s: DeltaStrategy,
    dbg: bool,
    st: Option<FrameView>,
    f: FrameView,
) -> FrameDataView {
    match st {
        Option::None => f.snapshot(),
        Some(lf) => {
            let d = strategy_delta(s, lf, f);
            if dbg {
                debug_output(f, d)
            } else {
                d
            }
        },
    }
}

/// The codec's reconstruction after one step: the first frame itself, or the
/// previous reconstruction advanced by the emitted delta.
pub open spec fn step_state(
    s: DeltaStrategy,
    st: Option<FrameView>,
    f: FrameView,
) -> Option<FrameView> {
    match st {
        Option::None => Some(f),
        Some(lf) => Some(lf.apply(strategy_delta(s, lf, f))),
    }
}

/// The codec's reconstruction after a run over `fs`.
pub open spec fn state_after(
    s: DeltaStrategy,
    st: Option<FrameView>,
    fs: Seq<FrameView>,
) -> Option<FrameView>
    decreases fs.len(),
{
    if fs.len() == 0 {
        st
    } else {
        state_after(s, step_state(s, st, fs[0]), fs.drop_first())
    }
}

/// The updates a single codec emits over a frame sequence, in frame order.
pub open spec fn run_outputs(
    s: DeltaStrategy,
    dbg: bool,
    st: Option<FrameView>,
    fs: Seq<FrameView>,
) -> Seq<FrameDataView>
    decreases fs.len(),
{
    if fs.len() == 0 {
        Seq::empty()
    } else {
        seq![step_output(s, dbg, st, fs[0])] + run_outputs(
            s,
            dbg,
            step_state(s, st, fs[0]),
            fs.drop_first(),
        )
    }
}

/// Extending a run by one frame appends one output and steps the state once.
pub proof fn lemma_run_snoc(
    s: DeltaStrategy,
    dbg: bool,
    st: Option<FrameView>,
    fs: Seq<FrameView>,
    f: FrameView,
)
    ensures
        run_outputs(s, dbg, st, fs.push(f)) == run_outputs(s, dbg, st, fs).push(
            step_output(s, dbg, state_after(s, st, fs), f),
        ),
        state_after(s, st, fs.push(f)) == step_state(s, state_after(s, st, fs), f),
    decreases fs.len(),
{
    if fs.len() == 0 {
        reveal_with_fuel(run_outputs, 2);
        reveal_with_fuel(state_after, 2);
        assert(fs.push(f).drop_first() =~= Seq::<FrameView>::empty());
        assert(fs.push(f)[0] == f);
        assert(run_outputs(s, dbg, st, fs.push(f)) =~= run_outputs(s, dbg, st, fs).push(
            step_output(s, dbg, state_after(s, st, fs), f),
        ));
    } else {
        assert(fs.push(f).drop_first() =~= fs.drop_first().push(f));
        lemma_run_snoc(s, dbg, step_state(s, st, fs[0]), fs.drop_first(), f);
        assert(run_outputs(s, dbg, st, fs.push(f)) =~= run_outputs(s, dbg, st, fs).push(
            step_output(s, dbg, state_after(s, st, fs), f),
        ));
    }
}

/// A run emits exactly one update per frame.
pub proof fn lemma_run_len(s: DeltaStrategy, dbg: bool, st: Option<FrameView>, fs: Seq<FrameView>)
    ensures
        run_outputs(s, dbg, st, fs).len() == fs.len(),
    decreases fs.len(),
{
    if fs.len() > 0 {
        lemma_run_len(s, dbg, step_state(s, st, fs[0]), fs.drop_first());
    }
}

/// A fresh codec always emits the first frame whole.
pub proof fn lemma_run_first_full(s: DeltaStrategy, dbg: bool, fs: Seq<FrameView>)
    requires
        fs.len() > 0,
    ensures
        run_outputs(s, dbg, Option::None, fs)[0] == fs[0].snapshot(),
        run_outputs(s, dbg, Option::None, fs)[0] is Full,
{
}

/// The outputs of the chunked pipeline: the frame sequence is cut into
/// contiguous chunks of `g` frames (the last may be shorter) and each chunk
/// is compressed by a fresh codec.
pub open spec fn chunked_outputs(
    s: DeltaStrategy,
    dbg: bool,
    fs: Seq<FrameView>,
    g: int,
) -> Seq<FrameDataView>
    decreases fs.len(),
{
    if g <= 0 || fs.len() == 0 {
        Seq::empty()
    } else if fs.len() <= g {
        run_outputs(s, dbg, Option::None, fs)
    } else {
        run_outputs(s, dbg, Option::None, fs.take(g)) + chunked_outputs(s, dbg, fs.skip(g), g)
    }
}

/// The chunked pipeline emits exactly one update per frame: as many as the
/// single, non-chunked run over the same frames.
pub proof fn lemma_chunked_len(s: DeltaStrategy, dbg: bool, fs: Seq<FrameView>, g: int)
    requires
        g > 0,
    ensures
        chunked_outputs(s, dbg, fs, g).len() == fs.len(),
        chunked_outputs(s, dbg, fs, g).len() == run_outputs(s, dbg, Option::None, fs).len(),
    decreases fs.len(),
{
    lemma_run_len(s, dbg, Option::None, fs);
    if fs.len() > g {
        lemma_run_len(s, dbg, Option::None, fs.take(g));
        lemma_chunked_len(s, dbg, fs.skip(g), g);
    }
}

/// The first frame of every chunk is emitted whole: every output whose index
/// is a multiple of the group size is a full snapshot.
pub proof fn lemma_chunk_starts_full(s: DeltaStrategy, dbg: bool, fs: Seq<FrameView>, g: int)
    requires
        g > 0,
    ensures
        forall|i: int|
            0 <= i < chunked_outputs(s, dbg, fs, g).len() && i % g == 0 ==> (
            #[trigger] chunked_outputs(s, dbg, fs, g)[i]) is Full,
    decreases fs.len(),
{
    lemma_chunked_len(s, dbg, fs, g);
    if fs.len() == 0 {
    } else if fs.len() <= g {
        assert forall|i: int|
            0 <= i < chunked_outputs(s, dbg, fs, g).len() && i % g == 0 implies (
        #[trigger] chunked_outputs(s, dbg, fs, g)[i]) is Full by {
            if i > 0 {
                vstd::arithmetic::div_mod::lemma_fundamental_div_mod(i, g);
                vstd::arithmetic::div_mod::lemma_div_pos_is_pos(i, g);
                assert(i == g * (i / g));
                assert(i / g >= 1) by {
                    if i / g == 0 {
                        assert(i == g * 0 + i % g);
                    }
                }
                assert(i >= g) by (nonlinear_arith)
                    requires
                        i == g * (i / g),
                        i / g >= 1,
                        g > 0,
                ;
                assert(false);
            } else {
                lemma_run_first_full(s, dbg, fs);
            }
        }
    } else {
        lemma_chunk_starts_full(s, dbg, fs.skip(g), g);
        lemma_run_len(s, dbg, Option::None, fs.take(g));
        lemma_chunked_len(s, dbg, fs.skip(g), g);
        assert forall|i: int|
            0 <= i < chunked_outputs(s, dbg, fs, g).len() && i % g == 0 implies (
        #[trigger] chunked_outputs(s, dbg, fs, g)[i]) is Full by {
            if i == 0 {
                lemma_run_first_full(s, dbg, fs.take(g));
                assert(chunked_outputs(s, dbg, fs, g)[0] == run_outputs(
                    s,
                    dbg,
                    Option::None,
                    fs.take(g),
                )[0]);
            } else if i < g {
                vstd::arithmetic::div_mod::lemma_fundamental_div_mod(i, g);
                vstd::arithmetic::div_mod::lemma_div_pos_is_pos(i, g);
                assert(i / g >= 1 ==> i >= g) by (nonlinear_arith)
                    requires
                        i == g * (i / g) + i % g,
                        g > 0,
                ;
                assert(i / g == 0 ==> i == i % g);
                assert(false);
            } else {
                assert((i - g) % g == 0) by {
                    vstd::arithmetic::div_mod::lemma_mod_sub_multiples_vanish(i, g);
                }
                assert(chunked_outputs(s, dbg, fs, g)[i] == chunked_outputs(s, dbg, fs.skip(g), g)[
                    i - g]);
            }
        }
    }
}

/// Compresses the frames `start..end` of a stream through one codec, in
/// order, appending one update per frame to `out`.
pub fn compress_range(
    codec: &mut VideoCompressor,
    frames: &Vec<Frame>,
    start: usize,
    end: usize,
    out: &mut Vec<FrameData>,
)
    requires
        old(codec).wf(),
        old(codec).state() is None,
        start <= end <= frames@.len(),
        frames_uniform(frame_views(frames@)),
    ensures
        final(codec).wf(),
        final(out)@.len() == old(out)@.len() + (end - start),
        fd_views(final(out)@) == fd_views(old(out)@) + run_outputs(
            old(codec).strategy_of(),
            old(codec).debug_of(),
            Option::None,
            frame_views(frames@).subrange(start as int, end as int),
        ),
{
    let ghost s = codec.strategy_of();
    let ghost dbg = codec.debug_of();
    let ghost vs = frame_views(frames@).subrange(start as int, end as int);
    let ghost out0 = out@;
    let mut i: usize = start;
    while i < end
        invariant
            start <= i <= end,
            end <= frames@.len(),
            frames_uniform(frame_views(frames@)),
            vs == frame_views(frames@).subrange(start as int, end as int),
            codec.wf(),
            codec.strategy_of() == s,
            codec.debug_of() == dbg,
            codec.config_of() == old(codec).config_of(),
            out@.len() == out0.len() + (i - start),
            fd_views(out@) == fd_views(out0) + run_outputs(
                s,
                dbg,
                Option::None,
                vs.take(i - start),
            ),
            codec.state() == state_after(s, Option::None, vs.take(i - start)),
            codec.state() matches Some(st) ==> st.width == frames@[start as int]@.width
                && st.height == frames@[start as int]@.height,
        decreases end - i,
    {
        let ghost done = vs.take(i - start);
        let ghost pre_state = codec.state();
        let f = &frames[i];
        proof {
            assert(frame_views(frames@)[i as int] == f@);
            assert(vs[i - start] == f@);
            assert(frame_views(frames@)[start as int] == frames@[start as int]@);
        }
        let d = codec.compress_frame(f);
        let ghost pre_out = out@;
        out.push(d);
        proof {
            lemma_run_snoc(s, dbg, Option::None, done, f@);
            assert(vs.take(i + 1 - start) =~= done.push(f@));
            assert(d@ == step_output(s, dbg, pre_state, f@));
            assert(run_outputs(s, dbg, Option::None, vs.take(i + 1 - start)) == run_outputs(
                s,
                dbg,
                Option::None,
                done,
            ).push(d@));
            assert(out@ == pre_out.push(d));
            assert(fd_views(out@) =~= fd_views(pre_out).push(d@));
            assert((fd_views(out0) + run_outputs(s, dbg, Option::None, done)).push(d@)
                =~= fd_views(out0) + run_outputs(s, dbg, Option::None, done).push(d@));
            assert(fd_views(out@) == fd_views(out0) + run_outputs(
                s,
                dbg,
                Option::None,
                vs.take(i + 1 - start),
            ));
            match pre_state {
                Option::None => {},
                Some(lf) => {
                    let dd = strategy_delta(s, lf, f@);
                    assert(codec.state() == Some(lf.apply(dd)));
                    assert(!(dd is Full)) by {
                        reveal(strategy_delta);
                        match s {
                            DeltaStrategy::Threshold(_) => {},
                            DeltaStrategy::Budget { .. } => {},
                        }
                    }
                    assert(lf.apply(dd).width == lf.width && lf.apply(dd).height == lf.height);
                },
            }
        }
        i = i + 1;
    }
    proof {
        assert(vs.take(end - start) =~= vs);
    }
}

/// Compresses a whole chunk through a fresh codec: one update per frame, the
/// first always a full snapshot.
pub fn compress_chunk(codec: &mut VideoCompressor, frames: &Vec<Frame>) -> (r: Vec<FrameData>)
    requires
        old(codec).wf(),
        old(codec).state() is None,
        frames_uniform(frame_views(frames@)),
    ensures
        final(codec).wf(),
        r@.len() == frames@.len(),
        fd_views(r@) == run_outputs(
            old(codec).strategy_of(),
            old(codec).debug_of(),
            Option::None,
            frame_views(frames@),
        ),
        r@.len() > 0 ==> r@[0]@ is Full,
{
    let mut out: Vec<FrameData> = Vec::new();
    let n = frames.len();
    compress_range(codec, frames, 0, n, &mut out);
    proof {
        let vs = frame_views(frames@);
        assert(vs.subrange(0, n as int) =~= vs);
        assert(fd_views(out@) =~= run_outputs(
            old(codec).strategy_of(),
            old(codec).debug_of(),
            Option::None,
            vs,
        ));
        if out@.len() > 0 {
            lemma_run_first_full(old(codec).strategy_of(), old(codec).debug_of(), vs);
            assert(fd_views(out@)[0] == out@[0]@);
        }
    }
    out
}

/// Compresses a frame sequence chunk by chunk, each chunk of `group_size`
/// frames (the last possibly shorter) through a fresh, independent codec;
/// output order is frame order. Rejects a level that does not fit the chosen
/// algorithm.
pub fn compress_frames_chunked(
    alg: CompressionAlgConfig,
    level: CompressionLevelArg,
    debug: bool,
    frames: &Vec<Frame>,
    group_size: usize,
) -> (r: Result<Vec<FrameData>, Error>)
    requires
        group_size > 0,
        frames_uniform(frame_views(frames@)),
    ensures
        match r {
            Ok(v) => {
                &&& strategy_for(alg, level) matches Some(s) && fd_views(v@) == chunked_outputs(
                    s,
                    debug,
                    frame_views(frames@),
                    group_size as int,
                )
                &&& v@.len() == frames@.len()
            },
            Err(e) => strategy_for(alg, level) is None && e is InvalidArgs,
        },
{
    let ghost vs = frame_views(frames@);
    let ghost s = strategy_for(alg, level);
    match VideoCompressor::new(alg, level, debug) {
        Err(e) => Err(e),
        Ok(first) => {
            let ghost strat = first.strategy_of();
            proof {
                assert(s == Some(strat));
            }
            let mut out: Vec<FrameData> = Vec::new();
            let n = frames.len();
            let mut start: usize = 0;
            proof {
                assert(vs.skip(0) =~= vs);
                assert(fd_views(out@) + chunked_outputs(
                    strat,
                    debug,
                    vs,
                    group_size as int,
                ) =~= chunked_outputs(strat, debug, vs, group_size as int));
            }
            while start < n
                invariant
                    0 <= start <= n,
                    n == frames@.len(),
                    group_size > 0,
                    frames_uniform(vs),
                    vs == frame_views(frames@),
                    s == Some(strat),
                    strategy_for(alg, level) == s,
                    out@.len() == start as int,
                    fd_views(out@) + chunked_outputs(
                        strat,
                        debug,
                        vs.skip(start as int),
                        group_size as int,
                    ) == chunked_outputs(strat, debug, vs, group_size as int),
                decreases n - start,
            {
                let end = if n - start < group_size {
                    n
                } else {
                    start + group_size
                };
                match VideoCompressor::new(alg, level, debug) {
                    Err(_) => {
                        proof {
                            assert(false);
                        }
                        vstd::pervasive::unreached::<()>()
                    },
                    Ok(mut codec) => {
                        proof {
                            assert(codec.strategy_of() == strat);
                        }
                        let ghost pre = out@;
                        compress_range(&mut codec, frames, start, end, &mut out);
                        proof {
                            let chunk = vs.subrange(start as int, end as int);
                            lemma_chunked_step(
                                strat,
                                debug,
                                vs,
                                start as int,
                                end as int,
                                group_size as int,
                            );
                            assert(fd_views(out@) =~= fd_views(pre) + run_outputs(
                                strat,
                                debug,
                                Option::None,
                                chunk,
                            ));
                            lemma_run_len(strat, debug, Option::None, chunk);
                            assert(fd_views(out@) + chunked_outputs(
                                strat,
                                debug,
                                vs.skip(end as int),
                                group_size as int,
                            ) =~= chunked_outputs(strat, debug, vs, group_size as int));
                        }
                        start = end;
                    },
                }
            }
            proof {
                assert(vs.skip(n as int) =~= Seq::<FrameView>::empty());
                assert(fd_views(out@) =~= chunked_outputs(strat, debug, vs, group_size as int));
                lemma_chunked_len(strat, debug, vs, group_size as int);
                assert(out@.len() == vs.len());
            }
            Ok(out)
        },
    }
}

/// Splitting off one chunk from the front of the chunked run.
proof fn lemma_chunked_step(s: DeltaStrategy, dbg: bool, vs: Seq<FrameView>, start: int, end: int, g: int)
    requires
        g > 0,
        0 <= start < end <= vs.len(),
        end - start <= g,
        end == if vs.len() - start < g {
            vs.len() as int
        } else {
            start + g
        },
    ensures
        chunked_outputs(s, dbg, vs.skip(start), g) == run_outputs(
            s,
            dbg,
            Option::None,
            vs.subrange(start, end),
        ) + chunked_outputs(s, dbg, vs.skip(end), g),
{
    let rest = vs.skip(start);
    if vs.len() - start <= g {
        assert(rest =~= vs.subrange(start, end));
        assert(vs.skip(end) =~= Seq::<FrameView>::empty());
        assert(chunked_outputs(s, dbg, vs.skip(end), g) =~= Seq::<FrameDataView>::empty());
        assert(chunked_outputs(s, dbg, rest, g) =~= run_outputs(
            s,
            dbg,
            Option::None,
            vs.subrange(start, end),
        ) + chunked_outputs(s, dbg, vs.skip(end), g));
    } else {
        assert(rest.len() > g);
        assert(rest.take(g) =~= vs.subrange(start, end));
        assert(rest.skip(g) =~= vs.skip(end));
    }
}

} // verus!
