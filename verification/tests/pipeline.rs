use embedded_dsp::pipeline::{
    Butterfly, ByLane, ChunkInOut, FrameMajor, Inplace, LaneMajor, Lanes, Offset, Parallel, PerFrame,
    Process, Split, SplitInplace, SplitProcess, Unsplit, View, ViewInplace, ViewMut, ViewProcess,
};
use embedded_dsp::types::{DspSample, SampleFill};

/// Running sum with explicit state, so the view plumbing is actually exercised rather than
/// trivially passing samples through.
struct RunningSum;

impl SplitProcess<i32, i32, i32> for RunningSum {
    fn spec_process(&self, state: i32, x: i32) -> (i32, i32) {
        (state + x, state + x)
    }

    fn process(&self, state: &mut i32, x: i32) -> i32 {
        *state += x;
        *state
    }
}

impl SplitInplace<i32, i32> for RunningSum {}

/// A plain `f32` sample with ordinary float arithmetic, so the `f32` scenarios run through the
/// generic stages.
#[derive(Debug, Clone, Copy, Default, PartialEq)]
struct F(f32);

impl DspSample for F {
    fn spec_sat_add(self, other: Self) -> Self {
        F(self.0 + other.0)
    }

    fn spec_sat_sub(self, other: Self) -> Self {
        F(self.0 - other.0)
    }

    fn spec_sat_mul(self, other: Self) -> Self {
        F(self.0 * other.0)
    }

    fn spec_sat_neg(self) -> Self {
        F(-self.0)
    }

    fn spec_zero() -> Self {
        F(0.0)
    }

    fn zero() -> Self {
        F(0.0)
    }

    fn sat_add(self, other: Self) -> Self {
        F(self.0 + other.0)
    }

    fn sat_sub(self, other: Self) -> Self {
        F(self.0 - other.0)
    }

    fn sat_mul(self, other: Self) -> Self {
        F(self.0 * other.0)
    }

    fn sat_neg(self) -> Self {
        F(-self.0)
    }

    fn spec_one() -> Self {
        F(1.0)
    }

    fn spec_abs(self) -> Self {
        F(self.0.abs())
    }

    fn spec_at_most(self, other: Self) -> bool {
        self.0 <= other.0
    }

    fn spec_sat_div(self, other: Self) -> Self {
        F(self.0 / other.0)
    }

    fn one() -> Self {
        F(1.0)
    }

    fn abs_val(self) -> Self {
        F(self.0.abs())
    }

    fn at_most(self, other: Self) -> bool {
        self.0 <= other.0
    }

    fn sat_div(self, other: Self) -> Self {
        F(self.0 / other.0)
    }
}

fn fs<const N: usize>(v: [f32; N]) -> [F; N] {
    v.map(F)
}

#[test]
fn frame_major_views_run_sample_major_over_the_flat_buffer() {
    let x = [[1, 10], [2, 20], [3, 30]];
    let mut y = [[0; 2]; 3];
    let mut p = Split::new(RunningSum, 0);

    p.process_view(View::from_frames(&x), ViewMut::from_frames(&mut y));

    // Flat order is 1, 10, 2, 20, 3, 30 and the running sum carries across frames.
    assert_eq!(y, [[1, 11], [13, 33], [36, 66]]);
    assert_eq!(p.state, 66);
}

#[test]
fn lane_major_views_give_each_lane_its_own_run_and_state() {
    let x = [1, 2, 3, 10, 20, 30];
    let mut y = [0; 6];

    let mut p = Split::new(Lanes(RunningSum), [0, 0]);

    p.process_view(
        View::<_, LaneMajor, 2>::from_flat(&x, 3),
        ViewMut::<_, LaneMajor, 2>::from_flat(&mut y, 3),
    );

    assert_eq!(y, [1, 3, 6, 10, 30, 60]);
    assert_eq!(p.state, [6, 60]);

    let x = View::<_, LaneMajor, 2>::from_flat(&x, 3);
    assert_eq!(x.lane(0), &[1, 2, 3]);
    assert_eq!(x.lane(1), &[10, 20, 30]);
    assert_eq!(x.frames(), 3);
}

#[test]
fn by_lane_gives_each_lane_its_own_configuration() {
    let x = fs([1.0f32, 2.0, 3.0, 10.0, 20.0, 30.0]);
    let mut y = fs([0.0f32; 6]);

    let mut p = Split::new(ByLane::new((Offset(F(1.0)), Offset(F(100.0)))), (F(0.0), F(0.0)));

    p.process_view(
        View::<_, LaneMajor, 2>::from_flat(&x, 3),
        ViewMut::<_, LaneMajor, 2>::from_flat(&mut y, 3),
    );

    assert_eq!(y, fs([2.0, 3.0, 4.0, 110.0, 120.0, 130.0]));
}

#[test]
fn butterfly_and_parallel_compose() {
    let mut branches = Split::new(Parallel::new((Offset(F(1.0)), Offset(F(0.0)))), (F(0.0), F(0.0)));
    assert_eq!(
        <Split<Parallel<(Offset<F>, Offset<F>)>, (F, F)> as Process<[F; 2], [F; 2]>>::process(
            &mut branches,
            fs([1.0, 2.0]),
        ),
        fs([2.0, 2.0])
    );

    let mut b = Butterfly;
    assert_eq!(b.process(fs([4.0, 3.0])), fs([7.0, 1.0]));
}

#[test]
fn as_layout_reinterprets_without_moving_anything() {
    let buf = [1, 2, 3, 4, 5, 6];

    let lm = View::<_, LaneMajor, 2>::from_flat(&buf, 3);
    assert_eq!(lm.frames(), 3);
    assert_eq!(lm.lane(0), &[1, 2, 3]);
    assert_eq!(lm.lane(1), &[4, 5, 6]);

    // The same six samples, read as three frames of two lanes.
    let fm: View<'_, i32, FrameMajor, 2> = lm.as_layout();
    assert_eq!(fm.flat(), &buf[..]);
    assert_eq!(fm.as_frames(), &[[1, 2], [3, 4], [5, 6]]);
    assert_eq!(fm.frame(1), &[3, 4]);
}

#[test]
fn mutable_views_process_through_either_layout() {
    let mut frames = [[1, 10], [2, 20]];
    let mut p = Split::new(RunningSum, 0);
    p.inplace_view(ViewMut::from_frames(&mut frames));
    assert_eq!(frames, [[1, 11], [13, 33]]);

    let mut flat = [1, 10, 2, 20];
    let mut q = Split::new(Lanes(RunningSum), [0, 0]);
    q.inplace_view(ViewMut::<_, LaneMajor, 2>::from_flat(&mut flat, 2));
    assert_eq!(flat, [1, 11, 2, 22]);

    let mut flat = [1, 10, 2, 20];
    let mut r = Split::new(RunningSum, 0);
    r.inplace_view(ViewMut::<_, LaneMajor, 2>::from_flat(&mut flat, 2).as_layout::<FrameMajor>());
    assert_eq!(flat, [1, 11, 13, 33]);
}

#[test]
fn parallel_covers_the_tuple_and_array_shapes() {
    let mut pair = Split::new(Parallel::new((Offset(F(1.0)), Offset(F(2.0)))), ((), ()));
    assert_eq!(pair.process(fs([1.0, 1.0])), fs([2.0, 3.0]));

    let mut xy = [fs([1.0f32, 1.0]), fs([2.0, 2.0])];
    pair.inplace(&mut xy);
    assert_eq!(xy, [fs([2.0, 3.0]), fs([3.0, 4.0])]);

    let mut quad = Split::new(Parallel::new([Offset(F(1.0)), Offset(F(2.0)), Offset(F(3.0))]), [(); 3]);
    assert_eq!(quad.process(fs([0.0, 0.0, 0.0])), fs([1.0, 2.0, 3.0]));

    let mut xy = [fs([0.0f32; 3]); 2];
    quad.inplace(&mut xy);
    assert_eq!(xy, [fs([1.0, 2.0, 3.0]), fs([1.0, 2.0, 3.0])]);
}

#[test]
fn by_lane_covers_the_tuple_and_array_shapes() {
    let mut pair = Split::new(ByLane::new((Offset(F(1.0)), Offset(F(10.0)))), ((), ()));
    assert_eq!(pair.process(fs([1.0, 2.0])), fs([2.0, 12.0]));

    let mut quad = Split::new(ByLane::new([Offset(F(1.0)), Offset(F(10.0))]), [(); 2]);
    assert_eq!(quad.process(fs([1.0, 2.0])), fs([2.0, 12.0]));

    let x = fs([1.0f32, 2.0, 3.0, 40.0, 50.0, 60.0]);
    let mut y = fs([0.0f32; 6]);
    let mut lanes = Split::new(ByLane::new([Offset(F(1.0)), Offset(F(10.0))]), [(); 2]);
    lanes.process_view(
        View::<_, LaneMajor, 2>::from_flat(&x, 3),
        ViewMut::<_, LaneMajor, 2>::from_flat(&mut y, 3),
    );
    assert_eq!(y, fs([2.0, 3.0, 4.0, 50.0, 60.0, 70.0]));
}

#[test]
fn stateless_and_stateful_splits() {
    let mut stateless = Split::stateless(Offset(F(3.0)));
    assert_eq!(stateless.process(F(1.0)), F(4.0));

    let stateful = Split::stateful(RunningSum);
    let Unsplit(RunningSum) = stateful.state;
    assert_eq!(stateful.config, ());
}

#[test]
fn mutable_view_accessors() {
    let mut frames = [[1.0f32, 2.0], [3.0, 4.0]];
    let mut vm = ViewMut::from_frames(&mut frames);
    assert_eq!(vm.frames(), 2);
    assert_eq!(vm.flat(), &[1.0, 2.0, 3.0, 4.0]);
    assert_eq!(vm.frame(0), &[1.0, 2.0]);
    vm.frame_mut(0)[0] = 9.0;
    vm.as_frames_mut()[1][1] = 8.0;
    assert_eq!(vm.as_frames()[0], [9.0, 2.0]);
    assert_eq!(vm.flat_mut()[3], 8.0);

    let mut flat = [1.0f32, 2.0, 3.0, 4.0];
    let mut lm = ViewMut::<_, LaneMajor, 2>::from_flat(&mut flat, 2);
    assert_eq!(lm.lane(0), &[1.0, 2.0]);
    lm.lane_mut(1)[1] = 7.0;
    assert_eq!(lm.lane(1), &[3.0, 7.0]);
    assert_eq!(lm.frames(), 2);

    let v: View<'_, f32, LaneMajor, 2> = View::from_flat(&flat, 2);
    assert_eq!(v.flat(), &flat[..]);
    assert_eq!(v.frames(), 2);
}

/// Swaps the two samples of a frame, in place.
struct SwapFrame;

impl SplitProcess<[f32; 2], [f32; 2], ()> for SwapFrame {
    fn spec_process(&self, state: (), [a, b]: [f32; 2]) -> ((), [f32; 2]) {
        (state, [b, a])
    }

    fn process(&self, _state: &mut (), [a, b]: [f32; 2]) -> [f32; 2] {
        [b, a]
    }
}

impl SplitInplace<[f32; 2], ()> for SwapFrame {}

#[test]
fn per_frame_can_process_in_place() {
    let mut p = Split::new(PerFrame(SwapFrame), ());
    let mut frames = [[1.0f32, 2.0], [3.0, 4.0]];
    p.inplace_frames(ViewMut::from_frames(&mut frames));
    assert_eq!(frames, [[2.0, 1.0], [4.0, 3.0]]);
}

#[test]
fn per_frame_runs_a_frame_stage_once_per_frame() {
    let mut q = Split::new(SwapFrame, ()).per_frame();
    let x = [[1.0f32, 2.0], [3.0, 4.0]];
    let mut y = [[0.0f32; 2]; 2];
    q.process_frames(View::from_frames(&x), ViewMut::from_frames(&mut y));
    assert_eq!(y, [[2.0, 1.0], [4.0, 3.0]]);
}

#[test]
fn split_block_runs_the_state_through_the_block() {
    let mut p = Split::new(RunningSum, 5);
    let x = [1, 2, 3];
    let mut y = [0; 3];
    p.config.block(&mut p.state, &x, &mut y);
    assert_eq!(y, [6, 8, 11]);
    assert_eq!(p.state, 11);
}

impl SampleFill for F {
    fn spec_fill() -> Self {
        F(0.0)
    }

    fn fill() -> Self {
        F(0.0)
    }
}

/// Two samples in, one out: their sum.
struct PairSum;

impl SplitProcess<[i32; 2], [i32; 1], ()> for PairSum {
    fn spec_process(&self, state: (), [a, b]: [i32; 2]) -> ((), [i32; 1]) {
        (state, [a + b])
    }

    fn process(&self, _state: &mut (), [a, b]: [i32; 2]) -> [i32; 1] {
        [a + b]
    }
}

/// One sample in, two out: the sample and its negation.
struct Mirror;

impl SplitProcess<[i32; 1], [i32; 2], ()> for Mirror {
    fn spec_process(&self, state: (), [a]: [i32; 1]) -> ((), [i32; 2]) {
        (state, [a, -a])
    }

    fn process(&self, _state: &mut (), [a]: [i32; 1]) -> [i32; 2] {
        [a, -a]
    }
}

/// One sample in, one out: its negation.
struct Negate;

impl SplitProcess<[F; 1], [F; 1], ()> for Negate {
    fn spec_process(&self, state: (), [a]: [F; 1]) -> ((), [F; 1]) {
        (state, [F(-a.0)])
    }

    fn process(&self, _state: &mut (), [a]: [F; 1]) -> [F; 1] {
        [F(-a.0)]
    }
}

impl SplitInplace<[F; 1], ()> for Negate {}

/// A running sum over chunks of one sample, so the state visibly crosses chunk boundaries.
struct ChunkRunningSum;

impl SplitProcess<[i32; 1], [i32; 1], i32> for ChunkRunningSum {
    fn spec_process(&self, state: i32, [a]: [i32; 1]) -> (i32, [i32; 1]) {
        (state + a, [state + a])
    }

    fn process(&self, state: &mut i32, [a]: [i32; 1]) -> [i32; 1] {
        *state += a;
        [*state]
    }
}

#[test]
fn chunk_in_out_bridges_a_chunk_stage_to_a_block() {
    // 2 samples in, 1 out: a pairwise sum.
    let mut p = Split::stateless(ChunkInOut::<_, 2, 1>(PairSum));
    assert_eq!(p.process([1, 2, 3, 4]), [3, 7]);

    // The same stage over a block of frames, one chunk each.
    let x = [[1, 2], [3, 4], [5, 6]];
    let mut y = [[0]; 3];
    p.block(&x, &mut y);
    assert_eq!(y, [[3], [7], [11]]);

    // 1 in, 2 out: a doubling stage, four samples at a time.
    let mut q = Split::stateless(ChunkInOut::<_, 1, 2>(Mirror));
    assert_eq!(q.process([1, 2]), [1, -1, 2, -2]);
}

#[test]
fn chunk_in_out_is_inplace_for_unit_chunks() {
    // 1:1 chunks are the case that stays in place.
    let mut p = Split::stateless(ChunkInOut::<_, 1, 1>(Negate));
    let mut xy = [[F(1.0)], [F(2.0)], [F(3.0)]];
    p.inplace(&mut xy);
    assert_eq!(xy, [[F(-1.0)], [F(-2.0)], [F(-3.0)]]);
}

#[test]
fn per_frame_runs_a_chunk_stage_once_per_frame() {
    // A frame holds 2 samples; the stage reduces each frame to 1.
    let mut p = Split::stateless(ChunkInOut::<_, 2, 1>(PairSum)).per_frame();

    let x = View::from_frames(&[[1, 2], [3, 4]]);
    let mut y = [[0; 1]; 2];
    p.process_frames(x, ViewMut::from_frames(&mut y));
    assert_eq!(y, [[3], [7]]);
}

#[test]
fn chunk_in_out_carries_state_across_chunks_and_blocks() {
    let mut p = Split::new(ChunkInOut::<_, 1, 1>(ChunkRunningSum), 0i32);
    assert_eq!(p.process([1, 2, 3]), [1, 3, 6]);
    assert_eq!(p.process([4, 0, -10]), [10, 10, 0]);
    assert_eq!(p.state, 0);
}

#[test]
fn chunk_in_out_with_mismatched_shape_fills_and_keeps_state() {
    // Three samples do not make whole pairs: the state stays and the output is the fill value.
    let c = ChunkInOut::<_, 2, 1>(PairSum);
    let mut state = ();
    let y: [i32; 2] = c.process(&mut state, [1, 2, 3]);
    assert_eq!(y, [0, 0]);
}
