use vstd::prelude::*;
use std::time::Instant;

verus! {

#[verifier::external_type_specification]
#[verifier::external_body]
pub struct ExInstant(std::time::Instant);

/// Relies on `Instant::now`: a reading of the monotonic clock. Nothing is promised of it.
pub assume_specification[ std::time::Instant::now ]() -> std::time::Instant;

/// Relies on `Instant::elapsed`: the time passed since the instant was read. Nothing is
/// promised of it.
pub assume_specification[ std::time::Instant::elapsed ](instant: &std::time::Instant) -> core::time::Duration;

/// Relies on `Duration::as_millis`: the whole milliseconds of a duration, which Verus cannot
/// see inside.
pub assume_specification[ core::time::Duration::as_millis ](duration: &core::time::Duration) -> u128;

/// Number of frame times kept.
pub const FRAME_BUFFER_SIZE: usize = 32;

/// How often the frame rate is reported.
#[derive(Clone, Copy, Debug, PartialEq, Eq, Structural)]
pub enum Mode {
    Off,
    Every4Frames,
    Every8Frames,
    Every16Frames,
    Every32Frames,
}

/// The number of frames between reports, and averaged by each report; zero when off.
pub open spec fn frames_of(mode: Mode) -> int {
    match mode {
        Mode::Off => 0,
        Mode::Every4Frames => 4,
        Mode::Every8Frames => 8,
        Mode::Every16Frames => 16,
        Mode::Every32Frames => 32,
    }
}

/// A frame-rate report: frames per second and the average frame time it derives from.
#[derive(Clone, Copy, Debug, PartialEq, Eq, Structural)]
pub struct FpsReport {
    pub fps: u128,
    pub frame_time_millis: u128,
}

/// Measures frame times in a ring of the last 32 frames and reports their average.
pub struct FpsCounter {
    frame_time_buffer: [u64; 32],
    current_frame: usize,
    current_frame_start: Instant,
    mode: Mode,
}

/// The abstract state of a counter.
pub struct FpsView {
    pub frame_times: Seq<u64>,
    pub current_frame: int,
    pub mode: Mode,
}

/// Sum of the `count` frame times recorded just before slot `current` of the ring.
pub open spec fn recent_total(times: Seq<u64>, current: int, count: nat) -> int
    decreases count,
{
    if count == 0 {
        0
    } else {
        recent_total(times, current, (count - 1) as nat) + times[(current + 32 - count) % 32]
    }
}

/// The report due in state `v`: none when off or between reports; otherwise the average of
/// the last `frames_of(mode)` frame times and `1000` divided by it (zero for a zero average).
pub open spec fn report_of(v: FpsView) -> Option<FpsReport> {
    let count = frames_of(v.mode);
    if count == 0 || v.current_frame % count != 0 {
        None
    } else {
        let average = recent_total(v.frame_times, v.current_frame, count as nat) / count;
        Some(
            FpsReport {
                fps: if average == 0 {
                    0
                } else {
                    (1000int / average) as u128
                },
                frame_time_millis: average as u128,
            },
        )
    }
}

impl View for FpsCounter {
    type V = FpsView;

    closed spec fn view(&self) -> FpsView {
        FpsView {
            frame_times: self.frame_time_buffer@,
            current_frame: self.current_frame as int,
            mode: self.mode,
        }
    }
}

impl FpsCounter {
    pub open spec fn wf(&self) -> bool {
        &&& self@.frame_times.len() == FRAME_BUFFER_SIZE
        &&& 0 <= self@.current_frame < FRAME_BUFFER_SIZE
    }

    /// A fresh counter in `mode`: every frame time zero, the clock started now.
    pub open spec fn fresh(&self, mode: Mode) -> bool {
        &&& self.wf()
        &&& self@.current_frame == 0
        &&& self@.mode == mode
        &&& forall|i: int| 0 <= i < FRAME_BUFFER_SIZE ==> #[trigger] self@.frame_times[i] == 0
    }

    pub fn every_4_frames() -> (r: FpsCounter)
        ensures
            r.fresh(Mode::Every4Frames),
    {
        Self::with_mode(Mode::Every4Frames)
    }

    pub fn every_8_frames() -> (r: FpsCounter)
        ensures
            r.fresh(Mode::Every8Frames),
    {
        Self::with_mode(Mode::Every8Frames)
    }

    pub fn every_16_frames() -> (r: FpsCounter)
        ensures
            r.fresh(Mode::Every16Frames),
    {
        Self::with_mode(Mode::Every16Frames)
    }

    pub fn every_32_frames() -> (r: FpsCounter)
        ensures
            r.fresh(Mode::Every32Frames),
    {
        Self::with_mode(Mode::Every32Frames)
    }

    /// A counter that never reports.
    pub fn new() -> (r: FpsCounter)
        ensures
            r.fresh(Mode::Off),
    {
        FpsCounter::with_mode(Mode::Off)
    }

    pub fn with_mode(mode: Mode) -> (r: FpsCounter)
        ensures
            r.fresh(mode),
    {
        FpsCounter {
            frame_time_buffer: [0u64; 32],
            current_frame: 0,
            current_frame_start: Instant::now(),
            mode,
        }
    }

    /// The report due now, if any.
    pub fn fps_report(&self) -> (r: Option<FpsReport>)
        requires
            self.wf(),
        ensures
            r == report_of(self@),
    {
        let frame_count: usize = match self.mode {
            Mode::Off => {
                return None;
            },
            Mode::Every4Frames => 4,
            Mode::Every8Frames => 8,
            Mode::Every16Frames => 16,
            Mode::Every32Frames => 32,
        };
        if self.current_frame % frame_count != 0 {
            return None;
        }
        let mut total_millis: u128 = 0;
        let mut i: usize = 1;
        while i <= frame_count
            invariant
                1 <= i <= frame_count + 1,
                frame_count <= 32,
                self.wf(),
                total_millis == recent_total(self@.frame_times, self@.current_frame, (i - 1) as nat),
                total_millis <= (i - 1) * 0xffff_ffff_ffff_ffff,
            decreases frame_count + 1 - i,
        {
            let frame = (self.current_frame + 32 - i) % 32;
            total_millis = total_millis + self.frame_time_buffer[frame] as u128;
            i = i + 1;
        }
        let average_frame_time_millis = total_millis / frame_count as u128;
        let fps = if average_frame_time_millis == 0 {
            0
        } else {
            1000 / average_frame_time_millis
        };
        Some(FpsReport { fps, frame_time_millis: average_frame_time_millis })
    }

    pub fn set_mode(&mut self, mode: Mode)
        ensures
            final(self)@ == (FpsView { mode, ..old(self)@ }),
    {
        self.mode = mode;
    }

    /// Records `frame_millis` as the time of the current frame, moves to the next frame, and
    /// returns the report due then.
    pub fn record_frame(&mut self, frame_millis: u64) -> (r: Option<FpsReport>)
        requires
            old(self).wf(),
        ensures
            final(self).wf(),
            final(self)@ == (FpsView {
                frame_times: old(self)@.frame_times.update(old(self)@.current_frame, frame_millis),
                current_frame: (old(self)@.current_frame + 1) % 32,
                mode: old(self)@.mode,
            }),
            r == report_of(final(self)@),
    {
        self.frame_time_buffer[self.current_frame] = frame_millis;
        self.current_frame = (self.current_frame + 1) % 32;
        self.fps_report()
    }

    /// Ends the current frame: records the time since it started (in whole milliseconds, at
    /// most `u64::MAX`), starts the next frame now, and returns the report due then.
    pub fn tick(&mut self) -> (r: Option<FpsReport>)
        requires
            old(self).wf(),
        ensures
            final(self).wf(),
            final(self)@.current_frame == (old(self)@.current_frame + 1) % 32,
            final(self)@.mode == old(self)@.mode,
            forall|i: int|
                0 <= i < FRAME_BUFFER_SIZE && i != old(self)@.current_frame ==> #[trigger] final(self)@.frame_times[i]
                    == old(self)@.frame_times[i],
            r == report_of(final(self)@),
    {
        let elapsed = self.current_frame_start.elapsed().as_millis();
        let frame_millis: u64 = if elapsed > 0xffff_ffff_ffff_ffff {
            0xffff_ffff_ffff_ffff
        } else {
            elapsed as u64
        };
        self.current_frame_start = Instant::now();
        self.record_frame(frame_millis)
    }
}

} // verus!
