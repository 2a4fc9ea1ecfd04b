//! Statistics of rendered frames, summed over frames and averaged.

use vstd::prelude::*;

verus! {

/// Counts of one frame, or sums of several. Times are in nanoseconds.
#[derive(Clone, Copy, PartialEq, Eq, Debug, Default)]
pub struct RenderStats {
    pub path_count: usize,
    pub fill_count: usize,
    pub alpha_tile_count: usize,
    pub solid_tile_count: usize,
    pub cpu_build_time: u64,
}

impl RenderStats {
    /// Field-by-field sum.
    pub fn add(self, other: RenderStats) -> (r: RenderStats)
        requires
            self.path_count + other.path_count <= usize::MAX,
            self.fill_count + other.fill_count <= usize::MAX,
            self.alpha_tile_count + other.alpha_tile_count <= usize::MAX,
            self.solid_tile_count + other.solid_tile_count <= usize::MAX,
            self.cpu_build_time + other.cpu_build_time <= u64::MAX,
        ensures
            r.path_count == self.path_count + other.path_count,
            r.fill_count == self.fill_count + other.fill_count,
            r.alpha_tile_count == self.alpha_tile_count + other.alpha_tile_count,
            r.solid_tile_count == self.solid_tile_count + other.solid_tile_count,
            r.cpu_build_time == self.cpu_build_time + other.cpu_build_time,
    {
        RenderStats {
            path_count: self.path_count + other.path_count,
            solid_tile_count: self.solid_tile_count + other.solid_tile_count,
            alpha_tile_count: self.alpha_tile_count + other.alpha_tile_count,
            fill_count: self.fill_count + other.fill_count,
            cpu_build_time: self.cpu_build_time + other.cpu_build_time,
        }
    }

    /// Field-by-field quotient, rounded down: the average over `divisor` frames.
    pub fn div(self, divisor: usize) -> (r: RenderStats)
        requires
            0 < divisor <= u32::MAX,
        ensures
            r.path_count == self.path_count / divisor,
            r.fill_count == self.fill_count / divisor,
            r.alpha_tile_count == self.alpha_tile_count / divisor,
            r.solid_tile_count == self.solid_tile_count / divisor,
            r.cpu_build_time == self.cpu_build_time / (divisor as u64),
    {
        RenderStats {
            path_count: self.path_count / divisor,
            solid_tile_count: self.solid_tile_count / divisor,
            alpha_tile_count: self.alpha_tile_count / divisor,
            fill_count: self.fill_count / divisor,
            cpu_build_time: self.cpu_build_time / (divisor as u64),
        }
    }
}

/// GPU time spent in each stage of a frame, in nanoseconds.
#[derive(Clone, Copy, PartialEq, Eq, Debug)]
pub struct RenderTime {
    pub bin_time: u64,
    pub fill_time: u64,
    pub propagate_time: u64,
    pub tile_time: u64,
}

impl Default for RenderTime {
    fn default() -> (r: RenderTime)
        ensures
            r == (RenderTime { bin_time: 0, fill_time: 0, propagate_time: 0, tile_time: 0 }),
    {
        RenderTime { bin_time: 0, fill_time: 0, propagate_time: 0, tile_time: 0 }
    }
}

impl RenderTime {
    /// Stage-by-stage sum.
    pub fn add(self, other: RenderTime) -> (r: RenderTime)
        requires
            self.bin_time + other.bin_time <= u64::MAX,
            self.fill_time + other.fill_time <= u64::MAX,
            self.propagate_time + other.propagate_time <= u64::MAX,
            self.tile_time + other.tile_time <= u64::MAX,
        ensures
            r.bin_time == self.bin_time + other.bin_time,
            r.fill_time == self.fill_time + other.fill_time,
            r.propagate_time == self.propagate_time + other.propagate_time,
            r.tile_time == self.tile_time + other.tile_time,
    {
        RenderTime {
            bin_time: self.bin_time + other.bin_time,
            fill_time: self.fill_time + other.fill_time,
            propagate_time: self.propagate_time + other.propagate_time,
            tile_time: self.tile_time + other.tile_time,
        }
    }

    /// Stage-by-stage quotient, rounded down: the average over `divisor` frames.
    pub fn div(self, divisor: usize) -> (r: RenderTime)
        requires
            0 < divisor <= u32::MAX,
        ensures
            r.bin_time == self.bin_time / (divisor as u64),
            r.fill_time == self.fill_time / (divisor as u64),
            r.propagate_time == self.propagate_time / (divisor as u64),
            r.tile_time == self.tile_time / (divisor as u64),
    {
        let divisor = divisor as u64;
        RenderTime {
            bin_time: self.bin_time / divisor,
            fill_time: self.fill_time / divisor,
            propagate_time: self.propagate_time / divisor,
            tile_time: self.tile_time / divisor,
        }
    }
}

} // verus!
