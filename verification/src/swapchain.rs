use vstd::prelude::*;

verus! {

/// Number of entries at the front of `flags` that are not set.
pub open spec fn unset_run(flags: Seq<bool>) -> int
    decreases flags.len(),
{
    if flags.len() == 0 || flags.first() {
        0
    } else {
        1 + unset_run(flags.drop_first())
    }
}

/// Index of the first entry of `flags` that is set, or 0 if none is.
pub open spec fn preferred(flags: Seq<bool>) -> int {
    if unset_run(flags) < flags.len() {
        unset_run(flags)
    } else {
        0
    }
}

/// The entries before `unset_run` are not set, and the entry at it is set if
/// there is one.
pub proof fn lemma_unset_run(flags: Seq<bool>)
    ensures
        0 <= unset_run(flags) <= flags.len(),
        forall|i: int| 0 <= i < unset_run(flags) ==> !flags[i],
        unset_run(flags) < flags.len() ==> flags[unset_run(flags)],
    decreases flags.len(),
{
    if flags.len() > 0 && !flags.first() {
        let rest = flags.drop_first();
        lemma_unset_run(rest);
        assert forall|i: int| 0 <= i < unset_run(flags) implies !flags[i] by {
            if i > 0 {
                assert(rest[i - 1] == flags[i]);
            }
        }
        if unset_run(flags) < flags.len() {
            assert(rest[unset_run(rest)] == flags[unset_run(flags)]);
        }
    }
}

/// `preferred` names the first entry that is set, and the first entry of all
/// where none is set.
pub proof fn lemma_preferred(flags: Seq<bool>)
    ensures
        0 <= preferred(flags),
        flags.len() > 0 ==> preferred(flags) < flags.len(),
        forall|i: int| 0 <= i < preferred(flags) ==> !flags[i],
        (exists|i: int| 0 <= i < flags.len() && flags[i]) ==> flags[preferred(flags)],
        (forall|i: int| 0 <= i < flags.len() ==> !flags[i]) ==> preferred(flags) == 0,
{
    lemma_unset_run(flags);
}

/// What to do when the next frame could not be acquired.
#[derive(Clone, Copy, Debug, PartialEq, Eq, Structural)]
pub enum AcquireFailure {
    /// The surface was lost.
    Lost,
    /// The surface no longer matches the window.
    Outdated,
    /// The frame was not ready in time.
    Timeout,
    /// Anything else, such as memory that ran out.
    Other,
}

/// How a frame goes on after the attempt to acquire its image.
#[derive(Clone, Copy, Debug, PartialEq, Eq, Structural)]
pub enum FrameStep {
    /// Configure the surface anew and skip this frame.
    Reconfigure,
    /// Skip this frame and try again with the next.
    Skip,
    /// Give up: no frame can be rendered.
    Abort,
}

/// The size of the presentation surface, held within fixed bounds, and the
/// surface format and presentation mode that were chosen for it.
pub struct Swapchain {
    width: u32,
    height: u32,
    min_size: (u32, u32),
    max_size: (u32, u32),
    format: usize,
    present_mode: usize,
}

impl Swapchain {
    /// Width and height of the surface.
    pub closed spec fn size(&self) -> (u32, u32) {
        (self.width, self.height)
    }

    /// The least width and height that the surface may have.
    pub closed spec fn least(&self) -> (u32, u32) {
        self.min_size
    }

    /// The greatest width and height that the surface may have.
    pub closed spec fn greatest(&self) -> (u32, u32) {
        self.max_size
    }

    /// Index of the chosen format among those that the surface supports.
    pub closed spec fn chosen_format(&self) -> int {
        self.format as int
    }

    /// Index of the chosen presentation mode among those that the surface
    /// supports.
    pub closed spec fn chosen_present_mode(&self) -> int {
        self.present_mode as int
    }

    /// What every swapchain satisfies: its bounds are in order and its size
    /// lies within them.
    pub open spec fn wf(&self) -> bool {
        &&& self.least().0 <= self.size().0 <= self.greatest().0
        &&& self.least().1 <= self.size().1 <= self.greatest().1
    }

    /// `value` held within `low` and `high`.
    pub open spec fn clamped(value: u32, low: u32, high: u32) -> u32 {
        if value < low {
            low
        } else if value > high {
            high
        } else {
            value
        }
    }

    /// Index of the first entry of `flags` that is set, or 0 if none is.
    pub fn first_set(flags: &Vec<bool>) -> (index: usize)
        ensures
            index == preferred(flags@),
    {
        proof {
            lemma_unset_run(flags@);
        }
        let mut i: usize = 0;
        while i < flags.len()
            invariant
                i <= flags@.len(),
                i <= unset_run(flags@) <= flags@.len(),
                unset_run(flags@) < flags@.len() ==> flags@[unset_run(flags@)],
                forall|j: int| 0 <= j < unset_run(flags@) ==> !flags@[j],
            decreases flags@.len() - i,
        {
            if flags[i] {
                return i;
            }
            i += 1;
        }
        0
    }

    /// Makes the swapchain of a surface. `srgb` tells of each format that the
    /// surface supports whether it is an sRGB format, `low_latency` of each
    /// presentation mode whether it presents the newest frame without
    /// blocking. The first sRGB format and the first such mode are chosen, and
    /// the first format and the first mode of all where there is none. The
    /// surface starts at 800 by 600 and is held between that size and 8000 by
    /// 8000.
    pub fn new(srgb: &Vec<bool>, low_latency: &Vec<bool>) -> (made: Result<Self, String>)
        requires
            srgb@.len() > 0,
            low_latency@.len() > 0,
        ensures
            made is Ok,
            made->Ok_0.wf(),
            made->Ok_0.size() == (800u32, 600u32),
            made->Ok_0.least() == (800u32, 600u32),
            made->Ok_0.greatest() == (8000u32, 8000u32),
            made->Ok_0.chosen_format() == preferred(srgb@),
            made->Ok_0.chosen_present_mode() == preferred(low_latency@),
            made->Ok_0.chosen_format() < srgb@.len(),
            made->Ok_0.chosen_present_mode() < low_latency@.len(),
    {
        proof {
            lemma_preferred(srgb@);
            lemma_preferred(low_latency@);
        }
        Ok(
            Swapchain {
                width: 800,
                height: 600,
                min_size: (800, 600),
                max_size: (8000, 8000),
                format: Self::first_set(srgb),
                present_mode: Self::first_set(low_latency),
            },
        )
    }

    /// Sets the size of the surface to the size asked for, held within the
    /// bounds.
    pub fn resize(&mut self, width: u32, height: u32)
        requires
            old(self).wf(),
        ensures
            final(self).wf(),
            final(self).size() == (
                Self::clamped(width, old(self).least().0, old(self).greatest().0),
                Self::clamped(height, old(self).least().1, old(self).greatest().1),
            ),
            final(self).least().0 <= final(self).size().0 <= final(self).greatest().0,
            final(self).least().1 <= final(self).size().1 <= final(self).greatest().1,
            final(self).least() == old(self).least(),
            final(self).greatest() == old(self).greatest(),
            final(self).chosen_format() == old(self).chosen_format(),
            final(self).chosen_present_mode() == old(self).chosen_present_mode(),
    {
        self.width = Self::hold(width, self.min_size.0, self.max_size.0);
        self.height = Self::hold(height, self.min_size.1, self.max_size.1);
    }

    fn hold(value: u32, low: u32, high: u32) -> (held: u32)
        requires
            low <= high,
        ensures
            held == Self::clamped(value, low, high),
            low <= held <= high,
    {
        if value < low {
            low
        } else if value > high {
            high
        } else {
            value
        }
    }

    /// Width of the surface.
    pub fn width(&self) -> (width: u32)
        ensures
            width == self.size().0,
    {
        self.width
    }

    /// Height of the surface.
    pub fn height(&self) -> (height: u32)
        ensures
            height == self.size().1,
    {
        self.height
    }

    /// The least width and height that the surface may have.
    pub fn min_size(&self) -> (least: (u32, u32))
        ensures
            least == self.least(),
    {
        self.min_size
    }

    /// The greatest width and height that the surface may have.
    pub fn max_size(&self) -> (greatest: (u32, u32))
        ensures
            greatest == self.greatest(),
    {
        self.max_size
    }

    /// Index of the chosen format among those that the surface supports.
    pub fn format(&self) -> (index: usize)
        ensures
            index == self.chosen_format(),
    {
        self.format
    }

    /// Index of the chosen presentation mode among those that the surface
    /// supports.
    pub fn present_mode(&self) -> (index: usize)
        ensures
            index == self.chosen_present_mode(),
    {
        self.present_mode
    }

    /// How the frame goes on after its image could not be acquired: a lost
    /// surface is configured anew and the frame skipped, a surface that is
    /// outdated or late costs the frame only, anything else ends rendering.
    pub fn after_failure(failure: AcquireFailure) -> (step: FrameStep)
        ensures
            failure == AcquireFailure::Lost ==> step == FrameStep::Reconfigure,
            failure == AcquireFailure::Outdated ==> step == FrameStep::Skip,
            failure == AcquireFailure::Timeout ==> step == FrameStep::Skip,
            failure == AcquireFailure::Other ==> step == FrameStep::Abort,
    {
        match failure {
            AcquireFailure::Lost => FrameStep::Reconfigure,
            AcquireFailure::Outdated => FrameStep::Skip,
            AcquireFailure::Timeout => FrameStep::Skip,
            AcquireFailure::Other => FrameStep::Abort,
        }
    }
}

} // verus!
