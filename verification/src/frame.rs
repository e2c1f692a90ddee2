//! Decisions of the per-frame presentation loop: when a window size is
//! drawable, when a resize needs a rebuild, which in-flight frame slot to
//! use, and when an entity's transform is pushed to the renderer.
use vstd::prelude::*;

verus! {

/// The null fence handle.
pub const NULL_FENCE: u64 = 0;

/// Whether a window size can be drawn to: both sides non-zero.
pub fn is_drawable(size: (u32, u32)) -> (drawable: bool)
    ensures
        drawable == (size.0 != 0 && size.1 != 0),
{
    size.0 != 0 && size.1 != 0
}

/// Whether a reported window size calls for rebuilding the swapchain: the
/// size is drawable and differs from the current extent.
pub fn resize_needed(new_size: (u32, u32), current_extent: (u32, u32)) -> (needed: bool)
    ensures
        needed == (new_size.0 != 0 && new_size.1 != 0 && new_size != current_extent),
{
    is_drawable(new_size) && !(new_size.0 == current_extent.0 && new_size.1 == current_extent.1)
}

/// Whether a resize changes the swapchain: the extent the surface allows for
/// the new window size differs from the swapchain's current extent. When it
/// does not, the swapchain and the frame fences are kept and only the
/// recorded window size is updated.
pub fn swapchain_extent_changed(allowed_extent: (u32, u32), swapchain_extent: (u32, u32)) -> (changed:
    bool)
    ensures
        changed == (allowed_extent != swapchain_extent),
{
    !(allowed_extent.0 == swapchain_extent.0 && allowed_extent.1 == swapchain_extent.1)
}

/// What to do with queued scene requests (loads and despawns).
#[derive(Clone, Copy, Debug, PartialEq, Eq, Structural)]
pub enum SceneEventAction {
    /// The renderer is not built yet: drop the queued requests so they do not
    /// pile up.
    Drain,
    /// Carry out the queued requests.
    Process,
}

/// Queued scene requests are carried out once the renderer exists and
/// dropped before that.
pub fn scene_event_action(renderer_ready: bool) -> (action: SceneEventAction)
    ensures
        renderer_ready ==> action == SceneEventAction::Process,
        !renderer_ready ==> action == SceneEventAction::Drain,
{
    if renderer_ready {
        SceneEventAction::Process
    } else {
        SceneEventAction::Drain
    }
}

/// The in-flight slot of frame number `frame_index`.
pub fn frame_slot(frame_index: usize, frames_in_flight: usize) -> (slot: usize)
    requires
        frames_in_flight > 0,
    ensures
        slot == frame_index % frames_in_flight,
        slot < frames_in_flight,
{
    frame_index % frames_in_flight
}

/// The number of the frame after `frame_index`, wrapping around.
pub fn next_frame_index(frame_index: usize) -> (next: usize)
    ensures
        next == if frame_index == usize::MAX { 0 } else { frame_index + 1 },
{
    if frame_index == usize::MAX {
        0
    } else {
        frame_index + 1
    }
}

/// Forgets the fences of frames whose command buffers were dropped: every
/// fence becomes the null handle, so the next wait skips it.
pub fn invalidate_stale_fences(fences: &mut Vec<u64>)
    ensures
        final(fences).len() == old(fences).len(),
        forall|i: int| 0 <= i < final(fences).len() ==> #[trigger] final(fences)@[i] == NULL_FENCE,
{
    let mut i: usize = 0;
    while i < fences.len()
        invariant
            i <= fences.len(),
            fences.len() == old(fences).len(),
            forall|k: int| 0 <= k < i ==> #[trigger] fences@[k] == NULL_FENCE,
        decreases fences.len() - i,
    {
        fences.set(i, NULL_FENCE);
        i = i + 1;
    }
}

/// Whether an entity's transform is pushed to the renderer this frame: it
/// changed, and not merely because the entity was just spawned with the
/// transform read back from the renderer.
pub fn transform_push_needed(changed: bool, added: bool) -> (push: bool)
    ensures
        push == (changed && !added),
{
    changed && !added
}

/// What to do after drawing a frame failed.
#[derive(Clone, Copy, Debug, PartialEq, Eq, Structural)]
pub enum FrameErrorAction {
    /// Rebuild the swapchain for this window size (width, height) and skip
    /// the frame.
    RebuildSwapchain(u32, u32),
    /// Skip the frame: no window to size the swapchain by, or it has no area.
    Skip,
    /// Report the error; nothing else.
    Report,
}

/// The decision after a failed frame: when the swapchain no longer matches
/// the surface (out of date or suboptimal), rebuild it for the window's
/// current size if there is a window and its size is drawable, else skip
/// the frame; any other error is only reported.
pub fn frame_error_action(swapchain_stale: bool, window_size: Option<(u32, u32)>) -> (action:
    FrameErrorAction)
    ensures
        !swapchain_stale ==> action == FrameErrorAction::Report,
        swapchain_stale ==> match window_size {
            Some(size) => if size.0 != 0 && size.1 != 0 {
                action == FrameErrorAction::RebuildSwapchain(size.0, size.1)
            } else {
                action == FrameErrorAction::Skip
            },
            None => action == FrameErrorAction::Skip,
        },
{
    if !swapchain_stale {
        return FrameErrorAction::Report;
    }
    match window_size {
        Some(size) => if is_drawable(size) {
            FrameErrorAction::RebuildSwapchain(size.0, size.1)
        } else {
            FrameErrorAction::Skip
        },
        None => FrameErrorAction::Skip,
    }
}

/// The per-frame state of the presentation loop: the number of the current
/// frame and, per in-flight slot, the fence of the last frame rendered in it.
pub struct FramePacing {
    frame_index: usize,
    fences: Vec<u64>,
}

impl FramePacing {
    /// The number of the current frame.
    pub closed spec fn index(&self) -> usize {
        self.frame_index
    }

    /// The fence of each in-flight slot.
    pub closed spec fn fence_slots(&self) -> Seq<u64> {
        self.fences@
    }

    /// The in-flight slot of the current frame.
    pub open spec fn slot(&self) -> int {
        self.index() as int % self.fence_slots().len() as int
    }

    /// Pacing for `frames_in_flight` slots, at frame zero, with no fences.
    pub fn new(frames_in_flight: usize) -> (pacing: Self)
        requires
            frames_in_flight > 0,
        ensures
            pacing.index() == 0,
            pacing.fence_slots() == Seq::new(frames_in_flight as nat, |i: int| NULL_FENCE),
    {
        let mut fences: Vec<u64> = Vec::new();
        let mut i: usize = 0;
        while i < frames_in_flight
            invariant
                i <= frames_in_flight,
                fences@ == Seq::new(i as nat, |k: int| NULL_FENCE),
            decreases frames_in_flight - i,
        {
            fences.push(NULL_FENCE);
            i = i + 1;
            assert(fences@ =~= Seq::new(i as nat, |k: int| NULL_FENCE));
        }
        FramePacing { frame_index: 0, fences }
    }

    /// The slot of the current frame and the fence to wait on before reusing
    /// it (the null fence when there is nothing to wait for).
    pub fn begin_frame(&self) -> (started: (usize, u64))
        requires
            self.fence_slots().len() > 0,
        ensures
            started.0 == self.slot(),
            started.1 == self.fence_slots()[self.slot()],
    {
        let slot = frame_slot(self.frame_index, self.fences.len());
        (slot, self.fences[slot])
    }

    /// Records the fence that signals when the current frame's rendering is
    /// done, in the current frame's slot.
    pub fn rendered(&mut self, fence: u64)
        requires
            old(self).fence_slots().len() > 0,
        ensures
            final(self).index() == old(self).index(),
            final(self).fence_slots() == old(self).fence_slots().update(old(self).slot(), fence),
    {
        let slot = frame_slot(self.frame_index, self.fences.len());
        self.fences.set(slot, fence);
    }

    /// Moves on to the next frame once the current one was presented.
    pub fn presented(&mut self)
        ensures
            final(self).index() == (if old(self).index() == usize::MAX {
                0
            } else {
                old(self).index() + 1
            }),
            final(self).fence_slots() == old(self).fence_slots(),
    {
        self.frame_index = next_frame_index(self.frame_index);
    }

    /// Forgets every recorded fence, after the command buffers they belong
    /// to were dropped.
    pub fn invalidate_fences(&mut self)
        ensures
            final(self).index() == old(self).index(),
            final(self).fence_slots().len() == old(self).fence_slots().len(),
            forall|i: int|
                0 <= i < final(self).fence_slots().len() ==> #[trigger] final(self).fence_slots()[i]
                    == NULL_FENCE,
    {
        invalidate_stale_fences(&mut self.fences);
    }
}

} // verus!
