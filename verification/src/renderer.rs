use vstd::prelude::*;
use winit::window::WindowId;

verus! {

#[verifier::external_type_specification]
#[verifier::external_body]
pub struct ExWindowId(WindowId);

/// Number of `update` calls between two progress reports of the mock renderer.
pub const REPORT_INTERVAL: u64 = 60;

/// What the contracts say of a [`MockRenderer`]: its target size and how many
/// frames it has been updated for.
pub struct RendererState {
    pub width: u32,
    pub height: u32,
    pub frame_count: u64,
}

/// A rendering backend that draws nothing: it keeps the size of the surface
/// it renders to and counts the frames it is updated for.
pub struct MockRenderer {
    window_id: WindowId,
    width: u32,
    height: u32,
    frame_count: u64,
}

impl View for MockRenderer {
    type V = RendererState;

    closed spec fn view(&self) -> RendererState {
        RendererState { width: self.width, height: self.height, frame_count: self.frame_count }
    }
}

impl MockRenderer {
    /// The window this renderer draws into.
    pub closed spec fn spec_window_id(&self) -> WindowId {
        self.window_id
    }

    /// A renderer for the window `window_id`, whose surface is `width` by
    /// `height`, that has rendered no frame yet.
    pub fn new(window_id: WindowId, width: u32, height: u32) -> (r: Self)
        ensures
            r@.width == width,
            r@.height == height,
            r@.frame_count == 0,
            r.spec_window_id() == window_id,
    {
        MockRenderer { window_id, width, height, frame_count: 0 }
    }

    /// Takes on a new surface size; the frame count and window stay.
    pub fn resize(&mut self, width: u32, height: u32)
        ensures
            final(self)@.width == width,
            final(self)@.height == height,
            final(self)@.frame_count == old(self)@.frame_count,
            final(self).spec_window_id() == old(self).spec_window_id(),
    {
        self.width = width;
        self.height = height;
    }

    /// Advances to the next frame and says whether that frame is one on
    /// which progress is reported: every [`REPORT_INTERVAL`]-th frame.
    /// The counter must not be at its limit: the count would overflow.
    pub fn update(&mut self) -> (report: bool)
        requires
            old(self)@.frame_count < u64::MAX,
        ensures
            final(self)@.frame_count == old(self)@.frame_count + 1,
            final(self)@.width == old(self)@.width,
            final(self)@.height == old(self)@.height,
            final(self).spec_window_id() == old(self).spec_window_id(),
            report == (final(self)@.frame_count % REPORT_INTERVAL == 0),
    {
        self.frame_count = self.frame_count + 1;
        self.frame_count % REPORT_INTERVAL == 0
    }

    /// The window this renderer draws into.
    pub fn window_id(&self) -> (id: WindowId)
        ensures
            id == self.spec_window_id(),
    {
        self.window_id
    }

    /// The width of the surface, in pixels.
    pub fn width(&self) -> (w: u32)
        ensures
            w == self@.width,
    {
        self.width
    }

    /// The height of the surface, in pixels.
    pub fn height(&self) -> (h: u32)
        ensures
            h == self@.height,
    {
        self.height
    }

    /// How many frames the renderer has been updated for.
    pub fn frame_count(&self) -> (n: u64)
        ensures
            n == self@.frame_count,
    {
        self.frame_count
    }
}

/// Whether a surface of `width` by `height` pixels can be drawn to: a
/// window resized to nothing in either direction (minimised, say) cannot.
pub fn is_drawable_size(width: u32, height: u32) -> (ok: bool)
    ensures
        ok == (width > 0 && height > 0),
{
    width > 0 && height > 0
}

/// Of any [`REPORT_INTERVAL`] consecutive updates, exactly one reports: the
/// `d`-th update after frame `start` reports exactly when `d` is the number of
/// frames left to the next multiple of the interval.
pub proof fn lemma_one_report_per_interval(start: u64, d: int)
    requires
        1 <= d <= REPORT_INTERVAL,
    ensures
        ((start + d) % (REPORT_INTERVAL as int) == 0) <==> d == REPORT_INTERVAL - start % REPORT_INTERVAL,
{
}

} // verus!
