//! The frame loop decisions of the renderer: whether a frame can be
//! rendered, how the timeline semaphore values of a frame are chosen, what
//! the answers of the presentation engine mean, and when the output must be
//! rebuilt.
//!
//! The calls into the graphics api are made outside; their answers come in
//! as `VkStatus` values.

use vstd::prelude::*;

verus! {

/// What the renderer does with the current frame.
#[derive(Copy, Clone, PartialEq, Eq, Structural, Debug)]
pub enum AcquireReturn {
    /// There is nothing to render to.
    Invalid,
    /// A swapchain image was acquired: record and submit the frame.
    Render,
    /// The output must be rebuilt first.
    Rebuild,
}

/// The answer of a call into the graphics api.
#[derive(Copy, Clone, PartialEq, Eq, Structural, Debug)]
pub enum VkStatus {
    Success,
    /// The swapchain no longer matches the surface exactly.
    Suboptimal,
    /// Any other error, by its code.
    Error(i32),
}

/// Errors of the frame loop.
#[derive(Copy, Clone, PartialEq, Eq, Structural, Debug)]
pub enum FrameError {
    /// Acquiring the next swapchain image failed with this code.
    Acquire(i32),
    /// The present call itself failed with this code.
    PresentCall(i32),
    /// Presenting the image failed with this code.
    Present(i32),
}

/// What must happen before the frame can be rendered.
#[derive(Copy, Clone, PartialEq, Eq, Structural, Debug)]
pub enum AcquireStep {
    /// The frame is decided already.
    Done(AcquireReturn),
    /// Wait for the previous drawings, then acquire the next image.
    SyncAndAcquire,
}

/// Timeline values of one frame: the upload signals `upload_signal`, the
/// rendering waits for `render_wait` and signals `render_signal`.
#[derive(Copy, Clone, PartialEq, Eq, Structural, Debug)]
pub struct SubmitValues {
    pub upload_signal: u64,
    pub render_wait: u64,
    pub render_signal: u64,
}

/// The timeline values of the frame submitted after a frame that ends at
/// `v`.
pub open spec fn submit_values(v: u64) -> SubmitValues {
    SubmitValues { upload_signal: (v + 1) as u64, render_wait: (v + 1) as u64, render_signal: (v + 2) as u64 }
}

/// The state of the output of the renderer.
#[derive(Copy, Clone, PartialEq, Eq, Structural, Debug)]
pub struct FrameOutput {
    /// The window has a size that can be rendered to.
    pub valid: bool,
    /// The swapchain handle, `0` before it exists.
    pub swapchain: u64,
    /// The swapchain must be rebuilt before the next frame.
    pub rebuild: bool,
    /// The value the drawings timeline semaphore reaches when the last
    /// submitted frame is done.
    pub drawings_value: u64,
    /// The size of the window.
    pub window_width: u32,
    pub window_height: u32,
    /// The swapchain image of the current frame.
    pub acquired_image_index: u32,
}

impl FrameOutput {
    /// An output with no window yet: not valid, no swapchain, no rebuild
    /// pending, the drawings timeline at zero, no window size, and no image
    /// acquired (the image index is `u32::MAX`).
    pub fn new() -> (o: Self)
        ensures
            !o.valid,
            o.swapchain == 0,
            !o.rebuild,
            o.drawings_value == 0,
            o.window_width == 0,
            o.window_height == 0,
            o.acquired_image_index == u32::MAX,
    {
        FrameOutput {
            valid: false,
            swapchain: 0,
            rebuild: false,
            drawings_value: 0,
            window_width: 0,
            window_height: 0,
            acquired_image_index: u32::MAX,
        }
    }

    /// The first step of a frame: nothing to render without a valid window
    /// or a swapchain, a rebuild when one is pending, else wait for the
    /// previous drawings and acquire an image.
    pub fn acquire_step(&self) -> (r: AcquireStep)
        ensures
            r == if !self.valid || self.swapchain == 0 {
                AcquireStep::Done(AcquireReturn::Invalid)
            } else if self.rebuild {
                AcquireStep::Done(AcquireReturn::Rebuild)
            } else {
                AcquireStep::SyncAndAcquire
            },
    {
        if !self.valid {
            return AcquireStep::Done(AcquireReturn::Invalid);
        }
        if self.swapchain == 0 {
            return AcquireStep::Done(AcquireReturn::Invalid);
        }
        if self.rebuild {
            return AcquireStep::Done(AcquireReturn::Rebuild);
        }
        AcquireStep::SyncAndAcquire
    }

    /// The timeline values of the next frame: the upload signals one past the
    /// last frame, the rendering waits for it and signals two past it, which
    /// becomes the value of the last submitted frame.
    pub fn prepare_submit(&mut self) -> (r: SubmitValues)
        requires
            old(self).drawings_value + 2 <= u64::MAX,
        ensures
            r == submit_values(old(self).drawings_value),
            *final(self) == (FrameOutput { drawings_value: (old(self).drawings_value + 2) as u64, ..*old(self) }),
    {
        let v = self.drawings_value;
        self.drawings_value = v + 2;
        SubmitValues { upload_signal: v + 1, render_wait: v + 1, render_signal: v + 2 }
    }

    /// Takes the answer of the image acquisition: on success the image
    /// becomes the current one and the frame is prepared; a suboptimal
    /// swapchain asks for a rebuild; any other error is returned.
    pub fn acquired(&mut self, status: VkStatus, image_index: u32, image_count: u32) -> (r: Result<
        (AcquireReturn, Option<SubmitValues>),
        FrameError,
    >)
        requires
            status == VkStatus::Success ==> image_index < image_count,
            old(self).drawings_value + 2 <= u64::MAX,
        ensures
            match status {
                VkStatus::Success => {
                    &&& r == Ok::<(AcquireReturn, Option<SubmitValues>), FrameError>(
                        (
                            AcquireReturn::Render,
                            Some(submit_values(old(self).drawings_value)),
                        ),
                    )
                    &&& *final(self) == (FrameOutput {
                        acquired_image_index: image_index,
                        drawings_value: (old(self).drawings_value + 2) as u64,
                        ..*old(self)
                    })
                },
                VkStatus::Suboptimal => {
                    &&& r == Ok::<(AcquireReturn, Option<SubmitValues>), FrameError>((AcquireReturn::Rebuild, None))
                    &&& *final(self) == *old(self)
                },
                VkStatus::Error(code) => {
                    &&& r == Err::<(AcquireReturn, Option<SubmitValues>), FrameError>(FrameError::Acquire(code))
                    &&& *final(self) == *old(self)
                },
            },
    {
        match status {
            VkStatus::Success => {
                self.acquired_image_index = image_index;
                let values = self.prepare_submit();
                Ok((AcquireReturn::Render, Some(values)))
            },
            VkStatus::Suboptimal => Ok((AcquireReturn::Rebuild, None)),
            VkStatus::Error(code) => Err(FrameError::Acquire(code)),
        }
    }

    /// Takes the answers of a present: the answer of the call and the
    /// answer for the swapchain. A suboptimal answer asks for a rebuild; the
    /// first error is returned, the call's before the swapchain's.
    pub fn present_result(&mut self, call: VkStatus, result: VkStatus) -> (r: Result<(), FrameError>)
        ensures
            final(self).rebuild == (old(self).rebuild || call == VkStatus::Suboptimal || result
                == VkStatus::Suboptimal),
            *final(self) == (FrameOutput { rebuild: final(self).rebuild, ..*old(self) }),
            r == match call {
                VkStatus::Error(code) => Err::<(), FrameError>(FrameError::PresentCall(code)),
                _ => match result {
                    VkStatus::Error(code) => Err::<(), FrameError>(FrameError::Present(code)),
                    _ => Ok::<(), FrameError>(()),
                },
            },
    {
        let mut final_result: Result<(), FrameError> = Ok(());
        match call {
            VkStatus::Success => {},
            VkStatus::Suboptimal => {
                self.rebuild = true;
            },
            VkStatus::Error(code) => {
                final_result = Err(FrameError::PresentCall(code));
            },
        }
        match result {
            VkStatus::Success => {},
            VkStatus::Suboptimal => {
                self.rebuild = true;
            },
            VkStatus::Error(code) => {
                final_result = match final_result {
                    Ok(()) => Err(FrameError::Present(code)),
                    old_result => old_result,
                };
            },
        }
        final_result
    }

    /// A window of `width` x `height` becomes the output. Returns whether the
    /// render target must be set up for it: only a window with both sides
    /// non zero can be rendered to.
    pub fn set_output(&mut self, width: u32, height: u32) -> (setup: bool)
        ensures
            setup == (width > 0 && height > 0),
            final(self).valid == setup,
            setup ==> *final(self) == (FrameOutput { valid: true, window_width: width, window_height: height, ..*old(self) }),
            !setup ==> *final(self) == (FrameOutput { valid: false, ..*old(self) }),
    {
        self.valid = width > 0 && height > 0;
        if !self.valid {
            return false;
        }
        self.window_width = width;
        self.window_height = height;
        true
    }

    /// The window was resized to `width` x `height`. Returns whether the
    /// render target must be rebuilt: only for a valid size that differs
    /// from the current one.
    pub fn resize_output(&mut self, width: u32, height: u32) -> (rebuild: bool)
        ensures
            rebuild == (width > 0 && height > 0 && !(old(self).window_width == width && old(self).window_height
                == height)),
            final(self).valid == (width > 0 && height > 0),
            rebuild ==> *final(self) == (FrameOutput { valid: true, window_width: width, window_height: height, ..*old(self) }),
            !rebuild ==> *final(self) == (FrameOutput { valid: width > 0 && height > 0, ..*old(self) }),
    {
        self.valid = width > 0 && height > 0;
        if !self.valid {
            return false;
        }
        if self.window_width == width && self.window_height == height {
            return false;
        }
        self.window_width = width;
        self.window_height = height;
        true
    }

    /// The output was rebuilt: no rebuild is pending any more.
    pub fn rebuilt(&mut self)
        ensures
            *final(self) == (FrameOutput { rebuild: false, ..*old(self) }),
    {
        self.rebuild = false;
    }
}

/// Each frame moves the drawings timeline two steps further: the rendering
/// waits for the upload of its own frame, signals after it, and the next
/// frame only waits for and signals values past it.
pub proof fn lemma_frames_increase(v: u64)
    requires
        v + 4 <= u64::MAX,
    ensures
        submit_values(v).render_wait == submit_values(v).upload_signal,
        submit_values(v).render_signal > submit_values(v).render_wait,
        submit_values((v + 2) as u64).upload_signal > submit_values(v).render_signal,
        submit_values(v).upload_signal > v,
{
}

} // verus!
