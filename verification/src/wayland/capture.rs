//! The decisions of a screen capture before locking: which buffers may be
//! allocated within the memory limits, when a frame counts as complete, and how
//! a completed frame becomes a normalized, blurred background.
//!
//! The screencopy protocol and the shared memory live outside the library; each
//! method here takes one protocol event and says what to do next.

use vstd::prelude::*;

use crate::renderer::background::{
    blurred, dimensions_supported, normalized, BackgroundImage, ImageError,
};

verus! {

/// The most pixels that one captured output may have.
pub const MAX_CAPTURE_PIXELS: u64 = 16_777_216;

/// The most bytes that all capture buffers together may take.
pub const MAX_TOTAL_CAPTURE_BYTES: u64 = 268_435_456;

/// The shared-memory formats that the capture accepts.
#[derive(Clone, Copy, Debug, Eq, PartialEq, Structural)]
pub enum ShmFormat {
    Argb8888,
    Xrgb8888,
}

/// The buffer that the compositor asks for.
#[derive(Clone, Copy, Debug, Eq, PartialEq, Structural)]
pub struct BufferParameters {
    pub format: ShmFormat,
    pub width: u32,
    pub height: u32,
    pub stride: u32,
}

/// Why a capture stopped.
#[derive(Clone, Debug, Eq, PartialEq)]
pub enum CaptureFailure {
    /// The compositor named a frame that was never requested.
    UnknownFrame,
    /// The compositor completed a frame that was never requested.
    UnknownCompletedFrame,
    /// The compositor refused the capture.
    Rejected,
    /// No buffer in a supported format was offered.
    UnsupportedFormat,
    /// A frame completed without its buffer.
    Incomplete,
    /// The buffer would break the memory limits.
    MemoryLimit,
    /// The buffer's dimensions do not fit the shared-memory protocol.
    ShmLimit,
    /// The buffer does not fit the address space.
    PlatformLimit,
    /// Allocating the buffer failed, for the given reason.
    Allocation(String),
    /// The captured pixels could not be normalized.
    Image(ImageError),
}

/// One output being captured.
pub struct PendingCapture {
    pub name: String,
    pub parameters: Option<BufferParameters>,
    pub has_buffer: bool,
    pub y_inverted: bool,
    pub finished: bool,
}

/// A completed capture: the output's name and its normalized, blurred image.
pub struct CapturedOutput {
    pub name: String,
    pub image: BackgroundImage,
}

/// What to do after a buffer offer.
#[derive(Clone, Copy, Debug, Eq, PartialEq, Structural)]
pub enum CopyDecision {
    /// Nothing to allocate; a failure, if any, is recorded.
    Skip,
    /// Allocate a zeroed pool of `size` bytes and copy the frame into a buffer of
    /// these dimensions.
    Allocate { size: usize, width: i32, height: i32, stride: i32, format: ShmFormat },
}

/// The bytes a buffer of these parameters takes, saturated at the largest `u64`.
pub open spec fn buffer_bytes(parameters: BufferParameters) -> int {
    if parameters.stride * parameters.height > u64::MAX {
        u64::MAX as int
    } else {
        parameters.stride * parameters.height
    }
}

/// The pixels of a buffer, saturated at the largest `u64`.
pub open spec fn pixel_count(parameters: BufferParameters) -> int {
    if parameters.width * parameters.height > u64::MAX {
        u64::MAX as int
    } else {
        parameters.width * parameters.height
    }
}

/// The buffer stays within the memory limits, given what is already allocated.
pub open spec fn within_limits(parameters: BufferParameters, allocated: u64) -> bool {
    &&& pixel_count(parameters) > 0
    &&& pixel_count(parameters) <= MAX_CAPTURE_PIXELS
    &&& parameters.stride >= parameters.width * 4
    &&& buffer_bytes(parameters) <= MAX_TOTAL_CAPTURE_BYTES - allocated
}

/// The buffer's dimensions fit the signed 32-bit fields of the protocol.
pub open spec fn fits_shm(parameters: BufferParameters) -> bool {
    &&& parameters.width <= i32::MAX
    &&& parameters.height <= i32::MAX
    &&& parameters.stride <= i32::MAX
}

/// A completed output as a value: its name and the size and pixels of its image.
pub struct CapturedModel {
    pub name: Seq<char>,
    pub width: nat,
    pub height: nat,
    pub pixels: Seq<u8>,
}

impl View for CapturedOutput {
    type V = CapturedModel;

    open spec fn view(&self) -> CapturedModel {
        CapturedModel {
            name: self.name@,
            width: self.image.spec_width(),
            height: self.image.spec_height(),
            pixels: self.image.spec_pixels(),
        }
    }
}

/// What a capture session holds, as a value.
pub struct CaptureModel {
    pub pending: Seq<PendingCapture>,
    pub completed: Seq<CapturedModel>,
    pub failure: Option<CaptureFailure>,
    pub blur_radius: u32,
    pub allocated_bytes: u64,
}

/// The decision state of a capture of all outputs.
pub struct CaptureSession {
    pending: Vec<PendingCapture>,
    completed: Vec<CapturedOutput>,
    failure: Option<CaptureFailure>,
    blur_radius: u32,
    allocated_bytes: u64,
}

impl View for CaptureSession {
    type V = CaptureModel;

    closed spec fn view(&self) -> CaptureModel {
        CaptureModel {
            pending: self.pending@,
            completed: self.completed@.map_values(|captured: CapturedOutput| captured@),
            failure: self.failure,
            blur_radius: self.blur_radius,
            allocated_bytes: self.allocated_bytes,
        }
    }
}

impl CaptureSession {
    /// All buffers together stay within the memory limit, and every completed
    /// image is well formed.
    pub closed spec fn well_formed(&self) -> bool {
        &&& self.allocated_bytes <= MAX_TOTAL_CAPTURE_BYTES
        &&& forall|i: int|
            0 <= i < self.completed@.len() ==> (#[trigger] self.completed@[i]).image.well_formed()
    }

    /// An empty session whose images will be blurred with `blur_radius`.
    pub fn new(blur_radius: u32) -> (session: Self)
        ensures
            session.well_formed(),
            session@.pending == Seq::<PendingCapture>::empty(),
            session@.completed == Seq::<CapturedModel>::empty(),
            session@.failure is None,
            session@.blur_radius == blur_radius,
            session@.allocated_bytes == 0,
    {
        CaptureSession {
            pending: Vec::new(),
            completed: Vec::new(),
            failure: None,
            blur_radius,
            allocated_bytes: 0,
        }
    }

    /// Requests a capture of the output `name`; returns the frame's index.
    pub fn add_output(&mut self, name: String) -> (index: usize)
        requires
            old(self)@.pending.len() < usize::MAX,
        ensures
            final(self).well_formed() == old(self).well_formed(),
            index == old(self)@.pending.len(),
            final(self)@ == (CaptureModel {
                pending: old(self)@.pending.push(
                    PendingCapture {
                        name,
                        parameters: None,
                        has_buffer: false,
                        y_inverted: false,
                        finished: false,
                    },
                ),
                ..old(self)@
            }),
    {
        let index = self.pending.len();
        self.pending.push(
            PendingCapture {
                name,
                parameters: None,
                has_buffer: false,
                y_inverted: false,
                finished: false,
            },
        );
        index
    }

    /// Whether the event loop can stop: every frame completed or a failure occurred.
    pub fn done(&self) -> (done: bool)
        ensures
            done == (self@.completed.len() >= self@.pending.len() || self@.failure is Some),
    {
        self.completed.len() >= self.pending.len() || self.failure.is_some()
    }

    /// The compositor offers a buffer for frame `index`; `parameters` is `None` for
    /// a format that the capture does not accept, which is ignored.
    pub fn on_buffer(&mut self, index: usize, parameters: Option<BufferParameters>) -> (decision:
        CopyDecision)
        requires
            old(self).well_formed(),
        ensures
            final(self).well_formed(),
            parameters is None ==> (decision == CopyDecision::Skip && final(self)@ == old(self)@),
            parameters matches Some(offer) ==> {
                let offered = if index < old(self)@.pending.len() {
                    old(self)@.pending.update(
                        index as int,
                        PendingCapture { parameters: Some(offer), ..old(self)@.pending[index as int] },
                    )
                } else {
                    old(self)@.pending
                };
                copy_outcome(
                    CaptureModel { pending: offered, ..old(self)@ },
                    index,
                    final(self)@,
                    decision,
                )
            },
    {
        let offer = match parameters {
            Some(offer) => offer,
            None => {
                return CopyDecision::Skip;
            },
        };
        if index < self.pending.len() {
            let mut entry = self.pending.remove(index);
            entry.parameters = Some(offer);
            self.pending.insert(index, entry);
            proof {
                assert(self.pending@ =~= old(self)@.pending.update(
                    index as int,
                    PendingCapture { parameters: Some(offer), ..old(self)@.pending[index as int] },
                ));
            }
        }
        self.start_copy(index)
    }

    fn start_copy(&mut self, index: usize) -> (decision: CopyDecision)
        requires
            old(self).well_formed(),
        ensures
            final(self).well_formed(),
            copy_outcome(old(self)@, index, final(self)@, decision),
    {
        if index >= self.pending.len() {
            self.failure = Some(CaptureFailure::UnknownFrame);
            return CopyDecision::Skip;
        }
        if self.pending[index].has_buffer || self.pending[index].finished {
            return CopyDecision::Skip;
        }
        let parameters = match self.pending[index].parameters {
            Some(parameters) => parameters,
            None => {
                self.failure = Some(CaptureFailure::UnsupportedFormat);
                return CopyDecision::Skip;
            },
        };
        let pixels = saturating_product(parameters.width as u64, parameters.height as u64);
        let bytes = saturating_product(parameters.stride as u64, parameters.height as u64);
        let minimum_stride = (parameters.width as u64) * 4;
        if pixels == 0 || pixels > MAX_CAPTURE_PIXELS || (parameters.stride as u64) < minimum_stride
            || bytes > MAX_TOTAL_CAPTURE_BYTES - self.allocated_bytes {
            self.failure = Some(CaptureFailure::MemoryLimit);
            return CopyDecision::Skip;
        }
        if parameters.width > 2147483647 || parameters.height > 2147483647 || parameters.stride
            > 2147483647 {
            self.failure = Some(CaptureFailure::ShmLimit);
            return CopyDecision::Skip;
        }
        if bytes > usize::MAX as u64 {
            self.failure = Some(CaptureFailure::PlatformLimit);
            return CopyDecision::Skip;
        }
        let mut entry = self.pending.remove(index);
        entry.has_buffer = true;
        self.pending.insert(index, entry);
        self.allocated_bytes = self.allocated_bytes + bytes;
        proof {
            assert(self.pending@ =~= old(self)@.pending.update(
                index as int,
                PendingCapture { has_buffer: true, ..old(self)@.pending[index as int] },
            ));
        }
        CopyDecision::Allocate {
            size: bytes as usize,
            width: parameters.width as i32,
            height: parameters.height as i32,
            stride: parameters.stride as i32,
            format: parameters.format,
        }
    }

    /// Allocating a buffer failed for `reason`; the capture stops.
    pub fn allocation_failed(&mut self, reason: String)
        ensures
            final(self).well_formed() == old(self).well_formed(),
            final(self)@ == (CaptureModel {
                failure: Some(CaptureFailure::Allocation(reason)),
                ..old(self)@
            }),
    {
        self.failure = Some(CaptureFailure::Allocation(reason));
    }

    /// The compositor reports whether frame `index` is stored upside down.
    pub fn on_flags(&mut self, index: usize, y_inverted: bool)
        ensures
            final(self).well_formed() == old(self).well_formed(),
            final(self)@ == (CaptureModel {
                pending: if index < old(self)@.pending.len() {
                    old(self)@.pending.update(
                        index as int,
                        PendingCapture { y_inverted, ..old(self)@.pending[index as int] },
                    )
                } else {
                    old(self)@.pending
                },
                ..old(self)@
            }),
    {
        if index < self.pending.len() {
            let mut entry = self.pending.remove(index);
            entry.y_inverted = y_inverted;
            self.pending.insert(index, entry);
            proof {
                assert(self.pending@ =~= old(self)@.pending.update(
                    index as int,
                    PendingCapture { y_inverted, ..old(self)@.pending[index as int] },
                ));
            }
        }
    }

    /// The compositor refused the capture; it stops.
    pub fn on_failed(&mut self)
        ensures
            final(self).well_formed() == old(self).well_formed(),
            final(self)@ == (CaptureModel { failure: Some(CaptureFailure::Rejected), ..old(self)@ }),
    {
        self.failure = Some(CaptureFailure::Rejected);
    }

    /// Frame `index` is ready: returns its buffer parameters when its pixels should
    /// be read, and records a failure when the frame cannot be complete.
    pub fn on_ready(&mut self, index: usize) -> (read: Option<BufferParameters>)
        ensures
            final(self).well_formed() == old(self).well_formed(),
            index >= old(self)@.pending.len() ==> (read is None && final(self)@ == (CaptureModel {
                failure: Some(CaptureFailure::UnknownCompletedFrame),
                ..old(self)@
            })),
            index < old(self)@.pending.len() ==> {
                let entry = old(self)@.pending[index as int];
                let taken = old(self)@.pending.update(
                    index as int,
                    PendingCapture { has_buffer: false, ..entry },
                );
                &&& entry.finished ==> (read is None && final(self)@ == old(self)@)
                &&& (!entry.finished && entry.parameters is None) ==> (read is None && final(self)@
                    == (CaptureModel {
                    failure: Some(CaptureFailure::UnsupportedFormat),
                    ..old(self)@
                }))
                &&& (!entry.finished && entry.parameters is Some && !entry.has_buffer) ==> (read
                    is None && final(self)@ == (CaptureModel {
                    failure: Some(CaptureFailure::Incomplete),
                    ..old(self)@
                }))
                &&& (!entry.finished && entry.parameters is Some && entry.has_buffer) ==> (read
                    == entry.parameters && final(self)@ == (CaptureModel {
                    pending: taken,
                    ..old(self)@
                }))
            },
    {
        if index >= self.pending.len() {
            self.failure = Some(CaptureFailure::UnknownCompletedFrame);
            return None;
        }
        if self.pending[index].finished {
            return None;
        }
        let parameters = match self.pending[index].parameters {
            Some(parameters) => parameters,
            None => {
                self.failure = Some(CaptureFailure::UnsupportedFormat);
                return None;
            },
        };
        if !self.pending[index].has_buffer {
            self.failure = Some(CaptureFailure::Incomplete);
            return None;
        }
        let mut entry = self.pending.remove(index);
        entry.has_buffer = false;
        self.pending.insert(index, entry);
        proof {
            assert(self.pending@ =~= old(self)@.pending.update(
                index as int,
                PendingCapture { has_buffer: false, ..old(self)@.pending[index as int] },
            ));
        }
        Some(parameters)
    }

    /// Normalizes and blurs the pixels of frame `index`, read from its buffer; the
    /// frame is then complete, or the capture stops with the image error.
    pub fn complete_frame(&mut self, index: usize, pixels: &[u8])
        requires
            old(self).well_formed(),
            index < old(self)@.pending.len(),
            old(self)@.pending[index as int].parameters is Some,
        ensures
            final(self).well_formed(),
            ({
                let entry = old(self)@.pending[index as int];
                let offer = entry.parameters->Some_0;
                &&& !dimensions_supported(offer.width, offer.height, offer.stride) ==> final(self)@
                    == (CaptureModel {
                    failure: Some(CaptureFailure::Image(ImageError::Dimensions)),
                    ..old(self)@
                })
                &&& (dimensions_supported(offer.width, offer.height, offer.stride) && pixels@.len()
                    < offer.stride * offer.height) ==> final(self)@ == (CaptureModel {
                    failure: Some(CaptureFailure::Image(ImageError::BufferTooSmall)),
                    ..old(self)@
                })
                &&& (dimensions_supported(offer.width, offer.height, offer.stride) && pixels@.len()
                    >= offer.stride * offer.height) ==> (final(self)@ == (CaptureModel {
                    pending: old(self)@.pending.update(
                        index as int,
                        PendingCapture { finished: true, ..entry },
                    ),
                    completed: old(self)@.completed.push(
                        CapturedModel {
                            name: entry.name@,
                            width: offer.width as nat,
                            height: offer.height as nat,
                            pixels: blurred(
                                normalized(
                                    pixels@,
                                    offer.width as int,
                                    offer.height as int,
                                    offer.stride as int,
                                    entry.y_inverted,
                                ),
                                offer.width as int,
                                offer.height as int,
                                old(self)@.blur_radius,
                            ),
                        },
                    ),
                    ..old(self)@
                }))
            }),
    {
        let parameters = match self.pending[index].parameters {
            Some(parameters) => parameters,
            None => {
                return;
            },
        };
        let y_inverted = self.pending[index].y_inverted;
        match BackgroundImage::from_argb8888(
            parameters.width,
            parameters.height,
            parameters.stride,
            pixels,
            y_inverted,
        ) {
            Ok(image) => {
                let mut image = image;
                image.blur(self.blur_radius);
                let mut entry = self.pending.remove(index);
                let name = entry.name.clone();
                entry.finished = true;
                self.pending.insert(index, entry);
                self.completed.push(CapturedOutput { name, image });
                proof {
                    assert(self.completed@.map_values(|captured: CapturedOutput| captured@)
                        =~= old(self)@.completed.push(self.completed@.last()@));
                    assert(self.pending@ =~= old(self)@.pending.update(
                        index as int,
                        PendingCapture { finished: true, ..old(self)@.pending[index as int] },
                    ));
                }
            },
            Err(error) => {
                self.failure = Some(CaptureFailure::Image(error));
            },
        }
    }

    /// The captured outputs once every frame completed; otherwise the failure, or
    /// an incomplete capture when frames are missing.
    pub fn into_result(self) -> (result: Result<Vec<CapturedOutput>, CaptureFailure>)
        requires
            self.well_formed(),
        ensures
            self@.failure matches Some(failure) ==> result == Err::<
                Vec<CapturedOutput>,
                CaptureFailure,
            >(failure),
            (self@.failure is None && self@.completed.len() != self@.pending.len()) ==> result
                == Err::<Vec<CapturedOutput>, CaptureFailure>(CaptureFailure::Incomplete),
            (self@.failure is None && self@.completed.len() == self@.pending.len()) ==> (
            result matches Ok(captured) && captured@.len() == self@.completed.len() && forall|i: int|
                0 <= i < captured@.len() ==> (#[trigger] captured@[i])@ == self@.completed[i]
                    && captured@[i].image.well_formed()),
    {
        match self.failure {
            Some(failure) => Err(failure),
            None => if self.completed.len() != self.pending.len() {
                Err(CaptureFailure::Incomplete)
            } else {
                Ok(self.completed)
            },
        }
    }
}

/// The state after `start_copy` on frame `index`, and what it decided.
pub open spec fn copy_outcome(
    before: CaptureModel,
    index: usize,
    after: CaptureModel,
    decision: CopyDecision,
) -> bool {
    if index >= before.pending.len() {
        decision == CopyDecision::Skip && after == (CaptureModel {
            failure: Some(CaptureFailure::UnknownFrame),
            ..before
        })
    } else {
        let entry = before.pending[index as int];
        if entry.has_buffer || entry.finished {
            decision == CopyDecision::Skip && after == before
        } else {
            match entry.parameters {
                None => decision == CopyDecision::Skip && after == (CaptureModel {
                    failure: Some(CaptureFailure::UnsupportedFormat),
                    ..before
                }),
                Some(offer) => if !within_limits(offer, before.allocated_bytes) {
                    decision == CopyDecision::Skip && after == (CaptureModel {
                        failure: Some(CaptureFailure::MemoryLimit),
                        ..before
                    })
                } else if !fits_shm(offer) {
                    decision == CopyDecision::Skip && after == (CaptureModel {
                        failure: Some(CaptureFailure::ShmLimit),
                        ..before
                    })
                } else if buffer_bytes(offer) > usize::MAX {
                    decision == CopyDecision::Skip && after == (CaptureModel {
                        failure: Some(CaptureFailure::PlatformLimit),
                        ..before
                    })
                } else {
                    &&& decision == (CopyDecision::Allocate {
                        size: buffer_bytes(offer) as usize,
                        width: offer.width as i32,
                        height: offer.height as i32,
                        stride: offer.stride as i32,
                        format: offer.format,
                    })
                    &&& after == (CaptureModel {
                        pending: before.pending.update(
                            index as int,
                            PendingCapture { has_buffer: true, ..entry },
                        ),
                        allocated_bytes: (before.allocated_bytes + buffer_bytes(offer)) as u64,
                        ..before
                    })
                },
            }
        }
    }
}

/// `a * b`, saturated at the largest `u64`.
fn saturating_product(a: u64, b: u64) -> (product: u64)
    ensures
        product == if a * b > u64::MAX {
            u64::MAX as int
        } else {
            a * b
        },
{
    match a.checked_mul(b) {
        Some(product) => product,
        None => u64::MAX,
    }
}

/// However the compositor behaves, the capture buffers together never exceed the
/// memory limit, and every buffer that may be allocated respects the per-output
/// limits.
pub proof fn lemma_allocation_stays_bounded(
    before: CaptureModel,
    index: usize,
    after: CaptureModel,
    decision: CopyDecision,
)
    requires
        before.allocated_bytes <= MAX_TOTAL_CAPTURE_BYTES,
        copy_outcome(before, index, after, decision),
    ensures
        after.allocated_bytes <= MAX_TOTAL_CAPTURE_BYTES,
        decision matches CopyDecision::Allocate { size, width, height, stride, .. } ==> (
        size <= MAX_TOTAL_CAPTURE_BYTES && width * height <= MAX_CAPTURE_PIXELS && stride >= width
            * 4 && size == stride * height),
{
    if index < before.pending.len() {
        let entry = before.pending[index as int];
        match entry.parameters {
            Some(offer) => {
                if within_limits(offer, before.allocated_bytes) && fits_shm(offer) {
                    assert(offer.width * offer.height <= u64::MAX);
                }
            },
            None => {},
        }
    }
}

} // verus!
