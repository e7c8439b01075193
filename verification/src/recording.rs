//! Screenshots and recordings.

use crate::calendar::{date_of_day, CivilDate};
use crate::constants::{DAY, HOUR, MINUTE};
use crate::text::{
    decimal, lemma_number_reads_back, parsed_number, push_decimal, push_zero_padded, zero_padded,
};
use vstd::prelude::*;
use vstd::string::StringExecFns;

verus! {

/// Bytes of a pixel: red, green, blue and opacity.
pub const PIXEL: usize = 4;

/// The place of a byte of a pixel in an image of a width.
pub open spec fn byte_place(width: int, x: int, y: int, byte: int) -> int {
    (y * width + x) * PIXEL + byte
}

/// Whether an image has each second pixel of each second row: the last of them
/// ends within its bytes.
pub open spec fn has_used_pixels(width: u32, height: u32, bytes: int) -> bool {
    width / 2 == 0 || height / 2 == 0 || byte_place(
        width as int,
        2 * (width / 2 - 1),
        2 * (height / 2 - 1),
        PIXEL - 1,
    ) < bytes
}

/// Whether an image is every second pixel of every second row of another one.
pub open spec fn is_downsampled(small: Seq<u8>, data: Seq<u8>, width: u32, height: u32) -> bool {
    &&& small.len() == (width / 2) * (height / 2) * PIXEL
    &&& forall|x: int, y: int, byte: int|
        0 <= x < width / 2 && 0 <= y < height / 2 && 0 <= byte < PIXEL ==> small[
            #[trigger] byte_place((width / 2) as int, x, y, byte)
        ] == data[byte_place(width as int, 2 * x, 2 * y, byte)]
}

/// Whether bytes are every second pixel of every second row of an image, as far as
/// its bytes go: a pixel is among them just if the image has all of it.
pub open spec fn is_downsampled_as_far(
    small: Seq<u8>,
    data: Seq<u8>,
    width: u32,
    height: u32,
) -> bool {
    &&& small.len() <= (width / 2) * (height / 2) * PIXEL
    &&& forall|x: int, y: int, byte: int|
        0 <= x < width / 2 && 0 <= y < height / 2 && 0 <= byte < PIXEL ==> {
            let place = #[trigger] byte_place((width / 2) as int, x, y, byte);
            &&& place < small.len() <==> byte_place(width as int, 2 * x, 2 * y, PIXEL - 1)
                < data.len()
            &&& place < small.len() ==> small[place] == data[byte_place(
                width as int,
                2 * x,
                2 * y,
                byte,
            )]
        }
}

/// Every second pixel of every second row of an image, up to the first that the
/// image lacks.
fn taken_pixels(data: &Vec<u8>, width: u32, height: u32) -> (out: Vec<u8>)
    ensures
        is_downsampled_as_far(out@, data@, width, height),
{
    let bytes: usize = data.len();
    let columns: u32 = width / 2;
    let rows: u32 = height / 2;
    let mut out: Vec<u8> = Vec::new();
    let mut y: u32 = 0;
    while y < rows
        invariant
            columns == width / 2,
            rows == height / 2,
            bytes == data@.len(),
            y <= rows,
            out@.len() == (y * columns + 0) * PIXEL,
            takes_before(out@, data@, width, 0, y as int),
        decreases rows - y,
    {
        let mut x: u32 = 0;
        while x < columns
            invariant
                columns == width / 2,
                rows == height / 2,
                bytes == data@.len(),
                y < rows,
                x <= columns,
                out@.len() == (y * columns + x) * PIXEL,
                takes_before(out@, data@, width, x as int, y as int),
            decreases columns - x,
        {
            proof {
                assert(0 <= 2 * y * width <= 0xFFFF_FFFF * 0xFFFF_FFFF) by (nonlinear_arith)
                    requires
                        0 <= 2 * y <= 0xFFFF_FFFF,
                        0 <= width <= 0xFFFF_FFFF,
                ;
            }
            let source: u128 = (2 * y as u128 * width as u128 + 2 * x as u128) * 4;
            assert(source == byte_place(width as int, 2 * x, 2 * y, 0));
            if source + 3 >= bytes as u128 {
                proof {
                    lemma_taken(out@, data@, width, height, x as int, y as int);
                }
                return out;
            }
            let source: usize = source as usize;
            let ghost before = out@;
            out.push(data[source]);
            out.push(data[source + 1]);
            out.push(data[source + 2]);
            out.push(data[source + 3]);
            proof {
                assert forall|i: int, j: int, b: int|
                    0 <= i < columns && 0 <= b < PIXEL && (0 <= j < y || (j == y && i
                        < x + 1)) implies taken(
                    out@,
                    data@,
                    width,
                    #[trigger] byte_place(columns as int, i, j, b),
                    i,
                    j,
                    b,
                ) by {
                    lemma_place_order(columns as int, i, j, b, x as int, y as int);
                    if j < y || i < x {
                        assert(out@[byte_place(columns as int, i, j, b)] == before[byte_place(
                            columns as int,
                            i,
                            j,
                            b,
                        )]);
                    } else {
                        assert(byte_place(columns as int, i, j, b) == before.len() + b);
                        assert(byte_place(width as int, 2 * i, 2 * j, b) == source + b);
                    }
                }
            }
            x = x + 1;
        }
        proof {
            assert((y * columns + columns) * PIXEL == ((y + 1) * columns + 0) * PIXEL)
                by (nonlinear_arith);
        }
        y = y + 1;
    }
    proof {
        assert(rows * columns * PIXEL == columns * rows * PIXEL) by (nonlinear_arith);
        assert forall|i: int, j: int, b: int|
            0 <= i < columns && 0 <= j < rows && 0 <= b < PIXEL implies taken(
            out@,
            data@,
            width,
            #[trigger] byte_place(columns as int, i, j, b),
            i,
            j,
            b,
        ) && byte_place(columns as int, i, j, b) < out@.len() by {
            lemma_place_order(columns as int, i, j, b, 0, rows as int);
        }
    }
    out
}

/// Whether a byte is that of the pixel taken from an image, and the image has all
/// of that pixel.
spec fn taken(
    out: Seq<u8>,
    data: Seq<u8>,
    width: u32,
    place: int,
    x: int,
    y: int,
    byte: int,
) -> bool {
    &&& out[place] == data[byte_place(width as int, 2 * x, 2 * y, byte)]
    &&& byte_place(width as int, 2 * x, 2 * y, PIXEL - 1) < data.len()
}

/// Whether the pixels before a place have been taken.
spec fn takes_before(out: Seq<u8>, data: Seq<u8>, width: u32, x: int, y: int) -> bool {
    forall|i: int, j: int, b: int|
        0 <= i < width / 2 && 0 <= b < PIXEL && (0 <= j < y || (j == y && i < x)) ==> taken(
            out,
            data,
            width,
            #[trigger] byte_place((width / 2) as int, i, j, b),
            i,
            j,
            b,
        )
}

/// A byte of a pixel before another one is among the bytes before it, and one of a
/// pixel from there on is not.
proof fn lemma_place_order(columns: int, i: int, j: int, b: int, x: int, y: int)
    requires
        0 <= i < columns,
        0 <= j,
        0 <= b < PIXEL,
        0 <= x <= columns,
        0 <= y,
    ensures
        0 <= byte_place(columns, i, j, b),
        byte_place(columns, i, j, b) < (y * columns + x) * PIXEL <==> (j < y || (j == y && i < x)),
{
    assert(0 <= j * columns) by (nonlinear_arith)
        requires
            0 <= j,
            0 <= columns,
    ;
    if j < y {
        assert(j * columns + columns <= y * columns) by (nonlinear_arith)
            requires
                j < y,
                0 <= columns,
        ;
    } else if j > y {
        assert(y * columns + columns <= j * columns) by (nonlinear_arith)
            requires
                y < j,
                0 <= columns,
        ;
    }
}

/// With the first pixel that an image lacks all later ones are lacking too.
proof fn lemma_taken(out: Seq<u8>, data: Seq<u8>, width: u32, height: u32, x: int, y: int)
    requires
        0 <= x < width / 2,
        0 <= y < height / 2,
        out.len() == (y * (width / 2) + x) * PIXEL,
        takes_before(out, data, width, x, y),
        byte_place(width as int, 2 * x, 2 * y, PIXEL - 1) >= data.len(),
    ensures
        is_downsampled_as_far(out, data, width, height),
{
    let columns = (width / 2) as int;
    let rows = (height / 2) as int;
    assert((y * columns + x) * 4 <= columns * rows * 4) by (nonlinear_arith)
        requires
            0 <= x < columns,
            0 <= y < rows,
    ;
    assert forall|i: int, j: int, b: int|
        0 <= i < columns && 0 <= j < rows && 0 <= b < PIXEL implies {
        let place = #[trigger] byte_place(columns, i, j, b);
        &&& place < out.len() <==> byte_place(width as int, 2 * i, 2 * j, PIXEL - 1) < data.len()
        &&& place < out.len() ==> out[place] == data[byte_place(width as int, 2 * i, 2 * j, b)]
    } by {
        lemma_place_order(columns, i, j, b, x, y);
        if j < y || (j == y && i < x) {
            assert(taken(out, data, width, byte_place(columns, i, j, b), i, j, b));
        } else if j > y {
            assert(2 * y * width + 2 * width <= 2 * j * width) by (nonlinear_arith)
                requires
                    y < j,
                    0 <= width,
            ;
        }
    }
}

/// The image at half its width and height: every second pixel of every second row.
pub fn downsample_2x(data: &Vec<u8>, width: u32, height: u32) -> (r: (Vec<u8>, u32, u32))
    requires
        has_used_pixels(width, height, data@.len() as int),
    ensures
        r.1 == width / 2,
        r.2 == height / 2,
        is_downsampled(r.0@, data@, width, height),
{
    let out: Vec<u8> = taken_pixels(data, width, height);
    proof {
        lemma_lacking_pixels_make_no_image(out@, data@, width, height);
    }
    (out, width / 2, height / 2)
}

/// A picture that has all pixels that are taken is downsampled whole. One that
/// lacks some leaves too few bytes for an image of half its size.
pub proof fn lemma_lacking_pixels_make_no_image(
    small: Seq<u8>,
    data: Seq<u8>,
    width: u32,
    height: u32,
)
    requires
        is_downsampled_as_far(small, data, width, height),
    ensures
        has_used_pixels(width, height, data.len() as int) ==> is_downsampled(
            small,
            data,
            width,
            height,
        ),
        !has_used_pixels(width, height, data.len() as int) ==> !fits(
            width / 2,
            height / 2,
            small.len() as int,
        ),
{
    let columns = (width / 2) as int;
    let rows = (height / 2) as int;
    if columns == 0 || rows == 0 {
        assert(columns * rows == 0) by (nonlinear_arith)
            requires
                columns == 0 || rows == 0,
        ;
    } else {
        let last = byte_place(columns, columns - 1, rows - 1, 3);
        assert(((rows - 1) * columns + columns - 1) * 4 + 3 == columns * rows * 4 - 1)
            by (nonlinear_arith);
        assert(PIXEL * columns * rows == columns * rows * PIXEL) by (nonlinear_arith);
        assert(last < small.len() <==> has_used_pixels(width, height, data.len() as int));
        if last < small.len() {
            assert forall|x: int, y: int, b: int|
                0 <= x < columns && 0 <= y < rows && 0 <= b < PIXEL implies small[
                #[trigger] byte_place(columns, x, y, b)
            ] == data[byte_place(width as int, 2 * x, 2 * y, b)] by {
                lemma_place_order(columns, x, y, b, 0, rows);
                assert(rows * columns == columns * rows) by (nonlinear_arith);
            }
        }
    }
}

/// `image::RgbaImage::from_raw`, and `into_raw` of what it gives: bytes that hold
/// at least as many as the pixels of the image need make an image, which keeps
/// them as they are; fewer make none.
#[verifier::external_body]
fn image_bytes(width: u32, height: u32, data: Vec<u8>) -> (r: Option<Vec<u8>>)
    ensures
        match r {
            Some(bytes) => PIXEL * width <= usize::MAX && PIXEL * width * height <= data@.len()
                && bytes@ == data@,
            None => PIXEL * width > usize::MAX || PIXEL * width * height > data@.len(),
        },
{
    image::RgbaImage::from_raw(width, height, data).map(|image| image.into_raw())
}

/// Whether the bytes of a frame make an image of a size.
pub open spec fn fits(width: u32, height: u32, bytes: int) -> bool {
    PIXEL * width <= usize::MAX && PIXEL * width * height <= bytes
}

/// Each frame of a recording as an image of its size, in order. A frame that
/// lacks pixels has none.
pub fn frame_images(frames: Vec<Vec<u8>>, width: u32, height: u32) -> (r: Vec<Option<Vec<u8>>>)
    ensures
        r@.len() == frames@.len(),
        forall|i: int|
            0 <= i < r@.len() ==> match #[trigger] r@[i] {
                Some(bytes) => fits(width, height, frames@[i]@.len() as int) && bytes@
                    == frames@[i]@,
                None => !fits(width, height, frames@[i]@.len() as int),
            },
        forall|i: int|
            0 <= i < r@.len() && 4 * width <= usize::MAX ==> ((#[trigger] r@[i]) is Some <==> 4 * width
                * height <= frames@[i]@.len()),
{
    let ghost all = frames@;
    let mut rest: Vec<Vec<u8>> = frames;
    let mut given: Vec<Vec<u8>> = Vec::new();
    while rest.len() > 0
        invariant
            rest@.len() + given@.len() == all.len(),
            rest@ == all.take(rest@.len() as int),
            forall|a: int|
                0 <= a < given@.len() ==> #[trigger] given@[a] == all[all.len() - 1 - a],
        decreases rest@.len(),
    {
        match rest.pop() {
            Some(x) => {
                given.push(x);
            },
            None => {},
        }
    }
    let mut out: Vec<Option<Vec<u8>>> = Vec::new();
    while given.len() > 0
        invariant
            out@.len() + given@.len() == all.len(),
            forall|a: int|
                0 <= a < given@.len() ==> #[trigger] given@[a] == all[all.len() - 1 - a],
            forall|i: int|
                0 <= i < out@.len() ==> match #[trigger] out@[i] {
                    Some(bytes) => fits(width, height, all[i]@.len() as int) && bytes@ == all[i]@,
                    None => !fits(width, height, all[i]@.len() as int),
                },
        decreases given@.len(),
    {
        match given.pop() {
            Some(frame) => {
                assert(frame == all[out@.len() as int]);
                out.push(image_bytes(width, height, frame));
            },
            None => {},
        }
    }
    out
}

/// What is to be encoded: frames of a size, taken every so many rendered ones.
pub struct RecordingJob {
    pub frames: Vec<Vec<u8>>,
    pub width: u32,
    pub height: u32,
    pub frame_skip: u32,
    /// What is said of it.
    pub status: String,
}

/// What the recorder asks for in a rendered frame.
pub enum RecorderRequest {
    Nothing,
    /// To take a picture.
    Capture,
    /// To encode what has been recorded: the limit was reached.
    Encode(RecordingJob),
}

/// What toggling a recording does.
pub enum Toggled {
    Started,
    /// Stopped, with what is to be encoded, if anything was recorded.
    Stopped(Option<RecordingJob>),
}

/// The recorder.
pub struct RecordingState {
    pub recording: bool,
    pub frame_counter: u32,
    /// One in so many rendered frames is taken.
    pub frame_skip: u32,
    /// The frames taken, at half their width and height.
    pub frames: Vec<Vec<u8>>,
    pub gif_width: u32,
    pub gif_height: u32,
    pub max_frames: usize,
    pub screenshot_counter: u32,
}

/// What is said of frames that are to be encoded.
pub open spec fn encoding_text(frames: nat, limit_reached: bool) -> Seq<char> {
    "Encoding "@ + decimal(frames) + (if limit_reached {
        " frames (limit reached)..."@
    } else {
        " frames..."@
    })
}

impl RecordingState {
    /// Frames are taken now and then, and a recording has room for one more.
    pub open spec fn wf(self) -> bool {
        &&& self.frame_skip > 0
        &&& self.frames@.len() <= self.max_frames
        &&& self.recording ==> self.frames@.len() < self.max_frames
    }

    /// Whether a job is made of what the recorder holds.
    pub open spec fn makes(self, job: RecordingJob, limit_reached: bool) -> bool {
        &&& job.frames@ == self.frames@
        &&& job.width == self.gif_width
        &&& job.height == self.gif_height
        &&& job.frame_skip == self.frame_skip
        &&& job.status@ == encoding_text(self.frames@.len(), limit_reached)
    }

    /// Whether all but the frames, the state of the recording and its size is the same.
    pub open spec fn is_set_like(self, other: RecordingState) -> bool {
        &&& self.frame_skip == other.frame_skip
        &&& self.max_frames == other.max_frames
        &&& self.screenshot_counter == other.screenshot_counter
    }

    /// Whether toggling leads to a state, with an outcome: a recording starts
    /// anew, or it stops and all its frames are handed over.
    pub open spec fn toggles_to(self, after: RecordingState, r: Toggled) -> bool {
        &&& after.is_set_like(self)
        &&& after.gif_width == self.gif_width
        &&& after.gif_height == self.gif_height
        &&& after.recording == !self.recording
        &&& after.frames@.len() == 0
        &&& after.frame_counter == (if self.recording {
            self.frame_counter
        } else {
            0
        })
        &&& match r {
            Toggled::Started => !self.recording,
            Toggled::Stopped(Some(job)) => self.recording && self.frames@.len() > 0 && self.makes(
                job,
                false,
            ),
            Toggled::Stopped(None) => self.recording && self.frames@.len() == 0,
        }
    }

    /// Whether a rendered frame leads to a state, with a request: a recording
    /// takes one frame in so many, and what a full one has left is handed over.
    pub open spec fn renders_to(self, after: RecordingState, r: RecorderRequest) -> bool {
        &&& after.is_set_like(self)
        &&& after.gif_width == self.gif_width
        &&& after.gif_height == self.gif_height
        &&& after.recording == self.recording
        &&& after.frame_counter == (if self.recording {
            self.frame_counter + 1
        } else {
            self.frame_counter as int
        })
        &&& self.recording ==> after.frames@ == self.frames@
        &&& !self.recording ==> after.frames@.len() == 0
        &&& match r {
            RecorderRequest::Capture => self.recording && (self.frame_counter + 1) % (
            self.frame_skip as int) == 0,
            RecorderRequest::Encode(job) => !self.recording && self.frames@.len() > 0 && self.makes(
                job,
                true,
            ),
            RecorderRequest::Nothing => if self.recording {
                (self.frame_counter + 1) % (self.frame_skip as int) != 0
            } else {
                self.frames@.len() == 0
            },
        }
    }

    /// Whether a picture leads to a state: a recording takes it at half its size,
    /// as far as its bytes go, and stops when it is full.
    pub open spec fn collects_to(
        self,
        after: RecordingState,
        data: Seq<u8>,
        width: u32,
        height: u32,
    ) -> bool {
        if self.recording {
            &&& after.is_set_like(self)
            &&& after.frame_counter == self.frame_counter
            &&& after.gif_width == width / 2
            &&& after.gif_height == height / 2
            &&& after.frames@.len() == self.frames@.len() + 1
            &&& after.frames@.drop_last() == self.frames@
            &&& is_downsampled_as_far(after.frames@.last()@, data, width, height)
            &&& after.recording == (after.frames@.len() < self.max_frames)
        } else {
            after == self
        }
    }

    /// A recorder that takes every sixth frame, up to 3000.
    pub fn new() -> (r: RecordingState)
        ensures
            r.wf(),
            !r.recording,
            r.frame_counter == 0,
            r.frame_skip == 6,
            r.frames@.len() == 0,
            r.gif_width == 0 && r.gif_height == 0,
            r.max_frames == 3000,
            r.screenshot_counter == 0,
    {
        RecordingState {
            recording: false,
            frame_counter: 0,
            frame_skip: 6,
            frames: Vec::new(),
            gif_width: 0,
            gif_height: 0,
            max_frames: 3000,
            screenshot_counter: 0,
        }
    }

    /// Takes all frames out and makes a job of them.
    fn take_job(&mut self, limit_reached: bool) -> (job: RecordingJob)
        ensures
            old(self).makes(job, limit_reached),
            final(self).frames@.len() == 0,
            final(self).recording == old(self).recording,
            final(self).frame_counter == old(self).frame_counter,
            final(self).frame_skip == old(self).frame_skip,
            final(self).gif_width == old(self).gif_width,
            final(self).gif_height == old(self).gif_height,
            final(self).max_frames == old(self).max_frames,
            final(self).screenshot_counter == old(self).screenshot_counter,
    {
        let mut frames: Vec<Vec<u8>> = Vec::new();
        core::mem::swap(&mut frames, &mut self.frames);
        let mut status: String = String::from_str("Encoding ");
        push_decimal(&mut status, frames.len() as u64);
        if limit_reached {
            status.append(" frames (limit reached)...");
        } else {
            status.append(" frames...");
        }
        assert(status@ =~= encoding_text(frames@.len(), limit_reached));
        RecordingJob {
            frames,
            width: self.gif_width,
            height: self.gif_height,
            frame_skip: self.frame_skip,
            status,
        }
    }

    /// Starts a recording, or stops it and hands over what was recorded.
    pub fn toggle(&mut self) -> (r: Toggled)
        requires
            old(self).wf(),
            old(self).max_frames > 0,
        ensures
            final(self).wf(),
            old(self).toggles_to(*final(self), r),
    {
        if self.recording {
            self.recording = false;
            if self.frames.len() > 0 {
                Toggled::Stopped(Some(self.take_job(false)))
            } else {
                Toggled::Stopped(None)
            }
        } else {
            self.recording = true;
            self.frames.clear();
            self.frame_counter = 0;
            Toggled::Started
        }
    }

    /// A frame has been rendered. A recording takes one in so many; what a
    /// recording left when it reached its limit is handed over.
    pub fn rendered(&mut self) -> (r: RecorderRequest)
        requires
            old(self).wf(),
            old(self).recording ==> old(self).frame_counter < u32::MAX,
        ensures
            final(self).wf(),
            old(self).renders_to(*final(self), r),
    {
        if !self.recording {
            if self.frames.len() > 0 {
                return RecorderRequest::Encode(self.take_job(true));
            }
            return RecorderRequest::Nothing;
        }
        self.frame_counter = self.frame_counter + 1;
        if self.frame_counter % self.frame_skip == 0 {
            RecorderRequest::Capture
        } else {
            RecorderRequest::Nothing
        }
    }

    /// Takes a picture into the recording, at half its width and height. The
    /// recording stops when it is full. A picture that lacks one of the pixels
    /// that are taken counts as well; its frame makes no image. One that comes when
    /// nothing is recorded is passed over.
    pub fn collect(&mut self, data: &Vec<u8>, width: u32, height: u32)
        requires
            old(self).wf(),
        ensures
            final(self).wf(),
            old(self).collects_to(*final(self), data@, width, height),
            old(self).recording && has_used_pixels(width, height, data@.len() as int)
                ==> is_downsampled(final(self).frames@.last()@, data@, width, height),
            old(self).recording && !has_used_pixels(width, height, data@.len() as int) ==> !fits(
                width / 2,
                height / 2,
                final(self).frames@.last()@.len() as int,
            ),
    {
        if !self.recording {
            return;
        }
        let small: Vec<u8> = taken_pixels(data, width, height);
        proof {
            lemma_lacking_pixels_make_no_image(small@, data@, width, height);
        }
        self.gif_width = width / 2;
        self.gif_height = height / 2;
        let ghost before = self.frames@;
        self.frames.push(small);
        assert(self.frames@.drop_last() =~= before);
        if self.frames.len() >= self.max_frames {
            self.recording = false;
        }
    }

    /// The name of the next screenshot. Each has its own number.
    pub fn next_screenshot(&mut self) -> (r: String)
        requires
            old(self).screenshot_counter < u32::MAX,
        ensures
            r@ == "screenshot_"@ + decimal(old(self).screenshot_counter as nat) + ".png"@,
            *final(self) == (RecordingState {
                screenshot_counter: (old(self).screenshot_counter + 1) as u32,
                ..*old(self)
            }),
    {
        let mut out: String = String::from_str("screenshot_");
        push_decimal(&mut out, self.screenshot_counter as u64);
        out.append(".png");
        self.screenshot_counter = self.screenshot_counter + 1;
        out
    }
}

/// A recording that has become full is handed over whole at the next rendered
/// frame: no frame is lost, and none is left behind.
pub proof fn lemma_full_recording_is_handed_over(
    before: RecordingState,
    full: RecordingState,
    after: RecordingState,
    data: Seq<u8>,
    width: u32,
    height: u32,
    r: RecorderRequest,
)
    requires
        before.wf(),
        before.recording,
        before.collects_to(full, data, width, height),
        !full.recording,
        full.renders_to(after, r),
    ensures
        r is Encode,
        r->Encode_0.frames@ == full.frames@,
        full.frames@.drop_last() == before.frames@,
        full.frames@.len() == before.max_frames,
        after.frames@.len() == 0,
{
}

/// Stopping a recording that was just started hands nothing over.
pub proof fn lemma_empty_recording_is_dropped(
    idle: RecordingState,
    started: RecordingState,
    stopped: RecordingState,
    first: Toggled,
    second: Toggled,
)
    requires
        !idle.recording,
        idle.toggles_to(started, first),
        started.toggles_to(stopped, second),
    ensures
        first is Started,
        second == Toggled::Stopped(None),
        !stopped.recording,
        stopped.frames@.len() == 0,
{
}

/// The time for which a frame of a recording is shown, in milliseconds: as long
/// as it took at 60 frames a second, and at least ten.
pub fn frame_delay_ms(frame_skip: u32) -> (r: u32)
    requires
        frame_skip * 1000 <= u32::MAX,
    ensures
        r == (if frame_skip * 1000 / 60 < 10 {
            10
        } else {
            frame_skip * 1000 / 60
        }),
{
    let ms: u32 = frame_skip * 1000 / 60;
    if ms < 10 {
        10
    } else {
        ms
    }
}

/// The name of a recording of a day, at a time of the day in seconds.
pub open spec fn recording_name(date: CivilDate, seconds: int) -> Seq<char> {
    "recording-"@ + zero_padded(date.year as nat, 4) + zero_padded(date.month as nat, 2)
        + zero_padded(date.day as nat, 2) + "T"@ + zero_padded((seconds / 3600) as nat, 2)
        + zero_padded((seconds % 3600 / 60) as nat, 2) + zero_padded((seconds % 60) as nat, 2)
        + ".gif"@
}

/// The name of a recording saved so many seconds after the start of 1970.
pub fn recording_path(seconds: u64) -> (r: String)
    requires
        seconds / 86_400 <= i32::MAX,
    ensures
        exists|date: CivilDate|
            #![trigger date.number()]
            date.valid() && date.number() == seconds as int / 86_400 && date.year >= 1970 && r@
                == recording_name(date, seconds as int % 86_400),
{
    let date: CivilDate = date_of_day((seconds / DAY as u64) as u32);
    let rest: u64 = seconds % DAY as u64;
    let mut out: String = String::from_str("recording-");
    push_zero_padded(&mut out, date.year as u64, 4);
    push_zero_padded(&mut out, date.month as u64, 2);
    push_zero_padded(&mut out, date.day as u64, 2);
    out.append("T");
    push_zero_padded(&mut out, rest / HOUR as u64, 2);
    push_zero_padded(&mut out, rest % HOUR as u64 / MINUTE as u64, 2);
    push_zero_padded(&mut out, rest % MINUTE as u64, 2);
    out.append(".gif");
    assert(out@ =~= recording_name(date, rest as int));
    out
}

proof fn lemma_two_digits(n: nat)
    requires
        n < 100,
    ensures
        zero_padded(n, 2).len() == 2,
{
    reveal_with_fuel(decimal, 3);
}

proof fn lemma_four_digits(n: nat)
    requires
        n < 10_000,
    ensures
        zero_padded(n, 4).len() == 4,
{
    reveal_with_fuel(decimal, 5);
}

proof fn lemma_parts_of_name(date: CivilDate, seconds: int)
    requires
        date.valid(),
        0 <= date.year <= 9999,
        0 <= seconds < 86_400,
    ensures
        ({
            let name = recording_name(date, seconds);
            &&& name.len() == 29
            &&& name.subrange(10, 14) == zero_padded(date.year as nat, 4)
            &&& name.subrange(14, 16) == zero_padded(date.month as nat, 2)
            &&& name.subrange(16, 18) == zero_padded(date.day as nat, 2)
            &&& name.subrange(19, 21) == zero_padded((seconds / 3600) as nat, 2)
            &&& name.subrange(21, 23) == zero_padded((seconds % 3600 / 60) as nat, 2)
            &&& name.subrange(23, 25) == zero_padded((seconds % 60) as nat, 2)
        }),
{
    reveal_strlit("recording-");
    reveal_strlit("T");
    reveal_strlit(".gif");
    lemma_four_digits(date.year as nat);
    lemma_two_digits(date.month as nat);
    lemma_two_digits(date.day as nat);
    lemma_two_digits((seconds / 3600) as nat);
    lemma_two_digits((seconds % 3600 / 60) as nat);
    lemma_two_digits((seconds % 60) as nat);
    lemma_concatenation(
        "recording-"@,
        zero_padded(date.year as nat, 4),
        zero_padded(date.month as nat, 2),
        zero_padded(date.day as nat, 2),
        "T"@,
        zero_padded((seconds / 3600) as nat, 2),
        zero_padded((seconds % 3600 / 60) as nat, 2),
        zero_padded((seconds % 60) as nat, 2),
        ".gif"@,
    );
}

proof fn lemma_concatenation(
    head: Seq<char>,
    y: Seq<char>,
    mo: Seq<char>,
    d: Seq<char>,
    t: Seq<char>,
    h: Seq<char>,
    mi: Seq<char>,
    s: Seq<char>,
    tail: Seq<char>,
)
    requires
        head.len() == 10 && y.len() == 4 && mo.len() == 2 && d.len() == 2 && t.len() == 1,
        h.len() == 2 && mi.len() == 2 && s.len() == 2 && tail.len() == 4,
    ensures
        ({
            let name = head + y + mo + d + t + h + mi + s + tail;
            &&& name.len() == 29
            &&& name.subrange(10, 14) == y
            &&& name.subrange(14, 16) == mo
            &&& name.subrange(16, 18) == d
            &&& name.subrange(19, 21) == h
            &&& name.subrange(21, 23) == mi
            &&& name.subrange(23, 25) == s
        }),
{
    let name = head + y + mo + d + t + h + mi + s + tail;
    assert(name.subrange(10, 14) =~= y);
    assert(name.subrange(14, 16) =~= mo);
    assert(name.subrange(16, 18) =~= d);
    assert(name.subrange(19, 21) =~= h);
    assert(name.subrange(21, 23) =~= mi);
    assert(name.subrange(23, 25) =~= s);
}

/// Up to the year 9999 recordings saved at different seconds have different names.
pub proof fn lemma_recordings_have_their_own_names(
    a: CivilDate,
    s: int,
    b: CivilDate,
    t: int,
)
    requires
        a.valid() && 0 <= a.year <= 9999 && 0 <= s < 86_400,
        b.valid() && 0 <= b.year <= 9999 && 0 <= t < 86_400,
        recording_name(a, s) == recording_name(b, t),
    ensures
        a == b,
        s == t,
{
    lemma_parts_of_name(a, s);
    lemma_parts_of_name(b, t);
    lemma_same_number(a.year as nat, b.year as nat, 4);
    lemma_same_number(a.month as nat, b.month as nat, 2);
    lemma_same_number(a.day as nat, b.day as nat, 2);
    lemma_same_number((s / 3600) as nat, (t / 3600) as nat, 2);
    lemma_same_number((s % 3600 / 60) as nat, (t % 3600 / 60) as nat, 2);
    lemma_same_number((s % 60) as nat, (t % 60) as nat, 2);
}

proof fn lemma_same_number(m: nat, n: nat, width: nat)
    requires
        m <= u32::MAX,
        n <= u32::MAX,
        zero_padded(m, width) == zero_padded(n, width),
    ensures
        m == n,
{
    lemma_number_reads_back(m, width);
    lemma_number_reads_back(n, width);
}

/// What is said while frames are turned into images.
pub fn quantizing_text(frames: usize) -> (r: String)
    ensures
        r@ == "Quantizing "@ + decimal(frames as nat) + " frames..."@,
{
    let mut out: String = String::from_str("Quantizing ");
    push_decimal(&mut out, frames as u64);
    out.append(" frames...");
    out
}

/// What is said before images are written.
pub fn writing_text(frames: usize) -> (r: String)
    ensures
        r@ == "Writing "@ + decimal(frames as nat) + " frames..."@,
{
    let mut out: String = String::from_str("Writing ");
    push_decimal(&mut out, frames as u64);
    out.append(" frames...");
    out
}

/// What is said after an image has been written: something after every fiftieth.
pub fn written_text(written: usize, total: usize) -> (r: Option<String>)
    ensures
        r is Some <==> written % 50 == 0,
        r matches Some(text) ==> text@ == "Writing "@ + decimal(written as nat) + "/"@ + decimal(
            total as nat,
        ) + "..."@,
{
    if written % 50 != 0 {
        return None;
    }
    let mut out: String = String::from_str("Writing ");
    push_decimal(&mut out, written as u64);
    out.append("/");
    push_decimal(&mut out, total as u64);
    out.append("...");
    Some(out)
}

/// What is said when a recording has been saved.
pub fn saved_text(path: &str) -> (r: String)
    ensures
        r@ == "Saved "@ + path@,
{
    let mut out: String = String::from_str("Saved ");
    out.append(path);
    out
}

/// A picture of half the size has at each place the pixel from twice as far right and
/// twice as far down, four bytes each, row by row. It takes nothing of a picture
/// that is less than two pixels wide or high.
pub proof fn lemma_pixels_from_twice_as_far(
    small: Seq<u8>,
    data: Seq<u8>,
    width: u32,
    height: u32,
    x: int,
    y: int,
    byte: int,
)
    requires
        0 <= x < width / 2,
        0 <= y < height / 2,
        0 <= byte < 4,
    ensures
        byte_place(width as int, x, y, byte) == (y * width + x) * 4 + byte,
        is_downsampled(small, data, width, height) ==> small.len() == 4 * ((width / 2) * (height
            / 2)) && small[(y * (width / 2) + x) * 4 + byte] == data[(2 * y * width + 2 * x) * 4
            + byte],
        is_downsampled_as_far(small, data, width, height) ==> ((y * (width / 2) + x) * 4 + byte
            < small.len() <==> (2 * y * width + 2 * x) * 4 + 3 < data.len()),
        is_downsampled_as_far(small, data, width, height) && (y * (width / 2) + x) * 4 + byte
            < small.len() ==> small[(y * (width / 2) + x) * 4 + byte] == data[(2 * y * width + 2 * x)
            * 4 + byte],
        has_used_pixels(width, height, data.len() as int) ==> (2 * y * width + 2 * x) * 4 + byte
            < data.len(),
        !has_used_pixels(width, height, data.len() as int) ==> (2 * (height / 2 - 1) * width + 2 * (
        width / 2 - 1)) * 4 + 3 >= data.len(),
        has_used_pixels(1, height, 0) && has_used_pixels(width, 1, 0),
{
    let place = byte_place((width / 2) as int, x, y, byte);
    assert(place == (y * (width / 2) + x) * 4 + byte);
    assert(byte_place(width as int, 2 * x, 2 * y, byte) == (2 * y * width + 2 * x) * 4 + byte);
    assert(byte_place(width as int, 2 * x, 2 * y, 3) == (2 * y * width + 2 * x) * 4 + 3);
    if has_used_pixels(width, height, data.len() as int) {
        lemma_source(width as int, height as int, x, y, data.len() as int);
    }
    assert((width / 2) * (height / 2) * 4 == 4 * ((width / 2) * (height / 2)));
}

proof fn lemma_source(width: int, height: int, x: int, y: int, bytes: int)
    requires
        byte_place(width, 2 * (width / 2 - 1), 2 * (height / 2 - 1), 3) < bytes,
        0 <= x < width / 2,
        0 <= y < height / 2,
    ensures
        (2 * y * width + 2 * x) * 4 + 3 < bytes,
{
    let last = height / 2 - 1;
    assert(0 <= 2 * y * width <= 2 * last * width) by (nonlinear_arith)
        requires
            0 <= y <= last,
            0 <= width,
    ;
}

/// Toggling an idle recorder starts a recording without frames, whose count of
/// rendered frames starts anew. Toggling a recording stops it and hands over all its
/// frames, with their size, if there are any. The settings stay.
pub proof fn lemma_toggling_starts_or_hands_over(
    before: RecordingState,
    after: RecordingState,
    r: Toggled,
)
    requires
        before.toggles_to(after, r),
    ensures
        after.recording == !before.recording,
        after.frames@.len() == 0,
        after.frame_skip == before.frame_skip && after.max_frames == before.max_frames
            && after.screenshot_counter == before.screenshot_counter,
        after.gif_width == before.gif_width && after.gif_height == before.gif_height,
        !before.recording ==> r is Started && after.frame_counter == 0,
        before.recording ==> after.frame_counter == before.frame_counter,
        before.recording ==> match r {
            Toggled::Stopped(Some(job)) => job.frames@ == before.frames@ && job.frames@.len() > 0
                && job.width == before.gif_width && job.height == before.gif_height
                && job.frame_skip == before.frame_skip && job.status@ == "Encoding "@ + decimal(
                before.frames@.len(),
            ) + " frames..."@,
            Toggled::Stopped(None) => before.frames@.len() == 0,
            Toggled::Started => false,
        },
{
}

/// Each rendered frame of a recording is counted, and one in so many is taken. While
/// nothing is recorded, frames that are left are handed over, all of them.
pub proof fn lemma_one_frame_in_so_many_is_taken(
    before: RecordingState,
    after: RecordingState,
    r: RecorderRequest,
)
    requires
        before.frame_skip > 0,
        before.renders_to(after, r),
    ensures
        after.recording == before.recording,
        after.frame_skip == before.frame_skip && after.max_frames == before.max_frames
            && after.screenshot_counter == before.screenshot_counter,
        after.gif_width == before.gif_width && after.gif_height == before.gif_height,
        before.recording ==> after.frame_counter == before.frame_counter + 1 && after.frames@
            == before.frames@,
        before.recording ==> (r is Capture <==> after.frame_counter as int
            % before.frame_skip as int == 0) && (r is Capture || r is Nothing),
        !before.recording ==> after.frame_counter == before.frame_counter && after.frames@.len()
            == 0,
        !before.recording && before.frames@.len() == 0 ==> r is Nothing,
        !before.recording && before.frames@.len() > 0 ==> {
            &&& r matches RecorderRequest::Encode(job)
            &&& job.frames@ == before.frames@
            &&& job.width == before.gif_width && job.height == before.gif_height
            &&& job.frame_skip == before.frame_skip
            &&& job.status@ == "Encoding "@ + decimal(before.frames@.len())
                + " frames (limit reached)..."@
        },
{
}

/// A picture adds one frame to a recording and leaves those before it, sets half its
/// size, and ends the recording just if the limit is reached. Without a recording it
/// changes nothing.
pub proof fn lemma_pictures_are_added_up_to_the_limit(
    before: RecordingState,
    after: RecordingState,
    data: Seq<u8>,
    width: u32,
    height: u32,
)
    requires
        before.collects_to(after, data, width, height),
    ensures
        !before.recording ==> after == before,
        before.recording ==> {
            &&& after.frames@.len() == before.frames@.len() + 1
            &&& after.frames@.drop_last() == before.frames@
            &&& after.gif_width == width / 2 && after.gif_height == height / 2
            &&& after.recording <==> before.frames@.len() + 1 < before.max_frames
            &&& after.frame_counter == before.frame_counter
            &&& after.frame_skip == before.frame_skip && after.max_frames == before.max_frames
            &&& after.screenshot_counter == before.screenshot_counter
            &&& is_downsampled_as_far(after.frames@.last()@, data, width, height)
        },
{
}

/// The bytes of a frame make an image just if there are four for each pixel.
pub proof fn lemma_images_need_four_bytes_a_pixel(width: u32, height: u32, bytes: int)
    requires
        4 * width <= usize::MAX,
    ensures
        fits(width, height, bytes) <==> 4 * width * height <= bytes,
{
}

/// Up to the year 9999 the name of a recording tells its date and its time of day:
/// each part is read back from its place.
pub proof fn lemma_recording_name_reads_back(date: CivilDate, seconds: int)
    requires
        date.valid(),
        0 <= date.year <= 9999,
        0 <= seconds < 86_400,
    ensures
        ({
            let name = recording_name(date, seconds);
            &&& name.len() == 29
            &&& name.take(10) == "recording-"@ && name[18] == 'T' && name.skip(25) == ".gif"@
            &&& parsed_number(name.subrange(10, 14)) == Some(date.year as u32)
            &&& parsed_number(name.subrange(14, 16)) == Some(date.month)
            &&& parsed_number(name.subrange(16, 18)) == Some(date.day)
            &&& parsed_number(name.subrange(19, 21)) == Some((seconds / 3600) as u32)
            &&& parsed_number(name.subrange(21, 23)) == Some((seconds % 3600 / 60) as u32)
            &&& parsed_number(name.subrange(23, 25)) == Some((seconds % 60) as u32)
        }),
{
    lemma_parts_of_name(date, seconds);
    lemma_number_reads_back(date.year as nat, 4);
    lemma_number_reads_back(date.month as nat, 2);
    lemma_number_reads_back(date.day as nat, 2);
    lemma_number_reads_back((seconds / 3600) as nat, 2);
    lemma_number_reads_back((seconds % 3600 / 60) as nat, 2);
    lemma_number_reads_back((seconds % 60) as nat, 2);
    reveal_strlit("recording-");
    reveal_strlit("T");
    reveal_strlit(".gif");
    lemma_four_digits(date.year as nat);
    lemma_two_digits(date.month as nat);
    lemma_two_digits(date.day as nat);
    lemma_two_digits((seconds / 3600) as nat);
    lemma_two_digits((seconds % 3600 / 60) as nat);
    lemma_two_digits((seconds % 60) as nat);
    let name = recording_name(date, seconds);
    assert(name.take(10) =~= "recording-"@);
    assert(name.skip(25) =~= ".gif"@);
}

/// The name of a recording holds the year in at least four digits, then month, day,
/// hour, minute and second in at least two each.
pub proof fn lemma_parts_of_a_recording_name(date: CivilDate, seconds: int)
    ensures
        recording_name(date, seconds) == "recording-"@ + zero_padded(date.year as nat, 4)
            + zero_padded(date.month as nat, 2) + zero_padded(date.day as nat, 2) + "T"@
            + zero_padded((seconds / 3600) as nat, 2) + zero_padded(
            (seconds % 3600 / 60) as nat,
            2,
        ) + zero_padded((seconds % 60) as nat, 2) + ".gif"@,
{
}

} // verus!
