use vstd::prelude::*;
use vstd::arithmetic::div_mod::lemma_fundamental_div_mod;
use crate::backend::Backend;
use crate::changes::{
    cell_changed, change_bounds, is_change_bounds, lemma_unchanged_frames_equal,
};
use crate::encode::{
    encode_mono1_frame, encode_rgb565_frame, mono1_output_lit, rgb565_output_byte,
    lemma_fit_rect_inside,
};
use crate::error::DisplayError;
use crate::format::{FrameFormat, MONO1_FRAME_SIZE, ST7789_FRAMEBUFFER_SIZE};

verus! {

/// A rectangle of a native frame that a transfer rewrites. For the OLED
/// panels `x` and `width` count byte columns of the native frame's memory
/// and `y` and `height` count pixel rows in whole eight-row pages; for the
/// ST7789 they count pixels.
#[derive(Clone, Copy, Debug, PartialEq, Eq, Structural)]
pub struct UpdateRect {
    pub x: usize,
    pub y: usize,
    pub width: usize,
    pub height: usize,
}

/// Rows of the change grid: eight-pixel pages (OLED) or pixel rows (ST7789).
pub open spec fn grid_rows(backend: Backend) -> int {
    if backend.is_mono() {
        8
    } else {
        240
    }
}

/// Columns of the change grid: byte columns (OLED) or pixels (ST7789).
pub open spec fn grid_cols(backend: Backend) -> int {
    if backend.is_mono() {
        128
    } else {
        240
    }
}

/// Bytes per change-grid cell.
pub open spec fn grid_unit(backend: Backend) -> int {
    if backend.is_mono() {
        1
    } else {
        2
    }
}

/// The size in bytes of a backend's native frame.
pub open spec fn native_len(backend: Backend) -> int {
    grid_rows(backend) * grid_cols(backend) * grid_unit(backend)
}

/// The rectangle that covers the whole native frame.
pub open spec fn full_rect(backend: Backend) -> UpdateRect {
    if backend.is_mono() {
        UpdateRect { x: 0, y: 0, width: 128, height: 64 }
    } else {
        UpdateRect { x: 0, y: 0, width: 240, height: 240 }
    }
}

/// The update rectangle of a change-grid cell rectangle
/// (first column, last column, first row, last row).
pub open spec fn rect_of_bounds(backend: Backend, bounds: (usize, usize, usize, usize)) -> UpdateRect {
    let (c0, c1, r0, r1) = bounds;
    if backend.is_mono() {
        UpdateRect {
            x: c0,
            y: (8 * r0) as usize,
            width: (c1 - c0 + 1) as usize,
            height: (8 * (r1 - r0 + 1)) as usize,
        }
    } else {
        UpdateRect {
            x: c0,
            y: r0,
            width: (c1 - c0 + 1) as usize,
            height: (r1 - r0 + 1) as usize,
        }
    }
}

/// What a transfer from `current` (the last frame known to be displayed,
/// if any) to `next` must rewrite: the whole frame when nothing is known,
/// nothing when the frames are equal, and otherwise the smallest rectangle
/// of change-grid cells that holds every difference.
pub open spec fn is_required_update(
    backend: Backend,
    current: Option<Seq<u8>>,
    next: Seq<u8>,
    update: Option<UpdateRect>,
) -> bool {
    match current {
        None => update == Some(full_rect(backend)),
        Some(c) => match update {
            None => c == next,
            Some(rect) => c != next && exists|bounds: (usize, usize, usize, usize)|
                is_change_bounds(
                    c,
                    next,
                    grid_rows(backend),
                    grid_cols(backend),
                    grid_unit(backend),
                    Some(bounds),
                ) && rect == #[trigger] rect_of_bounds(backend, bounds),
        },
    }
}

/// Keeps the last native frame that was completely transferred and prepares
/// the next one, reporting which part of it needs a transfer.
pub struct DisplayConverter {
    backend: Backend,
    current: Option<Vec<u8>>,
    next: Vec<u8>,
}

impl DisplayConverter {
    /// The backend whose native frames are kept.
    pub closed spec fn backend(&self) -> Backend {
        self.backend
    }

    /// The last frame known to be on the display, if any.
    pub closed spec fn current(&self) -> Option<Seq<u8>> {
        match self.current {
            Some(v) => Some(v@),
            None => None,
        }
    }

    /// The most recently prepared frame.
    pub closed spec fn next(&self) -> Seq<u8> {
        self.next@
    }

    /// Both frames have the native length.
    pub closed spec fn wf(&self) -> bool {
        &&& self.next@.len() == native_len(self.backend)
        &&& self.current matches Some(v) ==> v@.len() == native_len(self.backend)
    }

    /// A converter for `backend`, with nothing known about the display yet.
    pub fn new(backend: Backend) -> (r: DisplayConverter)
        ensures
            r.wf(),
            r.backend() == backend,
            r.current() is None,
            r.next() == Seq::new(native_len(backend) as nat, |i: int| 0u8),
    {
        let len = native_frame_len(backend);
        let next = zeroed(len);
        DisplayConverter { backend, current: None, next }
    }

    /// Takes a frame already in the backend's native format. Fails, keeping
    /// everything as it was, when its length is not the native length.
    pub fn prepare_native(&mut self, framebuffer: &[u8]) -> (r: Result<
        Option<UpdateRect>,
        DisplayError,
    >)
        requires
            old(self).wf(),
        ensures
            final(self).wf(),
            final(self).backend() == old(self).backend(),
            final(self).current() == old(self).current(),
            framebuffer@.len() != native_len(old(self).backend()) ==> r == Err::<
                Option<UpdateRect>,
                DisplayError,
            >(DisplayError::InvalidArgument) && final(self).next() == old(self).next(),
            framebuffer@.len() == native_len(old(self).backend()) ==> {
                &&& final(self).next() == framebuffer@
                &&& r matches Ok(update) && is_required_update(
                    old(self).backend(),
                    old(self).current(),
                    framebuffer@,
                    update,
                )
            },
    {
        let len = native_frame_len(self.backend);
        if framebuffer.len() != len {
            return Err(DisplayError::InvalidArgument);
        }
        let mut i: usize = 0;
        while i < len
            invariant
                len == native_len(self.backend),
                self.backend == old(self).backend,
                self.current == old(self).current,
                framebuffer@.len() == len,
                self.next@.len() == len,
                0 <= i <= len,
                forall|j: int| 0 <= j < i ==> #[trigger] self.next@[j] == framebuffer@[j],
            decreases len - i,
        {
            self.next.set(i, framebuffer[i]);
            i = i + 1;
        }
        proof {
            assert(self.next@ =~= framebuffer@);
        }
        Ok(self.required_update())
    }

    /// Converts a producer frame into the backend's native format. Fails,
    /// keeping everything as it was, when the format is not accepted or the
    /// frame's length is not the format's length.
    pub fn prepare_frame(&mut self, framebuffer: &[u8], format: FrameFormat) -> (r: Result<
        Option<UpdateRect>,
        DisplayError,
    >)
        requires
            old(self).wf(),
        ensures
            final(self).wf(),
            final(self).backend() == old(self).backend(),
            final(self).current() == old(self).current(),
            !(format.is_valid() && framebuffer@.len() == format.byte_len()) ==> r == Err::<
                Option<UpdateRect>,
                DisplayError,
            >(DisplayError::InvalidArgument) && final(self).next() == old(self).next(),
            format.is_valid() && framebuffer@.len() == format.byte_len() ==> {
                &&& old(self).backend().is_mono() ==> forall|x: int, y: int|
                    0 <= x < 128 && 0 <= y < 64 ==> #[trigger] FrameFormat::mono1_128x64_spec().mono1_lit(
                        final(self).next(),
                        x,
                        y,
                    ) == mono1_output_lit(format, framebuffer@, x, y)
                &&& !old(self).backend().is_mono() ==> forall|i: int|
                    0 <= i < ST7789_FRAMEBUFFER_SIZE ==> #[trigger] final(self).next()[i]
                        == rgb565_output_byte(format, framebuffer@, 240, 240, i)
                &&& r matches Ok(update) && is_required_update(
                    old(self).backend(),
                    old(self).current(),
                    final(self).next(),
                    update,
                )
            },
    {
        match format.required_len() {
            Ok(n) => {
                if n != framebuffer.len() {
                    return Err(DisplayError::InvalidArgument);
                }
            },
            Err(e) => return Err(e),
        }
        match self.backend {
            Backend::St7789Spi => {
                proof {
                    lemma_fit_rect_inside(format.width as int, format.height as int, 240, 240);
                    assert(2 * ((240 - 1) * 240 + 240) == ST7789_FRAMEBUFFER_SIZE);
                    let (ox, oy, w, h) = crate::encode::spec_fit_rect(
                        format.width as int,
                        format.height as int,
                        240,
                        240,
                    );
                    assert(w * format.width <= 240 * 65535) by (nonlinear_arith)
                        requires
                            w <= 240,
                            format.width <= 65535,
                            0 <= w,
                    ;
                    assert(h * format.height <= 240 * 65535) by (nonlinear_arith)
                        requires
                            h <= 240,
                            format.height <= 65535,
                            0 <= h,
                    ;
                    assert((oy + h - 1) * 240 + ox + w <= (240 - 1) * 240 + 240) by (nonlinear_arith)
                        requires
                            oy + h <= 240,
                            ox + w <= 240,
                            1 <= h,
                    ;
                }
                encode_rgb565_frame(self.next.as_mut_slice(), framebuffer, format, 240, 240);
            },
            Backend::Ssd1306I2c | Backend::Sh1106I2c | Backend::Sh1106Spi => {
                let mut native = [0u8;MONO1_FRAME_SIZE];
                encode_mono1_frame(&mut native, framebuffer, format);
                let mut i: usize = 0;
                while i < MONO1_FRAME_SIZE
                    invariant
                        self.next@.len() == MONO1_FRAME_SIZE,
                        self.backend == old(self).backend,
                        self.current == old(self).current,
                        native@.len() == MONO1_FRAME_SIZE,
                        0 <= i <= MONO1_FRAME_SIZE,
                        forall|j: int| 0 <= j < i ==> #[trigger] self.next@[j] == native@[j],
                    decreases MONO1_FRAME_SIZE - i,
                {
                    self.next.set(i, native[i]);
                    i = i + 1;
                }
                proof {
                    assert(self.next@ =~= native@);
                }
            },
        }
        Ok(self.required_update())
    }

    /// Prepares an all-dark (all-zero) native frame.
    pub fn prepare_blank(&mut self) -> (r: Option<UpdateRect>)
        requires
            old(self).wf(),
        ensures
            final(self).wf(),
            final(self).backend() == old(self).backend(),
            final(self).current() == old(self).current(),
            final(self).next() == Seq::new(native_len(old(self).backend()) as nat, |i: int| 0u8),
            is_required_update(old(self).backend(), old(self).current(), final(self).next(), r),
    {
        let len = native_frame_len(self.backend);
        let mut i: usize = 0;
        while i < len
            invariant
                len == native_len(self.backend),
                self.backend == old(self).backend,
                self.current == old(self).current,
                self.next@.len() == len,
                0 <= i <= len,
                forall|j: int| 0 <= j < i ==> #[trigger] self.next@[j] == 0u8,
            decreases len - i,
        {
            self.next.set(i, 0);
            i = i + 1;
        }
        proof {
            assert(self.next@ =~= Seq::new(len as nat, |i: int| 0u8));
        }
        self.required_update()
    }

    /// The most recently prepared native frame.
    pub fn next_frame(&self) -> (r: &[u8])
        ensures
            r@ == self.next(),
    {
        self.next.as_slice()
    }

    /// Records that the prepared frame has been completely transferred: it
    /// becomes the frame known to be on the display.
    pub fn commit(&mut self)
        requires
            old(self).wf(),
        ensures
            final(self).wf(),
            final(self).backend() == old(self).backend(),
            final(self).next() == old(self).next(),
            final(self).current() == Some(old(self).next()),
    {
        let len = self.next.len();
        let mut copy: Vec<u8> = Vec::with_capacity(len);
        let mut i: usize = 0;
        while i < len
            invariant
                len == self.next@.len(),
                copy@.len() == i,
                0 <= i <= len,
                forall|j: int| 0 <= j < i ==> #[trigger] copy@[j] == self.next@[j],
            decreases len - i,
        {
            copy.push(self.next[i]);
            i = i + 1;
        }
        proof {
            assert(copy@ =~= self.next@);
        }
        self.current = Some(copy);
    }

    fn required_update(&self) -> (r: Option<UpdateRect>)
        requires
            self.wf(),
        ensures
            is_required_update(self.backend(), self.current(), self.next(), r),
    {
        let (rows, cols, unit) = grid_shape(self.backend);
        match &self.current {
            None => Some(full_update_rect(self.backend)),
            Some(current) => {
                let bounds = change_bounds(current.as_slice(), self.next.as_slice(), rows, cols, unit);
                match bounds {
                    None => {
                        proof {
                            lemma_unchanged_frames_equal(
                                current@,
                                self.next@,
                                rows as int,
                                cols as int,
                                unit as int,
                            );
                        }
                        None
                    },
                    Some(b) => {
                        let rect = update_rect_of_bounds(self.backend, b);
                        proof {
                            let (c0, c1, r0, r1) = b;
                            if current@ == self.next@ {
                                assert(!cell_changed(
                                    current@,
                                    self.next@,
                                    cols as int,
                                    unit as int,
                                    r0 as int,
                                    choose|c: int|
                                        0 <= c < cols && #[trigger] cell_changed(
                                            current@,
                                            self.next@,
                                            cols as int,
                                            unit as int,
                                            r0 as int,
                                            c,
                                        ),
                                ));
                            }
                        }
                        Some(rect)
                    },
                }
            },
        }
    }
}

fn native_frame_len(backend: Backend) -> (r: usize)
    ensures
        r == native_len(backend),
{
    match backend {
        Backend::St7789Spi => ST7789_FRAMEBUFFER_SIZE,
        _ => MONO1_FRAME_SIZE,
    }
}

fn grid_shape(backend: Backend) -> (r: (usize, usize, usize))
    ensures
        r.0 == grid_rows(backend),
        r.1 == grid_cols(backend),
        r.2 == grid_unit(backend),
{
    match backend {
        Backend::St7789Spi => (240, 240, 2),
        _ => (8, 128, 1),
    }
}

fn full_update_rect(backend: Backend) -> (r: UpdateRect)
    ensures
        r == full_rect(backend),
{
    match backend {
        Backend::St7789Spi => UpdateRect { x: 0, y: 0, width: 240, height: 240 },
        _ => UpdateRect { x: 0, y: 0, width: 128, height: 64 },
    }
}

fn update_rect_of_bounds(backend: Backend, bounds: (usize, usize, usize, usize)) -> (r: UpdateRect)
    requires
        bounds.0 <= bounds.1 < grid_cols(backend),
        bounds.2 <= bounds.3 < grid_rows(backend),
    ensures
        r == rect_of_bounds(backend, bounds),
{
    let (c0, c1, r0, r1) = bounds;
    match backend {
        Backend::St7789Spi => UpdateRect { x: c0, y: r0, width: c1 - c0 + 1, height: r1 - r0 + 1 },
        _ => UpdateRect { x: c0, y: 8 * r0, width: c1 - c0 + 1, height: 8 * (r1 - r0 + 1) },
    }
}

fn zeroed(len: usize) -> (r: Vec<u8>)
    ensures
        r@ == Seq::new(len as nat, |i: int| 0u8),
{
    let mut v: Vec<u8> = Vec::with_capacity(len);
    let mut i: usize = 0;
    while i < len
        invariant
            v@.len() == i,
            0 <= i <= len,
            forall|j: int| 0 <= j < i ==> #[trigger] v@[j] == 0u8,
        decreases len - i,
    {
        v.push(0);
        i = i + 1;
    }
    proof {
        assert(v@ =~= Seq::new(len as nat, |i: int| 0u8));
    }
    v
}


/// An unchanged frame needs no transfer: once a frame is known to be on the
/// display, preparing the same frame again asks for nothing.
pub proof fn lemma_unchanged_frame_needs_no_transfer(
    backend: Backend,
    frame: Seq<u8>,
    update: Option<UpdateRect>,
)
    requires
        is_required_update(backend, Some(frame), frame, update),
    ensures
        update is None,
{
}

/// Whether byte `i` of a native frame lies inside an update rectangle.
pub open spec fn byte_in_rect(backend: Backend, rect: UpdateRect, i: int) -> bool {
    if backend.is_mono() {
        &&& rect.x <= i % 128 < rect.x + rect.width
        &&& rect.y <= 8 * (i / 128) < rect.y + rect.height
    } else {
        let p = i / 2;
        &&& rect.x <= p % 240 < rect.x + rect.width
        &&& rect.y <= p / 240 < rect.y + rect.height
    }
}

/// The required update rewrites every byte that changed.
pub proof fn lemma_update_covers_changes(
    backend: Backend,
    current: Seq<u8>,
    next: Seq<u8>,
    rect: UpdateRect,
    i: int,
)
    requires
        current.len() == native_len(backend),
        next.len() == current.len(),
        is_required_update(backend, Some(current), next, Some(rect)),
        0 <= i < current.len(),
        current[i] != next[i],
    ensures
        byte_in_rect(backend, rect, i),
{
    let cols = grid_cols(backend);
    let unit = grid_unit(backend);
    let rows = grid_rows(backend);
    let bounds = choose|bounds: (usize, usize, usize, usize)|
        is_change_bounds(current, next, rows, cols, unit, Some(bounds)) && rect
            == #[trigger] rect_of_bounds(backend, bounds);
    let p = i / unit;
    let k = i % unit;
    lemma_fundamental_div_mod(i, unit);
    let r = p / cols;
    let c = p % cols;
    lemma_fundamental_div_mod(p, cols);
    assert(0 <= p < rows * cols);
    assert(0 <= r < rows) by (nonlinear_arith)
        requires
            p == cols * r + c,
            0 <= c < cols,
            0 <= p < rows * cols,
            cols > 0,
    ;
    assert(p == r * cols + c) by (nonlinear_arith)
        requires
            p == cols * r + c,
    ;
    assert(cell_changed(current, next, cols, unit, r, c));
}

} // verus!
