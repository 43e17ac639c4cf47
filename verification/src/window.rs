//! The window of the desktop program: how large it shows the phone's screen, what
//! it shows, and what it does on the events of the window system.

use vstd::prelude::*;

use crate::input_state::PhysicalKey;
use crate::keys::WinitKeyCode;
use crate::scaler::{Scaler, Size};

verus! {

use crate::scaler::lemma_nearest_fills_blocks;

/// What the rest of the program asks of the window.
#[derive(Clone, Copy, Debug, PartialEq, Eq, Structural)]
pub enum WindowInternalEvent {
    RequestRedraw,
    Paint,
    Quit,
}

/// What the window tells the rest of the program.
#[derive(Clone, Copy, Debug, PartialEq, Eq, Structural)]
pub enum WindowCallbackEvent {
    Update,
    Redraw,
    Keydown(PhysicalKey),
    Keyup(PhysicalKey),
}

// ---------------------------------------------------------------------------
// Requests to the window

/// What waits for the window: the newest picture, and whether the window was told
/// of it and of a request to redraw.
pub struct WindowMail {
    latest_frame: Option<Vec<u32>>,
    paint_event_pending: bool,
    redraw_event_pending: bool,
}

/// What waits for the window.
pub struct MailModel {
    pub latest: Option<Seq<u32>>,
    pub paint_pending: bool,
    pub redraw_pending: bool,
}

impl MailModel {
    /// What waits once a redraw was asked for, and whether the window must be told.
    pub open spec fn redraw_asked(self) -> (MailModel, bool) {
        (MailModel { redraw_pending: true, ..self }, !self.redraw_pending)
    }

    /// What waits once a picture was left, and whether the window must be told.
    pub open spec fn painted(self, frame: Seq<u32>) -> (MailModel, bool) {
        (
            MailModel { latest: Some(frame), paint_pending: true, ..self },
            !self.paint_pending,
        )
    }

    /// What waits once the picture was taken, and the picture.
    pub open spec fn taken(self) -> (MailModel, Option<Seq<u32>>) {
        (MailModel { latest: None, paint_pending: false, ..self }, self.latest)
    }
}

impl WindowMail {
    /// What waits for the window.
    pub open spec fn model(&self) -> MailModel {
        MailModel {
            latest: self.latest(),
            paint_pending: self.paint_pending(),
            redraw_pending: self.redraw_pending(),
        }
    }

    /// The picture that waits.
    pub closed spec fn latest(&self) -> Option<Seq<u32>> {
        match self.latest_frame {
            Some(frame) => Some(frame@),
            None => None,
        }
    }

    /// The window was told of a picture.
    pub closed spec fn paint_pending(&self) -> bool {
        self.paint_event_pending
    }

    /// The window was told to redraw.
    pub closed spec fn redraw_pending(&self) -> bool {
        self.redraw_event_pending
    }

    pub fn new() -> (r: Self)
        ensures
            r.latest() is None,
            !r.paint_pending(),
            !r.redraw_pending(),
    {
        WindowMail {
            latest_frame: None,
            paint_event_pending: false,
            redraw_event_pending: false,
        }
    }

    /// Asks for a redraw. True where the window must be told.
    pub fn request_redraw(&mut self) -> (r: bool)
        ensures
            (final(self).model(), r) == old(self).model().redraw_asked(),
    {
        let tell = !self.redraw_event_pending;
        self.redraw_event_pending = true;
        tell
    }

    /// The redraw is on its way, or could not be asked for.
    pub fn redraw_done(&mut self)
        ensures
            !final(self).redraw_pending(),
            final(self).paint_pending() == old(self).paint_pending(),
            final(self).latest() == old(self).latest(),
    {
        self.redraw_event_pending = false;
    }

    /// Leaves a picture. True where the window must be told.
    pub fn paint(&mut self, frame: Vec<u32>) -> (r: bool)
        ensures
            (final(self).model(), r) == old(self).model().painted(frame@),
    {
        let tell = !self.paint_event_pending;
        self.latest_frame = Some(frame);
        self.paint_event_pending = true;
        tell
    }

    /// The window could not be told of the picture.
    pub fn paint_failed(&mut self)
        ensures
            !final(self).paint_pending(),
            final(self).redraw_pending() == old(self).redraw_pending(),
            final(self).latest() == old(self).latest(),
    {
        self.paint_event_pending = false;
    }

    /// Takes the picture that waits.
    pub fn take_frame(&mut self) -> (r: Option<Vec<u32>>)
        ensures
            final(self).model() == old(self).model().taken().0,
            (match r {
                Some(frame) => old(self).model().taken().1 == Some(frame@),
                None => old(self).model().taken().1 is None,
            }),
    {
        self.paint_event_pending = false;
        let mut frame: Option<Vec<u32>> = None;
        std::mem::swap(&mut frame, &mut self.latest_frame);
        frame
    }
}

// ---------------------------------------------------------------------------
// The window

/// What the window system reports.
#[derive(Clone, Copy, Debug, PartialEq, Eq, Structural)]
pub enum WindowEvent {
    CloseRequested,
    KeyboardInput { key: PhysicalKey, pressed: bool, repeat: bool },
    RedrawRequested,
    Resized { size: Size },
    ScaleFactorChanged,
    Other,
}

/// What the window does.
#[derive(Clone, Copy, Debug, PartialEq, Eq, Structural)]
pub enum WindowAction {
    Exit,
    Zoom { scale: u32 },
    Callback(WindowCallbackEvent),
    Resize { size: Size },
    RequestSize { size: Size },
    Nothing,
}

/// The key makes the picture larger.
pub open spec fn zooms_in(key: PhysicalKey) -> bool {
    key == PhysicalKey::Code(WinitKeyCode::Equal) || key == PhysicalKey::Code(
        WinitKeyCode::NumpadAdd,
    )
}

/// The key makes the picture smaller.
pub open spec fn zooms_out(key: PhysicalKey) -> bool {
    key == PhysicalKey::Code(WinitKeyCode::Minus) || key == PhysicalKey::Code(
        WinitKeyCode::NumpadSubtract,
    )
}

/// The event asks for a larger picture.
pub open spec fn asks_for_more(event: WindowEvent) -> bool {
    event matches WindowEvent::KeyboardInput { key, pressed, repeat } && pressed && !repeat
        && zooms_in(key)
}

/// What a window that enlarges by `scale` to `scaled` does on an event.
pub open spec fn action_on(event: WindowEvent, scale: u32, scaled: Size) -> WindowAction {
    match event {
        WindowEvent::CloseRequested => WindowAction::Exit,
        WindowEvent::KeyboardInput { key, pressed, repeat } => if repeat {
            WindowAction::Nothing
        } else if pressed && zooms_in(key) {
            WindowAction::Zoom { scale: (scale + 1) as u32 }
        } else if pressed && zooms_out(key) {
            WindowAction::Zoom {
                scale: if scale == 0 {
                    0
                } else {
                    (scale - 1) as u32
                },
            }
        } else if pressed {
            WindowAction::Callback(WindowCallbackEvent::Keydown(key))
        } else {
            WindowAction::Callback(WindowCallbackEvent::Keyup(key))
        },
        WindowEvent::RedrawRequested => WindowAction::Callback(WindowCallbackEvent::Redraw),
        WindowEvent::Resized { size } => WindowAction::Resize { size },
        WindowEvent::ScaleFactorChanged => WindowAction::RequestSize { size: scaled },
        WindowEvent::Other => WindowAction::Nothing,
    }
}

/// The picture, how it is enlarged, and the size of the window.
pub struct WindowState {
    window_scale: u32,
    scaler: Scaler,
    scaled_image_buf: Vec<u32>,
    content_size: Size,
    scaled_size: Size,
    window_size: Size,
    last_frame: Vec<u32>,
}

/// What a `WindowState` holds.
pub struct WindowModel {
    pub window_scale: u32,
    pub scaler: Scaler,
    pub scaled_image_buf: Seq<u32>,
    pub content_size: Size,
    pub scaled_size: Size,
    pub window_size: Size,
    pub last_frame: Seq<u32>,
}

impl View for WindowState {
    type V = WindowModel;

    closed spec fn view(&self) -> WindowModel {
        WindowModel {
            window_scale: self.window_scale,
            scaler: self.scaler,
            scaled_image_buf: self.scaled_image_buf@,
            content_size: self.content_size,
            scaled_size: self.scaled_size,
            window_size: self.window_size,
            last_frame: self.last_frame@,
        }
    }
}

/// A picture of zeros.
pub open spec fn blank(len: int) -> Seq<u32> {
    Seq::new(len as nat, |i: int| 0u32)
}

/// A scale of the window: at least one.
pub open spec fn at_least_one(scale: u32) -> u32 {
    if scale == 0 {
        1
    } else {
        scale
    }
}

/// A surface of this many pixels, where there is one, must be given another size.
pub open spec fn needs_resize(size: Size, surface_len: Option<usize>) -> bool {
    !(surface_len == Some((size.width * size.height) as usize))
}

/// The enlarged screen is small enough to be counted.
pub open spec fn can_scale(content: Size, scale: u32) -> bool {
    &&& content.width * at_least_one(scale) <= u32::MAX
    &&& content.height * at_least_one(scale) <= u32::MAX
    &&& (content.width * at_least_one(scale)) * (content.height * at_least_one(scale))
        <= usize::MAX
}

impl WindowModel {
    /// The window with its picture enlarged by `scale`.
    pub open spec fn with_scale(self, scale: u32) -> WindowModel {
        let scale = at_least_one(scale);
        let size = Size {
            width: (self.content_size.width * scale) as u32,
            height: (self.content_size.height * scale) as u32,
        };
        WindowModel {
            window_scale: scale,
            scaler: if scale == 1 {
                Scaler::Native
            } else {
                Scaler::Nearest { scale }
            },
            scaled_size: size,
            scaled_image_buf: blank(size.width * size.height),
            ..self
        }
    }

    /// What the window shows.
    pub open spec fn shown(self) -> Seq<u32> {
        if self.scaled_image_buf.len() == self.last_frame.len() {
            self.last_frame
        } else {
            self.scaler.scaled(self.scaled_image_buf, self.last_frame, self.content_size)
        }
    }

    /// The picture can be enlarged: it is whole.
    pub open spec fn can_paint(self) -> bool {
        self.scaled_image_buf.len() == self.last_frame.len() || self.scaler.fits(
            self.scaled_image_buf.len() as int,
            self.last_frame.len() as int,
            self.content_size,
        )
    }
}

fn blank_image(count: usize) -> (r: Vec<u32>)
    ensures
        r@ == blank(count as int),
{
    let mut image: Vec<u32> = Vec::new();
    for index in 0..count
        invariant
            image@.len() == index,
            forall|i: int| 0 <= i < index ==> image@[i] == 0u32,
    {
        image.push(0);
    }
    assert(image@ =~= blank(count as int));
    image
}

impl WindowState {
    /// A window for a screen of this size, black and not enlarged.
    pub fn new(width: u32, height: u32) -> (r: Self)
        requires
            width * height <= u32::MAX,
        ensures
            r@ == (WindowModel {
                window_scale: 1,
                scaler: Scaler::Native,
                scaled_image_buf: Seq::<u32>::empty(),
                content_size: Size { width, height },
                scaled_size: Size { width, height },
                window_size: Size { width: 0, height: 0 },
                last_frame: blank(width * height),
            }),
    {
        let content_size = Size { width, height };
        WindowState {
            window_scale: 1,
            scaler: Scaler::Native,
            scaled_image_buf: Vec::new(),
            content_size,
            scaled_size: content_size,
            window_size: Size { width: 0, height: 0 },
            last_frame: blank_image((width * height) as usize),
        }
    }

    /// The size of the enlarged screen.
    pub fn scaled_size(&self) -> (r: Size)
        ensures
            r == self@.scaled_size,
    {
        self.scaled_size
    }

    /// Enlarges by `scale` from now on.
    pub fn update_scale_factor(&mut self, scale: u32)
        requires
            can_scale(old(self)@.content_size, scale),
        ensures
            final(self)@ == old(self)@.with_scale(scale),
    {
        let scale: u32 = if scale == 0 {
            1
        } else {
            scale
        };
        self.window_scale = scale;
        self.scaler = Scaler::new(scale);
        proof {
            assert(self.content_size.width * 1 == self.content_size.width) by (nonlinear_arith);
            assert(self.content_size.height * 1 == self.content_size.height) by (nonlinear_arith);
        }
        self.scaled_size = self.scaler.to_physical(self.content_size);
        self.scaled_image_buf = blank_image(
            self.scaled_size.width as usize * self.scaled_size.height as usize,
        );
    }

    /// The window has this size now.
    pub fn resized(&mut self, size: Size)
        ensures
            final(self)@ == (WindowModel { window_size: size, ..old(self)@ }),
    {
        self.window_size = size;
    }

    /// Whether the surface that is drawn on must be given the size of the enlarged
    /// screen. `surface_len` is how many pixels it has, where there is one.
    pub fn must_resize_surface(&self, surface_len: Option<usize>) -> (r: bool)
        requires
            self@.scaled_size.width * self@.scaled_size.height <= u32::MAX,
        ensures
            r == needs_resize(self@.scaled_size, surface_len),
    {
        let desired_len = self.scaled_size.width * self.scaled_size.height;
        match surface_len {
            Some(len) => len != desired_len as usize,
            None => true,
        }
    }

    /// Another picture.
    pub fn set_frame(&mut self, frame: Vec<u32>)
        ensures
            final(self)@ == (WindowModel { last_frame: frame@, ..old(self)@ }),
    {
        self.last_frame = frame;
    }

    /// What to draw on a surface of `surface_len` pixels. Where the picture has
    /// another size nothing is drawn.
    pub fn paint_last_frame(&mut self, surface_len: usize) -> (r: Option<Vec<u32>>)
        requires
            old(self)@.can_paint(),
        ensures
            (match r {
                Some(image) => image@ == old(self)@.shown() && image@.len() == surface_len,
                None => old(self)@.shown().len() != surface_len,
            }),
            final(self)@ == if old(self)@.scaled_image_buf.len() == old(self)@.last_frame.len() {
                old(self)@
            } else {
                WindowModel { scaled_image_buf: old(self)@.shown(), ..old(self)@ }
            },
    {
        if self.scaled_image_buf.len() == self.last_frame.len() {
            if self.last_frame.len() == surface_len {
                let image = self.last_frame.clone();
                assert(image@ =~= self.last_frame@);
                Some(image)
            } else {
                None
            }
        } else {
            let mut image: Vec<u32> = Vec::new();
            std::mem::swap(&mut image, &mut self.scaled_image_buf);
            self.scaler.scale_image(&mut image, &self.last_frame, self.content_size);
            let shown = image.clone();
            assert(shown@ =~= image@);
            self.scaled_image_buf = image;
            if shown.len() == surface_len {
                Some(shown)
            } else {
                None
            }
        }
    }

    /// What the window does on an event.
    pub fn window_event(&self, event: WindowEvent) -> (r: WindowAction)
        requires
            asks_for_more(event) ==> self@.window_scale < u32::MAX,
        ensures
            r == action_on(event, self@.window_scale, self@.scaled_size),
    {
        match event {
            WindowEvent::CloseRequested => WindowAction::Exit,
            WindowEvent::KeyboardInput { key, pressed, repeat } => {
                if repeat {
                    return WindowAction::Nothing;
                }
                if pressed {
                    if let PhysicalKey::Code(code) = key {
                        match code {
                            WinitKeyCode::Equal | WinitKeyCode::NumpadAdd => {
                                return WindowAction::Zoom { scale: self.window_scale + 1 };
                            },
                            WinitKeyCode::Minus | WinitKeyCode::NumpadSubtract => {
                                return WindowAction::Zoom {
                                    scale: self.window_scale.saturating_sub(1),
                                };
                            },
                            _ => {},
                        }
                    }
                }
                if pressed {
                    WindowAction::Callback(WindowCallbackEvent::Keydown(key))
                } else {
                    WindowAction::Callback(WindowCallbackEvent::Keyup(key))
                }
            },
            WindowEvent::RedrawRequested => WindowAction::Callback(WindowCallbackEvent::Redraw),
            WindowEvent::Resized { size } => WindowAction::Resize { size },
            WindowEvent::ScaleFactorChanged => WindowAction::RequestSize {
                size: self.scaled_size,
            },
            WindowEvent::Other => WindowAction::Nothing,
        }
    }
}

/// A window whose scale was just set can show a whole picture.
pub proof fn lemma_scaled_window_can_paint(window: WindowModel, scale: u32)
    requires
        can_scale(window.content_size, scale),
        window.last_frame.len() == window.content_size.width * window.content_size.height,
    ensures
        window.with_scale(scale).can_paint(),
        window.with_scale(scale).shown().len() == (window.content_size.width * at_least_one(scale))
            * (window.content_size.height * at_least_one(scale)),
{
    let scaled = window.with_scale(scale);
    let width = window.content_size.width as int;
    let height = window.content_size.height as int;
    let by = at_least_one(scale) as int;
    assert(0 <= (width * by) * (height * by)) by (nonlinear_arith)
        requires
            0 <= width,
            0 <= height,
            0 <= by,
    ;
    if by == 1 {
        assert(width * by == width) by (nonlinear_arith)
            requires
                by == 1,
        ;
        assert(height * by == height) by (nonlinear_arith)
            requires
                by == 1,
        ;
    }
    assert(scaled.scaled_image_buf.len() == (width * by) * (height * by));
}

/// Every pixel of a whole picture fills its block of the window.
pub proof fn lemma_window_shows_blocks(
    window: WindowModel,
    scale: u32,
    x: int,
    y: int,
    dx: int,
    dy: int,
)
    requires
        can_scale(window.content_size, scale),
        window.last_frame.len() == window.content_size.width * window.content_size.height,
        0 <= x < window.content_size.width,
        0 <= y < window.content_size.height,
        0 <= dx < at_least_one(scale),
        0 <= dy < at_least_one(scale),
    ensures
        ({
            let by = at_least_one(scale);
            window.with_scale(scale).shown()[(y * by + dy) * (window.content_size.width * by) + (x
                * by + dx)]
        }) == window.last_frame[y * window.content_size.width + x],
{
    let width = window.content_size.width as int;
    let height = window.content_size.height as int;
    let by = at_least_one(scale) as int;
    let at = (y * by + dy) * (width * by) + (x * by + dx);
    if by == 1 {
        lemma_unscaled_window_shows_the_frame(window);
        assert(at == y * width + x) by (nonlinear_arith)
            requires
                by == 1,
                dx == 0,
                dy == 0,
                at == (y * by + dy) * (width * by) + (x * by + dx),
        ;
    } else {
        lemma_scaled_window_can_paint(window, scale);
        lemma_nearest_fills_blocks(window.last_frame, width, by, x, y, dx, dy);
        let row = y * by + dy;
        let column = x * by + dx;
        assert(0 <= row < height * by) by (nonlinear_arith)
            requires
                0 <= y < height,
                0 <= dy < by,
                row == y * by + dy,
        ;
        assert(0 <= column < width * by) by (nonlinear_arith)
            requires
                0 <= x < width,
                0 <= dx < by,
                column == x * by + dx,
        ;
        assert(0 <= row * (width * by) + column < (width * by) * (height * by)) by (nonlinear_arith)
            requires
                0 <= row < height * by,
                0 <= column < width * by,
        ;
        assert((width * by) * (height * by) != width * height) by (nonlinear_arith)
            requires
                0 < width,
                0 < height,
                by > 1,
        ;
    }
}

/// A picture that is not enlarged is shown as it is.
pub proof fn lemma_unscaled_window_shows_the_frame(window: WindowModel)
    requires
        window.last_frame.len() == window.content_size.width * window.content_size.height,
    ensures
        window.with_scale(1).shown() == window.last_frame,
{
    let width = window.content_size.width as int;
    let height = window.content_size.height as int;
    assert(width * 1 == width) by (nonlinear_arith);
    assert(height * 1 == height) by (nonlinear_arith);
    assert(0 <= width * height) by (nonlinear_arith)
        requires
            0 <= width,
            0 <= height,
    ;
}

/// A key that the window does not use itself is handed on as it is, down as down and up
/// as up; a key that repeats by itself is not.
pub proof fn lemma_keys_are_handed_on(key: PhysicalKey, scale: u32, scaled: Size)
    ensures
        action_on(WindowEvent::KeyboardInput { key, pressed: false, repeat: false }, scale, scaled)
            == WindowAction::Callback(WindowCallbackEvent::Keyup(key)),
        !(key matches PhysicalKey::Code(code) && (code == WinitKeyCode::Equal || code
            == WinitKeyCode::NumpadAdd || code == WinitKeyCode::Minus || code
            == WinitKeyCode::NumpadSubtract)) ==> action_on(
            WindowEvent::KeyboardInput { key, pressed: true, repeat: false },
            scale,
            scaled,
        ) == WindowAction::Callback(WindowCallbackEvent::Keydown(key)),
        forall|pressed: bool|
            #[trigger] action_on(
                WindowEvent::KeyboardInput { key, pressed, repeat: true },
                scale,
                scaled,
            ) == WindowAction::Nothing,
{
}

/// The keys with plus on them enlarge the picture by one step and those with minus take
/// one step back, so that one undoes the other.
pub proof fn lemma_zoom_keys_undo_each_other(window: WindowModel, plus: WinitKeyCode, minus: WinitKeyCode)
    requires
        plus == WinitKeyCode::Equal || plus == WinitKeyCode::NumpadAdd,
        minus == WinitKeyCode::Minus || minus == WinitKeyCode::NumpadSubtract,
        0 < window.window_scale < u32::MAX,
    ensures
        ({
            let more = WindowEvent::KeyboardInput {
                key: PhysicalKey::Code(plus),
                pressed: true,
                repeat: false,
            };
            let less = WindowEvent::KeyboardInput {
                key: PhysicalKey::Code(minus),
                pressed: true,
                repeat: false,
            };
            let scale = window.window_scale;
            &&& action_on(more, scale, window.scaled_size) matches WindowAction::Zoom { scale: up }
            &&& up == scale + 1
            &&& action_on(less, up, window.with_scale(up).scaled_size) == (WindowAction::Zoom { scale })
        }),
{
}

/// A window is closed, redrawn, resized and told its size on the events that ask for it.
pub proof fn lemma_window_obeys(size: Size, scale: u32, scaled: Size)
    ensures
        action_on(WindowEvent::CloseRequested, scale, scaled) == WindowAction::Exit,
        action_on(WindowEvent::RedrawRequested, scale, scaled) == WindowAction::Callback(
            WindowCallbackEvent::Redraw,
        ),
        action_on(WindowEvent::Resized { size }, scale, scaled) == (WindowAction::Resize { size }),
        action_on(WindowEvent::ScaleFactorChanged, scale, scaled) == (WindowAction::RequestSize {
            size: scaled,
        }),
        action_on(WindowEvent::Other, scale, scaled) == WindowAction::Nothing,
{
}

/// The enlarged screen is as many times as wide and as high as the scale says, at least
/// once; the picture, the screen and the window stay as they are.
pub proof fn lemma_scale_enlarges_both_ways(window: WindowModel, scale: u32)
    requires
        can_scale(window.content_size, scale),
    ensures
        ({
            let after = window.with_scale(scale);
            &&& scale > 0 ==> after.scaled_size.width == scale * window.content_size.width
            &&& scale > 0 ==> after.scaled_size.height == scale * window.content_size.height
            &&& scale == 0 ==> after == window.with_scale(1)
            &&& scale > 0 ==> after.window_scale == scale
            &&& after.content_size == window.content_size
            &&& after.last_frame == window.last_frame
            &&& after.window_size == window.window_size
        }),
{
    assert(scale * window.content_size.width == window.content_size.width * scale)
        by (nonlinear_arith);
    assert(scale * window.content_size.height == window.content_size.height * scale)
        by (nonlinear_arith);
}

/// The window gets the newest picture, once, and is told of pictures once until it takes
/// one; the same goes for requests to redraw, which do not touch the picture.
pub proof fn lemma_newest_picture_is_shown(mail: MailModel, frame: Seq<u32>, newer: Seq<u32>)
    ensures
        ({
            let (first, told) = mail.painted(frame);
            let (second, again) = first.painted(newer);
            let (after, shown) = second.taken();
            &&& told == !mail.paint_pending
            &&& !again
            &&& shown == Some(newer)
            &&& after.taken().1 is None
            &&& after.painted(frame).1
            &&& after.redraw_pending == mail.redraw_pending
        }),
        ({
            let (first, told) = mail.redraw_asked();
            &&& told == !mail.redraw_pending
            &&& !first.redraw_asked().1
            &&& first.latest == mail.latest
            &&& first.paint_pending == mail.paint_pending
        }),
{
}

/// A surface is given another size exactly where it has not the size of the enlarged
/// screen.
pub proof fn lemma_surface_gets_the_size_of_the_screen(size: Size, len: usize)
    requires
        size.width * size.height <= u32::MAX,
    ensures
        needs_resize(size, None),
        needs_resize(size, Some(len)) <==> len != size.width * size.height,
{
    assert(0 <= size.width * size.height) by (nonlinear_arith);
}

} // verus!
