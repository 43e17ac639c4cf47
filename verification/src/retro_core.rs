//! The core that a frontend runs: what it shows, how it vibrates, and what it makes
//! of options that change while it runs.

use vstd::prelude::*;

use crate::audio::share;
use crate::content::LoadedContent;
use crate::options::CoreOptions;
use crate::pressed::Event;
use crate::retro_input::InputManager;
use crate::text::{copy_text, same_text};
use crate::video::Frame;
use crate::voices::AUDIO_SAMPLE_RATE;

verus! {

use crate::options::{optional, OptionsModel};
use crate::retro_input::{all_bindings, read_bindings, InputSource};
use crate::keys::KeyCode;
use crate::video::picture565;

// ---------------------------------------------------------------------------
// Pixels

/// The form of the pixels that a frontend takes.
#[derive(Clone, Copy, Debug, PartialEq, Eq, Structural)]
pub enum PixelFormat {
    Xrgb8888,
    Rgb565,
}

/// The form to use for what a frontend answers.
pub open spec fn format_for(
    takes_xrgb8888: Option<bool>,
    takes_rgb565: Option<bool>,
) -> PixelFormat {
    if takes_xrgb8888 == Some(false) && takes_rgb565 == Some(true) {
        PixelFormat::Rgb565
    } else {
        PixelFormat::Xrgb8888
    }
}

/// The form to use: 32 bits where the frontend takes them, else 16 bits where it
/// takes those. A frontend that takes neither, or cannot be asked, gets 32 bits.
pub fn set_pixel_format(takes_xrgb8888: Option<bool>, takes_rgb565: Option<bool>) -> (r:
    PixelFormat)
    ensures
        r == format_for(takes_xrgb8888, takes_rgb565),
{
    match takes_xrgb8888 {
        None => PixelFormat::Xrgb8888,
        Some(true) => PixelFormat::Xrgb8888,
        Some(false) => match takes_rgb565 {
            Some(true) => PixelFormat::Rgb565,
            _ => PixelFormat::Xrgb8888,
        },
    }
}

/// Whether the frontend can show a picture again: it must say so and be asked with
/// success.
pub fn can_dupe(reply: Option<bool>) -> (r: bool)
    ensures
        r == (reply == Some(true)),
{
    match reply {
        Some(can) => can,
        None => false,
    }
}

/// A picture in the form that the frontend takes.
pub enum Pixels {
    Xrgb8888(Vec<u32>),
    Rgb565(Vec<u16>),
}

/// A picture with its size and the length of a row in bytes.
pub struct Picture {
    pub width: u32,
    pub height: u32,
    pub pitch: usize,
    pub pixels: Pixels,
}

/// The picture shows these pixels in the form that the frontend takes.
pub open spec fn is_picture_of(
    picture: Picture,
    format: PixelFormat,
    width: u32,
    height: u32,
    pixels: Seq<u32>,
) -> bool {
    &&& picture.width == width
    &&& picture.height == height
    &&& match format {
        PixelFormat::Xrgb8888 => picture.pitch == width * 4 && (
        picture.pixels matches Pixels::Xrgb8888(shown) && shown@ == pixels),
        PixelFormat::Rgb565 => picture.pitch == width * 2 && (
        picture.pixels matches Pixels::Rgb565(shown) && shown@ == picture565(pixels)),
    }
}

// ---------------------------------------------------------------------------
// Vibration

/// The strength for an intensity in percent. More than all is all.
pub open spec fn strength_of(intensity: u8) -> int {
    (if intensity > 100 {
        100
    } else {
        intensity as int
    }) * 65535 / 100
}

/// The time `duration_ms` behind `now`, in nanoseconds, or `now` where that cannot be
/// counted.
pub open spec fn later(now: u128, duration_ms: u64) -> u128 {
    if now + duration_ms * 1_000_000 <= u128::MAX {
        (now + duration_ms * 1_000_000) as u128
    } else {
        now
    }
}

/// When a vibration that is asked for at `now` ends. One without strength or time
/// does not start.
pub open spec fn deadline_of(now: u128, duration_ms: u64, intensity: u8) -> Option<u128> {
    if strength_of(intensity) == 0 || duration_ms == 0 {
        None
    } else {
        Some(later(now, duration_ms))
    }
}

/// What is sent to a frontend that can vibrate, and when the vibration ends.
pub open spec fn rumbled(
    deadline: Option<u128>,
    request: Option<(u64, u8)>,
    now: u128,
) -> (Seq<u16>, Option<u128>) {
    let (sent, next) = match request {
        Some((duration_ms, intensity)) => (
            seq![strength_of(intensity) as u16],
            deadline_of(now, duration_ms, intensity),
        ),
        None => (Seq::<u16>::empty(), deadline),
    };
    if next matches Some(end) && now >= end {
        (sent.push(0), None)
    } else {
        (sent, next)
    }
}

/// The strength for an intensity in percent. More than all is all.
pub fn rumble_strength(intensity: u8) -> (r: u16)
    ensures
        r == strength_of(intensity),
{
    let intensity: u8 = if intensity > 100 {
        100
    } else {
        intensity
    };
    (intensity as u32 * 65535 / 100) as u16
}

// ---------------------------------------------------------------------------
// Options that change

/// What follows from new options: whether MIDI is switched, and whether some change
/// waits for the content to be loaded again.
#[derive(Clone, Copy, Debug, PartialEq, Eq, Structural)]
pub struct HotChange {
    pub midi: Option<bool>,
    pub needs_reload: bool,
}

/// What follows from new options.
pub open spec fn change_between(before: OptionsModel, after: OptionsModel) -> HotChange {
    HotChange {
        midi: if before.midi_enabled != after.midi_enabled {
            Some(after.midi_enabled)
        } else {
            None
        },
        needs_reload: before.width != after.width || before.height != after.height
            || before.runtime != after.runtime || before.midi_volume != after.midi_volume
            || before.sound_font_path != after.sound_font_path,
    }
}

/// What the core says where a change waits for the content to be loaded again.
pub fn reload_warning() -> (r: &'static str)
    ensures
        r@
            == "Some wie core option changes require reloading the content to take effect."@,
{
    "Some wie core option changes require reloading the content to take effect."
}

fn same_path(a: &Option<String>, b: &Option<String>) -> (r: bool)
    ensures
        r == (optional(*a) == optional(*b)),
{
    match (a, b) {
        (Some(a), Some(b)) => same_text(a.as_str(), b.as_str()),
        (None, None) => true,
        _ => false,
    }
}

// ---------------------------------------------------------------------------
// The core

/// How many pictures a second a frontend shows.
pub const AUDIO_FPS: u32 = 60;

/// How many stereo frames of sound each picture comes with.
pub const AUDIO_FRAMES_PER_RUN: usize = 800;

/// The frames of a run are those of its share of a second, rounded.
pub proof fn lemma_frames_per_run()
    ensures
        AUDIO_FRAMES_PER_RUN == (2 * AUDIO_SAMPLE_RATE + AUDIO_FPS) / (2 * AUDIO_FPS as int),
{
    assert((2 * 48_000 + 60) / (2 * 60) == 800) by (nonlinear_arith);
}

/// The core with content loaded.
pub struct LibretroCore {
    input: InputManager,
    content: LoadedContent,
    options: CoreOptions,
    pixel_format: PixelFormat,
    video_frame: Frame,
    can_rumble: bool,
    rumble_deadline: Option<u128>,
}

/// The core's pictures fit its options.
pub open spec fn screen_fits(options: OptionsModel) -> bool {
    options.width * options.height <= u32::MAX
}

impl LibretroCore {
    /// The options that the core goes by.
    pub closed spec fn options(&self) -> OptionsModel {
        self.options@
    }

    /// The name of the content.
    pub closed spec fn content_name(&self) -> Seq<char> {
        self.content.name@
    }

    /// The bytes of the content.
    pub closed spec fn content_data(&self) -> Seq<u8> {
        self.content.data@
    }

    /// The form of its pixels.
    pub closed spec fn format(&self) -> PixelFormat {
        self.pixel_format
    }

    /// The picture that was shown last.
    pub closed spec fn frame(&self) -> Frame {
        self.video_frame
    }

    /// The frontend can vibrate.
    pub closed spec fn rumbles(&self) -> bool {
        self.can_rumble
    }

    /// When a vibration ends.
    pub closed spec fn deadline(&self) -> Option<u128> {
        self.rumble_deadline
    }

    /// The inputs that are held down.
    pub closed spec fn sources(&self) -> Map<InputSource, KeyCode> {
        self.input.sources()
    }

    /// The kept picture is in order.
    pub open spec fn wf(&self) -> bool {
        self.frame().wf()
    }

    /// The core for new content: black, still, with nothing pressed.
    pub fn load(
        content: LoadedContent,
        options: CoreOptions,
        pixel_format: PixelFormat,
        can_rumble: bool,
    ) -> (r: Self)
        requires
            screen_fits(options@),
        ensures
            r.wf(),
            r.options() == options@,
            r.content_name() == content.name@,
            r.content_data() == content.data@,
            r.format() == pixel_format,
            r.frame().width == options.width,
            r.frame().height == options.height,
            r.frame().argb8888@ == Seq::new(
                (options.width * options.height) as nat,
                |i: int| 0xff000000u32,
            ),
            r.rumbles() == can_rumble,
            r.deadline() is None,
            r.sources() == Map::<InputSource, KeyCode>::empty(),
    {
        let video_frame = Frame::new(options.width, options.height);
        LibretroCore {
            input: InputManager::new(),
            content,
            options,
            pixel_format,
            video_frame,
            can_rumble,
            rumble_deadline: None,
        }
    }

    /// The content, to be loaded again.
    pub fn content(&self) -> (r: LoadedContent)
        ensures
            r.name@ == self.content_name(),
            r.data@ == self.content_data(),
    {
        LoadedContent {
            name: copy_text(self.content.name.as_str()),
            data: share(&self.content.data),
        }
    }

    /// Goes by new options.
    pub fn apply_hot_options(&mut self, new_options: CoreOptions) -> (r: HotChange)
        ensures
            r == change_between(old(self).options(), new_options@),
            final(self).options() == new_options@,
            final(self).content_name() == old(self).content_name(),
            final(self).content_data() == old(self).content_data(),
            final(self).format() == old(self).format(),
            final(self).frame() == old(self).frame(),
            final(self).rumbles() == old(self).rumbles(),
            final(self).deadline() == old(self).deadline(),
            final(self).sources() == old(self).sources(),
    {
        let midi = if self.options.midi_enabled != new_options.midi_enabled {
            Some(new_options.midi_enabled)
        } else {
            None
        };
        let needs_reload = self.options.width != new_options.width || self.options.height
            != new_options.height || self.options.runtime != new_options.runtime
            || self.options.midi_volume != new_options.midi_volume || !same_path(
            &self.options.sound_font_path,
            &new_options.sound_font_path,
        );
        self.options = new_options;
        HotChange { midi, needs_reload }
    }

    /// Reads the frontend's inputs.
    pub fn poll(&mut self, values: Option<&[i16]>) -> (r: Vec<Event>)
        requires
            values matches Some(values) ==> values@.len() == all_bindings().len(),
        ensures
            (final(self).sources(), r@) == match values {
                Some(values) => read_bindings(old(self).sources(), all_bindings(), values@),
                None => (old(self).sources(), Seq::empty()),
            },
            final(self).options() == old(self).options(),
            final(self).frame() == old(self).frame(),
            final(self).deadline() == old(self).deadline(),
            final(self).rumbles() == old(self).rumbles(),
            final(self).format() == old(self).format(),
            final(self).content_name() == old(self).content_name(),
            final(self).content_data() == old(self).content_data(),
    {
        self.input.poll(values)
    }

    /// What to send to the frontend's motor at `now`, in nanoseconds, where `request`
    /// is what the guest asked for.
    pub fn update_rumble(&mut self, request: Option<(u64, u8)>, now: u128) -> (r: Vec<u16>)
        ensures
            !old(self).rumbles() ==> r@.len() == 0 && final(self).deadline() == old(
                self,
            ).deadline(),
            old(self).rumbles() ==> (r@, final(self).deadline()) == rumbled(
                old(self).deadline(),
                request,
                now,
            ),
            final(self).rumbles() == old(self).rumbles(),
            final(self).options() == old(self).options(),
            final(self).frame() == old(self).frame(),
            final(self).sources() == old(self).sources(),
            final(self).format() == old(self).format(),
            final(self).content_name() == old(self).content_name(),
            final(self).content_data() == old(self).content_data(),
    {
        let mut sent: Vec<u16> = Vec::new();
        if !self.can_rumble {
            return sent;
        }
        if let Some((duration_ms, intensity)) = request {
            let strength = rumble_strength(intensity);
            sent.push(strength);
            self.rumble_deadline = if strength == 0 || duration_ms == 0 {
                None
            } else {
                let duration = duration_ms as u128 * 1_000_000;
                match now.checked_add(duration) {
                    Some(end) => Some(end),
                    None => Some(now),
                }
            };
        }
        if let Some(end) = self.rumble_deadline {
            if now >= end {
                if let Some(strength) = self.stop_rumble() {
                    sent.push(strength);
                }
            }
        }
        assert(sent@ =~= rumbled(old(self).deadline(), request, now).0);
        sent
    }

    /// What to send to the frontend's motor so that it stops.
    pub fn stop_rumble(&mut self) -> (r: Option<u16>)
        ensures
            r == if old(self).deadline() is Some && old(self).rumbles() {
                Some(0u16)
            } else {
                None
            },
            final(self).deadline() is None,
            final(self).rumbles() == old(self).rumbles(),
            final(self).options() == old(self).options(),
            final(self).frame() == old(self).frame(),
            final(self).sources() == old(self).sources(),
            final(self).format() == old(self).format(),
            final(self).content_name() == old(self).content_name(),
            final(self).content_data() == old(self).content_data(),
    {
        let running = self.rumble_deadline.is_some();
        self.rumble_deadline = None;
        if running && self.can_rumble {
            Some(0)
        } else {
            None
        }
    }

    /// What to show: the newest picture, where it could be had, or the last one.
    pub fn present_video(&mut self, newest: Option<&Frame>) -> (r: Picture)
        requires
            old(self).wf(),
            newest matches Some(frame) ==> frame.wf(),
            old(self).frame().width * 4 <= usize::MAX,
            newest matches Some(frame) ==> frame.width * 4 <= usize::MAX,
        ensures
            final(self).wf(),
            ({
                let (width, height, pixels) = match newest {
                    Some(frame) => (frame.width, frame.height, frame.argb8888@),
                    None => (
                        old(self).frame().width,
                        old(self).frame().height,
                        old(self).frame().argb8888@,
                    ),
                };
                &&& is_picture_of(r, old(self).format(), width, height, pixels)
                &&& final(self).frame().width == width
                &&& final(self).frame().height == height
                &&& final(self).frame().argb8888@ == pixels
            }),
            final(self).format() == old(self).format(),
            final(self).rumbles() == old(self).rumbles(),
            final(self).deadline() == old(self).deadline(),
            final(self).options() == old(self).options(),
            final(self).sources() == old(self).sources(),
            final(self).content_name() == old(self).content_name(),
            final(self).content_data() == old(self).content_data(),
    {
        if let Some(frame) = newest {
            self.video_frame.copy_from(frame);
        }
        let width = self.video_frame.width;
        let height = self.video_frame.height;
        match self.pixel_format {
            PixelFormat::Xrgb8888 => {
                let shown = self.video_frame.argb8888.clone();
                assert(shown@ =~= self.video_frame.argb8888@);
                Picture {
                    width,
                    height,
                    pitch: width as usize * 4,
                    pixels: Pixels::Xrgb8888(shown),
                }
            },
            PixelFormat::Rgb565 => {
                let packed = self.video_frame.rgb565();
                let mut shown: Vec<u16> = Vec::new();
                for index in 0..packed.len()
                    invariant
                        shown@ == packed@.take(index as int),
                {
                    shown.push(packed[index]);
                    assert(shown@ =~= packed@.take(index + 1));
                }
                assert(shown@ =~= packed@);
                Picture { width, height, pitch: width as usize * 2, pixels: Pixels::Rgb565(shown) }
            },
        }
    }
}

/// The stereo frames of a buffer.
pub open spec fn pairs_of(buffer: Seq<i16>) -> Seq<(i16, i16)> {
    Seq::new(
        (buffer.len() / 2) as nat,
        |i: int| (buffer[2 * i], buffer[2 * i + 1]),
    )
}

/// The stereo frames of a buffer, left before right. A sample without its partner
/// is left out.
pub fn stereo_frames(buffer: &[i16]) -> (r: Vec<(i16, i16)>)
    ensures
        r@ == pairs_of(buffer@),
{
    let count = buffer.len() / 2;
    let mut frames: Vec<(i16, i16)> = Vec::new();
    for index in 0..count
        invariant
            count == buffer@.len() / 2,
            frames@.len() == index,
            forall|i: int|
                0 <= i < index ==> #[trigger] frames@[i] == (buffer@[2 * i], buffer@[2 * i + 1]),
    {
        let total = buffer.len();
        assert(2 * index + 1 < total);
        frames.push((buffer[2 * index], buffer[2 * index + 1]));
    }
    assert(frames@ =~= pairs_of(buffer@));
    frames
}

/// Of all changes only MIDI takes effect at once; every other one is announced as
/// waiting, and options that stay as they are change nothing.
pub proof fn lemma_hot_changes(before: OptionsModel, after: OptionsModel)
    ensures
        before == after ==> change_between(before, after) == (HotChange {
            midi: None,
            needs_reload: false,
        }),
        !change_between(before, after).needs_reload ==> after == (OptionsModel {
            midi_enabled: after.midi_enabled,
            ..before
        }),
{
}

/// A vibration that is due is stopped. Behind an update that sent something the motor
/// runs exactly while a deadline is set, but for a vibration that was asked for
/// without a time: nothing stops that one.
pub proof fn lemma_rumble_is_stopped(
    deadline: Option<u128>,
    request: Option<(u64, u8)>,
    now: u128,
)
    ensures
        ({
            let (sent, next) = rumbled(deadline, request, now);
            &&& next matches Some(end) ==> now < end
            &&& sent.len() > 0 && next is None ==> sent.last() == 0 || (request matches Some(
                (duration_ms, _),
            ) && duration_ms == 0)
            &&& next is Some && request is Some ==> sent.last() > 0
        }),
{
}

/// A motor runs as strongly as the intensity in percent says, less than one step below
/// the exact share; all of it is the most.
pub proof fn lemma_strength_is_its_share(intensity: u8)
    ensures
        intensity <= 100 ==> 100 * strength_of(intensity) <= 65535 * intensity < 100 * strength_of(
            intensity,
        ) + 100,
        intensity >= 100 ==> strength_of(intensity) == 0xffff,
{
}

/// A request starts the motor with its strength, until its time in milliseconds has
/// passed; a vibration goes on to its end where nothing is asked for.
pub proof fn lemma_request_runs_its_time(
    deadline: Option<u128>,
    duration_ms: u64,
    intensity: u8,
    now: u128,
    end: u128,
)
    requires
        now + duration_ms * 1_000_000 <= u128::MAX,
        duration_ms > 0,
        intensity > 0,
    ensures
        ({
            let (sent, next) = rumbled(deadline, Some((duration_ms, intensity)), now);
            &&& sent.len() == 1
            &&& sent[0] == strength_of(intensity)
            &&& next matches Some(end) && end - now == duration_ms * 1_000_000
        }),
        now < end ==> rumbled(Some(end), None, now) == (Seq::<u16>::empty(), Some(end)),
        now >= end ==> rumbled(Some(end), None, now) == (seq![0u16], None::<u128>),
        rumbled(None, None, now) == (Seq::<u16>::empty(), None::<u128>),
{
    assert(Seq::<u16>::empty().push(0u16) =~= seq![0u16]);
}

/// MIDI is switched to what the new options say, and switching it alone needs nothing to
/// be loaded again; any other change does.
pub proof fn lemma_midi_is_switched_at_once(before: OptionsModel, after: OptionsModel)
    ensures
        change_between(before, after).midi == if before.midi_enabled == after.midi_enabled {
            None
        } else {
            Some(after.midi_enabled)
        },
        !change_between(before, OptionsModel { midi_enabled: after.midi_enabled, ..before }).needs_reload,
        change_between(before, after).needs_reload == change_between(after, before).needs_reload,
        after != (OptionsModel { midi_enabled: after.midi_enabled, ..before })
            ==> change_between(before, after).needs_reload,
{
}

/// A row of a picture takes as many bytes as its pixels do, four each or two each.
pub proof fn lemma_rows_hold_their_pixels(
    picture: Picture,
    format: PixelFormat,
    width: u32,
    height: u32,
    pixels: Seq<u32>,
)
    requires
        is_picture_of(picture, format, width, height, pixels),
        pixels.len() == width * height,
    ensures
        picture.pixels matches Pixels::Xrgb8888(shown) ==> shown@.len() * 4 == picture.pitch
            * picture.height && shown@ == pixels,
        picture.pixels matches Pixels::Rgb565(shown) ==> shown@.len() * 2 == picture.pitch
            * picture.height,
        picture.pixels is Rgb565 <==> format == PixelFormat::Rgb565,
        picture.width == width,
        picture.height == height,
{
    assert((width * height) * 4 == (width * 4) * height) by (nonlinear_arith);
    assert((width * height) * 2 == (width * 2) * height) by (nonlinear_arith);
}

/// A frontend gets 32 bits unless it refuses them and takes 16.
pub proof fn lemma_richest_format_is_used(other: Option<bool>)
    ensures
        format_for(Some(true), other) == PixelFormat::Xrgb8888,
        format_for(None, other) == PixelFormat::Xrgb8888,
        format_for(Some(false), Some(true)) == PixelFormat::Rgb565,
        format_for(Some(false), Some(false)) == PixelFormat::Xrgb8888,
        format_for(Some(false), None) == PixelFormat::Xrgb8888,
{
}

/// Samples are put together in pairs, left before right, in order.
pub proof fn lemma_pairs_are_taken_in_order(buffer: Seq<i16>, left: i16, right: i16)
    requires
        buffer.len() % 2 == 0,
    ensures
        pairs_of(buffer + seq![left, right]) == pairs_of(buffer).push((left, right)),
        pairs_of(buffer.push(left)) == pairs_of(buffer),
        pairs_of(Seq::empty()).len() == 0,
{
    let longer = buffer + seq![left, right];
    let n = buffer.len() as int / 2;
    assert forall|i: int| 0 <= i <= n implies pairs_of(longer)[i] == pairs_of(buffer).push(
        (left, right),
    )[i] by {
        if i < n {
            assert(longer[2 * i] == buffer[2 * i] && longer[2 * i + 1] == buffer[2 * i + 1]);
        } else {
            assert(longer[2 * i] == left && longer[2 * i + 1] == right);
        }
    }
    assert(pairs_of(longer) =~= pairs_of(buffer).push((left, right)));
    assert(pairs_of(buffer.push(left)) =~= pairs_of(buffer));
}

} // verus!
