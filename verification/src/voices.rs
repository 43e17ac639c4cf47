//! The sampled voices that sound at one moment. What a mixer keeps in floating
//! point stands here as a bit pattern.

use std::sync::Arc;

use vstd::prelude::*;

use crate::audio::{share, AudioEventData, AudioHandle, AudioSequence, SmafEvent, TimedAudioEvent};

verus! {

/// The sample rate of the output.
pub const AUDIO_SAMPLE_RATE: u32 = 48_000;

/// A wave that plays once.
pub struct PcmVoice {
    pub channels: usize,
    pub sample_rate: u32,
    pub data: Vec<i16>,
    /// Where the mixer stands in the wave, in frames: the bits of an `f64`.
    pub position: u64,
}

/// The contents of a `PcmVoice`.
pub struct PcmModel {
    pub channels: int,
    pub sample_rate: u32,
    pub data: Seq<i16>,
    pub position: u64,
}

impl View for PcmVoice {
    type V = PcmModel;

    open spec fn view(&self) -> PcmModel {
        PcmModel {
            channels: self.channels as int,
            sample_rate: self.sample_rate,
            data: self.data@,
            position: self.position,
        }
    }
}

impl PcmModel {
    /// How many frames the wave has.
    pub open spec fn frames(self) -> int {
        self.data.len() as int / self.channels
    }

    /// The sample of `channel` in `frame`; a channel that the wave lacks sounds as
    /// its last one.
    pub open spec fn sample(self, frame: int, channel: int) -> i16 {
        self.data[frame * self.channels + if channel < self.channels {
            channel
        } else {
            self.channels - 1
        }]
    }
}

impl PcmVoice {
    pub fn source_frames(&self) -> (r: usize)
        requires
            self.channels > 0,
        ensures
            r == self@.frames(),
    {
        self.data.len() / self.channels
    }

    /// The sample of one channel in one frame.
    pub fn sample_channel(&self, frame_index: usize, channel_index: usize) -> (r: i16)
        requires
            self.channels > 0,
            frame_index < self@.frames(),
        ensures
            r == self@.sample(frame_index as int, channel_index as int),
    {
        let channel: usize = if channel_index < self.channels {
            channel_index
        } else {
            self.channels - 1
        };
        let ghost len = self.data@.len() as int;
        let ghost n = self.channels as int;
        let size = self.data.len();
        assert(0 <= frame_index * n && frame_index * n + n <= len && len <= size)
            by (nonlinear_arith)
            requires
                0 < n,
                len == size,
                0 <= frame_index < len / n,
        ;
        self.data[frame_index * self.channels + channel]
    }

    /// The left and right samples of one frame.
    pub fn stereo_frame(&self, frame_index: usize) -> (r: (i16, i16))
        requires
            self.channels > 0,
            frame_index < self@.frames(),
        ensures
            r.0 == self@.sample(frame_index as int, 0),
            r.1 == self@.sample(frame_index as int, 1),
    {
        (self.sample_channel(frame_index, 0), self.sample_channel(frame_index, 1))
    }

    /// The frame towards which the mixer interpolates: the next one, or the last.
    pub fn next_frame(&self, frame_index: usize) -> (r: usize)
        requires
            self.channels > 0,
            frame_index < self@.frames(),
        ensures
            r < self@.frames(),
            r == if frame_index + 1 < self@.frames() {
                frame_index + 1
            } else {
                self@.frames() - 1
            },
    {
        let frames = self.source_frames();
        if frame_index + 1 < frames {
            frame_index + 1
        } else {
            frames - 1
        }
    }
}

/// Which voice is mixed next once voice `index` was.
pub open spec fn next_after(index: int, finished: bool) -> int {
    if finished {
        index
    } else {
        index + 1
    }
}

/// The voices once `index` was mixed, where the last takes the place of one that is over.
pub open spec fn settled_last<T>(list: Seq<T>, index: int, finished: bool) -> Seq<T> {
    if finished {
        list.update(index, list.last()).drop_last()
    } else {
        list
    }
}

/// The voices once `index` was mixed, where the others keep their order.
pub open spec fn settled<T>(list: Seq<T>, index: int, finished: bool) -> Seq<T> {
    if finished {
        list.remove(index)
    } else {
        list
    }
}

/// A synthesized voice. `R` is the synthesizer that renders it, once there is
/// one.
pub struct SmafPcmVoice<R> {
    pub handle: AudioHandle,
    pub renderer: Option<R>,
    pub events: Arc<Vec<(usize, SmafEvent)>>,
    pub sample_rate: u32,
    pub repeat: bool,
    pub cycle_frames: usize,
    pub cycle_position: usize,
    pub current: Option<(i16, i16)>,
    pub next: Option<(i16, i16)>,
    /// How far the mixer stands between the two frames: the bits of an `f64`.
    pub fraction: u64,
}

/// A rate below 8 kHz is raised to it.
pub open spec fn voice_rate(sample_rate: u32) -> u32 {
    if sample_rate < 8_000 {
        8_000
    } else {
        sample_rate
    }
}

/// How many frames one pass of `duration` milliseconds has, as far as a machine
/// word can count them.
pub open spec fn cycle_length(duration: u64, sample_rate: u32) -> int {
    let product = if duration * sample_rate > u64::MAX {
        u64::MAX as int
    } else {
        duration * sample_rate
    };
    if product / 1000 > usize::MAX {
        usize::MAX as int
    } else {
        product / 1000
    }
}

/// A voice before its first frame.
pub open spec fn fresh_voice<R>(
    handle: AudioHandle,
    sample_rate: u32,
    events: Arc<Vec<(usize, SmafEvent)>>,
    duration: u64,
    repeat: bool,
) -> SmafPcmVoice<R> {
    SmafPcmVoice {
        handle,
        renderer: None,
        events,
        sample_rate: voice_rate(sample_rate),
        repeat: repeat && duration != 0,
        cycle_frames: cycle_length(duration, voice_rate(sample_rate)) as usize,
        cycle_position: 0,
        current: None,
        next: None,
        fraction: 0,
    }
}

impl<R> SmafPcmVoice<R> {
    pub fn new(
        handle: AudioHandle,
        sample_rate: u32,
        events: Arc<Vec<(usize, SmafEvent)>>,
        duration_ms: u64,
        repeat: bool,
    ) -> (r: Self)
        ensures
            r == fresh_voice::<R>(handle, sample_rate, events, duration_ms, repeat),
    {
        let sample_rate: u32 = if sample_rate < 8_000 {
            8_000
        } else {
            sample_rate
        };
        let product: u64 = match duration_ms.checked_mul(sample_rate as u64) {
            Some(product) => product,
            None => u64::MAX,
        };
        let frames: u64 = product / 1000;
        let cycle_frames: usize = if frames > usize::MAX as u64 {
            usize::MAX
        } else {
            frames as usize
        };
        SmafPcmVoice {
            handle,
            renderer: None,
            events,
            sample_rate,
            repeat: repeat && duration_ms != 0,
            cycle_frames,
            cycle_position: 0,
            current: None,
            next: None,
            fraction: 0,
        }
    }

    /// The voice once the next frame has begun, and whether it starts its piece over.
    pub open spec fn begun(self) -> (Self, bool) {
        let over = self.repeat && self.cycle_position >= self.cycle_frames;
        (
            SmafPcmVoice {
                cycle_position: if over {
                    0
                } else {
                    self.cycle_position
                },
                ..self
            },
            over,
        )
    }

    /// The voice once a frame has ended with what was rendered, and what is heard.
    pub open spec fn ended(self, rendered: Option<(i16, i16)>) -> (Self, Option<(i16, i16)>) {
        let heard = match rendered {
            Some(frame) => Some(frame),
            None => if self.repeat && self.cycle_position < self.cycle_frames {
                Some((0i16, 0i16))
            } else {
                None
            },
        };
        (
            SmafPcmVoice {
                cycle_position: if heard is Some && self.cycle_position < usize::MAX {
                    (self.cycle_position + 1) as usize
                } else {
                    self.cycle_position
                },
                ..self
            },
            heard,
        )
    }

    /// Begins the next frame. `true` where the voice starts its piece over, so that
    /// the synthesizer must restart.
    pub fn begin_frame(&mut self) -> (r: bool)
        ensures
            (*final(self), r) == old(self).begun(),
    {
        if self.repeat && self.cycle_position >= self.cycle_frames {
            self.cycle_position = 0;
            return true;
        }
        false
    }

    /// Ends the frame that `begin_frame` began, with what the synthesizer rendered.
    /// Where it had nothing left, a repeating voice is silent until its pass ends;
    /// another one is over.
    pub fn end_frame(&mut self, rendered: Option<(i16, i16)>) -> (r: Option<(i16, i16)>)
        ensures
            (*final(self), r) == old(self).ended(rendered),
    {
        if let Some(frame) = rendered {
            if self.cycle_position < usize::MAX {
                self.cycle_position += 1;
            }
            return Some(frame);
        }
        if self.repeat && self.cycle_position < self.cycle_frames {
            self.cycle_position += 1;
            Some((0, 0))
        } else {
            None
        }
    }
}

/// A repeating voice never ends: after `begin_frame` there is a frame to come,
/// whatever the synthesizer says.
pub proof fn lemma_repeating_voice_goes_on<R>(
    handle: AudioHandle,
    sample_rate: u32,
    events: Arc<Vec<(usize, SmafEvent)>>,
    duration: u64,
    position: usize,
)
    requires
        duration != 0,
    ensures
        ({
            let voice = fresh_voice::<R>(handle, sample_rate, events, duration, true);
            let begun = if position >= voice.cycle_frames {
                0
            } else {
                position as int
            };
            voice.repeat && begun < voice.cycle_frames
        }),
{
    let rate = voice_rate(sample_rate);
    assert(duration * rate >= 8_000) by (nonlinear_arith)
        requires
            duration >= 1,
            rate >= 8_000,
    ;
    assert(usize::MAX >= 8);
}

/// What an `AudioState` holds.
pub struct VoicesModel<R> {
    pub sample_rate: u32,
    pub pcm: Seq<PcmModel>,
    pub smaf: Seq<SmafPcmVoice<R>>,
}

impl<R> VoicesModel<R> {
    /// A wave added; one without channels, rate or samples is ignored.
    pub open spec fn with_wave(self, channels: u8, sample_rate: u32, data: Seq<i16>) -> Self {
        if channels == 0 || sample_rate == 0 || data.len() == 0 {
            self
        } else {
            VoicesModel {
                pcm: self.pcm.push(
                    PcmModel { channels: channels as int, sample_rate, data, position: 0 },
                ),
                ..self
            }
        }
    }

    /// The synthesized voices of `handle` taken out.
    pub open spec fn stopped(self, handle: AudioHandle) -> Self {
        VoicesModel {
            smaf: self.smaf.filter(|voice: SmafPcmVoice<R>| voice.handle != handle),
            ..self
        }
    }

    /// The synthesized voices of `handle` replaced by those of `sequence`.
    pub open spec fn started(
        self,
        handle: AudioHandle,
        sequence: AudioSequence,
        repeat: bool,
    ) -> Self {
        VoicesModel {
            smaf: self.stopped(handle).smaf + sequence_voices(
                sequence.events@,
                handle,
                sequence.duration,
                repeat,
            ),
            ..self
        }
    }
}

/// A fresh voice for each synthesized event of a sequence, in order.
pub open spec fn sequence_voices<R>(
    events: Seq<TimedAudioEvent>,
    handle: AudioHandle,
    duration: u64,
    repeat: bool,
) -> Seq<SmafPcmVoice<R>>
    decreases events.len(),
{
    if events.len() == 0 {
        Seq::empty()
    } else {
        let before = sequence_voices(events.drop_last(), handle, duration, repeat);
        match events.last().data {
            AudioEventData::Smaf { sampling_rate, events: sounds } => before.push(
                fresh_voice(handle, sampling_rate, sounds, duration, repeat),
            ),
            _ => before,
        }
    }
}

/// After a stop no voice of that handle sounds, and all others still do.
pub proof fn lemma_stopped_handle_is_gone<R>(voices: VoicesModel<R>, handle: AudioHandle)
    ensures
        forall|i: int|
            0 <= i < voices.stopped(handle).smaf.len() ==> (#[trigger] voices.stopped(
                handle,
            ).smaf[i]).handle != handle,
        forall|i: int|
            0 <= i < voices.smaf.len() && voices.smaf[i].handle != handle ==> voices.stopped(
                handle,
            ).smaf.contains(#[trigger] voices.smaf[i]),
{
    let keep = |voice: SmafPcmVoice<R>| voice.handle != handle;
    broadcast use vstd::seq_lib::group_filter_ensures;

    assert forall|i: int| 0 <= i < voices.smaf.len() && voices.smaf[i].handle != handle implies
        voices.stopped(handle).smaf.contains(#[trigger] voices.smaf[i]) by {
        assert(voices.smaf.contains(voices.smaf[i]));
        assert(keep(voices.smaf[i]));
    }
}

/// The voices that sound.
pub struct AudioState<R> {
    pub sample_rate: u32,
    pub pcm: Vec<PcmVoice>,
    pub smaf: Vec<SmafPcmVoice<R>>,
}

/// The models of a list of waves.
pub open spec fn pcm_models(voices: Seq<PcmVoice>) -> Seq<PcmModel> {
    Seq::new(voices.len(), |i: int| voices[i]@)
}

impl<R> View for AudioState<R> {
    type V = VoicesModel<R>;

    open spec fn view(&self) -> VoicesModel<R> {
        VoicesModel {
            sample_rate: self.sample_rate,
            pcm: pcm_models(self.pcm@),
            smaf: self.smaf@,
        }
    }
}

impl<R> AudioState<R> {
    pub fn new(sample_rate: u32) -> (r: Self)
        ensures
            r@ == (VoicesModel {
                sample_rate,
                pcm: Seq::<PcmModel>::empty(),
                smaf: Seq::<SmafPcmVoice<R>>::empty(),
            }),
    {
        let r = AudioState { sample_rate, pcm: Vec::new(), smaf: Vec::new() };
        assert(r@.pcm =~= Seq::<PcmModel>::empty());
        r
    }

    /// Starts a wave. One without channels, rate or samples is ignored.
    pub fn push_wave(&mut self, channels: u8, sample_rate: u32, data: &[i16])
        ensures
            final(self)@ == old(self)@.with_wave(channels, sample_rate, data@),
    {
        if channels == 0 || sample_rate == 0 || data.len() == 0 {
            return;
        }
        let mut samples: Vec<i16> = Vec::new();
        let mut index: usize = 0;
        while index < data.len()
            invariant
                index <= data@.len(),
                samples@ == data@.take(index as int),
            decreases data@.len() - index,
        {
            samples.push(data[index]);
            index += 1;
            assert(samples@ =~= data@.take(index as int));
        }
        let ghost before = pcm_models(self.pcm@);
        self.pcm.push(
            PcmVoice { channels: channels as usize, sample_rate, data: samples, position: 0 },
        );
        proof {
            assert(data@.take(data@.len() as int) =~= data@);
            assert(pcm_models(self.pcm@) =~= before.push(self.pcm@.last()@));
        }
    }

    /// Ends all voices.
    pub fn clear(&mut self)
        ensures
            final(self)@ == (VoicesModel {
                sample_rate: old(self)@.sample_rate,
                pcm: Seq::<PcmModel>::empty(),
                smaf: Seq::<SmafPcmVoice<R>>::empty(),
            }),
    {
        self.pcm = Vec::new();
        self.smaf = Vec::new();
        assert(self@.pcm =~= Seq::<PcmModel>::empty());
    }

    /// Settles wave `index` after it was mixed: one that is over leaves, and the last
    /// wave takes its place. Returns the wave to mix next.
    pub fn settle_pcm(&mut self, index: usize, finished: bool) -> (r: usize)
        requires
            index < old(self).pcm.len(),
        ensures
            r == next_after(index as int, finished),
            final(self).pcm@ == settled_last(old(self).pcm@, index as int, finished),
            final(self).smaf == old(self).smaf,
            final(self).sample_rate == old(self).sample_rate,
    {
        if finished {
            let _ = self.pcm.swap_remove(index);
            index
        } else {
            index + 1
        }
    }

    /// Settles synthesized voice `index` after it was mixed: one that is over leaves,
    /// and the others keep their order. Returns the voice to mix next.
    pub fn settle_smaf(&mut self, index: usize, finished: bool) -> (r: usize)
        requires
            index < old(self).smaf.len(),
        ensures
            r == next_after(index as int, finished),
            final(self).smaf@ == settled(old(self).smaf@, index as int, finished),
            final(self).pcm == old(self).pcm,
            final(self).sample_rate == old(self).sample_rate,
    {
        if finished {
            let _ = self.smaf.remove(index);
            index
        } else {
            index + 1
        }
    }

    /// Starts the synthesized voices of `sequence` in place of those that `handle`
    /// has.
    pub fn start_smaf(&mut self, handle: AudioHandle, sequence: &AudioSequence, repeat: bool)
        ensures
            final(self)@ == old(self)@.started(handle, *sequence, repeat),
    {
        self.stop(handle);
        let ghost kept = self.smaf@;
        let mut index: usize = 0;
        while index < sequence.events.len()
            invariant
                index <= sequence.events@.len(),
                self.sample_rate == old(self).sample_rate,
                pcm_models(self.pcm@) == pcm_models(old(self).pcm@),
                self.smaf@ == kept + sequence_voices(
                    sequence.events@.take(index as int),
                    handle,
                    sequence.duration,
                    repeat,
                ),
            decreases sequence.events@.len() - index,
        {
            proof {
                let next = sequence.events@.take(index + 1);
                assert(next.drop_last() =~= sequence.events@.take(index as int));
                assert(next.last() == sequence.events@[index as int]);
            }
            let ghost before = self.smaf@;
            if let AudioEventData::Smaf { sampling_rate, events } = &sequence.events[index].data {
                self.smaf.push(
                    SmafPcmVoice::new(
                        handle,
                        *sampling_rate,
                        share(events),
                        sequence.duration,
                        repeat,
                    ),
                );
            }
            index += 1;
            assert(self.smaf@ =~= kept + sequence_voices(
                sequence.events@.take(index as int),
                handle,
                sequence.duration,
                repeat,
            ));
        }
        assert(sequence.events@.take(index as int) =~= sequence.events@);
    }

    /// Ends the synthesized voices of `handle`.
    pub fn stop(&mut self, handle: AudioHandle)
        ensures
            final(self)@ == old(self)@.stopped(handle),
    {
        let mut voices: Vec<SmafPcmVoice<R>> = Vec::new();
        core::mem::swap(&mut voices, &mut self.smaf);
        let ghost all = voices@;
        let ghost keep = |voice: SmafPcmVoice<R>| voice.handle != handle;
        let mut kept: Vec<SmafPcmVoice<R>> = Vec::new();
        proof {
            reveal(Seq::filter);
            assert(kept@ =~= all.take(0).filter(keep));
        }
        for voice in it: voices
            invariant
                all == it.seq(),
                keep == (|voice: SmafPcmVoice<R>| voice.handle != handle),
                kept@ == all.take(it.index() as int).filter(keep),
        {
            proof {
                reveal(Seq::filter);
                let next = all.take(it.index() + 1);
                assert(next.drop_last() =~= all.take(it.index() as int));
                assert(next.last() == voice);
            }
            if voice.handle != handle {
                kept.push(voice);
            }
        }
        assert(all.take(all.len() as int) =~= all);
        self.smaf = kept;
    }
}

// ---------------------------------------------------------------------------
// What sounds

/// The frames of a wave lie one behind the other, a sample for each channel. A wave of
/// one channel sounds alike on both sides; of one with more, the first two are left and
/// right.
pub proof fn lemma_sides_of_a_wave(wave: PcmModel, frame: int)
    requires
        wave.channels > 0,
        0 <= frame < wave.frames(),
    ensures
        wave.channels == 1 ==> wave.sample(frame, 0) == wave.data[frame] && wave.sample(frame, 1)
            == wave.data[frame],
        wave.channels == 2 ==> wave.sample(frame, 0) == wave.data[2 * frame] && wave.sample(
            frame,
            1,
        ) == wave.data[2 * frame + 1],
        wave.channels > 1 ==> wave.sample(frame, 1) == wave.data[frame * wave.channels + 1],
{
    if wave.channels == 1 {
        assert(frame * wave.channels == frame) by (nonlinear_arith)
            requires
                wave.channels == 1,
        ;
    }
    if wave.channels == 2 {
        assert(frame * wave.channels == 2 * frame) by (nonlinear_arith)
            requires
                wave.channels == 2,
        ;
    }
}

/// All whole frames of a wave count, and no more: what is left is less than a frame.
pub proof fn lemma_whole_frames(wave: PcmModel)
    requires
        wave.channels > 0,
    ensures
        0 <= wave.data.len() - wave.frames() * wave.channels < wave.channels,
{
    vstd::arithmetic::div_mod::lemma_fundamental_div_mod(wave.data.len() as int, wave.channels);
    assert(wave.channels * wave.frames() == wave.frames() * wave.channels) by (nonlinear_arith);
}

/// A synthesized voice counts its pass in frames: as many as fit into its milliseconds at
/// its rate, which is the one asked for or 8 kHz. It belongs to its handle, plays its
/// events, and repeats where it was asked to and has a length.
pub proof fn lemma_fresh_voice<R>(
    handle: AudioHandle,
    sample_rate: u32,
    events: Arc<Vec<(usize, SmafEvent)>>,
    duration: u64,
    repeat: bool,
)
    requires
        duration * sample_rate <= 0xffff_ffff,
        duration <= 0x7_ffff,
    ensures
        ({
            let voice = fresh_voice::<R>(handle, sample_rate, events, duration, repeat);
            &&& voice.handle == handle
            &&& voice.events == events
            &&& voice.sample_rate >= sample_rate && voice.sample_rate >= 8_000
            &&& voice.sample_rate == sample_rate || voice.sample_rate == 8_000
            &&& voice.cycle_frames * 1000 <= duration * voice.sample_rate < voice.cycle_frames
                * 1000 + 1000
            &&& voice.repeat <==> repeat && duration > 0
            &&& voice.cycle_position == 0
            &&& voice.renderer is None && voice.current is None && voice.next is None
        }),
{
    let rate = voice_rate(sample_rate);
    assert(duration * rate <= 0xffff_ffff) by (nonlinear_arith)
        requires
            duration <= 0x7_ffff,
            rate == sample_rate || rate == 8_000,
            duration * sample_rate <= 0xffff_ffff,
    ;
    assert(0 <= duration * rate) by (nonlinear_arith);
}

/// How many events of a sequence are synthesized.
pub open spec fn synthesized_count(events: Seq<TimedAudioEvent>) -> int
    decreases events.len(),
{
    if events.len() == 0 {
        0
    } else {
        synthesized_count(events.drop_last()) + if events.last().data is Smaf {
            1int
        } else {
            0
        }
    }
}

/// Every synthesized event of a sequence gets a voice, of the sequence's handle.
pub proof fn lemma_voices_of_a_sequence<R>(
    events: Seq<TimedAudioEvent>,
    handle: AudioHandle,
    duration: u64,
    repeat: bool,
    i: int,
)
    ensures
        ({
            let voices = sequence_voices::<R>(events, handle, duration, repeat);
            &&& voices.len() == synthesized_count(events)
            &&& 0 <= i < voices.len() ==> voices[i].handle == handle
            &&& 0 <= i < events.len() ==> (events[i].data matches AudioEventData::Smaf {
                sampling_rate,
                events: sounds,
            } ==> voices.contains(
                fresh_voice::<R>(handle, sampling_rate, sounds, duration, repeat),
            ))
        }),
    decreases events.len(),
{
    if events.len() > 0 {
        let init = events.drop_last();
        lemma_voices_of_a_sequence::<R>(init, handle, duration, repeat, i);
        let before = sequence_voices::<R>(init, handle, duration, repeat);
        let voices = sequence_voices::<R>(events, handle, duration, repeat);
        if 0 <= i < events.len() {
            if let AudioEventData::Smaf { sampling_rate, events: sounds } = events[i].data {
                let voice = fresh_voice::<R>(handle, sampling_rate, sounds, duration, repeat);
                if i < init.len() {
                    let j = before.index_of(voice);
                    assert(before[j] == voice);
                    assert(voices[j] == voice);
                } else {
                    assert(voices.last() == voice);
                }
            }
        }
    }
}

/// Starting a handle leaves the voices of all others and the waves, and gives the handle
/// the voices of its sequence alone.
pub proof fn lemma_started_handle<R>(
    voices: VoicesModel<R>,
    handle: AudioHandle,
    sequence: AudioSequence,
    repeat: bool,
    i: int,
)
    requires
        0 <= i < voices.smaf.len(),
        voices.smaf[i].handle != handle,
    ensures
        ({
            let after = voices.started(handle, sequence, repeat);
            &&& after.pcm == voices.pcm
            &&& after.smaf.contains(voices.smaf[i])
            &&& after.smaf.len() == voices.stopped(handle).smaf.len() + synthesized_count(
                sequence.events@,
            )
        }),
{
    lemma_stopped_handle_is_gone(voices, handle);
    lemma_voices_of_a_sequence::<R>(sequence.events@, handle, sequence.duration, repeat, 0);
    let kept = voices.stopped(handle).smaf;
    let j = kept.index_of(voices.smaf[i]);
    assert(kept[j] == voices.smaf[i]);
    assert(voices.started(handle, sequence, repeat).smaf[j] == voices.smaf[i]);
}

/// A wave is heard where it has channels, a rate and samples, beside all that sounded
/// before; another one is not.
pub proof fn lemma_wave_is_heard<R>(
    voices: VoicesModel<R>,
    channels: u8,
    sample_rate: u32,
    data: Seq<i16>,
)
    ensures
        ({
            let after = voices.with_wave(channels, sample_rate, data);
            &&& after.smaf == voices.smaf
            &&& after.sample_rate == voices.sample_rate
            &&& channels > 0 && sample_rate > 0 && data.len() > 0 ==> {
                &&& after.pcm.len() == voices.pcm.len() + 1
                &&& after.pcm.take(voices.pcm.len() as int) == voices.pcm
                &&& after.pcm.last().channels == channels
                &&& after.pcm.last().sample_rate == sample_rate
                &&& after.pcm.last().data == data
            }
            &&& channels == 0 || sample_rate == 0 || data.len() == 0 ==> after.pcm == voices.pcm
        }),
{
    let after = voices.with_wave(channels, sample_rate, data);
    if channels > 0 && sample_rate > 0 && data.len() > 0 {
        assert(after.pcm.take(voices.pcm.len() as int) =~= voices.pcm);
    }
}

/// A pass of a repeating voice takes its number of frames and begins anew behind them; a
/// voice that does not repeat never begins anew.
pub proof fn lemma_pass_begins_anew<R>(voice: SmafPcmVoice<R>)
    ensures
        voice.repeat && voice.cycle_position >= voice.cycle_frames ==> voice.begun().1
            && voice.begun().0.cycle_position == 0,
        !(voice.repeat && voice.cycle_position >= voice.cycle_frames) ==> voice.begun() == (
            voice,
            false,
        ),
        voice.begun().0.cycle_frames == voice.cycle_frames,
        voice.begun().0.repeat == voice.repeat,
        voice.begun().0.handle == voice.handle,
{
}

/// A frame that was rendered is heard as it is. Without one a repeating voice is silent to
/// the end of its pass, and another one is over. Every frame that is heard counts.
pub proof fn lemma_rendered_frame_is_heard<R>(voice: SmafPcmVoice<R>, left: i16, right: i16)
    requires
        voice.cycle_position < usize::MAX,
    ensures
        voice.ended(Some((left, right))).1 == Some((left, right)),
        voice.ended(Some((left, right))).0.cycle_position == voice.cycle_position + 1,
        voice.repeat && voice.cycle_position < voice.cycle_frames ==> voice.ended(None).1 == Some(
            (0i16, 0i16),
        ) && voice.ended(None).0.cycle_position == voice.cycle_position + 1,
        !voice.repeat || voice.cycle_position >= voice.cycle_frames ==> voice.ended(None) == (
            voice,
            None::<(i16, i16)>,
        ),
{
}

/// Of the voices that are mixed exactly those that are over leave; none of the others is
/// lost or passed over.
pub proof fn lemma_only_finished_voices_leave<T>(list: Seq<T>, index: int, other: int)
    requires
        0 <= index < list.len(),
        0 <= other < list.len(),
        other != index,
    ensures
        next_after(index, true) == index,
        next_after(index, false) == index + 1,
        settled_last(list, index, false) == list,
        settled(list, index, false) == list,
        settled_last(list, index, true).len() == list.len() - 1,
        settled(list, index, true).len() == list.len() - 1,
        settled_last(list, index, true).contains(list[other]),
        settled(list, index, true)[if other < index {
            other
        } else {
            other - 1
        }] == list[other],
        other < index ==> settled_last(list, index, true)[other] == list[other],
{
    let left = settled_last(list, index, true);
    if other == list.len() - 1 {
        assert(left[index] == list[other]);
    } else {
        assert(left[other] == list[other]);
    }
}

} // verus!
