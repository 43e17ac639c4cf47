//! The worker that plays sequences in time. It decides; a driver waits for
//! commands and deadlines and hands them in. Times are nanoseconds on the
//! driver's clock.

use std::sync::Arc;

use vstd::prelude::*;

use crate::audio::{AudioCommand, AudioEventData, AudioHandle, AudioSequence, AudioSink, TimedAudioEvent};
use crate::midi_output::MidiOutput;
use crate::ordered::{OrderedMap, OrderedSet};
use crate::voices::AudioState;

verus! {

use crate::midi_output::{
    byte_or_zero,
    control_change_bytes,
    is_taken,
    lemma_written_all_frame,
    lemma_written_message_waits,
    note_off_bytes,
    says,
    MidiModel,
};
use crate::ordered::{ascending, keys_of, lemma_listing_of, lemma_map_of, listing_of, map_of};
use crate::voices::{lemma_stopped_handle_is_gone, VoicesModel};

/// The commands that a sink took and the worker has not received yet.
pub struct AudioCommandSender {
    pending: Vec<AudioCommand>,
}

impl AudioCommandSender {
    pub closed spec fn pending(&self) -> Seq<AudioCommand> {
        self.pending@
    }

    pub fn new() -> (r: Self)
        ensures
            r.pending() == Seq::<AudioCommand>::empty(),
    {
        AudioCommandSender { pending: Vec::new() }
    }

    pub fn send(&mut self, command: AudioCommand)
        ensures
            final(self).pending() == old(self).pending().push(command),
    {
        self.pending.push(command);
    }

    /// Takes all pending commands, oldest first.
    pub fn take(&mut self) -> (r: Vec<AudioCommand>)
        ensures
            r@ == old(self).pending(),
            final(self).pending() == Seq::<AudioCommand>::empty(),
    {
        let mut taken: Vec<AudioCommand> = Vec::new();
        core::mem::swap(&mut taken, &mut self.pending);
        taken
    }
}

/// The sink in front of a worker.
pub struct LibretroAudioSink {
    tx: AudioCommandSender,
}

impl LibretroAudioSink {
    pub fn new(tx: AudioCommandSender) -> (r: Self)
        ensures
            r.sent() == tx.pending(),
    {
        LibretroAudioSink { tx }
    }

    /// Takes the commands for the worker, oldest first.
    pub fn take(&mut self) -> (r: Vec<AudioCommand>)
        ensures
            r@ == old(self).sent(),
            final(self).sent() == Seq::<AudioCommand>::empty(),
    {
        self.tx.take()
    }
}

impl AudioSink for LibretroAudioSink {
    closed spec fn sent(&self) -> Seq<AudioCommand> {
        self.tx.pending()
    }

    fn send(&mut self, command: AudioCommand) {
        self.tx.send(command);
    }
}

/// What the worker receives.
pub enum AudioWorkerCommand {
    Audio(AudioCommand),
    Shutdown,
}

/// A sequence that plays.
pub struct Playback {
    pub sequence: Arc<AudioSequence>,
    pub repeat: bool,
    pub started_at: u64,
    pub next_event: usize,
    /// Sounding notes: 256 times the channel, and the note.
    pub active_notes: OrderedSet,
    pub used_channels: OrderedSet,
}

/// The contents of a `Playback`.
pub struct PlaybackModel {
    pub sequence: AudioSequence,
    pub repeat: bool,
    pub started_at: int,
    pub next_event: int,
    pub notes: Set<u32>,
    pub channels: Set<u32>,
}

/// `time` milliseconds after `start`.
pub open spec fn moment(start: int, time: u64) -> int {
    start + time * 1_000_000
}

impl PlaybackModel {
    pub open spec fn wf(self) -> bool {
        0 <= self.next_event <= self.sequence.events@.len()
    }

    /// When there is something to do next: the next event, or the end.
    pub open spec fn deadline(self) -> int {
        moment(
            self.started_at,
            if self.next_event < self.sequence.events@.len() {
                self.sequence.events@[self.next_event].time
            } else {
                self.sequence.duration
            },
        )
    }
}

impl View for Playback {
    type V = PlaybackModel;

    open spec fn view(&self) -> PlaybackModel {
        PlaybackModel {
            sequence: *self.sequence,
            repeat: self.repeat,
            started_at: self.started_at as int,
            next_event: self.next_event as int,
            notes: self.active_notes.set(),
            channels: self.used_channels.set(),
        }
    }
}

/// A playback that starts now.
pub open spec fn fresh_playback(
    sequence: AudioSequence,
    repeat: bool,
    now: int,
) -> PlaybackModel {
    PlaybackModel {
        sequence,
        repeat,
        started_at: now,
        next_event: 0,
        notes: Set::empty(),
        channels: Set::empty(),
    }
}

/// The outputs of the worker, and what one playback has on them.
#[verifier::ext_equal]
pub struct Stage<R> {
    pub midi: MidiModel,
    pub voices: VoicesModel<R>,
    pub notes: Set<u32>,
    pub channels: Set<u32>,
}

/// A channel message: its status byte lies below the system messages.
pub open spec fn is_channel_message(data: Seq<u8>) -> bool {
    data.len() > 0 && 0x80 <= data[0] < 0xf0
}

/// The key of the note that a channel message speaks of.
pub open spec fn note_key(data: Seq<u8>) -> u32 {
    ((data[0] % 16) * 256 + data[1]) as u32
}

/// The channels in use after `data` went out.
pub open spec fn channels_after(channels: Set<u32>, data: Seq<u8>) -> Set<u32> {
    if is_channel_message(data) {
        channels.insert((data[0] % 16) as u32)
    } else {
        channels
    }
}

/// The notes that sound after `data` went out. A note-on of velocity 0, or
/// without one, is a note-off.
pub open spec fn notes_after(notes: Set<u32>, data: Seq<u8>) -> Set<u32> {
    if !is_channel_message(data) || data.len() < 2 {
        notes
    } else if data[0] / 16 == 9 && byte_or_zero(data, 2) != 0 {
        notes.insert(note_key(data))
    } else if data[0] / 16 == 9 || data[0] / 16 == 8 {
        notes.remove(note_key(data))
    } else {
        notes
    }
}

/// One event played.
pub open spec fn played<R>(stage: Stage<R>, event: AudioEventData) -> Stage<R> {
    match event {
        AudioEventData::Midi(data) => Stage {
            midi: stage.midi.written(data@),
            voices: stage.voices,
            notes: notes_after(stage.notes, data@),
            channels: channels_after(stage.channels, data@),
        },
        AudioEventData::Wave { channels, sampling_rate, samples } => Stage {
            voices: stage.voices.with_wave(channels, sampling_rate, samples@),
            ..stage
        },
        AudioEventData::Smaf { .. } => stage,
    }
}

/// The events from `from` up to `to` played, in order.
pub open spec fn played_range<R>(
    stage: Stage<R>,
    events: Seq<TimedAudioEvent>,
    from: int,
    to: int,
) -> Stage<R>
    decreases to - from,
{
    if to <= from {
        stage
    } else {
        played(played_range(stage, events, from, to - 1), events[to - 1].data)
    }
}

/// The first event from `from` on that is not due yet.
pub open spec fn due_end(events: Seq<TimedAudioEvent>, from: int, start: int, now: int) -> int
    decreases events.len() - from,
{
    if from < events.len() && moment(start, events[from].time) <= now {
        due_end(events, from + 1, start, now)
    } else {
        from
    }
}

/// A note-off for each of `keys`.
pub open spec fn note_offs(keys: Seq<u32>) -> Seq<Seq<u8>> {
    Seq::new(
        keys.len(),
        |i: int| note_off_bytes((keys[i] / 256) as u8, (keys[i] % 256) as u8, 0),
    )
}

/// Message `i` of those that quiet the channels in `keys`, three for each: pedal
/// up, sound off, notes off.
pub open spec fn channel_off(keys: Seq<u32>, i: int) -> Seq<u8> {
    control_change_bytes(
        keys[i / 3] as u8,
        if i % 3 == 0 {
            64
        } else if i % 3 == 1 {
            120
        } else {
            123
        },
        0,
    )
}

/// The first `n` of the messages that quiet the channels in `keys`.
pub open spec fn channel_offs(keys: Seq<u32>, n: nat) -> Seq<Seq<u8>> {
    Seq::new(n, |i: int| channel_off(keys, i))
}

/// What ends a playback on the MIDI output: its notes off, lowest channel and
/// note first, then its channels quiet.
pub open spec fn cleanup_messages(notes: Set<u32>, channels: Set<u32>) -> Seq<Seq<u8>> {
    note_offs(listing_of(notes)) + channel_offs(
        listing_of(channels),
        (listing_of(channels).len() * 3) as nat,
    )
}

/// The MIDI output after a playback was ended on it.
pub open spec fn cleaned(midi: MidiModel, notes: Set<u32>, channels: Set<u32>) -> MidiModel {
    midi.written_all(cleanup_messages(notes, channels))
}

/// One playback brought to `now`: what is due is played; at its end it is cleaned
/// up, and it starts over if it repeats and has a length, or leaves.
pub open spec fn advanced<R>(
    midi: MidiModel,
    voices: VoicesModel<R>,
    p: PlaybackModel,
    now: int,
) -> (MidiModel, VoicesModel<R>, Option<PlaybackModel>) {
    let events = p.sequence.events@;
    let end = due_end(events, p.next_event, p.started_at, now);
    let stage = played_range(
        Stage { midi, voices, notes: p.notes, channels: p.channels },
        events,
        p.next_event,
        end,
    );
    if end == events.len() && moment(p.started_at, p.sequence.duration) <= now {
        let midi = cleaned(stage.midi, stage.notes, stage.channels);
        if p.repeat && p.sequence.duration != 0 {
            (midi, stage.voices, Some(fresh_playback(p.sequence, p.repeat, now)))
        } else {
            (midi, stage.voices, None)
        }
    } else {
        (
            stage.midi,
            stage.voices,
            Some(
                PlaybackModel {
                    next_event: end,
                    notes: stage.notes,
                    channels: stage.channels,
                    ..p
                },
            ),
        )
    }
}

/// All playbacks brought to `now`, one after the other.
pub open spec fn all_advanced<R>(
    midi: MidiModel,
    voices: VoicesModel<R>,
    playbacks: Seq<(u32, PlaybackModel)>,
    now: int,
) -> (MidiModel, VoicesModel<R>, Seq<(u32, PlaybackModel)>)
    decreases playbacks.len(),
{
    if playbacks.len() == 0 {
        (midi, voices, Seq::empty())
    } else {
        let (m, v, kept) = all_advanced(midi, voices, playbacks.drop_last(), now);
        let (handle, p) = playbacks.last();
        match advanced(m, v, p, now) {
            (m2, v2, Some(next)) => (m2, v2, kept.push((handle, next))),
            (m2, v2, None) => (m2, v2, kept),
        }
    }
}

/// All playbacks ended on the MIDI output, one after the other.
pub open spec fn all_cleaned(midi: MidiModel, playbacks: Seq<(u32, PlaybackModel)>) -> MidiModel
    decreases playbacks.len(),
{
    if playbacks.len() == 0 {
        midi
    } else {
        let (_, p) = playbacks.last();
        cleaned(all_cleaned(midi, playbacks.drop_last()), p.notes, p.channels)
    }
}

/// The models of a list of playbacks.
pub open spec fn playback_models(entries: Seq<(u32, Playback)>) -> Seq<(u32, PlaybackModel)> {
    Seq::new(entries.len(), |i: int| (entries[i].0, entries[i].1@))
}

proof fn lemma_due_end(events: Seq<TimedAudioEvent>, from: int, start: int, now: int)
    requires
        0 <= from <= events.len(),
    ensures
        from <= due_end(events, from, start, now) <= events.len(),
    decreases events.len() - from,
{
    if from < events.len() && moment(start, events[from].time) <= now {
        lemma_due_end(events, from + 1, start, now);
    }
}

/// What is played at one moment is all that is due: the events before the stop
/// are due, and the one at the stop is not.
pub proof fn lemma_due_events(
    events: Seq<TimedAudioEvent>,
    from: int,
    start: int,
    now: int,
)
    requires
        0 <= from <= events.len(),
    ensures
        ({
            let end = due_end(events, from, start, now);
            &&& from <= end <= events.len()
            &&& forall|i: int|
                from <= i < end ==> moment(start, (#[trigger] events[i]).time) <= now
            &&& end < events.len() ==> moment(start, events[end].time) > now
        }),
    decreases events.len() - from,
{
    if from < events.len() && moment(start, events[from].time) <= now {
        lemma_due_events(events, from + 1, start, now);
    }
}

/// A playback that repeats and has a length never ends by itself.
pub proof fn lemma_repeating_playback_stays<R>(
    midi: MidiModel,
    voices: VoicesModel<R>,
    p: PlaybackModel,
    now: int,
)
    requires
        p.repeat,
        p.sequence.duration != 0,
    ensures
        advanced(midi, voices, p, now).2 is Some,
{
}

/// A playback that does not repeat is over as soon as its last event and its
/// length have passed.
pub proof fn lemma_finished_playback_leaves<R>(
    midi: MidiModel,
    voices: VoicesModel<R>,
    p: PlaybackModel,
    now: int,
)
    requires
        !p.repeat || p.sequence.duration == 0,
        p.wf(),
        forall|i: int|
            p.next_event <= i < p.sequence.events@.len() ==> moment(
                p.started_at,
                (#[trigger] p.sequence.events@[i]).time,
            ) <= now,
        moment(p.started_at, p.sequence.duration) <= now,
    ensures
        advanced(midi, voices, p, now).2 is None,
{
    lemma_due_events(p.sequence.events@, p.next_event, p.started_at, now);
}

/// Ending a playback sends a note-off for every note that still sounds.
pub proof fn lemma_cleanup_ends_every_note(keys: Seq<u32>, channels: Set<u32>, key: u32)
    requires
        ascending(keys),
        keys.contains(key),
    ensures
        cleanup_messages(keys.to_set(), channels).contains(
            note_off_bytes((key / 256) as u8, (key % 256) as u8, 0),
        ),
{
    lemma_listing_of(keys);
    let i = keys.index_of(key);
    assert(keys[i] == key);
    let all = cleanup_messages(keys.to_set(), channels);
    assert(all[i] == note_offs(keys)[i]);
}

/// Plays one event on the outputs and keeps the playback's notes and channels.
pub fn play_audio_event<R>(
    pcm: &mut AudioState<R>,
    midi: &mut MidiOutput,
    event: &TimedAudioEvent,
    active_notes: &mut OrderedSet,
    used_channels: &mut OrderedSet,
)
    ensures
        (Stage {
            midi: final(midi)@,
            voices: final(pcm)@,
            notes: final(active_notes).set(),
            channels: final(used_channels).set(),
        }) == played(
            Stage {
                midi: old(midi)@,
                voices: old(pcm)@,
                notes: old(active_notes).set(),
                channels: old(used_channels).set(),
            },
            event.data,
        ),
{
    match &event.data {
        AudioEventData::Midi(data) => {
            if data.len() > 0 {
                let status = data[0];
                if 0x80 <= status && status < 0xf0 {
                    let channel = status % 16;
                    used_channels.insert(channel as u32);
                    if data.len() > 1 {
                        let key: u32 = channel as u32 * 256 + data[1] as u32;
                        let velocity: u8 = if data.len() > 2 {
                            data[2]
                        } else {
                            0
                        };
                        if status / 16 == 8 || (status / 16 == 9 && velocity == 0) {
                            active_notes.remove(key);
                        } else if status / 16 == 9 {
                            active_notes.insert(key);
                        }
                    }
                }
            }
            midi.write_message(data.as_slice());
        },
        AudioEventData::Wave { channels, sampling_rate, samples } => {
            pcm.push_wave(*channels, *sampling_rate, samples.as_slice());
        },
        AudioEventData::Smaf { .. } => {},
    }
}

proof fn lemma_written_all_concat(midi: MidiModel, a: Seq<Seq<u8>>, b: Seq<Seq<u8>>)
    ensures
        midi.written_all(a + b) == midi.written_all(a).written_all(b),
    decreases b.len(),
{
    if b.len() == 0 {
        assert(a + b =~= a);
    } else {
        lemma_written_all_concat(midi, a, b.drop_last());
        assert((a + b).drop_last() =~= a + b.drop_last());
    }
}

/// Ends a playback on the MIDI output and forgets its notes and channels.
pub fn cleanup_playback(midi: &mut MidiOutput, playback: &mut Playback)
    ensures
        final(midi)@ == cleaned(old(midi)@, old(playback)@.notes, old(playback)@.channels),
        final(playback)@ == (PlaybackModel {
            notes: Set::empty(),
            channels: Set::empty(),
            ..old(playback)@
        }),
{
    let notes = playback.active_notes.listing();
    let channels = playback.used_channels.listing();
    let ghost start = midi@;
    let mut index: usize = 0;
    while index < notes.len()
        invariant
            index <= notes@.len(),
            midi@ == start.written_all(note_offs(notes@.take(index as int))),
        decreases notes@.len() - index,
    {
        let key = notes[index];
        proof {
            let next = note_offs(notes@.take(index + 1));
            assert(next.drop_last() =~= note_offs(notes@.take(index as int)));
            assert(next.last() == note_off_bytes((key / 256) as u8, (key % 256) as u8, 0));
        }
        midi.note_off((key / 256) as u8, (key % 256) as u8, 0);
        index += 1;
    }
    assert(notes@.take(notes@.len() as int) =~= notes@);
    let ghost middle = midi@;
    let mut index: usize = 0;
    while index < channels.len()
        invariant
            index <= channels@.len(),
            midi@ == middle.written_all(channel_offs(channels@, (index * 3) as nat)),
        decreases channels@.len() - index,
    {
        let channel = channels[index] as u8;
        let ghost n = (index * 3) as nat;
        proof {
            assert(channel_offs(channels@, n + 1).drop_last() =~= channel_offs(channels@, n));
            assert(channel_offs(channels@, n + 2).drop_last() =~= channel_offs(channels@, n + 1));
            assert(channel_offs(channels@, n + 3).drop_last() =~= channel_offs(channels@, n + 2));
        }
        midi.control_change(channel, 64, 0);
        assert(midi@ == middle.written_all(channel_offs(channels@, n + 1)));
        midi.control_change(channel, 120, 0);
        assert(midi@ == middle.written_all(channel_offs(channels@, n + 2)));
        midi.control_change(channel, 123, 0);
        assert(midi@ == middle.written_all(channel_offs(channels@, n + 3)));
        index += 1;
    }
    proof {
        lemma_written_all_concat(
            start,
            note_offs(notes@),
            channel_offs(channels@, (channels@.len() * 3) as nat),
        );
    }
    playback.active_notes.clear();
    playback.used_channels.clear();
}

impl Playback {
    /// A playback that starts now.
    pub fn new(sequence: Arc<AudioSequence>, repeat: bool, now: u64) -> (r: Self)
        ensures
            r@ == fresh_playback(*sequence, repeat, now as int),
            r@.wf(),
    {
        Playback {
            sequence,
            repeat,
            started_at: now,
            next_event: 0,
            active_notes: OrderedSet::new(),
            used_channels: OrderedSet::new(),
        }
    }

    /// When there is something to do next.
    pub fn next_deadline(&self) -> (r: u128)
        ensures
            r == self@.deadline(),
    {
        let time: u64 = if self.next_event < self.sequence.events.len() {
            self.sequence.events[self.next_event].time
        } else {
            self.sequence.duration
        };
        self.started_at as u128 + time as u128 * 1_000_000
    }

    /// Brings the playback to `now`. `false` where it is over.
    pub fn advance<R>(&mut self, now: u64, pcm: &mut AudioState<R>, midi: &mut MidiOutput) -> (r:
        bool)
        requires
            old(self)@.wf(),
        ensures
            ({
                let (m, v, p) = advanced(old(midi)@, old(pcm)@, old(self)@, now as int);
                &&& final(midi)@ == m
                &&& final(pcm)@ == v
                &&& r == (p is Some)
                &&& r ==> final(self)@ == p->0
                &&& r ==> final(self)@.wf()
            }),
    {
        let ghost p = self@;
        let ghost events = self.sequence.events@;
        let ghost first = Stage {
            midi: midi@,
            voices: pcm@,
            notes: p.notes,
            channels: p.channels,
        };
        proof {
            lemma_due_end(events, p.next_event, p.started_at, now as int);
        }
        while self.next_event < self.sequence.events.len() && self.started_at as u128
            + self.sequence.events[self.next_event].time as u128 * 1_000_000 <= now as u128
            invariant
                events == p.sequence.events@,
                p.next_event <= self.next_event <= events.len(),
                self@ == (PlaybackModel {
                    next_event: self.next_event as int,
                    notes: self.active_notes.set(),
                    channels: self.used_channels.set(),
                    ..p
                }),
                due_end(events, p.next_event, p.started_at, now as int) == due_end(
                    events,
                    self.next_event as int,
                    p.started_at,
                    now as int,
                ),
                (Stage {
                    midi: midi@,
                    voices: pcm@,
                    notes: self.active_notes.set(),
                    channels: self.used_channels.set(),
                }) == played_range(first, events, p.next_event, self.next_event as int),
            decreases events.len() - self.next_event,
        {
            play_audio_event(
                pcm,
                midi,
                &self.sequence.events[self.next_event],
                &mut self.active_notes,
                &mut self.used_channels,
            );
            self.next_event += 1;
        }
        if self.next_event == self.sequence.events.len() && self.started_at as u128
            + self.sequence.duration as u128 * 1_000_000 <= now as u128 {
            cleanup_playback(midi, self);
            if self.repeat && self.sequence.duration != 0 {
                self.started_at = now;
                self.next_event = 0;
                return true;
            }
            return false;
        }
        true
    }
}

/// What a worker receives does: a command for a handle ends what plays under it and the
/// voices that it has; a play command starts the sequence anew. Before and after stand
/// the playbacks, the voices and the MIDI output.
pub open spec fn is_received<R>(
    command: AudioWorkerCommand,
    now: int,
    after: (Map<AudioHandle, PlaybackModel>, VoicesModel<R>, MidiModel),
    before: (Map<AudioHandle, PlaybackModel>, VoicesModel<R>, MidiModel),
) -> bool {
    match command {
        AudioWorkerCommand::Audio(AudioCommand::Play { handle, sequence, repeat }) => {
            &&& after.0 == before.0.insert(handle, fresh_playback(*sequence, repeat, now))
            &&& after.1 == before.1.started(handle, *sequence, repeat)
            &&& after.2 == ended(before.2, before.0, handle)
        },
        AudioWorkerCommand::Audio(AudioCommand::Stop { handle }) => {
            &&& after.0 == before.0.remove(handle)
            &&& after.1 == before.1.stopped(handle)
            &&& after.2 == ended(before.2, before.0, handle)
        },
        AudioWorkerCommand::Shutdown => after == before,
    }
}

/// The MIDI output after the playback of `handle`, if there is one, was ended on it.
pub open spec fn ended(
    midi: MidiModel,
    playbacks: Map<AudioHandle, PlaybackModel>,
    handle: AudioHandle,
) -> MidiModel {
    if playbacks.contains_key(handle) {
        cleaned(midi, playbacks[handle].notes, playbacks[handle].channels)
    } else {
        midi
    }
}

/// The sequences that play, by ascending handle.
pub struct AudioWorker {
    playbacks: OrderedMap<Playback>,
}

impl View for AudioWorker {
    type V = Seq<(u32, PlaybackModel)>;

    closed spec fn view(&self) -> Seq<(u32, PlaybackModel)> {
        playback_models(self.playbacks@)
    }
}

proof fn lemma_models_map(entries: Seq<(u32, Playback)>)
    ensures
        keys_of(playback_models(entries)) == keys_of(entries),
        map_of(playback_models(entries)).dom() == map_of(entries).dom(),
        forall|key: u32| #[trigger]
            map_of(entries).contains_key(key) ==> map_of(playback_models(entries))[key]
                == map_of(entries)[key]@,
{
    assert(keys_of(playback_models(entries)) =~= keys_of(entries));
    assert(map_of(playback_models(entries)).dom() =~= map_of(entries).dom());
    assert forall|key: u32| #[trigger] map_of(entries).contains_key(key) implies map_of(
        playback_models(entries),
    )[key] == map_of(entries)[key]@ by {
        let i = keys_of(entries).index_of(key);
        assert(keys_of(entries)[i] == key);
    }
}

impl AudioWorker {
    /// What plays under each handle.
    pub open spec fn map(&self) -> Map<AudioHandle, PlaybackModel> {
        map_of(self@)
    }

    /// No playback stands behind the end of its sequence.
    pub open spec fn wf(&self) -> bool {
        forall|i: int| 0 <= i < self@.len() ==> (#[trigger] self@[i]).1.wf()
    }

    pub fn new() -> (r: Self)
        ensures
            r.wf(),
            r@ == Seq::<(u32, PlaybackModel)>::empty(),
    {
        let r = AudioWorker { playbacks: OrderedMap::new() };
        assert(r@ =~= Seq::<(u32, PlaybackModel)>::empty());
        r
    }

    /// How long the worker may wait for a command: until the first deadline, or for
    /// ever.
    pub fn next_deadline(&self) -> (r: Option<u128>)
        ensures
            r is None <==> self@.len() == 0,
            r matches Some(deadline) ==> {
                &&& exists|i: int|
                    0 <= i < self@.len() && (#[trigger] self@[i]).1.deadline() == deadline
                &&& forall|i: int|
                    0 <= i < self@.len() ==> deadline <= (#[trigger] self@[i]).1.deadline()
            },
    {
        let mut first: Option<u128> = None;
        let mut index: usize = 0;
        while index < self.playbacks.len()
            invariant
                index <= self.playbacks@.len(),
                first is None <==> index == 0,
                first matches Some(deadline) ==> {
                    &&& exists|i: int|
                        0 <= i < index && (#[trigger] self@[i]).1.deadline() == deadline
                    &&& forall|i: int|
                        0 <= i < index ==> deadline <= (#[trigger] self@[i]).1.deadline()
                },
            decreases self.playbacks@.len() - index,
        {
            let deadline = self.playbacks.get(index).1.next_deadline();
            assert(self@[index as int].1.deadline() == deadline);
            match first {
                Some(earlier) if earlier <= deadline => {},
                _ => {
                    first = Some(deadline);
                },
            }
            index += 1;
        }
        first
    }

    /// Ends the playback of `handle`, if there is one.
    fn end_playback(&mut self, handle: AudioHandle, midi: &mut MidiOutput)
        requires
            old(self).wf(),
        ensures
            final(self).wf(),
            ascending(keys_of(final(self)@)),
            final(self).map() == old(self).map().remove(handle),
            final(midi)@ == if old(self).map().contains_key(handle) {
                cleaned(
                    old(midi)@,
                    old(self).map()[handle].notes,
                    old(self).map()[handle].channels,
                )
            } else {
                old(midi)@
            },
    {
        let ghost before = self.playbacks@;
        proof {
            lemma_models_map(before);
        }
        let ended = self.playbacks.remove(handle);
        let ghost after = self.playbacks@;
        proof {
            lemma_models_map(after);
            assert(self.map() =~= old(self).map().remove(handle));
            assert forall|i: int| 0 <= i < self@.len() implies (#[trigger] self@[i]).1.wf() by {
                lemma_map_of(after, i);
                let key = after[i].0;
                assert(map_of(before).contains_key(key));
                let j = keys_of(before).index_of(key);
                assert(keys_of(before)[j] == key);
                assert(old(self)@[j].1.wf());
            }
            if map_of(before).contains_key(handle) {
                let j = keys_of(before).index_of(handle);
                assert(keys_of(before)[j] == handle);
            }
        }
        if let Some(playback) = ended {
            let mut playback = playback;
            cleanup_playback(midi, &mut playback);
        }
    }

    /// Receives a command at `now`. `false` asks the driver to end the worker.
    pub fn receive<R>(
        &mut self,
        command: AudioWorkerCommand,
        now: u64,
        pcm: &mut AudioState<R>,
        midi: &mut MidiOutput,
    ) -> (r: bool)
        requires
            old(self).wf(),
        ensures
            final(self).wf(),
            r == (command is Audio),
            is_received(
                command,
                now as int,
                (final(self).map(), final(pcm)@, final(midi)@),
                (old(self).map(), old(pcm)@, old(midi)@),
            ),
            command is Audio ==> ascending(keys_of(final(self)@)),
            command is Shutdown ==> *final(self) == *old(self),
    {
        match command {
            AudioWorkerCommand::Audio(AudioCommand::Play { handle, sequence, repeat }) => {
                self.end_playback(handle, midi);
                pcm.start_smaf(handle, &sequence, repeat);
                let playback = Playback::new(sequence, repeat, now);
                let ghost before = self.playbacks@;
                proof {
                    lemma_models_map(before);
                    assert(!self.map().contains_key(handle));
                }
                let ghost middle = self.map();
                self.playbacks.insert(handle, playback);
                let ghost after = self.playbacks@;
                proof {
                    lemma_models_map(after);
                    assert(self.map() =~= middle.insert(handle, playback@));
                    assert(self.map() =~= old(self).map().insert(handle, playback@));
                    assert forall|i: int| 0 <= i < self@.len() implies (#[trigger] self@[i]).1.wf() by {
                        lemma_map_of(after, i);
                        let key = after[i].0;
                        if key != handle {
                            assert(map_of(before).contains_key(key));
                            let j = keys_of(before).index_of(key);
                            assert(keys_of(before)[j] == key);
                            assert(playback_models(before)[j].1.wf());
                        }
                    }
                }
                true
            },
            AudioWorkerCommand::Audio(AudioCommand::Stop { handle }) => {
                self.end_playback(handle, midi);
                pcm.stop(handle);
                true
            },
            AudioWorkerCommand::Shutdown => false,
        }
    }

    /// Plays all that is due at `now`.
    pub fn run_due<R>(&mut self, now: u64, pcm: &mut AudioState<R>, midi: &mut MidiOutput)
        requires
            old(self).wf(),
        ensures
            final(self).wf(),
            ({
                let (m, v, kept) = all_advanced(old(midi)@, old(pcm)@, old(self)@, now as int);
                &&& final(midi)@ == m
                &&& final(pcm)@ == v
                &&& final(self)@ == kept
            }),
    {
        let ghost models = self@;
        let ghost midi0 = midi@;
        let ghost pcm0 = pcm@;
        let mut taken: OrderedMap<Playback> = OrderedMap::new();
        core::mem::swap(&mut taken, &mut self.playbacks);
        let entries = taken.into_entries();
        let ghost all = entries@;
        let mut kept: Vec<(u32, Playback)> = Vec::new();
        proof {
            assert(playback_models(kept@) =~= Seq::<(u32, PlaybackModel)>::empty());
            assert(models.take(0) =~= Seq::<(u32, PlaybackModel)>::empty());
        }
        for entry in it: entries
            invariant
                all == it.seq(),
                models == playback_models(all),
                ascending(keys_of(all)),
                forall|i: int| 0 <= i < models.len() ==> (#[trigger] models[i]).1.wf(),
                ascending(keys_of(kept@)),
                forall|i: int|
                    0 <= i < kept@.len() ==> {
                        &&& (#[trigger] kept@[i]).1@.wf()
                        &&& it.index() < all.len() ==> kept@[i].0 < all[it.index() as int].0
                    },
                (midi@, pcm@, playback_models(kept@)) == all_advanced(
                    midi0,
                    pcm0,
                    models.take(it.index() as int),
                    now as int,
                ),
        {
            let ghost done = models.take(it.index() + 1);
            proof {
                assert(done.drop_last() =~= models.take(it.index() as int));
                assert(done.last() == models[it.index() as int]);
                assert(models[it.index() as int].1.wf());
                assert(keys_of(all)[it.index() as int] == all[it.index() as int].0);
                if it.index() + 1 < all.len() {
                    assert(keys_of(all)[it.index() + 1] == all[it.index() + 1].0);
                }
            }
            let ghost before = kept@;
            let (handle, playback) = entry;
            let mut playback = playback;
            if playback.advance(now, pcm, midi) {
                kept.push((handle, playback));
                proof {
                    assert(playback_models(kept@) =~= playback_models(before).push(
                        (handle, playback@),
                    ));
                    assert forall|i: int, j: int| 0 <= i < j < keys_of(kept@).len() implies
                        keys_of(kept@)[i] < keys_of(kept@)[j] by {
                        if j < before.len() {
                            assert(keys_of(before)[i] < keys_of(before)[j]);
                        } else {
                            assert(before[i].0 < handle);
                        }
                    }
                }
            }
        }
        proof {
            assert(models.take(models.len() as int) =~= models);
        }
        self.playbacks = OrderedMap::from_entries(kept);
    }

    /// Ends all playbacks and the synthesized voices.
    pub fn shutdown<R>(&mut self, pcm: &mut AudioState<R>, midi: &mut MidiOutput)
        ensures
            final(self)@ == Seq::<(u32, PlaybackModel)>::empty(),
            final(midi)@ == all_cleaned(old(midi)@, old(self)@),
            final(pcm)@ == (VoicesModel { smaf: Seq::empty(), ..old(pcm)@ }),
    {
        let ghost models = self@;
        let ghost midi0 = midi@;
        let mut taken: OrderedMap<Playback> = OrderedMap::new();
        core::mem::swap(&mut taken, &mut self.playbacks);
        let entries = taken.into_entries();
        let ghost all = entries@;
        assert(models.take(0) =~= Seq::<(u32, PlaybackModel)>::empty());
        for entry in it: entries
            invariant
                all == it.seq(),
                models == playback_models(all),
                midi@ == all_cleaned(midi0, models.take(it.index() as int)),
        {
            proof {
                let done = models.take(it.index() + 1);
                assert(done.drop_last() =~= models.take(it.index() as int));
                assert(done.last() == models[it.index() as int]);
            }
            let mut playback = entry.1;
            cleanup_playback(midi, &mut playback);
        }
        assert(models.take(models.len() as int) =~= models);
        assert(self@ =~= Seq::<(u32, PlaybackModel)>::empty());
        pcm.smaf = Vec::new();
    }
}

// ---------------------------------------------------------------------------
// What reaches the outputs

/// A MIDI event reaches the synthesizer behind an output that is on, open and ready: one
/// message waits behind all others, with the event's command, channel and data. Nothing
/// but the MIDI output changes in sound.
pub proof fn lemma_midi_event_reaches_the_synthesizer<R>(
    stage: Stage<R>,
    data: Vec<u8>,
)
    requires
        stage.midi.enabled,
        !stage.midi.closed,
        stage.midi.ready,
        is_taken(data@),
    ensures
        ({
            let after = played(stage, AudioEventData::Midi(data));
            &&& after.midi.queue.len() == stage.midi.queue.len() + 1
            &&& after.midi.queue.drop_last() == stage.midi.queue
            &&& says(after.midi.queue.last(), data@)
            &&& after.midi.enabled && !after.midi.closed && after.midi.ready
            &&& after.voices == stage.voices
        }),
{
    lemma_written_message_waits(stage.midi, data@);
}

/// A wave event starts its wave: it is the last of the waves, with its channels, rate and
/// samples, at its beginning. The MIDI output is left alone.
pub proof fn lemma_wave_event_starts_its_wave<R>(
    stage: Stage<R>,
    channels: u8,
    sampling_rate: u32,
    samples: Vec<i16>,
)
    requires
        channels > 0,
        sampling_rate > 0,
        samples@.len() > 0,
    ensures
        ({
            let after = played(stage, AudioEventData::Wave { channels, sampling_rate, samples });
            let wave = after.voices.pcm.last();
            &&& after.voices.pcm.len() == stage.voices.pcm.len() + 1
            &&& after.voices.pcm.drop_last() == stage.voices.pcm
            &&& wave.channels == channels
            &&& wave.sample_rate == sampling_rate
            &&& wave.data == samples@
            &&& wave.position == 0
            &&& after.voices.smaf == stage.voices.smaf
            &&& after.midi == stage.midi
            &&& after.notes == stage.notes && after.channels == stage.channels
        }),
{
    let after = played(stage, AudioEventData::Wave { channels, sampling_rate, samples });
    assert(after.voices.pcm.drop_last() =~= stage.voices.pcm);
}

/// Events that the synthesizer takes reach it in their order, one message for each.
pub proof fn lemma_midi_events_reach_the_synthesizer_in_order<R>(
    stage: Stage<R>,
    events: Seq<TimedAudioEvent>,
    from: int,
    to: int,
)
    requires
        0 <= from <= to <= events.len(),
        stage.midi.enabled,
        !stage.midi.closed,
        stage.midi.ready,
        forall|i: int|
            from <= i < to ==> ((#[trigger] events[i]).data matches AudioEventData::Midi(data)
                && is_taken(data@)),
    ensures
        ({
            let after = played_range(stage, events, from, to);
            let n = stage.midi.queue.len() as int;
            &&& after.midi.enabled && !after.midi.closed && after.midi.ready
            &&& after.midi.queue.len() == n + (to - from)
            &&& after.midi.queue.take(n) == stage.midi.queue
            &&& forall|i: int|
                0 <= i < to - from ==> says(
                    #[trigger] after.midi.queue[n + i],
                    events[from + i].data->Midi_0@,
                )
        }),
    decreases to - from,
{
    let n = stage.midi.queue.len() as int;
    if to > from {
        lemma_midi_events_reach_the_synthesizer_in_order(stage, events, from, to - 1);
        let before = played_range(stage, events, from, to - 1);
        let after = played_range(stage, events, from, to);
        let data = events[to - 1].data->Midi_0;
        lemma_midi_event_reaches_the_synthesizer(before, data);
        assert forall|i: int| 0 <= i < to - from implies says(
            #[trigger] after.midi.queue[n + i],
            events[from + i].data->Midi_0@,
        ) by {
            if i < to - 1 - from {
                assert(after.midi.queue[n + i] == after.midi.queue.drop_last()[n + i]);
                assert(says(before.midi.queue[n + i], events[from + i].data->Midi_0@));
            }
        }
        assert(after.midi.queue.take(n) =~= after.midi.queue.drop_last().take(n));
    } else {
        assert(stage.midi.queue.take(n) =~= stage.midi.queue);
    }
}

/// A playback that is brought forward sends every event that has become due since, in
/// order: it is due when its milliseconds have passed from the start of the playback.
pub proof fn lemma_due_messages_are_sent<R>(
    midi: MidiModel,
    voices: VoicesModel<R>,
    p: PlaybackModel,
    now: int,
    i: int,
)
    requires
        p.wf(),
        midi.enabled,
        !midi.closed,
        midi.ready,
        forall|j: int|
            0 <= j < p.sequence.events@.len() ==> ((#[trigger] p.sequence.events@[j]).data matches
                AudioEventData::Midi(data) && is_taken(data@)),
        p.next_event <= i < p.sequence.events@.len(),
        forall|j: int|
            p.next_event <= j <= i ==> p.started_at + (#[trigger] p.sequence.events@[j]).time
                * 1_000_000 <= now,
    ensures
        ({
            let (after, _, _) = advanced(midi, voices, p, now);
            let n = midi.queue.len() as int;
            &&& n + (i - p.next_event) < after.queue.len()
            &&& says(after.queue[n + (i - p.next_event)], p.sequence.events@[i].data->Midi_0@)
        }),
{
    let events = p.sequence.events@;
    let end = due_end(events, p.next_event, p.started_at, now);
    let n = midi.queue.len() as int;
    let first = Stage { midi, voices, notes: p.notes, channels: p.channels };
    lemma_due_events(events, p.next_event, p.started_at, now);
    assert(end > i) by {
        if end <= i {
            assert(moment(p.started_at, events[end].time) > now);
        }
    }
    lemma_midi_events_reach_the_synthesizer_in_order(first, events, p.next_event, end);
    let stage = played_range(first, events, p.next_event, end);
    let at = i - p.next_event;
    assert(says(stage.midi.queue[n + at], events[p.next_event + at].data->Midi_0@));
    lemma_written_all_frame(stage.midi, cleanup_messages(stage.notes, stage.channels));
}

/// After a playback was brought forward, what it does next lies ahead: its next event,
/// or its end, is later than now. One that starts over does so now, from its first
/// event, with nothing sounding.
pub proof fn lemma_next_deadline_lies_ahead<R>(
    midi: MidiModel,
    voices: VoicesModel<R>,
    p: PlaybackModel,
    now: int,
)
    requires
        p.wf(),
    ensures
        advanced(midi, voices, p, now).2 matches Some(next) ==> {
            &&& next.sequence == p.sequence
            &&& next.repeat == p.repeat
            &&& {
                ||| next.deadline() > now && next.started_at == p.started_at && next.next_event
                    >= p.next_event
                ||| next.started_at == now && next.next_event == 0 && p.repeat
                    && next.notes == Set::<u32>::empty() && next.channels == Set::<u32>::empty()
            }
        },
{
    let events = p.sequence.events@;
    lemma_due_events(events, p.next_event, p.started_at, now);
}

/// The clock of a playback runs in milliseconds of its sequence: what stands at `time`
/// is due `time` milliseconds after the start.
pub proof fn lemma_deadline_counts_milliseconds(p: PlaybackModel)
    requires
        p.wf(),
    ensures
        p.next_event < p.sequence.events@.len() ==> p.deadline() - p.started_at == 1_000_000
            * p.sequence.events@[p.next_event].time,
        p.next_event == p.sequence.events@.len() ==> p.deadline() - p.started_at == 1_000_000
            * p.sequence.duration,
{
}

/// A note that was struck sounds until it is let go, and no other note is touched; a
/// note struck without force is let go. Its channel counts as used from then on.
pub proof fn lemma_notes_are_followed(
    notes: Set<u32>,
    channels: Set<u32>,
    channel: u8,
    note: u8,
    velocity: u8,
    other: u32,
)
    requires
        channel < 16,
    ensures
        ({
            let on = seq![(0x90 + channel) as u8, note, velocity];
            let off = seq![(0x80 + channel) as u8, note, velocity];
            let key = (channel * 256 + note) as u32;
            &&& notes_after(notes, on).contains(key) == (velocity != 0)
            &&& !notes_after(notes, off).contains(key)
            &&& other != key ==> notes_after(notes, on).contains(other) == notes.contains(other)
            &&& other != key ==> notes_after(notes, off).contains(other) == notes.contains(other)
            &&& channels_after(channels, on).contains(channel as u32)
            &&& channels_after(channels, off).contains(channel as u32)
            &&& channels.contains(other) ==> channels_after(channels, on).contains(other)
            &&& other != channel ==> channels_after(channels, on).contains(other)
                == channels.contains(other)
        }),
{
}

/// Ending a playback quiets every channel that it used: pedal up, sound off, notes off.
pub proof fn lemma_cleanup_quiets_every_channel(notes: Set<u32>, keys: Seq<u32>, channel: u32)
    requires
        ascending(keys),
        keys.contains(channel),
        channel < 16,
    ensures
        ({
            let all = cleanup_messages(notes, keys.to_set());
            &&& all.contains(seq![(0xb0 + channel) as u8, 64u8, 0u8])
            &&& all.contains(seq![(0xb0 + channel) as u8, 120u8, 0u8])
            &&& all.contains(seq![(0xb0 + channel) as u8, 123u8, 0u8])
        }),
{
    lemma_listing_of(keys);
    let i = keys.index_of(channel);
    assert(keys[i] == channel);
    let all = cleanup_messages(notes, keys.to_set());
    let n = note_offs(listing_of(notes)).len() as int;
    let k = 3 * i;
    assert(k / 3 == i && (k + 1) / 3 == i && (k + 2) / 3 == i);
    assert(all[n + k] =~= seq![(0xb0 + channel) as u8, 64u8, 0u8]);
    assert(all[n + (k + 1)] =~= seq![(0xb0 + channel) as u8, 120u8, 0u8]);
    assert(all[n + (k + 2)] =~= seq![(0xb0 + channel) as u8, 123u8, 0u8]);
}

/// A play command leaves its sequence playing under its handle, from its beginning and
/// repeating as it was asked to; a stop command leaves nothing under its handle. What
/// plays under other handles goes on.
pub proof fn lemma_commands_are_obeyed<R>(
    command: AudioWorkerCommand,
    now: int,
    after: (Map<AudioHandle, PlaybackModel>, VoicesModel<R>, MidiModel),
    before: (Map<AudioHandle, PlaybackModel>, VoicesModel<R>, MidiModel),
    other: AudioHandle,
)
    requires
        is_received(command, now, after, before),
    ensures
        match command {
            AudioWorkerCommand::Audio(AudioCommand::Play { handle, sequence, repeat }) => {
                &&& after.0.contains_key(handle)
                &&& after.0[handle].sequence == *sequence
                &&& after.0[handle].repeat == repeat
                &&& after.0[handle].started_at == now
                &&& after.0[handle].next_event == 0
                &&& other != handle ==> after.0.contains_key(other) == before.0.contains_key(other)
                &&& other != handle && before.0.contains_key(other) ==> after.0[other]
                    == before.0[other]
                &&& !before.0.contains_key(handle) ==> after.2 == before.2
            },
            AudioWorkerCommand::Audio(AudioCommand::Stop { handle }) => {
                &&& !after.0.contains_key(handle)
                &&& other != handle ==> after.0.contains_key(other) == before.0.contains_key(other)
                &&& other != handle && before.0.contains_key(other) ==> after.0[other]
                    == before.0[other]
                &&& !before.0.contains_key(handle) ==> after.2 == before.2
                &&& forall|i: int|
                    0 <= i < after.1.smaf.len() ==> (#[trigger] after.1.smaf[i]).handle != handle
            },
            AudioWorkerCommand::Shutdown => after.0 == before.0 && after.2 == before.2,
        },
{
    if let AudioWorkerCommand::Audio(AudioCommand::Stop { handle }) = command {
        lemma_stopped_handle_is_gone(before.1, handle);
    }
}

/// Every playback is brought forward, in ascending order of the handles; one that is
/// over is not kept, all others are, under their handles.
pub proof fn lemma_all_playbacks_are_advanced<R>(
    midi: MidiModel,
    voices: VoicesModel<R>,
    playbacks: Seq<(u32, PlaybackModel)>,
    now: int,
    i: int,
)
    requires
        0 <= i < playbacks.len(),
        playbacks[i].1.wf(),
        playbacks[i].1.deadline() > now,
    ensures
        all_advanced(midi, voices, playbacks, now).2.contains(playbacks[i]),
    decreases playbacks.len(),
{
    let init = playbacks.drop_last();
    let (m, v, kept) = all_advanced(midi, voices, init, now);
    let after = all_advanced(midi, voices, playbacks, now).2;
    if i < init.len() {
        lemma_all_playbacks_are_advanced(midi, voices, init, now, i);
        let j = kept.index_of(playbacks[i]);
        assert(kept[j] == playbacks[i]);
        assert(after[j] == playbacks[i]);
    } else {
        let p = playbacks[i].1;
        let events = p.sequence.events@;
        lemma_due_events(events, p.next_event, p.started_at, now);
        assert(due_end(events, p.next_event, p.started_at, now) == p.next_event) by {
            let end = due_end(events, p.next_event, p.started_at, now);
            if end > p.next_event {
                assert(moment(p.started_at, events[p.next_event].time) <= now);
            }
        }
        assert(advanced(m, v, p, now).2 == Some(p));
        assert(after.last() == playbacks[i]);
    }
}

/// At the end every playback is ended, each with its own notes and channels.
pub proof fn lemma_all_playbacks_are_ended(
    midi: MidiModel,
    playbacks: Seq<(u32, PlaybackModel)>,
    handle: u32,
    p: PlaybackModel,
)
    ensures
        all_cleaned(midi, playbacks.push((handle, p))) == all_cleaned(midi, playbacks).written_all(
            cleanup_messages(p.notes, p.channels),
        ),
        all_cleaned(midi, Seq::empty()) == midi,
{
    assert(playbacks.push((handle, p)).drop_last() =~= playbacks);
}

/// Every message to a channel, and no other, makes the channel count as used; only notes
/// are notes.
pub proof fn lemma_channels_are_those_of_messages(
    notes: Set<u32>,
    channels: Set<u32>,
    kind: u8,
    channel: u8,
    data: Seq<u8>,
)
    requires
        8 <= kind < 16,
        channel < 16,
        data.len() > 0,
        data[0] == kind * 16 + channel,
    ensures
        kind < 15 ==> channels_after(channels, data) == channels.insert(channel as u32),
        kind == 15 ==> channels_after(channels, data) == channels,
        kind != 8 && kind != 9 ==> notes_after(notes, data) == notes,
        data.len() == 1 ==> notes_after(notes, data) == notes,
        channels_after(channels, Seq::empty()) == channels,
        notes_after(notes, Seq::empty()) == notes,
{
}

} // verus!
