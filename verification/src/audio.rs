//! Audio sequences and the handles by which guest programs play them.

use std::collections::BTreeMap;
use std::sync::Arc;

use vstd::prelude::*;

use crate::ordered::OrderedSet;

verus! {

use crate::midi_output::{decoded, SynthMessage};
use crate::ordered::ascending;

broadcast use vstd::std_specs::btree::group_btree_axioms;

/// Names a loaded sequence.
pub type AudioHandle = u32;

/// How loud a sampled sound plays, and where it stands between left and right.
#[derive(Clone, Copy, Debug, PartialEq, Eq, Structural)]
pub struct WaveDynamics {
    pub velocity: u8,
    pub volume: u8,
    pub expression: u8,
    pub pan: Option<u8>,
}

/// One event of a SMAF file.
#[derive(Debug, PartialEq, Eq)]
#[allow(inconsistent_fields)]
pub enum SmafEvent {
    Wave { channels: u8, sampling_rate: u32, data: Vec<i16>, dynamics: WaveDynamics },
    /// A note for the FM synthesizer, by its place in the file's note table.
    MaFmNote(u32),
    MidiNoteOn { channel: u8, note: u8, velocity: u8 },
    MidiNoteOff { channel: u8, note: u8, velocity: u8 },
    MidiProgramChange { channel: u8, program: u8 },
    MidiControlChange { channel: u8, control: u8, value: u8 },
    MidiPitchBend { channel: u8, value: u16 },
    MidiSysEx(Vec<u8>),
    End,
}

/// What an output does at one point of a sequence.
#[derive(Debug, PartialEq, Eq)]
pub enum AudioEventData {
    Midi(Vec<u8>),
    Wave { channels: u8, sampling_rate: u32, samples: Vec<i16> },
    Smaf { sampling_rate: u32, events: Arc<Vec<(usize, SmafEvent)>> },
}

/// An event and when it is due, in milliseconds from the start.
#[derive(Debug, PartialEq, Eq)]
pub struct TimedAudioEvent {
    pub time: u64,
    pub data: AudioEventData,
}

#[derive(Debug, PartialEq, Eq)]
pub struct AudioSequence {
    pub duration: u64,
    pub events: Vec<TimedAudioEvent>,
}

/// What a player asks of an output.
#[derive(Debug, PartialEq, Eq)]
pub enum AudioCommand {
    Play { handle: AudioHandle, sequence: Arc<AudioSequence>, repeat: bool },
    Stop { handle: AudioHandle },
}

#[derive(Clone, Copy, Debug, PartialEq, Eq, Structural)]
pub enum AudioError {
    InvalidHandle,
}

// ---------------------------------------------------------------------------
// Models

/// The contents of an `AudioEventData`.
pub enum EventModel {
    Midi(Seq<u8>),
    Wave { channels: u8, sampling_rate: u32, samples: Seq<i16> },
    Smaf { sampling_rate: u32, events: Seq<(usize, SmafEvent)> },
}

/// The contents of a `TimedAudioEvent`.
pub struct TimedModel {
    pub time: int,
    pub data: EventModel,
}

impl View for AudioEventData {
    type V = EventModel;

    open spec fn view(&self) -> EventModel {
        match self {
            AudioEventData::Midi(data) => EventModel::Midi(data@),
            AudioEventData::Wave { channels, sampling_rate, samples } => EventModel::Wave {
                channels: *channels,
                sampling_rate: *sampling_rate,
                samples: samples@,
            },
            AudioEventData::Smaf { sampling_rate, events } => EventModel::Smaf {
                sampling_rate: *sampling_rate,
                events: events@,
            },
        }
    }
}

impl View for TimedAudioEvent {
    type V = TimedModel;

    open spec fn view(&self) -> TimedModel {
        TimedModel { time: self.time as int, data: self.data@ }
    }
}

/// The models of a sequence's events, in order.
pub open spec fn models(events: Seq<TimedAudioEvent>) -> Seq<TimedModel> {
    Seq::new(events.len(), |i: int| events[i]@)
}

/// The MIDI message that carries `event`, if it is one for a MIDI output.
pub open spec fn midi_message(event: SmafEvent) -> Option<Seq<u8>> {
    match event {
        SmafEvent::MidiNoteOn { channel, note, velocity } => Some(
            seq![0x90u8 | channel, note, velocity],
        ),
        SmafEvent::MidiNoteOff { channel, note, velocity } => Some(
            seq![0x80u8 | channel, note, velocity],
        ),
        SmafEvent::MidiProgramChange { channel, program } => Some(
            seq![0xc0u8 | channel, program],
        ),
        SmafEvent::MidiControlChange { channel, control, value } => Some(
            seq![0xb0u8 | channel, control, value],
        ),
        SmafEvent::MidiPitchBend { channel, value } => Some(
            seq![0xe0u8 | channel, (value as int % 128) as u8, (value as int / 128 % 128) as u8],
        ),
        SmafEvent::MidiSysEx(data) => Some(data@),
        _ => None,
    }
}

/// The event is sound that the file carries itself.
pub open spec fn is_embedded(event: SmafEvent) -> bool {
    event is Wave || event is MaFmNote
}

/// The messages for a MIDI output, in file order.
pub open spec fn transport(events: Seq<(usize, SmafEvent)>) -> Seq<TimedModel>
    decreases events.len(),
{
    if events.len() == 0 {
        Seq::empty()
    } else {
        let before = transport(events.drop_last());
        match midi_message(events.last().1) {
            Some(message) => before.push(
                TimedModel { time: events.last().0 as int, data: EventModel::Midi(message) },
            ),
            None => before,
        }
    }
}

/// The events that the file's own synthesizer plays, in file order.
pub open spec fn embedded(events: Seq<(usize, SmafEvent)>) -> Seq<(usize, SmafEvent)>
    decreases events.len(),
{
    if events.len() == 0 {
        Seq::empty()
    } else {
        let before = embedded(events.drop_last());
        if is_embedded(events.last().1) {
            before.push(events.last())
        } else {
            before
        }
    }
}

/// The latest time in the file, or 0.
pub open spec fn latest(events: Seq<(usize, SmafEvent)>) -> int
    decreases events.len(),
{
    if events.len() == 0 {
        0
    } else {
        let before = latest(events.drop_last());
        if before < events.last().0 {
            events.last().0 as int
        } else {
            before
        }
    }
}

/// A sorted sequence with `event` put behind all that are due no later.
pub open spec fn insert_by_time(sorted: Seq<TimedModel>, event: TimedModel) -> Seq<TimedModel>
    decreases sorted.len(),
{
    if sorted.len() == 0 || sorted.last().time <= event.time {
        sorted.push(event)
    } else {
        insert_by_time(sorted.drop_last(), event).push(sorted.last())
    }
}

/// The events by time; those due at once keep their order.
pub open spec fn sorted_by_time(events: Seq<TimedModel>) -> Seq<TimedModel>
    decreases events.len(),
{
    if events.len() == 0 {
        Seq::empty()
    } else {
        insert_by_time(sorted_by_time(events.drop_last()), events.last())
    }
}

/// The sample rate at which a file's own sounds are synthesized: they hold
/// nothing above 10 kHz.
pub const EMBEDDED_SAMPLE_RATE: u32 = 24_000;

/// What `convert_smaf_events` sorts: the MIDI messages, and behind them, where
/// the file carries sounds of its own, one event at 0 that holds them all.
pub open spec fn unsorted_events(events: Seq<(usize, SmafEvent)>) -> Seq<TimedModel> {
    if embedded(events).len() == 0 {
        transport(events)
    } else {
        transport(events).push(
            TimedModel {
                time: 0,
                data: EventModel::Smaf {
                    sampling_rate: EMBEDDED_SAMPLE_RATE,
                    events: embedded(events),
                },
            },
        )
    }
}

pub open spec fn in_time_order(events: Seq<TimedModel>) -> bool {
    forall|i: int, j: int| 0 <= i <= j < events.len() ==> events[i].time <= events[j].time
}

proof fn lemma_insert_by_time(sorted: Seq<TimedModel>, event: TimedModel)
    requires
        in_time_order(sorted),
    ensures
        in_time_order(insert_by_time(sorted, event)),
        insert_by_time(sorted, event).len() == sorted.len() + 1,
        insert_by_time(sorted, event).to_multiset() == sorted.to_multiset().insert(event),
        forall|i: int|
            0 <= i <= sorted.len() ==> (#[trigger] insert_by_time(sorted, event)[i]).time
                <= event.time || (0 < sorted.len() && insert_by_time(sorted, event)[i].time
                <= sorted.last().time),
    decreases sorted.len(),
{
    broadcast use vstd::seq_lib::group_to_multiset_ensures;

    let r = insert_by_time(sorted, event);
    if sorted.len() == 0 || sorted.last().time <= event.time {
    } else {
        let init = sorted.drop_last();
        lemma_insert_by_time(init, event);
        assert(sorted =~= init.push(sorted.last()));
        assert(sorted.to_multiset() =~= init.to_multiset().insert(sorted.last()));
        assert(r.to_multiset() =~= sorted.to_multiset().insert(event));
        assert forall|i: int| 0 <= i < r.len() implies (#[trigger] r[i]).time
            <= sorted.last().time by {
            if i < init.len() + 1 {
                assert(r[i] == insert_by_time(init, event)[i]);
                if init.len() > 0 {
                    assert(init.last() == sorted[sorted.len() - 2]);
                }
            }
        }
    }
}

/// Sorting by time puts the events in time order and neither adds nor drops one.
pub proof fn lemma_sorted_by_time(events: Seq<TimedModel>)
    ensures
        in_time_order(sorted_by_time(events)),
        sorted_by_time(events).len() == events.len(),
        sorted_by_time(events).to_multiset() == events.to_multiset(),
    decreases events.len(),
{
    broadcast use vstd::seq_lib::group_to_multiset_ensures;

    if events.len() > 0 {
        lemma_sorted_by_time(events.drop_last());
        lemma_insert_by_time(sorted_by_time(events.drop_last()), events.last());
        assert(events =~= events.drop_last().push(events.last()));
    } else {
        assert(events =~= Seq::empty());
    }
}

/// The events of one moment, in their order.
pub open spec fn due_at(events: Seq<TimedModel>, time: int) -> Seq<TimedModel> {
    events.filter(|e: TimedModel| e.time == time)
}

proof fn lemma_due_at_push(events: Seq<TimedModel>, event: TimedModel, time: int)
    ensures
        due_at(events.push(event), time) == if event.time == time {
            due_at(events, time).push(event)
        } else {
            due_at(events, time)
        },
{
    reveal(Seq::filter);
    assert(events.push(event).drop_last() =~= events);
}

proof fn lemma_insert_keeps_order(sorted: Seq<TimedModel>, event: TimedModel, time: int)
    requires
        in_time_order(sorted),
    ensures
        due_at(insert_by_time(sorted, event), time) == due_at(sorted.push(event), time),
    decreases sorted.len(),
{
    if sorted.len() > 0 && sorted.last().time > event.time {
        let init = sorted.drop_last();
        lemma_insert_keeps_order(init, event, time);
        lemma_due_at_push(init, event, time);
        lemma_due_at_push(init, sorted.last(), time);
        lemma_due_at_push(insert_by_time(init, event), sorted.last(), time);
        lemma_due_at_push(sorted, event, time);
        assert(sorted =~= init.push(sorted.last()));
        if event.time == time {
            assert(due_at(sorted, time) == due_at(init, time));
        }
    }
}

/// Events due at the same moment keep the order in which they were given.
pub proof fn lemma_sorting_is_stable(events: Seq<TimedModel>, time: int)
    ensures
        due_at(sorted_by_time(events), time) == due_at(events, time),
    decreases events.len(),
{
    if events.len() > 0 {
        let init = events.drop_last();
        lemma_sorting_is_stable(init, time);
        lemma_sorted_by_time(init);
        lemma_insert_keeps_order(sorted_by_time(init), events.last(), time);
        lemma_due_at_push(sorted_by_time(init), events.last(), time);
        lemma_due_at_push(init, events.last(), time);
        assert(events =~= init.push(events.last()));
    } else {
        assert(events =~= sorted_by_time(events));
    }
}

/// A sequence lasts until its last event: none is due after the end.
pub proof fn lemma_duration_covers_transport(events: Seq<(usize, SmafEvent)>)
    ensures
        0 <= latest(events),
        forall|i: int|
            0 <= i < transport(events).len() ==> 0 <= (#[trigger] transport(events)[i]).time
                <= latest(events),
    decreases events.len(),
{
    if events.len() > 0 {
        lemma_duration_covers_transport(events.drop_last());
    }
}

// ---------------------------------------------------------------------------
// Conversion

proof fn lemma_insert_position(sorted: Seq<TimedModel>, event: TimedModel, at: int)
    requires
        0 <= at <= sorted.len(),
        forall|i: int| at <= i < sorted.len() ==> (#[trigger] sorted[i]).time > event.time,
        at > 0 ==> sorted[at - 1].time <= event.time,
    ensures
        insert_by_time(sorted, event) == sorted.insert(at, event),
    decreases sorted.len(),
{
    if at == sorted.len() {
        assert(sorted.insert(at, event) =~= sorted.push(event));
    } else {
        lemma_insert_position(sorted.drop_last(), event, at);
        assert(sorted.insert(at, event) =~= sorted.drop_last().insert(at, event).push(
            sorted.last(),
        ));
    }
}

/// Sorts the events by time; those due at once keep their order.
pub fn sort_by_time(events: Vec<TimedAudioEvent>) -> (r: Vec<TimedAudioEvent>)
    ensures
        models(r@) == sorted_by_time(models(events@)),
{
    let ghost all = models(events@);
    let mut sorted: Vec<TimedAudioEvent> = Vec::new();
    assert(models(sorted@) =~= sorted_by_time(all.take(0)));
    for event in it: events
        invariant
            all == models(it.seq()),
            models(sorted@) == sorted_by_time(all.take(it.index() as int)),
    {
        let mut at: usize = sorted.len();
        while at > 0 && sorted[at - 1].time > event.time
            invariant
                at <= sorted@.len(),
                forall|i: int|
                    at <= i < sorted@.len() ==> (#[trigger] sorted@[i]).time > event.time,
            decreases at,
        {
            at -= 1;
        }
        proof {
            let before = models(sorted@);
            assert forall|i: int| at <= i < before.len() implies (#[trigger] before[i]).time
                > event@.time by {
                assert(sorted@[i].time > event.time);
            }
            lemma_insert_position(before, event@, at as int);
            assert(models(sorted@.insert(at as int, event)) =~= before.insert(at as int, event@));
            let next = all.take(it.index() + 1);
            assert(next.drop_last() =~= all.take(it.index() as int));
            assert(next.last() == event@);
        }
        sorted.insert(at, event);
    }
    proof {
        assert(all.take(all.len() as int) =~= all);
    }
    sorted
}

/// The MIDI message that carries `event`. A message that the event holds already
/// moves out of it.
fn message_of(event: SmafEvent) -> (r: Option<Vec<u8>>)
    ensures
        r is Some <==> midi_message(event) is Some,
        r matches Some(message) ==> midi_message(event) == Some(message@),
{
    match event {
        SmafEvent::MidiNoteOn { channel, note, velocity } => {
            let message = vec![0x90u8 | channel, note, velocity];
            assert(message@ =~= midi_message(event)->0);
            Some(message)
        },
        SmafEvent::MidiNoteOff { channel, note, velocity } => {
            let message = vec![0x80u8 | channel, note, velocity];
            assert(message@ =~= midi_message(event)->0);
            Some(message)
        },
        SmafEvent::MidiProgramChange { channel, program } => {
            let message = vec![0xc0u8 | channel, program];
            assert(message@ =~= midi_message(event)->0);
            Some(message)
        },
        SmafEvent::MidiControlChange { channel, control, value } => {
            let message = vec![0xb0u8 | channel, control, value];
            assert(message@ =~= midi_message(event)->0);
            Some(message)
        },
        SmafEvent::MidiPitchBend { channel, value } => {
            let message = vec![
                0xe0u8 | channel,
                (value % 128) as u8,
                (value / 128 % 128) as u8,
            ];
            assert(message@ =~= midi_message(event)->0);
            Some(message)
        },
        SmafEvent::MidiSysEx(data) => Some(data),
        _ => None,
    }
}

/// Turns the events of a SMAF file into a sequence for an output: MIDI messages
/// by time, and the file's own sounds as one event that is synthesized while it
/// plays.
pub fn convert_smaf_events(events: Vec<(usize, SmafEvent)>) -> (r: AudioSequence)
    ensures
        r.duration == latest(events@),
        models(r.events@) == sorted_by_time(unsorted_events(events@)),
{
    let ghost all = events@;
    let mut duration: u64 = 0;
    let mut sounds: Vec<(usize, SmafEvent)> = Vec::new();
    let mut messages: Vec<TimedAudioEvent> = Vec::new();
    assert(models(messages@) =~= transport(all.take(0)));
    for entry in it: events
        invariant
            all == it.seq(),
            duration == latest(all.take(it.index() as int)),
            sounds@ == embedded(all.take(it.index() as int)),
            models(messages@) == transport(all.take(it.index() as int)),
    {
        let ghost done = all.take(it.index() + 1);
        proof {
            assert(done.drop_last() =~= all.take(it.index() as int));
            assert(done.last() == entry);
        }
        let (time, event) = entry;
        if duration < time as u64 {
            duration = time as u64;
        }
        let is_sound = matches!(event, SmafEvent::Wave { .. } | SmafEvent::MaFmNote(_));
        if is_sound {
            sounds.push((time, event));
        } else if let Some(message) = message_of(event) {
            let ghost before = models(messages@);
            messages.push(
                TimedAudioEvent { time: time as u64, data: AudioEventData::Midi(message) },
            );
            assert(models(messages@) =~= before.push(messages@.last()@));
        }
    }
    proof {
        assert(all.take(all.len() as int) =~= all);
    }
    if sounds.len() > 0 {
        let ghost before = models(messages@);
        messages.push(
            TimedAudioEvent {
                time: 0,
                data: AudioEventData::Smaf {
                    sampling_rate: EMBEDDED_SAMPLE_RATE,
                    events: Arc::new(sounds),
                },
            },
        );
        assert(models(messages@) =~= before.push(messages@.last()@));
    }
    AudioSequence { duration, events: sort_by_time(messages) }
}

// ---------------------------------------------------------------------------
// Player

/// An output that plays sequences.
pub trait AudioSink {
    /// The commands sent so far.
    spec fn sent(&self) -> Seq<AudioCommand>;

    fn send(&mut self, command: AudioCommand)
        ensures
            final(self).sent() == old(self).sent().push(command),
    ;
}

/// Calls `Arc::clone`, which gives another pointer to the same value.
#[verifier::external_body]
pub(crate) fn share<T>(value: &Arc<T>) -> (r: Arc<T>)
    ensures
        r == *value,
{
    Arc::clone(value)
}

/// One stop command for each of `handles`, in order.
pub open spec fn stops(handles: Seq<AudioHandle>) -> Seq<AudioCommand> {
    Seq::new(handles.len(), |i: int| AudioCommand::Stop { handle: handles[i] })
}

/// What starting a sequence sends: it is stopped first where it plays.
pub open spec fn start_commands(
    playing: Set<AudioHandle>,
    handle: AudioHandle,
    sequence: AudioSequence,
    repeat: bool,
) -> Seq<AudioCommand> {
    let start = AudioCommand::Play { handle, sequence: Arc::new(sequence), repeat };
    if playing.contains(handle) {
        seq![AudioCommand::Stop { handle }, start]
    } else {
        seq![start]
    }
}

/// A start ends with one play command, for the handle that was asked for, of its
/// sequence, repeating just as asked; a stop for the same handle may come before it, and
/// nothing else.
pub proof fn lemma_start_plays_what_was_asked(
    playing: Set<AudioHandle>,
    handle: AudioHandle,
    sequence: AudioSequence,
    repeat: bool,
    i: int,
)
    ensures
        ({
            let commands = start_commands(playing, handle, sequence, repeat);
            &&& commands.len() == 1 || commands.len() == 2
            &&& commands.len() == 2 <==> playing.contains(handle)
            &&& commands.last() matches AudioCommand::Play {
                handle: h,
                sequence: s,
                repeat: again,
            } && h == handle && *s == sequence && again == repeat
            &&& 0 <= i < commands.len() - 1 ==> (commands[i] matches AudioCommand::Stop {
                handle: h,
            } && h == handle)
        }),
{
}

/// The loaded sequences, and which of them play.
pub struct Audio<S: AudioSink> {
    sink: S,
    files: BTreeMap<AudioHandle, Arc<AudioSequence>>,
    playing: OrderedSet,
    last_audio_handle: AudioHandle,
}

impl<S: AudioSink> Audio<S> {
    /// The loaded sequences.
    pub closed spec fn files(&self) -> Map<AudioHandle, AudioSequence> {
        self.files@.map_values(|sequence: Arc<AudioSequence>| *sequence)
    }

    /// The handles that were started and not stopped since.
    pub closed spec fn playing(&self) -> Set<AudioHandle> {
        self.playing.set()
    }

    /// The same handles in ascending order.
    pub closed spec fn playing_listing(&self) -> Seq<AudioHandle> {
        self.playing@
    }

    /// The handle that the next loaded sequence gets.
    pub closed spec fn next_handle(&self) -> AudioHandle {
        self.last_audio_handle
    }

    /// The commands sent to the output so far.
    pub closed spec fn sent(&self) -> Seq<AudioCommand> {
        self.sink.sent()
    }

    /// Every handle in use was given out before; only loaded sequences play.
    pub open spec fn wf(&self) -> bool {
        &&& forall|h: AudioHandle| #[trigger]
            self.files().contains_key(h) ==> h < self.next_handle()
        &&& forall|h: AudioHandle| #[trigger]
            self.playing().contains(h) ==> self.files().contains_key(h)
    }

    /// The stop command that ends the playback of `handle`, if it plays.
    pub open spec fn stop_of(&self, handle: AudioHandle) -> Seq<AudioCommand> {
        if self.playing().contains(handle) {
            seq![AudioCommand::Stop { handle }]
        } else {
            Seq::empty()
        }
    }

    pub fn new(sink: S) -> (r: Self)
        ensures
            r.wf(),
            r.files() == Map::<AudioHandle, AudioSequence>::empty(),
            r.playing() == Set::<AudioHandle>::empty(),
            r.next_handle() == 0,
            r.sent() == sink.sent(),
    {
        let r = Audio {
            sink,
            files: BTreeMap::new(),
            playing: OrderedSet::new(),
            last_audio_handle: 0,
        };
        assert(r.files() =~= Map::<AudioHandle, AudioSequence>::empty());
        r
    }

    /// The output that the commands go to.
    pub fn sink_mut(&mut self) -> (r: &mut S)
        ensures
            r.sent() == old(self).sent(),
            final(self).sent() == final(r).sent(),
            final(self).files() == old(self).files(),
            final(self).playing() == old(self).playing(),
            final(self).playing_listing() == old(self).playing_listing(),
            final(self).next_handle() == old(self).next_handle(),
    {
        &mut self.sink
    }

    /// Loads the events of a SMAF file under a fresh handle. The handles must not
    /// have run out.
    pub fn load_smaf(&mut self, events: Vec<(usize, SmafEvent)>) -> (r: Result<
        AudioHandle,
        AudioError,
    >)
        requires
            old(self).wf(),
            old(self).next_handle() < AudioHandle::MAX,
        ensures
            final(self).wf(),
            r == Ok::<AudioHandle, AudioError>(old(self).next_handle()),
            !old(self).files().contains_key(old(self).next_handle()),
            final(self).next_handle() == old(self).next_handle() + 1,
            final(self).files().dom() == old(self).files().dom().insert(old(self).next_handle()),
            forall|h: AudioHandle| #[trigger]
                old(self).files().contains_key(h) ==> final(self).files()[h] == old(self).files()[h],
            ({
                let loaded = final(self).files()[old(self).next_handle()];
                &&& loaded.duration == latest(events@)
                &&& models(loaded.events@) == sorted_by_time(unsorted_events(events@))
            }),
            final(self).playing() == old(self).playing(),
            final(self).sent() == old(self).sent(),
    {
        let audio_handle = self.last_audio_handle;
        let sequence = Arc::new(convert_smaf_events(events));
        self.last_audio_handle += 1;
        self.files.insert(audio_handle, sequence);
        proof {
            assert(self.files().dom() =~= old(self).files().dom().insert(audio_handle));
            assert forall|h: AudioHandle| #[trigger] self.files().contains_key(h) implies h
                < self.next_handle() by {
                assert(old(self).files().contains_key(h) || h == audio_handle);
            }
            assert forall|h: AudioHandle| #[trigger] self.playing().contains(
                h,
            ) implies self.files().contains_key(h) by {
                assert(old(self).playing().contains(h));
                assert(old(self).files().contains_key(h));
            }
        }
        Ok(audio_handle)
    }

    /// Starts `audio_handle` over: where it plays already, it is stopped first.
    pub fn play(&mut self, audio_handle: AudioHandle, repeat: bool) -> (r: Result<(), AudioError>)
        requires
            old(self).wf(),
        ensures
            final(self).wf(),
            r is Ok <==> old(self).files().contains_key(audio_handle),
            r is Err ==> r == Err::<(), AudioError>(AudioError::InvalidHandle),
            r is Err ==> *final(self) == *old(self),
            r is Ok ==> {
                &&& final(self).playing() == old(self).playing().insert(audio_handle)
                &&& final(self).sent() == old(self).sent() + start_commands(
                    old(self).playing(),
                    audio_handle,
                    old(self).files()[audio_handle],
                    repeat,
                )
                &&& final(self).files() == old(self).files()
                &&& final(self).next_handle() == old(self).next_handle()
            },
    {
        let sequence = match self.files.get(&audio_handle) {
            Some(sequence) => share(sequence),
            None => return Err(AudioError::InvalidHandle),
        };
        self.stop(audio_handle);
        self.playing.insert(audio_handle);
        self.sink.send(AudioCommand::Play { handle: audio_handle, sequence, repeat });
        assert(self.playing() =~= old(self).playing().insert(audio_handle));
        assert(self.sent() =~= old(self).sent() + start_commands(
            old(self).playing(),
            audio_handle,
            old(self).files()[audio_handle],
            repeat,
        ));
        Ok(())
    }

    /// Ends the playback of `audio_handle`, if it plays.
    pub fn stop(&mut self, audio_handle: AudioHandle)
        requires
            old(self).wf(),
        ensures
            final(self).wf(),
            final(self).playing() == old(self).playing().remove(audio_handle),
            final(self).sent() == old(self).sent() + old(self).stop_of(audio_handle),
            final(self).files() == old(self).files(),
            final(self).next_handle() == old(self).next_handle(),
    {
        if self.playing.remove(audio_handle) {
            self.sink.send(AudioCommand::Stop { handle: audio_handle });
        }
        proof {
            assert(self.sent() =~= old(self).sent() + old(self).stop_of(audio_handle));
            assert(self.files() == old(self).files());
            assert forall|h: AudioHandle| #[trigger] self.playing().contains(
                h,
            ) implies self.files().contains_key(h) by {
                assert(old(self).playing().contains(h));
            }
        }
    }

    /// Stops `audio_handle` and forgets its sequence.
    pub fn close(&mut self, audio_handle: AudioHandle) -> (r: Result<(), AudioError>)
        requires
            old(self).wf(),
        ensures
            final(self).wf(),
            r is Ok <==> old(self).files().contains_key(audio_handle),
            r is Err ==> r == Err::<(), AudioError>(AudioError::InvalidHandle),
            final(self).playing() == old(self).playing().remove(audio_handle),
            final(self).sent() == old(self).sent() + old(self).stop_of(audio_handle),
            final(self).files() == old(self).files().remove(audio_handle),
            final(self).next_handle() == old(self).next_handle(),
    {
        self.stop(audio_handle);
        let removed = self.files.remove(&audio_handle);
        assert(self.files() =~= old(self).files().remove(audio_handle));
        if removed.is_none() {
            return Err(AudioError::InvalidHandle);
        }
        Ok(())
    }

    /// Stops all that plays, in ascending order of the handles, and forgets every
    /// sequence.
    pub fn shutdown(&mut self)
        requires
            old(self).wf(),
        ensures
            final(self).wf(),
            final(self).playing() == Set::<AudioHandle>::empty(),
            final(self).files() == Map::<AudioHandle, AudioSequence>::empty(),
            final(self).next_handle() == old(self).next_handle(),
            ascending(old(self).playing_listing()),
            old(self).playing_listing().to_set() == old(self).playing(),
            final(self).sent() == old(self).sent() + stops(old(self).playing_listing()),
    {
        let handles = self.playing.listing();
        self.playing = OrderedSet::new();
        let ghost before = self.sink.sent();
        let mut index: usize = 0;
        while index < handles.len()
            invariant
                index <= handles@.len(),
                self.sink.sent() == before + stops(handles@.take(index as int)),
                self.playing.set() == Set::<AudioHandle>::empty(),
                self.last_audio_handle == old(self).last_audio_handle,
            decreases handles@.len() - index,
        {
            self.sink.send(AudioCommand::Stop { handle: handles[index] });
            index += 1;
            assert(stops(handles@.take(index as int)) =~= stops(handles@.take(index - 1)).push(
                AudioCommand::Stop { handle: handles@[index - 1] },
            ));
        }
        self.files = BTreeMap::new();
        proof {
            assert(handles@.take(handles@.len() as int) =~= handles@);
            assert(self.files() =~= Map::<AudioHandle, AudioSequence>::empty());
        }
    }
}

// ---------------------------------------------------------------------------
// What a file's events become

/// The messages of a file mean what its events mean: decoded again, each has the kind,
/// the channel and the numbers of its event. A pitch bend goes out in two times seven
/// bits.
pub proof fn lemma_messages_mean_their_events(channel: u8, one: u8, two: u8, bend: u16)
    requires
        channel < 16,
        bend < 0x4000,
    ensures
        midi_message(SmafEvent::MidiNoteOn { channel, note: one, velocity: two }) matches Some(m)
            && decoded(m) == Some(
            SynthMessage { channel, command: 0x90, data1: one, data2: two },
        ),
        midi_message(SmafEvent::MidiNoteOff { channel, note: one, velocity: two }) matches Some(m)
            && decoded(m) == Some(
            SynthMessage { channel, command: 0x80, data1: one, data2: two },
        ),
        midi_message(SmafEvent::MidiControlChange { channel, control: one, value: two }) matches
            Some(m) && decoded(m) == Some(
            SynthMessage { channel, command: 0xb0, data1: one, data2: two },
        ),
        midi_message(SmafEvent::MidiProgramChange { channel, program: one }) matches Some(m)
            && decoded(m) == Some(
            SynthMessage { channel, command: 0xc0, data1: one, data2: 0 },
        ),
        midi_message(SmafEvent::MidiPitchBend { channel, value: bend }) matches Some(m)
            && decoded(m) matches Some(SynthMessage { channel: c, command, data1, data2 }) && c
            == channel && command == 0xe0 && data1 < 128 && data2 * 128 + data1 == bend,
{
    assert((0x90u8 | channel) == 0x90 + channel && (0x80u8 | channel) == 0x80 + channel && (0xb0u8
        | channel) == 0xb0 + channel && (0xc0u8 | channel) == 0xc0 + channel && (0xe0u8 | channel)
        == 0xe0 + channel) by (bit_vector)
        requires
            channel < 16,
    ;
}

/// Each event of a file for a MIDI output goes out, at its time, as its message; the
/// messages keep the order of the file, and nothing else goes out.
pub proof fn lemma_transport_carries_every_message(events: Seq<(usize, SmafEvent)>, i: int)
    ensures
        0 <= i < events.len() ==> (midi_message(events[i].1) matches Some(message)
            ==> transport(events).contains(
            TimedModel { time: events[i].0 as int, data: EventModel::Midi(message) },
        )),
        0 <= i < transport(events).len() ==> exists|j: int|
            0 <= j < events.len() && transport(events)[i].time == (#[trigger] events[j]).0 && (
            midi_message(events[j].1) matches Some(message) && transport(events)[i].data
                == EventModel::Midi(message)),
    decreases events.len(),
{
    if events.len() > 0 {
        let init = events.drop_last();
        lemma_transport_carries_every_message(init, i);
        let before = transport(init);
        let all = transport(events);
        if 0 <= i < events.len() {
            if let Some(message) = midi_message(events[i].1) {
                let event = TimedModel {
                    time: events[i].0 as int,
                    data: EventModel::Midi(message),
                };
                if i < init.len() {
                    let j = before.index_of(event);
                    assert(before[j] == event);
                    assert(all[j] == event);
                } else {
                    assert(all.last() == event);
                }
            }
        }
        if 0 <= i < all.len() {
            if i < before.len() {
                let j = choose|j: int|
                    0 <= j < init.len() && before[i].time == (#[trigger] init[j]).0 && (
                    midi_message(init[j].1) matches Some(message) && before[i].data
                        == EventModel::Midi(message));
                assert(events[j] == init[j]);
            } else {
                assert(events[events.len() - 1] == events.last());
            }
        }
    }
}

/// The sounds that a file carries itself are all kept, with their times, in its order;
/// messages and the end of the file are not among them.
pub proof fn lemma_embedded_keeps_every_sound(events: Seq<(usize, SmafEvent)>, i: int)
    ensures
        0 <= i < events.len() && (events[i].1 is Wave || events[i].1 is MaFmNote) ==> embedded(
            events,
        ).contains(events[i]),
        0 <= i < embedded(events).len() ==> events.contains(embedded(events)[i]) && (embedded(
            events,
        )[i].1 is Wave || embedded(events)[i].1 is MaFmNote),
    decreases events.len(),
{
    if events.len() > 0 {
        let init = events.drop_last();
        lemma_embedded_keeps_every_sound(init, i);
        let before = embedded(init);
        let all = embedded(events);
        if 0 <= i < events.len() && is_embedded(events[i].1) {
            if i < init.len() {
                let j = before.index_of(events[i]);
                assert(before[j] == events[i]);
                assert(all[j] == events[i]);
            } else {
                assert(all.last() == events[i]);
            }
        }
        if 0 <= i < all.len() {
            if i < before.len() {
                let j = init.index_of(before[i]);
                assert(init[j] == before[i]);
                assert(events[j] == before[i]);
            } else {
                assert(events[events.len() - 1] == all[i]);
            }
        }
    }
}

/// The length of a file is the time of its last event: none comes later, and where there
/// is an event, one comes then.
pub proof fn lemma_length_is_the_latest_time(events: Seq<(usize, SmafEvent)>, i: int)
    ensures
        0 <= i < events.len() ==> events[i].0 <= latest(events),
        events.len() > 0 ==> exists|j: int|
            0 <= j < events.len() && (#[trigger] events[j]).0 == latest(events),
        events.len() == 0 ==> latest(events) == 0,
    decreases events.len(),
{
    if events.len() > 0 {
        let init = events.drop_last();
        lemma_length_is_the_latest_time(init, i);
        assert(events[events.len() - 1] == events.last());
        if init.len() > 0 {
            let j = choose|j: int| 0 <= j < init.len() && (#[trigger] init[j]).0 == latest(init);
            assert(events[j] == init[j]);
        }
    }
}

/// Of a file nothing is lost and nothing is added: its messages are all there, and its
/// own sounds, where it has any, as one event at the start. The events are in the order of
/// their times.
pub proof fn lemma_conversion_keeps_all_events(events: Seq<(usize, SmafEvent)>, i: int)
    ensures
        ({
            let played = sorted_by_time(unsorted_events(events));
            let sounds = embedded(events);
            &&& in_time_order(played)
            &&& 0 <= i < transport(events).len() ==> played.contains(transport(events)[i])
            &&& sounds.len() == 0 ==> played.len() == transport(events).len()
            &&& sounds.len() > 0 ==> played.len() == transport(events).len() + 1
            &&& sounds.len() > 0 ==> played.contains(
                TimedModel {
                    time: 0,
                    data: EventModel::Smaf { sampling_rate: 24_000, events: sounds },
                },
            )
        }),
{
    broadcast use vstd::seq_lib::group_to_multiset_ensures;

    let all = unsorted_events(events);
    let played = sorted_by_time(all);
    lemma_sorted_by_time(all);
    if 0 <= i < transport(events).len() {
        assert(all[i] == transport(events)[i]);
        assert(all.to_multiset().count(all[i]) > 0);
        assert(played.to_multiset().count(all[i]) > 0);
        assert(played.contains(all[i]));
    }
    if embedded(events).len() > 0 {
        let last = all[all.len() - 1];
        assert(all.to_multiset().count(last) > 0);
        assert(played.to_multiset().count(last) > 0);
        assert(played.contains(last));
    }
}

/// Every handle of a list is stopped once, in order.
pub proof fn lemma_each_handle_is_stopped(handles: Seq<AudioHandle>, handle: AudioHandle)
    ensures
        stops(handles.push(handle)) == stops(handles).push(AudioCommand::Stop { handle }),
        stops(Seq::empty()).len() == 0,
{
    assert(stops(handles.push(handle)) =~= stops(handles).push(AudioCommand::Stop { handle }));
}

/// What plays is stopped by its own handle, and what does not play by nothing.
pub proof fn lemma_only_what_plays_is_stopped<S: AudioSink>(audio: Audio<S>, handle: AudioHandle)
    ensures
        audio.playing().contains(handle) ==> audio.stop_of(handle) == seq![
            AudioCommand::Stop { handle },
        ],
        !audio.playing().contains(handle) ==> audio.stop_of(handle).len() == 0,
{
}

} // verus!
