//! What stands before the software MIDI synthesizer.

use vstd::prelude::*;

verus! {

/// A channel message as the synthesizer takes it.
#[derive(Clone, Copy, Debug, PartialEq, Eq, Structural)]
pub struct SynthMessage {
    pub channel: u8,
    pub command: u8,
    pub data1: u8,
    pub data2: u8,
}

/// The byte at `index`, or 0 behind the end.
pub open spec fn byte_or_zero(bytes: Seq<u8>, index: int) -> u8 {
    if 0 <= index < bytes.len() {
        bytes[index]
    } else {
        0
    }
}

/// A note-off, note-on, control change, program change or pitch bend.
pub open spec fn is_synth_command(command: int) -> bool {
    command == 0x80 || command == 0x90 || command == 0xb0 || command == 0xc0 || command == 0xe0
}

/// What the synthesizer takes of a raw message: the status byte parts into
/// command and channel, and missing data bytes count as 0.
pub open spec fn decoded(bytes: Seq<u8>) -> Option<SynthMessage> {
    if bytes.len() == 0 || !is_synth_command(bytes[0] - bytes[0] % 16) {
        None
    } else {
        Some(
            SynthMessage {
                channel: bytes[0] % 16,
                command: (bytes[0] - bytes[0] % 16) as u8,
                data1: byte_or_zero(bytes, 1),
                data2: byte_or_zero(bytes, 2),
            },
        )
    }
}

/// Decodes a raw message for the synthesizer.
pub fn decode_message(bytes: &[u8]) -> (r: Option<SynthMessage>)
    ensures
        r == decoded(bytes@),
{
    if bytes.len() == 0 {
        return None;
    }
    let status = bytes[0];
    let command = status - status % 16;
    if command != 0x80 && command != 0x90 && command != 0xb0 && command != 0xc0 && command
        != 0xe0 {
        return None;
    }
    Some(
        SynthMessage {
            channel: status % 16,
            command,
            data1: if bytes.len() > 1 {
                bytes[1]
            } else {
                0
            },
            data2: if bytes.len() > 2 {
                bytes[2]
            } else {
                0
            },
        },
    )
}

/// The channel nibble of a MIDI status byte.
pub fn midi_channel(channel: u8) -> (r: u8)
    ensures
        r == channel % 16,
{
    channel % 16
}

/// A MIDI data byte: seven bits.
pub fn midi_data(value: u8) -> (r: u8)
    ensures
        r == value % 128,
{
    value % 128
}

/// A raw note-off.
pub open spec fn note_off_bytes(channel: u8, note: u8, velocity: u8) -> Seq<u8> {
    seq![(0x80 + channel % 16) as u8, note % 128, velocity % 128]
}

/// A raw control change.
pub open spec fn control_change_bytes(channel: u8, control: u8, value: u8) -> Seq<u8> {
    seq![(0xb0 + channel % 16) as u8, control % 128, value % 128]
}

/// Message `i` of those that silence all 16 channels, four for each: pedal up,
/// sound off, notes off, pitch bend to the middle.
pub open spec fn silence_message(i: int) -> Seq<u8> {
    let channel = i / 4;
    if i % 4 == 0 {
        seq![(0xb0 + channel) as u8, 64, 0]
    } else if i % 4 == 1 {
        seq![(0xb0 + channel) as u8, 120, 0]
    } else if i % 4 == 2 {
        seq![(0xb0 + channel) as u8, 123, 0]
    } else {
        seq![(0xe0 + channel) as u8, 0, 64]
    }
}

/// The first `n` silencing messages.
pub open spec fn silence_messages(n: nat) -> Seq<Seq<u8>> {
    Seq::new(n, |i: int| silence_message(i))
}

/// What a `MidiOutput` is: its switches, whether a synthesizer stands behind it,
/// and the messages that wait for the synthesizer.
pub struct MidiModel {
    pub enabled: bool,
    pub closed: bool,
    pub ready: bool,
    pub queue: Seq<SynthMessage>,
}

impl MidiModel {
    /// Hands `bytes` to the synthesizer, where there is one.
    pub open spec fn sent(self, bytes: Seq<u8>) -> MidiModel {
        match decoded(bytes) {
            Some(message) => if self.ready {
                MidiModel { queue: self.queue.push(message), ..self }
            } else {
                self
            },
            None => self,
        }
    }

    /// Hands over all of `messages`, in order.
    pub open spec fn sent_all(self, messages: Seq<Seq<u8>>) -> MidiModel
        decreases messages.len(),
    {
        if messages.len() == 0 {
            self
        } else {
            self.sent_all(messages.drop_last()).sent(messages.last())
        }
    }

    /// A message from the outside: dropped unless the output is on and open.
    pub open spec fn written(self, bytes: Seq<u8>) -> MidiModel {
        if self.enabled && !self.closed {
            self.sent(bytes)
        } else {
            self
        }
    }

    /// Messages from the outside, in order.
    pub open spec fn written_all(self, messages: Seq<Seq<u8>>) -> MidiModel
        decreases messages.len(),
    {
        if messages.len() == 0 {
            self
        } else {
            self.written_all(messages.drop_last()).written(messages.last())
        }
    }

    /// All channels made silent; a closed output stays as it is.
    pub open spec fn silenced(self) -> MidiModel {
        if self.closed {
            self
        } else {
            self.sent_all(silence_messages(64))
        }
    }

    /// Whether the synthesizer's sound reaches the speaker.
    pub open spec fn renders(self) -> bool {
        self.enabled && !self.closed && self.ready
    }
}

/// Writing touches nothing but the queue, which only grows.
pub proof fn lemma_written_all_frame(midi: MidiModel, messages: Seq<Seq<u8>>)
    ensures
        midi.written_all(messages).enabled == midi.enabled,
        midi.written_all(messages).closed == midi.closed,
        midi.written_all(messages).ready == midi.ready,
        midi.queue.is_prefix_of(midi.written_all(messages).queue),
        !(midi.enabled && !midi.closed && midi.ready) ==> midi.written_all(messages) == midi,
    decreases messages.len(),
{
    if messages.len() > 0 {
        lemma_written_all_frame(midi, messages.drop_last());
        let before = midi.written_all(messages.drop_last());
        let after = midi.written_all(messages);
        assert(before.queue.is_prefix_of(after.queue));
    }
}

/// A software MIDI output. The synthesizer itself is driven from outside: it
/// takes the queued messages before it renders.
pub struct MidiOutput {
    enabled: bool,
    closed: bool,
    ready: bool,
    queue: Vec<SynthMessage>,
}

impl View for MidiOutput {
    type V = MidiModel;

    closed spec fn view(&self) -> MidiModel {
        MidiModel {
            enabled: self.enabled,
            closed: self.closed,
            ready: self.ready,
            queue: self.queue@,
        }
    }
}

impl MidiOutput {
    /// An open output. `ready` says that a synthesizer could be made; one is made
    /// only for an enabled output.
    pub fn new(enabled: bool, ready: bool) -> (r: Self)
        ensures
            r@ == (MidiModel {
                enabled,
                closed: false,
                ready: enabled && ready,
                queue: Seq::<SynthMessage>::empty(),
            }),
    {
        MidiOutput { enabled, closed: false, ready: enabled && ready, queue: Vec::new() }
    }

    /// Switches the output. `true` asks the caller to make a synthesizer and to
    /// report it through `attach`.
    pub fn set_enabled(&mut self, enabled: bool) -> (r: bool)
        ensures
            final(self)@ == if old(self)@.closed {
                old(self)@
            } else {
                let switched = MidiModel { enabled, ..old(self)@ };
                if old(self)@.enabled && !enabled {
                    switched.silenced()
                } else {
                    switched
                }
            },
            r == (!old(self)@.closed && !old(self)@.enabled && enabled && !old(self)@.ready),
    {
        if self.closed {
            return false;
        }
        let was_enabled = self.enabled;
        self.enabled = enabled;
        if was_enabled && !enabled {
            self.silence();
            return false;
        }
        !was_enabled && enabled && !self.ready
    }

    /// Puts a synthesizer behind the output, unless it is closed.
    pub fn attach(&mut self)
        ensures
            final(self)@ == (MidiModel { ready: old(self)@.ready || !old(self)@.closed, ..old(self)@ }),
    {
        if !self.closed {
            self.ready = true;
        }
    }

    pub fn note_off(&mut self, channel: u8, note: u8, velocity: u8)
        ensures
            final(self)@ == old(self)@.written(note_off_bytes(channel, note, velocity)),
    {
        let bytes = vec![0x80 + midi_channel(channel), midi_data(note), midi_data(velocity)];
        assert(bytes@ =~= note_off_bytes(channel, note, velocity));
        self.write_message(bytes.as_slice());
    }

    pub fn control_change(&mut self, channel: u8, control: u8, value: u8)
        ensures
            final(self)@ == old(self)@.written(control_change_bytes(channel, control, value)),
    {
        let bytes = vec![0xb0 + midi_channel(channel), midi_data(control), midi_data(value)];
        assert(bytes@ =~= control_change_bytes(channel, control, value));
        self.write_message(bytes.as_slice());
    }

    /// Makes all channels silent.
    pub fn silence(&mut self)
        ensures
            final(self)@ == old(self)@.silenced(),
    {
        if self.closed {
            return;
        }
        self.send_silence();
    }

    /// Closes the output for good: all channels fall silent and the synthesizer
    /// is dropped.
    pub fn shutdown(&mut self)
        ensures
            final(self)@ == if old(self)@.closed {
                old(self)@
            } else {
                MidiModel {
                    closed: true,
                    ready: false,
                    ..old(self)@.sent_all(silence_messages(64))
                }
            },
    {
        if self.closed {
            return;
        }
        self.send_silence();
        self.closed = true;
        self.ready = false;
        proof {
            lemma_sent_all_frame(old(self)@, silence_messages(64));
        }
    }

    /// Whether the synthesizer is to render into the output.
    pub fn renders(&self) -> (r: bool)
        ensures
            r == self@.renders(),
    {
        self.enabled && !self.closed && self.ready
    }

    pub fn is_closed(&self) -> (r: bool)
        ensures
            r == self@.closed,
    {
        self.closed
    }

    /// Takes the messages that wait for the synthesizer.
    pub fn take_messages(&mut self) -> (r: Vec<SynthMessage>)
        ensures
            r@ == old(self)@.queue,
            final(self)@ == (MidiModel { queue: Seq::<SynthMessage>::empty(), ..old(self)@ }),
    {
        let mut taken: Vec<SynthMessage> = Vec::new();
        core::mem::swap(&mut taken, &mut self.queue);
        taken
    }

    /// A raw message from the outside.
    pub fn write_message(&mut self, bytes: &[u8])
        ensures
            final(self)@ == old(self)@.written(bytes@),
    {
        if self.enabled && !self.closed {
            self.send(bytes);
        }
    }

    fn send(&mut self, bytes: &[u8])
        ensures
            final(self)@ == old(self)@.sent(bytes@),
    {
        if self.ready {
            if let Some(message) = decode_message(bytes) {
                self.queue.push(message);
            }
        }
    }

    fn send_silence(&mut self)
        ensures
            final(self)@ == old(self)@.sent_all(silence_messages(64)),
    {
        let mut channel: u8 = 0;
        while channel < 16
            invariant
                channel <= 16,
                self@ == old(self)@.sent_all(silence_messages((channel * 4) as nat)),
            decreases 16 - channel,
        {
            let pedal = vec![0xb0 + channel, 64, 0];
            let sound = vec![0xb0 + channel, 120, 0];
            let notes = vec![0xb0 + channel, 123, 0];
            let bend = vec![0xe0 + channel, 0, 64];
            let ghost n = (channel * 4) as nat;
            proof {
                assert(pedal@ =~= silence_message(n as int));
                assert(sound@ =~= silence_message((n + 1) as int));
                assert(notes@ =~= silence_message((n + 2) as int));
                assert(bend@ =~= silence_message((n + 3) as int));
                assert(silence_messages(n + 1).drop_last() =~= silence_messages(n));
                assert(silence_messages(n + 2).drop_last() =~= silence_messages(n + 1));
                assert(silence_messages(n + 3).drop_last() =~= silence_messages(n + 2));
                assert(silence_messages(n + 4).drop_last() =~= silence_messages(n + 3));
            }
            self.send(pedal.as_slice());
            assert(self@ == old(self)@.sent_all(silence_messages(n + 1)));
            self.send(sound.as_slice());
            assert(self@ == old(self)@.sent_all(silence_messages(n + 2)));
            self.send(notes.as_slice());
            assert(self@ == old(self)@.sent_all(silence_messages(n + 3)));
            self.send(bend.as_slice());
            assert(self@ == old(self)@.sent_all(silence_messages(n + 4)));
            channel += 1;
        }
    }
}

/// Sending touches nothing but the queue.
pub proof fn lemma_sent_all_frame(midi: MidiModel, messages: Seq<Seq<u8>>)
    ensures
        midi.sent_all(messages).enabled == midi.enabled,
        midi.sent_all(messages).closed == midi.closed,
        midi.sent_all(messages).ready == midi.ready,
        midi.queue.is_prefix_of(midi.sent_all(messages).queue),
    decreases messages.len(),
{
    if messages.len() > 0 {
        lemma_sent_all_frame(midi, messages.drop_last());
        let before = midi.sent_all(messages.drop_last());
        let after = midi.sent_all(messages);
        assert(before.queue.is_prefix_of(after.queue));
    }
}

/// Once closed, an output takes nothing more and cannot be switched on again.
pub proof fn lemma_closed_output_is_deaf(midi: MidiModel, messages: Seq<Seq<u8>>)
    requires
        midi.closed,
    ensures
        midi.written_all(messages) == midi,
        midi.silenced() == midi,
        !midi.renders(),
    decreases messages.len(),
{
    if messages.len() > 0 {
        lemma_closed_output_is_deaf(midi, messages.drop_last());
    }
}

/// The gain of the synthesizer in fifths.
pub open spec fn fifths_of(volume: u8) -> int {
    if volume > 10 {
        10
    } else {
        volume as int
    }
}

/// The gain of the synthesizer in fifths: the volume, at most 10.
pub fn gain_in_fifths(volume: u8) -> (r: u8)
    ensures
        r == fifths_of(volume),
{
    if volume > 10 {
        10
    } else {
        volume
    }
}

// ---------------------------------------------------------------------------
// What the synthesizer is told

/// A raw message of a kind that the synthesizer takes, by its status byte: note off,
/// note on, control change, program change, pitch bend.
pub open spec fn is_taken(bytes: Seq<u8>) -> bool {
    bytes.len() > 0 && {
        let kind = bytes[0] / 16;
        kind == 8 || kind == 9 || kind == 11 || kind == 12 || kind == 14
    }
}

/// `message` says what the raw message says: its command and channel together are the
/// status byte, its data are the bytes behind it, and a missing one is 0.
pub open spec fn says(message: SynthMessage, bytes: Seq<u8>) -> bool {
    &&& message.command + message.channel == bytes[0]
    &&& message.command % 16 == 0
    &&& message.channel < 16
    &&& bytes.len() > 1 ==> message.data1 == bytes[1]
    &&& bytes.len() <= 1 ==> message.data1 == 0
    &&& bytes.len() > 2 ==> message.data2 == bytes[2]
    &&& bytes.len() <= 2 ==> message.data2 == 0
}

/// A raw message reaches the synthesizer if it is of a kind that it takes, and then as
/// it is.
pub proof fn lemma_decoding_says_the_same(bytes: Seq<u8>)
    ensures
        decoded(bytes) is Some <==> is_taken(bytes),
        decoded(bytes) matches Some(message) ==> says(message, bytes),
{
}

/// A message written to an output that is on, open and ready waits behind all that
/// waited before, as one message that says the same; another kind of message, and any
/// message elsewhere, changes nothing.
pub proof fn lemma_written_message_waits(midi: MidiModel, bytes: Seq<u8>)
    ensures
        ({
            let after = midi.written(bytes);
            &&& after.enabled == midi.enabled && after.closed == midi.closed && after.ready
                == midi.ready
            &&& if midi.enabled && !midi.closed && midi.ready && is_taken(bytes) {
                &&& after.queue.len() == midi.queue.len() + 1
                &&& after.queue.drop_last() == midi.queue
                &&& says(after.queue.last(), bytes)
            } else {
                after.queue == midi.queue
            }
        }),
{
    lemma_decoding_says_the_same(bytes);
    assert(midi.queue.push(decoded(bytes)->0).drop_last() =~= midi.queue);
}

/// Messages that the synthesizer takes wait in the order in which they were written, one
/// for each.
pub proof fn lemma_written_messages_wait_in_order(midi: MidiModel, messages: Seq<Seq<u8>>)
    requires
        midi.enabled,
        !midi.closed,
        midi.ready,
        forall|i: int| 0 <= i < messages.len() ==> is_taken(#[trigger] messages[i]),
    ensures
        ({
            let after = midi.written_all(messages);
            &&& after.enabled && !after.closed && after.ready
            &&& after.queue.len() == midi.queue.len() + messages.len()
            &&& after.queue.take(midi.queue.len() as int) == midi.queue
            &&& forall|i: int|
                0 <= i < messages.len() ==> says(
                    #[trigger] after.queue[midi.queue.len() + i],
                    messages[i],
                )
        }),
    decreases messages.len(),
{
    let n = midi.queue.len() as int;
    if messages.len() > 0 {
        let init = messages.drop_last();
        assert forall|i: int| 0 <= i < init.len() implies is_taken(#[trigger] init[i]) by {
            assert(is_taken(messages[i]));
        }
        lemma_written_messages_wait_in_order(midi, init);
        let before = midi.written_all(init);
        let after = midi.written_all(messages);
        assert(is_taken(messages[messages.len() - 1]));
        lemma_written_message_waits(before, messages.last());
        assert forall|i: int| 0 <= i < messages.len() implies says(
            #[trigger] after.queue[n + i],
            messages[i],
        ) by {
            if i < init.len() {
                assert(after.queue[n + i] == after.queue.drop_last()[n + i]);
                assert(says(before.queue[n + i], init[i]));
            }
        }
        assert(after.queue.take(n) =~= after.queue.drop_last().take(n));
    } else {
        assert(midi.queue.take(n) =~= midi.queue);
    }
}

/// The raw note-off and control change say what they were made of: seven bits of each
/// number, on the channel's four.
pub proof fn lemma_made_messages(channel: u8, one: u8, two: u8)
    requires
        channel < 16,
        one < 128,
        two < 128,
    ensures
        decoded(note_off_bytes(channel, one, two)) == Some(
            SynthMessage { channel, command: 0x80, data1: one, data2: two },
        ),
        decoded(control_change_bytes(channel, one, two)) == Some(
            SynthMessage { channel, command: 0xb0, data1: one, data2: two },
        ),
{
}

proof fn lemma_sent_messages_wait_in_order(midi: MidiModel, messages: Seq<Seq<u8>>)
    requires
        midi.ready,
        forall|i: int| 0 <= i < messages.len() ==> is_taken(#[trigger] messages[i]),
    ensures
        ({
            let after = midi.sent_all(messages);
            &&& after.ready
            &&& after.queue.len() == midi.queue.len() + messages.len()
            &&& forall|i: int|
                0 <= i < messages.len() ==> says(
                    #[trigger] after.queue[midi.queue.len() + i],
                    messages[i],
                )
        }),
    decreases messages.len(),
{
    let n = midi.queue.len() as int;
    if messages.len() > 0 {
        let init = messages.drop_last();
        assert forall|i: int| 0 <= i < init.len() implies is_taken(#[trigger] init[i]) by {
            assert(is_taken(messages[i]));
        }
        lemma_sent_messages_wait_in_order(midi, init);
        let before = midi.sent_all(init);
        let after = midi.sent_all(messages);
        assert(is_taken(messages[messages.len() - 1]));
        lemma_decoding_says_the_same(messages.last());
        assert(after.queue == before.queue.push(decoded(messages.last())->0));
        assert forall|i: int| 0 <= i < messages.len() implies says(
            #[trigger] after.queue[n + i],
            messages[i],
        ) by {
            if i < init.len() {
                assert(says(before.queue[n + i], init[i]));
            }
        }
    }
}

/// Silencing an open output lifts the pedal, ends the sound and the notes and straightens
/// the pitch of each of the 16 channels.
pub proof fn lemma_silence_reaches_every_channel(midi: MidiModel, channel: u8)
    requires
        !midi.closed,
        midi.ready,
        channel < 16,
    ensures
        ({
            let queue = midi.silenced().queue;
            &&& queue.contains(SynthMessage { channel, command: 0xb0, data1: 64, data2: 0 })
            &&& queue.contains(SynthMessage { channel, command: 0xb0, data1: 120, data2: 0 })
            &&& queue.contains(SynthMessage { channel, command: 0xb0, data1: 123, data2: 0 })
            &&& queue.contains(SynthMessage { channel, command: 0xe0, data1: 0, data2: 64 })
        }),
{
    let messages = silence_messages(64);
    let n = midi.queue.len() as int;
    assert forall|i: int| 0 <= i < messages.len() implies is_taken(#[trigger] messages[i]) by {
        assert(0 <= i / 4 < 16);
    }
    lemma_sent_messages_wait_in_order(midi, messages);
    let queue = midi.silenced().queue;
    let k = 4 * channel;
    assert(k / 4 == channel && (k + 1) / 4 == channel && (k + 2) / 4 == channel && (k + 3) / 4
        == channel);
    assert(says(queue[n + k], messages[k]));
    assert(says(queue[n + (k + 1)], messages[k + 1]));
    assert(says(queue[n + (k + 2)], messages[k + 2]));
    assert(says(queue[n + (k + 3)], messages[k + 3]));
    assert(queue[n + k] == SynthMessage { channel, command: 0xb0, data1: 64, data2: 0 });
    assert(queue[n + (k + 1)] == SynthMessage { channel, command: 0xb0, data1: 120, data2: 0 });
    assert(queue[n + (k + 2)] == SynthMessage { channel, command: 0xb0, data1: 123, data2: 0 });
    assert(queue[n + (k + 3)] == SynthMessage { channel, command: 0xe0, data1: 0, data2: 64 });
}

/// The gain follows the volume up to its most, and no further.
pub proof fn lemma_gain_follows_the_volume(volume: u8, louder: u8)
    requires
        volume <= louder,
    ensures
        volume <= 10 ==> fifths_of(volume) == volume,
        fifths_of(volume) <= fifths_of(louder) <= fifths_of(10),
        fifths_of(5) == 5,
{
}

} // verus!
