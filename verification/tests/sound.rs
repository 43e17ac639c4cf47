use std::sync::Arc;

use wie::audio::{AudioCommand, AudioEventData, AudioSequence, AudioSink, SmafEvent, TimedAudioEvent, WaveDynamics};
use wie::midi_output::{decode_message, gain_in_fifths, midi_channel, midi_data, MidiOutput};
use wie::playback::{AudioCommandSender, AudioWorker, AudioWorkerCommand, LibretroAudioSink};
use wie::font_tables::{find_tables, tables_fit};
use wie::sound_font::{
    choose_sound_font, find_chunk, find_list, patch_empty_presets, patch_sample_loops, patch_sound_font, pick_font,
    try_sound_font, Chosen,
};
use wie::voices::{AudioState, AUDIO_SAMPLE_RATE};

fn one_wave() -> Arc<AudioSequence> {
    Arc::new(AudioSequence {
        duration: 0,
        events: vec![TimedAudioEvent {
            time: 0,
            data: AudioEventData::Wave {
                channels: 1,
                sampling_rate: AUDIO_SAMPLE_RATE,
                samples: vec![i16::MAX],
            },
        }],
    })
}

#[test]
fn audio_worker_dispatches_timed_wave_events() {
    let mut audio = AudioState::<()>::new(AUDIO_SAMPLE_RATE);
    let mut midi = MidiOutput::new(false, false);
    let mut worker = AudioWorker::new();
    let play = AudioCommand::Play { handle: 1, sequence: one_wave(), repeat: false };
    assert!(worker.receive(AudioWorkerCommand::Audio(play), 0, &mut audio, &mut midi));

    worker.run_due(0, &mut audio, &mut midi);

    worker.shutdown(&mut audio, &mut midi);
    assert_eq!(audio.pcm.len(), 1);
}

#[test]
fn stopping_a_smaf_handle_removes_its_streaming_voice() {
    let sequence = AudioSequence {
        duration: 100,
        events: vec![TimedAudioEvent {
            time: 0,
            data: AudioEventData::Smaf {
                sampling_rate: 24_000,
                events: Arc::new(vec![(
                    0,
                    SmafEvent::Wave {
                        channels: 1,
                        sampling_rate: 8_000,
                        data: vec![i16::MAX; 800],
                        dynamics: WaveDynamics { velocity: 127, volume: 127, expression: 127, pan: None },
                    },
                )]),
            },
        }],
    };
    let mut audio = AudioState::<()>::new(AUDIO_SAMPLE_RATE);
    audio.start_smaf(3, &sequence, false);
    assert_eq!(audio.smaf.len(), 1);
    audio.stop(3);

    assert!(audio.smaf.is_empty());
    assert!(audio.pcm.is_empty());
}

#[test]
fn shutdown_clears_audio_and_closes_midi_path() {
    let mut audio = AudioState::<()>::new(AUDIO_SAMPLE_RATE);
    audio.push_wave(1, AUDIO_SAMPLE_RATE, &[i16::MAX, 0]);
    audio.clear();
    assert!(audio.pcm.is_empty());
    assert!(audio.smaf.is_empty());

    let mut midi = MidiOutput::new(false, false);
    midi.shutdown();
    midi.set_enabled(true);
    midi.write_message(&[0x90, 60, 100]);

    assert!(midi.is_closed());
    assert!(midi.take_messages().is_empty());
}

#[test]
fn waves_are_read_frame_by_frame() {
    let mut audio = AudioState::<()>::new(AUDIO_SAMPLE_RATE);
    audio.push_wave(1, AUDIO_SAMPLE_RATE, &[5, 6]);
    audio.push_wave(2, AUDIO_SAMPLE_RATE, &[1, 2, 3, 4]);
    assert_eq!(audio.pcm[0].source_frames(), 2);
    assert_eq!(audio.pcm[0].stereo_frame(1), (6, 6));
    assert_eq!(audio.pcm[1].stereo_frame(1), (3, 4));
    assert_eq!(audio.settle_pcm(0, true), 0);
    assert_eq!(audio.pcm.len(), 1);
    assert_eq!(audio.settle_pcm(0, false), 1);
}

#[test]
fn midi_messages_are_decoded() {
    let message = decode_message(&[0x93, 60, 100]).unwrap();
    assert_eq!((message.channel, message.command, message.data1, message.data2), (3, 0x90, 60, 100));
    assert!(decode_message(&[0xf0, 1, 2]).is_none());
    assert!(decode_message(&[]).is_none());
    assert_eq!(midi_channel(0x1f), 0x0f);
    assert_eq!(midi_data(0xff), 0x7f);
    assert_eq!(gain_in_fifths(3), 3);
    assert_eq!(gain_in_fifths(99), 10);
}

#[test]
fn midi_waits_for_a_synthesizer() {
    let mut midi = MidiOutput::new(true, true);
    midi.write_message(&[0x90, 60, 100]);
    assert_eq!(midi.take_messages().len(), 1);
    assert!(midi.renders());
    assert!(!midi.set_enabled(false));
    assert!(!midi.renders());
    assert_eq!(midi.take_messages().len(), 64);
    assert!(!midi.set_enabled(true));
    assert!(midi.renders());

    let mut midi = MidiOutput::new(false, false);
    assert!(midi.set_enabled(true));
    midi.note_off(1, 2, 3);
    assert!(midi.take_messages().is_empty());
    midi.attach();
    midi.note_off(1, 2, 3);
    assert!(midi.take_messages().iter().any(|message| message.command == 0x80));
}

#[test]
fn stopping_ends_every_note() {
    let sequence = Arc::new(AudioSequence {
        duration: 500,
        events: vec![TimedAudioEvent { time: 0, data: AudioEventData::Midi(vec![0x92, 60, 100]) }],
    });
    let mut audio = AudioState::<()>::new(AUDIO_SAMPLE_RATE);
    let mut midi = MidiOutput::new(true, true);
    let mut worker = AudioWorker::new();
    let play = AudioCommand::Play { handle: 4, sequence, repeat: false };
    worker.receive(AudioWorkerCommand::Audio(play), 0, &mut audio, &mut midi);
    worker.run_due(0, &mut audio, &mut midi);
    assert!(worker.next_deadline().is_some());
    midi.take_messages();

    let stop = AudioWorkerCommand::Audio(AudioCommand::Stop { handle: 4 });
    assert!(worker.receive(stop, 1, &mut audio, &mut midi));
    assert!(worker.next_deadline().is_none());
    let messages = midi.take_messages();
    assert!(messages
        .iter()
        .any(|message| message.command == 0x80 && message.channel == 2 && message.data1 == 60));
    assert!(!worker.receive(AudioWorkerCommand::Shutdown, 2, &mut audio, &mut midi));
}

#[test]
fn the_sink_hands_commands_on() {
    let mut sink = LibretroAudioSink::new(AudioCommandSender::new());
    sink.send(AudioCommand::Stop { handle: 9 });
    assert_eq!(sink.take(), vec![AudioCommand::Stop { handle: 9 }]);
    assert!(sink.take().is_empty());
}

fn chunk(id: &[u8; 4], data: &[u8]) -> Vec<u8> {
    let mut bytes = id.to_vec();
    bytes.extend((data.len() as u32).to_le_bytes());
    bytes.extend(data);
    bytes
}

fn preset(bag: u16) -> Vec<u8> {
    let mut record = vec![0; 38];
    record[24..26].copy_from_slice(&bag.to_le_bytes());
    record
}

fn sample(fields: [u32; 4]) -> Vec<u8> {
    let mut record = vec![0; 46];
    for (index, field) in fields.iter().enumerate() {
        record[20 + 4 * index..24 + 4 * index].copy_from_slice(&field.to_le_bytes());
    }
    record
}

fn font() -> Vec<u8> {
    let mut presets = preset(0);
    presets.extend(preset(1));
    presets.extend(preset(1));
    let mut samples = sample([0, 90, 10, 95]);
    samples.extend(sample([0; 4]));
    let mut sdta = b"sdta".to_vec();
    sdta.extend(chunk(b"smpl", &[0; 100]));
    let mut pdta = b"pdta".to_vec();
    pdta.extend(chunk(b"phdr", &presets));
    pdta.extend(chunk(b"shdr", &samples));
    let mut body = b"sfbk".to_vec();
    body.extend(chunk(b"LIST", &sdta));
    body.extend(chunk(b"LIST", &pdta));
    chunk(b"RIFF", &body)
}

#[test]
fn empty_presets_are_taken_out() {
    let mut data = font();
    let before = data.len();
    assert_eq!(patch_empty_presets(&mut data), Some(()));
    assert_eq!(data.len(), before - 38);
    assert_eq!(u32::from_le_bytes(data[4..8].try_into().unwrap()) as usize, data.len() - 8);
    let list = find_list(&data, b"pdta").unwrap();
    let headers = find_chunk(&data, list.1 + 4, list.2, b"phdr").unwrap();
    assert_eq!(headers.2, 76);
    let once = data.clone();
    assert_eq!(patch_empty_presets(&mut data), Some(()));
    assert_eq!(data, once);
}

#[test]
fn sample_loops_stay_in_the_samples() {
    let mut data = font();
    assert!(patch_sample_loops(&mut data).is_some());
    let once = data.clone();
    assert_ne!(once, font());
    assert!(patch_sample_loops(&mut data).is_some());
    assert_eq!(data, once);
    assert_eq!(patch_sample_loops(&mut [0; 20]), None);
}

/// A font of one instrument that plays one sample of fifty, with these zones of its
/// presets, this generator of its instrument and this sample.
fn playable(presets: &[u16], instrument_zone: u16, setting: [u16; 2], fields: [u32; 4]) -> Vec<u8> {
    let words = |words: &[u16]| words.iter().flat_map(|word| word.to_le_bytes()).collect::<Vec<u8>>();
    let instrument = |bag: u16| {
        let mut record = vec![0; 22];
        record[20..22].copy_from_slice(&bag.to_le_bytes());
        record
    };
    let mut info = b"INFO".to_vec();
    info.extend(chunk(b"ifil", &[2, 0, 1, 0]));
    let mut sdta = b"sdta".to_vec();
    sdta.extend(chunk(b"smpl", &[0; 100]));
    let mut pdta = b"pdta".to_vec();
    pdta.extend(chunk(b"phdr", &presets.iter().flat_map(|bag| preset(*bag)).collect::<Vec<u8>>()));
    pdta.extend(chunk(b"pbag", &words(&[0, 0, 1, 0])));
    pdta.extend(chunk(b"pmod", &[0; 10]));
    pdta.extend(chunk(b"pgen", &words(&[41, 0, 0, 0])));
    pdta.extend(chunk(b"inst", &[instrument(0), instrument(instrument_zone)].concat()));
    pdta.extend(chunk(b"ibag", &words(&[0, 0, 2, 0])));
    pdta.extend(chunk(b"imod", &[0; 10]));
    pdta.extend(chunk(b"igen", &words(&[setting[0], setting[1], 53, 0, 0, 0])));
    pdta.extend(chunk(b"shdr", &[sample(fields), sample([0; 4])].concat()));
    let mut body = b"sfbk".to_vec();
    body.extend(chunk(b"LIST", &info));
    body.extend(chunk(b"LIST", &sdta));
    body.extend(chunk(b"LIST", &pdta));
    chunk(b"RIFF", &body)
}

fn good_font() -> Vec<u8> {
    playable(&[0, 1], 1, [48, 0], [0, 40, 10, 30])
}

fn chosen(custom: Option<Vec<u8>>, built_in: &[u8]) -> Option<Chosen> {
    choose_sound_font(custom, built_in).map(|(_, chosen)| chosen)
}

#[test]
fn fonts_are_tried_in_turn() {
    let good = good_font();
    assert_eq!(chosen(Some(good.clone()), &good), Some(Chosen::Custom));
    assert_eq!(chosen(Some(good.clone()), &[]), Some(Chosen::Custom));
    assert_eq!(chosen(None, &good), Some(Chosen::BuiltIn));
    assert_eq!(chosen(Some(vec![1, 2, 3]), &good), Some(Chosen::BuiltIn));
    assert_eq!(chosen(Some(vec![1, 2, 3]), &[]), None);
    assert_eq!(chosen(None, &[]), None);
    assert_eq!(pick_font(Some(1), Some(2), Some(3)), Some((1, Chosen::Custom)));
    assert_eq!(pick_font(None, Some(2), Some(3)), Some((2, Chosen::Repaired)));
    assert_eq!(pick_font(None, None, Some(3)), Some((3, Chosen::BuiltIn)));
    assert_eq!(pick_font::<u8>(None, None, None), None);
}

#[test]
fn the_font_is_the_one_in_the_file() {
    let (font, _) = choose_sound_font(Some(good_font()), &[]).unwrap();
    assert_eq!(font.get_wave_data().len(), 50);
    assert_eq!(font.get_presets().len(), 1);
    assert_eq!(font.get_instruments().len(), 1);
    assert_eq!(font.get_sample_headers()[0].get_end_loop(), 30);
}

#[test]
fn faulty_fonts_are_repaired() {
    let empty = playable(&[0, 0, 1], 1, [48, 0], [0, 40, 10, 30]);
    assert!(try_sound_font(&empty).is_none());
    assert_eq!(chosen(Some(empty.clone()), &good_font()), Some(Chosen::Repaired));
    let mut patched = empty;
    patch_sound_font(&mut patched);
    assert_eq!(patched, good_font());
    let looped = playable(&[0, 1], 1, [48, 0], [0, 40, 10, 95]);
    assert!(try_sound_font(&looped).is_none());
    let (font, chosen) = choose_sound_font(Some(looped), &good_font()).unwrap();
    assert_eq!(chosen, Chosen::Repaired);
    assert!(font.get_sample_headers()[0].get_end_loop() <= 40);
}

#[test]
fn tables_that_point_beyond_their_ends_are_refused() {
    let good = good_font();
    assert!(tables_fit(&good));
    assert_eq!(find_tables(&good).unwrap().shdr.1, 92);
    assert!(!tables_fit(&good[..good.len() - 1]));
    assert!(find_tables(&font()).is_none());
    let zones = playable(&[0, 2], 1, [48, 0], [0, 40, 10, 30]);
    let instruments = playable(&[0, 1], 2, [48, 0], [0, 40, 10, 30]);
    let mut generators = good.clone();
    let ibag = find_tables(&good).unwrap().ibag.0;
    generators[ibag + 4] = 3;
    for unfit in [zones, instruments, generators] {
        assert!(find_tables(&unfit).is_some());
        assert!(!tables_fit(&unfit));
        assert_eq!(chosen(Some(unfit), &good), Some(Chosen::BuiltIn));
    }
}

#[test]
fn places_that_cannot_be_counted_are_refused() {
    let moved = playable(&[0, 1], 1, [0, 1], [0x7fff_ffff, 40, 10, 30]);
    assert!(!tables_fit(&moved));
    assert!(tables_fit(&playable(&[0, 1], 1, [0, 0xffff], [0x7fff_ffff, 40, 10, 30])));
    assert!(!tables_fit(&playable(&[0, 1], 1, [4, 1], [0x7fff_ffff, 40, 10, 30])));
    assert!(!tables_fit(&playable(&[0, 1], 1, [1, 0xffff], [0, 0x8000_0000, 10, 30])));
    assert_eq!(chosen(Some(moved), &good_font()), Some(Chosen::BuiltIn));
}
