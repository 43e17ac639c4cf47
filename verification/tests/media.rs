use wie::guest::{GuestError, WIPICContext};
use wie::guest_machine::{GuestMachine, GuestRequest};
use wie::media::{
    clip_alloc_player, clip_clear_data, clip_create, clip_free, clip_free_player, clip_get_volume,
    clip_put_data, clip_set_volume, get_mute_state, init_process_state, play, read_clip, set_mute_state, state, stop, vibrator, write_clip,
    CLIP_SIZE, MEDIA_STATE_ROOT,
};

fn machine() -> GuestMachine {
    let mut context = GuestMachine::new(0x1000);
    context.map(0, 0x100000);
    context.map(0x7fff0000, 0x10000);
    context
}

fn initialise_media_state(context: &mut GuestMachine) {
    let state = context.alloc_raw(12).unwrap();
    context.write_bytes(state, &[0; 12]).unwrap();
    context.write_bytes(MEDIA_STATE_ROOT, &state.to_le_bytes()).unwrap();
}

fn text(context: &mut GuestMachine, bytes: &[u8]) -> u32 {
    let address = context.alloc_raw(bytes.len() as u32).unwrap();
    context.write_bytes(address, bytes).unwrap();
    address
}

#[test]
fn clip_record_and_circular_data_are_guest_backed() {
    let mut context = machine();
    initialise_media_state(&mut context);
    let type_ptr = context.alloc_raw(12).unwrap();
    context.write_bytes(type_ptr, b"Yamaha_MA3\0").unwrap();
    let clip_ptr = clip_create(&mut context, type_ptr, 4, 0x1234).unwrap();
    let clip = read_clip(&context, clip_ptr).unwrap();
    assert_eq!(CLIP_SIZE, 88);
    assert_eq!(clip.buffer_capacity, 4);
    assert_eq!(clip.available_bytes, 0);
    assert_eq!(clip.callback, 0x1234);

    let source = context.alloc_raw(6).unwrap();
    context.write_bytes(source, b"abcdef").unwrap();
    assert_eq!(clip_put_data(&mut context, clip_ptr, source, 6).unwrap(), 4);
    let clip = read_clip(&context, clip_ptr).unwrap();
    assert_eq!(clip.available_bytes, 4);
    let data = context.read_bytes(clip.primary_buffer, 4).unwrap();
    assert_eq!(&data, b"abcd");

    assert_eq!(clip_clear_data(&mut context, clip_ptr).unwrap(), 0);
    let clip = read_clip(&context, clip_ptr).unwrap();
    assert_eq!((clip.read_offset, clip.available_bytes), (0, 0));
    assert_eq!(clip_free(&mut context, clip_ptr).unwrap(), 0);
    assert_eq!(clip_put_data(&mut context, clip_ptr, source, 1).unwrap(), -9);
}

#[test]
fn clips_are_listed_in_order() {
    let mut context = machine();
    init_process_state(&mut context).unwrap();
    let kind = text(&mut context, b"Yamaha_MA3\0");
    let first = clip_create(&mut context, kind, 4, 0).unwrap();
    let second = clip_create(&mut context, kind, 8, 0).unwrap();

    let (_, list) = state(&context).unwrap();
    assert_eq!((list.first_clip, list.last_clip, list.clip_count), (first, second, 2));
    assert_eq!(read_clip(&context, first).unwrap().next, second);
    assert_eq!(read_clip(&context, second).unwrap().previous, first);

    assert_eq!(clip_free(&mut context, first).unwrap(), 0);
    let (_, list) = state(&context).unwrap();
    assert_eq!((list.first_clip, list.last_clip, list.clip_count), (second, second, 1));
    assert_eq!(read_clip(&context, second).unwrap().previous, 0);
}

#[test]
fn a_clip_without_a_type_is_not_created() {
    let mut context = machine();
    init_process_state(&mut context).unwrap();
    assert_eq!(clip_create(&mut context, 0, 4, 0).unwrap(), 0);
    assert_eq!(clip_get_volume(&context, 0x4444).unwrap(), -9);
    assert_eq!(clip_free(&mut context, 0x4444).unwrap(), -9);
}

#[test]
fn playing_hands_the_data_to_the_player() {
    let mut context = machine();
    init_process_state(&mut context).unwrap();
    let kind = text(&mut context, b"Yamaha_MA3\0");
    let clip = clip_create(&mut context, kind, 4, 0).unwrap();
    let source = text(&mut context, b"wxyz");
    assert_eq!(clip_put_data(&mut context, clip, source, 4).unwrap(), 4);
    assert_eq!(clip_alloc_player(&mut context, clip, 0).unwrap(), 0);
    context.take_requests();

    assert_eq!(play(&mut context, clip, 1, 5000).unwrap(), 0);

    let requests = context.take_requests();
    assert!(requests.iter().any(
        |request| matches!(request, GuestRequest::LoadSmaf { data, .. } if data.as_slice() == b"wxyz")
    ));
    assert!(requests.iter().any(|request| matches!(request, GuestRequest::Play { repeat: true, .. })));

    assert_eq!(stop(&mut context, clip, 6000).unwrap(), 0);
    let requests = context.take_requests();
    assert!(requests.iter().any(|request| matches!(request, GuestRequest::Stop { .. })));
}

#[test]
fn the_guest_is_told_a_millisecond_later() {
    let mut context = machine();
    init_process_state(&mut context).unwrap();
    let kind = text(&mut context, b"Yamaha_MA3\0");
    let clip = clip_create(&mut context, kind, 4, 0x1234).unwrap();
    clip_alloc_player(&mut context, clip, 0).unwrap();
    context.take_requests();
    play(&mut context, clip, 0, 5000).unwrap();
    let told = GuestRequest::Timer { due: 5001, callback: 0x1234, user_data: clip, event: 2 };
    assert_eq!(context.take_requests().last(), Some(&told));
    stop(&mut context, clip, 6000).unwrap();
    let told = GuestRequest::Timer { due: 6001, callback: 0x1234, user_data: clip, event: 3 };
    assert_eq!(context.take_requests().last(), Some(&told));
}

#[test]
fn a_failed_write_leaves_what_came_before() {
    let mut context = GuestMachine::new(0x1000);
    context.map(0, 0x10000);
    assert_eq!(context.write_bytes(0xfffe, b"abcd"), Err(GuestError::InvalidMemoryAccess(0x10000)));
    assert_eq!(context.read_bytes(0xfffe, 2).unwrap(), b"ab");
    context.map(0xffff0000, 0x10000);
    assert_eq!(context.write_bytes(0xfffffffe, b"wxyz"), Err(GuestError::AllocationFailure));
    assert_eq!(context.read_bytes(0xfffffffe, 2).unwrap(), b"wx");
    assert_eq!(context.read_bytes(0, 2).unwrap(), [0, 0]);
}

#[test]
fn a_record_that_runs_out_of_memory_is_written_in_part() {
    let mut context = machine();
    init_process_state(&mut context).unwrap();
    let kind = text(&mut context, b"Yamaha_MA3\0");
    let clip_ptr = clip_create(&mut context, kind, 4, 0x1234).unwrap();
    let mut clip = read_clip(&context, clip_ptr).unwrap();
    clip.next = 0x01020304;
    clip.previous = 0x05060708;
    assert!(write_clip(&mut context, 0xffffc, clip).is_err());
    assert_eq!(context.read_bytes(0xffffc, 4).unwrap(), [4, 3, 2, 1]);
}

#[test]
fn vibration_and_mute_have_fixed_answers() {
    let mut context = machine();
    vibrator(&mut context, 50, 300).unwrap();
    assert!(context
        .take_requests()
        .iter()
        .any(|request| matches!(request, GuestRequest::Vibrate { duration_ms: 300, .. })));
    assert!(get_mute_state(0).is_ok());
    assert!(set_mute_state(0, 1).is_ok());
}

#[test]
fn a_freed_player_is_closed() {
    let mut context = machine();
    init_process_state(&mut context).unwrap();
    let kind = text(&mut context, b"Yamaha_MA3\0");
    let clip = clip_create(&mut context, kind, 4, 0).unwrap();
    let source = text(&mut context, b"wxyz");
    clip_put_data(&mut context, clip, source, 4).unwrap();
    clip_alloc_player(&mut context, clip, 0).unwrap();
    play(&mut context, clip, 0, 5000).unwrap();
    context.take_requests();

    assert_eq!(clip_free_player(&mut context, clip).unwrap(), 0);
    assert!(context.take_requests().iter().any(|request| matches!(request, GuestRequest::Close { .. })));
    assert_eq!(clip_free_player(&mut context, clip).unwrap(), 0);
    assert!(context.take_requests().is_empty());
    assert_eq!(clip_free_player(&mut context, 0x4444).unwrap(), -9);
}

#[test]
fn volumes_are_taken_for_known_clips() {
    let mut context = machine();
    init_process_state(&mut context).unwrap();
    let kind = text(&mut context, b"Yamaha_MA3\0");
    let clip = clip_create(&mut context, kind, 4, 0).unwrap();
    assert_eq!(clip_set_volume(&context, clip, 3).unwrap(), 0);
    assert_eq!(clip_set_volume(&context, 0x4444, 3).unwrap(), -9);
    assert_eq!(clip_set_volume(&context, 0, 3).unwrap(), -9);
}

#[test]
fn a_ring_goes_round() {
    let mut context = machine();
    init_process_state(&mut context).unwrap();
    let kind = text(&mut context, b"Yamaha_MA3\0");
    let clip_ptr = clip_create(&mut context, kind, 4, 0).unwrap();
    let mut clip = read_clip(&context, clip_ptr).unwrap();
    clip.read_offset = 3;
    write_clip(&mut context, clip_ptr, clip).unwrap();
    let source = text(&mut context, b"abc");

    assert_eq!(clip_put_data(&mut context, clip_ptr, source, 3).unwrap(), 3);

    let clip = read_clip(&context, clip_ptr).unwrap();
    assert_eq!((clip.read_offset, clip.available_bytes), (3, 3));
    let data = context.read_bytes(clip.primary_buffer, 4).unwrap();
    assert_eq!((data[3], data[0], data[1]), (b'a', b'b', b'c'));
}

#[test]
fn blocks_follow_each_other_on_the_heap() {
    let mut context = GuestMachine::new(0x1000);
    assert_eq!(context.alloc_raw(12).unwrap(), 0x1000);
    assert_eq!(context.alloc_block(0).unwrap(), 0x100c);
    assert_eq!(context.alloc_raw(1).unwrap(), 0x100d);
    assert_eq!(context.alloc_raw(u32::MAX), Err(GuestError::AllocationFailure));
    assert_eq!(context.alloc_raw(1).unwrap(), 0x100e);
    assert_eq!(context.load_smaf(b"a"), Some(0));
    assert!(context.play_audio(0, false));
    assert!(!context.play_audio(1, false));
}
