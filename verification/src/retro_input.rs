//! The inputs of a frontend: which of its buttons, sticks and keys are bound to
//! which phone key, and what reaches the phone when they change.

use vstd::prelude::*;

use crate::config::InputKey;
use crate::keys::KeyCode;
use crate::pressed::{Event, PressedKeys};

verus! {

use crate::pressed::{is_held, lemma_press_is_an_edge, lemma_release_is_an_edge};

pub const RETRO_DEVICE_JOYPAD: u32 = 1;

pub const RETRO_DEVICE_KEYBOARD: u32 = 3;

pub const RETRO_DEVICE_ANALOG: u32 = 5;

pub const RETRO_DEVICE_INDEX_ANALOG_LEFT: u32 = 0;

pub const RETRO_DEVICE_ID_ANALOG_X: u32 = 0;

pub const RETRO_DEVICE_ID_ANALOG_Y: u32 = 1;

pub const RETRO_DEVICE_ID_JOYPAD_B: u32 = 0;

pub const RETRO_DEVICE_ID_JOYPAD_Y: u32 = 1;

pub const RETRO_DEVICE_ID_JOYPAD_SELECT: u32 = 2;

pub const RETRO_DEVICE_ID_JOYPAD_START: u32 = 3;

pub const RETRO_DEVICE_ID_JOYPAD_UP: u32 = 4;

pub const RETRO_DEVICE_ID_JOYPAD_DOWN: u32 = 5;

pub const RETRO_DEVICE_ID_JOYPAD_LEFT: u32 = 6;

pub const RETRO_DEVICE_ID_JOYPAD_RIGHT: u32 = 7;

pub const RETRO_DEVICE_ID_JOYPAD_A: u32 = 8;

pub const RETRO_DEVICE_ID_JOYPAD_X: u32 = 9;

pub const RETRO_DEVICE_ID_JOYPAD_L: u32 = 10;

pub const RETRO_DEVICE_ID_JOYPAD_R: u32 = 11;

pub const RETRO_DEVICE_ID_JOYPAD_L2: u32 = 12;

pub const RETRO_DEVICE_ID_JOYPAD_R2: u32 = 13;

pub const RETROK_BACKSPACE: u32 = 8;

pub const RETROK_RETURN: u32 = 13;

pub const RETROK_ESCAPE: u32 = 27;

pub const RETROK_SPACE: u32 = 32;

pub const RETROK_HASH: u32 = 35;

pub const RETROK_ASTERISK: u32 = 42;

pub const RETROK_0: u32 = 48;

pub const RETROK_1: u32 = 49;

pub const RETROK_2: u32 = 50;

pub const RETROK_3: u32 = 51;

pub const RETROK_4: u32 = 52;

pub const RETROK_5: u32 = 53;

pub const RETROK_6: u32 = 54;

pub const RETROK_7: u32 = 55;

pub const RETROK_8: u32 = 56;

pub const RETROK_9: u32 = 57;

pub const RETROK_UP: u32 = 273;

pub const RETROK_DOWN: u32 = 274;

pub const RETROK_RIGHT: u32 = 275;

pub const RETROK_LEFT: u32 = 276;

pub const RETROK_PAGEUP: u32 = 280;

pub const RETROK_PAGEDOWN: u32 = 281;

pub const RETROK_F1: u32 = 282;

pub const RETROK_F2: u32 = 283;

/// How far a stick must lean to count as pressed.
pub const ANALOG_DEADZONE: i16 = 16_384;

/// An input of the frontend. A stick's axis has a direction; for all others it is 0.
#[derive(Clone, Copy, Debug, PartialEq, Eq, Hash, Structural)]
pub struct InputSource {
    pub device: u32,
    pub index: u32,
    pub id: u32,
    pub direction: i8,
}

impl InputKey for InputSource {
    fn same(self, other: InputSource) -> (r: bool) {
        self == other
    }
}

/// An input and the phone key that it is bound to.
#[derive(Clone, Copy)]
pub struct InputBinding {
    pub device: u32,
    pub index: u32,
    pub id: u32,
    pub direction: i8,
    pub key: KeyCode,
    pub description: &'static str,
}

/// The directions of the left stick: axis, direction, phone key, description.
pub const ANALOG_BINDINGS: [(u32, i8, KeyCode, &'static str); 4] = [
    (RETRO_DEVICE_ID_ANALOG_Y, -1, KeyCode::UP, "Navigation Up"),
    (RETRO_DEVICE_ID_ANALOG_Y, 1, KeyCode::DOWN, "Navigation Down"),
    (RETRO_DEVICE_ID_ANALOG_X, -1, KeyCode::LEFT, "Navigation Left"),
    (RETRO_DEVICE_ID_ANALOG_X, 1, KeyCode::RIGHT, "Navigation Right"),
];

/// The buttons of a gamepad: button, phone key, description.
pub const JOYPAD_BINDINGS: [(u32, KeyCode, &'static str); 13] = [
    (RETRO_DEVICE_ID_JOYPAD_UP, KeyCode::NUM2, "2"),
    (RETRO_DEVICE_ID_JOYPAD_DOWN, KeyCode::NUM8, "8"),
    (RETRO_DEVICE_ID_JOYPAD_LEFT, KeyCode::NUM4, "4"),
    (RETRO_DEVICE_ID_JOYPAD_RIGHT, KeyCode::NUM6, "6"),
    (RETRO_DEVICE_ID_JOYPAD_B, KeyCode::OK, "OK"),
    (RETRO_DEVICE_ID_JOYPAD_A, KeyCode::CLEAR, "Clear"),
    (RETRO_DEVICE_ID_JOYPAD_Y, KeyCode::NUM7, "7"),
    (RETRO_DEVICE_ID_JOYPAD_X, KeyCode::NUM9, "9"),
    (RETRO_DEVICE_ID_JOYPAD_L, KeyCode::STAR, "Star"),
    (RETRO_DEVICE_ID_JOYPAD_R, KeyCode::HASH, "Hash"),
    (RETRO_DEVICE_ID_JOYPAD_L2, KeyCode::NUM1, "1"),
    (RETRO_DEVICE_ID_JOYPAD_R2, KeyCode::NUM3, "3"),
    (RETRO_DEVICE_ID_JOYPAD_START, KeyCode::NUM0, "0"),
];

/// The keys of a keyboard: key, phone key.
pub const KEYBOARD_BINDINGS: [(u32, KeyCode); 24] = [
    (RETROK_UP, KeyCode::UP),
    (RETROK_DOWN, KeyCode::DOWN),
    (RETROK_LEFT, KeyCode::LEFT),
    (RETROK_RIGHT, KeyCode::RIGHT),
    (RETROK_RETURN, KeyCode::OK),
    (RETROK_BACKSPACE, KeyCode::CLEAR),
    (RETROK_F1, KeyCode::LEFT_SOFT_KEY),
    (RETROK_F2, KeyCode::RIGHT_SOFT_KEY),
    (RETROK_SPACE, KeyCode::CALL),
    (RETROK_ESCAPE, KeyCode::HANGUP),
    (RETROK_PAGEUP, KeyCode::VOLUME_UP),
    (RETROK_PAGEDOWN, KeyCode::VOLUME_DOWN),
    (RETROK_0, KeyCode::NUM0),
    (RETROK_1, KeyCode::NUM1),
    (RETROK_2, KeyCode::NUM2),
    (RETROK_3, KeyCode::NUM3),
    (RETROK_4, KeyCode::NUM4),
    (RETROK_5, KeyCode::NUM5),
    (RETROK_6, KeyCode::NUM6),
    (RETROK_7, KeyCode::NUM7),
    (RETROK_8, KeyCode::NUM8),
    (RETROK_9, KeyCode::NUM9),
    (RETROK_ASTERISK, KeyCode::STAR),
    (RETROK_HASH, KeyCode::HASH),
];

impl InputBinding {
    /// The input that is bound.
    pub open spec fn source_spec(self) -> InputSource {
        InputSource {
            device: self.device,
            index: self.index,
            id: self.id,
            direction: self.direction,
        }
    }

    /// The value that the frontend reports says that the input is pressed.
    pub open spec fn down(self, value: i16) -> bool {
        if self.direction == -1 {
            value <= -ANALOG_DEADZONE
        } else if self.direction == 1 {
            value >= ANALOG_DEADZONE
        } else {
            value != 0
        }
    }

    /// The input that is bound.
    pub fn source(&self) -> (r: InputSource)
        ensures
            r == self.source_spec(),
    {
        InputSource {
            device: self.device,
            index: self.index,
            id: self.id,
            direction: self.direction,
        }
    }

    /// Whether the value that the frontend reports says that the input is pressed.
    pub fn is_down(&self, value: i16) -> (r: bool)
        ensures
            r == self.down(value),
    {
        if self.direction == -1 {
            value <= -ANALOG_DEADZONE
        } else if self.direction == 1 {
            value >= ANALOG_DEADZONE
        } else {
            value != 0
        }
    }
}

/// A direction of the left stick.
pub open spec fn analog_binding(entry: (u32, i8, KeyCode, &'static str)) -> InputBinding {
    InputBinding {
        device: RETRO_DEVICE_ANALOG,
        index: RETRO_DEVICE_INDEX_ANALOG_LEFT,
        id: entry.0,
        direction: entry.1,
        key: entry.2,
        description: entry.3,
    }
}

/// A button of a gamepad.
pub open spec fn joypad_binding(entry: (u32, KeyCode, &'static str)) -> InputBinding {
    InputBinding {
        device: RETRO_DEVICE_JOYPAD,
        index: 0,
        id: entry.0,
        direction: 0,
        key: entry.1,
        description: entry.2,
    }
}

/// A key of a keyboard.
pub open spec fn keyboard_binding(entry: (u32, KeyCode)) -> InputBinding {
    InputBinding {
        device: RETRO_DEVICE_KEYBOARD,
        index: 0,
        id: entry.0,
        direction: 0,
        key: entry.1,
        description: "",
    }
}

fn joy(id: u32, key: KeyCode, description: &'static str) -> (r: InputBinding)
    ensures
        r == joypad_binding((id, key, description)),
{
    InputBinding { device: RETRO_DEVICE_JOYPAD, index: 0, id, direction: 0, key, description }
}

fn analog(id: u32, direction: i8, key: KeyCode, description: &'static str) -> (r: InputBinding)
    ensures
        r == analog_binding((id, direction, key, description)),
{
    InputBinding {
        device: RETRO_DEVICE_ANALOG,
        index: RETRO_DEVICE_INDEX_ANALOG_LEFT,
        id,
        direction,
        key,
        description,
    }
}

fn key(id: u32, bound: KeyCode) -> (r: InputBinding)
    ensures
        r == keyboard_binding((id, bound)),
{
    InputBinding {
        device: RETRO_DEVICE_KEYBOARD,
        index: 0,
        id,
        direction: 0,
        key: bound,
        description: "",
    }
}

/// What the left stick and the buttons of a gamepad are bound to.
pub open spec fn joypad_list() -> Seq<InputBinding> {
    Seq::new(4, |i: int| analog_binding(ANALOG_BINDINGS[i])) + Seq::new(
        13,
        |i: int| joypad_binding(JOYPAD_BINDINGS[i]),
    )
}

/// What the keys of a keyboard are bound to.
pub open spec fn keyboard_list() -> Seq<InputBinding> {
    Seq::new(24, |i: int| keyboard_binding(KEYBOARD_BINDINGS[i]))
}

/// All bindings, in the order in which their inputs are read.
pub open spec fn all_bindings() -> Seq<InputBinding> {
    joypad_list() + keyboard_list()
}

/// What the left stick and the buttons of a gamepad are bound to.
pub fn default_joypad_bindings() -> (r: Vec<InputBinding>)
    ensures
        r@ == joypad_list(),
{
    let mut list: Vec<InputBinding> = Vec::new();
    for index in 0..4usize
        invariant
            list@ == joypad_list().take(index as int),
    {
        let (id, direction, bound, description) = ANALOG_BINDINGS[index];
        list.push(analog(id, direction, bound, description));
        assert(list@ =~= joypad_list().take(index + 1));
    }
    for index in 0..13usize
        invariant
            list@ == joypad_list().take(index + 4),
    {
        let (id, bound, description) = JOYPAD_BINDINGS[index];
        list.push(joy(id, bound, description));
        assert(list@ =~= joypad_list().take(index + 5));
    }
    assert(joypad_list().take(17) =~= joypad_list());
    list
}

/// What the keys of a keyboard are bound to.
pub fn keyboard_bindings() -> (r: Vec<InputBinding>)
    ensures
        r@ == keyboard_list(),
{
    let mut list: Vec<InputBinding> = Vec::new();
    for index in 0..24usize
        invariant
            list@ == keyboard_list().take(index as int),
    {
        let (id, bound) = KEYBOARD_BINDINGS[index];
        list.push(key(id, bound));
        assert(list@ =~= keyboard_list().take(index + 1));
    }
    assert(keyboard_list().take(24) =~= keyboard_list());
    list
}

/// All bindings, in the order in which their inputs are read.
pub fn bindings() -> (r: Vec<InputBinding>)
    ensures
        r@ == all_bindings(),
{
    let mut list = default_joypad_bindings();
    let mut keys = keyboard_bindings();
    list.append(&mut keys);
    list
}

/// What a frontend shows for an input.
#[derive(Clone, Copy)]
pub struct InputDescriptor {
    pub port: u32,
    pub device: u32,
    pub index: u32,
    pub id: u32,
    pub description: Option<&'static str>,
}

/// What a frontend shows for the input of a binding.
pub open spec fn descriptor_of(binding: InputBinding) -> InputDescriptor {
    InputDescriptor {
        port: 0,
        device: binding.device,
        index: binding.index,
        id: binding.id,
        description: Some(binding.description),
    }
}

/// What a frontend shows for the stick and the buttons.
pub open spec fn descriptor_list() -> Seq<InputDescriptor> {
    joypad_list().map_values(|binding: InputBinding| descriptor_of(binding)).push(
        InputDescriptor { port: 0, device: 0, index: 0, id: 0, description: None },
    )
}

/// What a frontend shows for the stick and the buttons. The last entry is the end
/// of the list.
pub fn input_descriptors() -> (r: Vec<InputDescriptor>)
    ensures
        r@ == descriptor_list(),
{
    let list = default_joypad_bindings();
    let mut descriptors: Vec<InputDescriptor> = Vec::new();
    for index in 0..list.len()
        invariant
            list@ == joypad_list(),
            descriptors@.len() == index,
            forall|i: int| 0 <= i < index ==> descriptors@[i] == descriptor_of(list@[i]),
    {
        let binding = list[index];
        descriptors.push(
            InputDescriptor {
                port: 0,
                device: binding.device,
                index: binding.index,
                id: binding.id,
                description: Some(binding.description),
            },
        );
    }
    assert(descriptors@ =~= joypad_list().map_values(
        |binding: InputBinding| descriptor_of(binding),
    ));
    descriptors.push(InputDescriptor { port: 0, device: 0, index: 0, id: 0, description: None });
    descriptors
}

// ---------------------------------------------------------------------------
// Polling

/// What the inputs hold and what reaches the phone after the input of `binding`
/// was read as `value`.
pub open spec fn read_binding(
    sources: Map<InputSource, KeyCode>,
    binding: InputBinding,
    value: i16,
) -> (Map<InputSource, KeyCode>, Option<Event>) {
    let source = binding.source_spec();
    if !sources.contains_key(source) && binding.down(value) {
        (
            sources.insert(source, binding.key),
            if is_held(sources, binding.key) {
                None
            } else {
                Some(Event::Keydown(binding.key))
            },
        )
    } else if sources.contains_key(source) && !binding.down(value) {
        let rest = sources.remove(source);
        (
            rest,
            if is_held(rest, sources[source]) {
                None
            } else {
                Some(Event::Keyup(sources[source]))
            },
        )
    } else {
        (sources, None)
    }
}

/// What the inputs hold and what reaches the phone after the inputs of `bindings`
/// were read in turn.
pub open spec fn read_bindings(
    sources: Map<InputSource, KeyCode>,
    bindings: Seq<InputBinding>,
    values: Seq<i16>,
) -> (Map<InputSource, KeyCode>, Seq<Event>)
    decreases bindings.len(),
{
    if bindings.len() == 0 {
        (sources, Seq::empty())
    } else {
        let before = read_bindings(sources, bindings.drop_last(), values);
        let after = read_binding(before.0, bindings.last(), values[bindings.len() - 1]);
        (
            after.0,
            match after.1 {
                Some(event) => before.1.push(event),
                None => before.1,
            },
        )
    }
}

/// Turns the state of a frontend's inputs into events.
pub struct InputManager {
    pressed: PressedKeys<InputSource>,
}

impl InputManager {
    /// The inputs that are held down, with what they hold.
    pub closed spec fn sources(&self) -> Map<InputSource, KeyCode> {
        self.pressed@
    }

    pub fn new() -> (r: Self)
        ensures
            r.sources() == Map::<InputSource, KeyCode>::empty(),
    {
        InputManager { pressed: PressedKeys::new() }
    }

    /// Reads the inputs of all bindings, whose values come in the order of
    /// `bindings`. A frontend without inputs changes nothing.
    pub fn poll(&mut self, values: Option<&[i16]>) -> (r: Vec<Event>)
        requires
            values matches Some(values) ==> values@.len() == all_bindings().len(),
        ensures
            (final(self).sources(), r@) == match values {
                Some(values) => read_bindings(old(self).sources(), all_bindings(), values@),
                None => (old(self).sources(), Seq::empty()),
            },
    {
        let mut events: Vec<Event> = Vec::new();
        let Some(values) = values else {
            return events;
        };
        let list = bindings();
        let ghost first = self.sources();
        let ghost all = all_bindings();
        assert(all.take(0) =~= Seq::<InputBinding>::empty());
        for index in 0..list.len()
            invariant
                list@ == all,
                values@.len() == all.len(),
                (self.sources(), events@) == read_bindings(
                    first,
                    all.take(index as int),
                    values@,
                ),
        {
            let binding = list[index];
            let source = binding.source();
            let down = binding.is_down(values[index]);
            proof {
                let next = all.take(index + 1);
                assert(next.drop_last() =~= all.take(index as int));
                assert(next.last() == binding);
            }
            if self.pressed.contains(source) {
                if !down {
                    if let Some(released) = self.pressed.release(source) {
                        events.push(Event::Keyup(released));
                    }
                }
            } else if down {
                if self.pressed.press(source, binding.key) {
                    events.push(Event::Keydown(binding.key));
                }
            }
        }
        assert(all.take(all.len() as int) =~= all);
        events
    }
}

/// A frontend whose inputs did not change since they were last read sends nothing:
/// an input that is read as it was held leaves all as it is.
pub proof fn lemma_still_inputs_send_nothing(
    sources: Map<InputSource, KeyCode>,
    binding: InputBinding,
    value: i16,
)
    requires
        binding.down(value) == sources.contains_key(binding.source_spec()),
    ensures
        read_binding(sources, binding, value) == (sources, None::<Event>),
{
}

/// What reaches the phone are the edges of its keys: a key goes down when it was
/// up, goes up when it was down, and where nothing is sent no key changed.
pub proof fn lemma_events_are_edges(
    sources: Map<InputSource, KeyCode>,
    binding: InputBinding,
    value: i16,
    other: KeyCode,
)
    ensures
        ({
            let (after, event) = read_binding(sources, binding, value);
            match event {
                Some(Event::Keydown(key)) => !is_held(sources, key) && is_held(after, key) && (
                other != key ==> is_held(after, other) == is_held(sources, other)),
                Some(Event::Keyup(key)) => is_held(sources, key) && !is_held(after, key) && (other
                    != key ==> is_held(after, other) == is_held(sources, other)),
                Some(_) => false,
                None => is_held(after, other) == is_held(sources, other),
            }
        }),
{
    let source = binding.source_spec();
    if !sources.contains_key(source) && binding.down(value) {
        lemma_press_is_an_edge(sources, source, binding.key);
    } else if sources.contains_key(source) && !binding.down(value) {
        lemma_release_is_an_edge(sources, source);
    }
}

/// No two bindings have the same input.
pub open spec fn distinct_inputs(bindings: Seq<InputBinding>) -> bool {
    forall|i: int, j: int|
        0 <= i < j < bindings.len() ==> (#[trigger] bindings[i]).source_spec() != (
        #[trigger] bindings[j]).source_spec()
}

/// After a poll an input is held exactly if it was read as pressed.
pub proof fn lemma_poll_follows_the_inputs(
    sources: Map<InputSource, KeyCode>,
    bindings: Seq<InputBinding>,
    values: Seq<i16>,
)
    requires
        distinct_inputs(bindings),
        values.len() == bindings.len(),
    ensures
        forall|i: int|
            0 <= i < bindings.len() ==> read_bindings(sources, bindings, values).0.contains_key(
                (#[trigger] bindings[i]).source_spec(),
            ) == bindings[i].down(values[i]),
{
    lemma_poll_follows_a_prefix(sources, bindings, values, bindings.len() as int);
    assert(bindings.take(bindings.len() as int) =~= bindings);
}

proof fn lemma_poll_follows_a_prefix(
    sources: Map<InputSource, KeyCode>,
    bindings: Seq<InputBinding>,
    values: Seq<i16>,
    count: int,
)
    requires
        distinct_inputs(bindings),
        values.len() == bindings.len(),
        0 <= count <= bindings.len(),
    ensures
        forall|i: int|
            0 <= i < count ==> read_bindings(sources, bindings.take(count), values).0.contains_key(
                (#[trigger] bindings[i]).source_spec(),
            ) == bindings[i].down(values[i]),
    decreases count,
{
    if count > 0 {
        lemma_poll_follows_a_prefix(sources, bindings, values, count - 1);
        let part = bindings.take(count);
        assert(part.drop_last() =~= bindings.take(count - 1));
        assert(part.last() == bindings[count - 1]);
        let before = read_bindings(sources, part.drop_last(), values).0;
        let after = read_bindings(sources, part, values).0;
        assert forall|i: int| 0 <= i < count implies after.contains_key(
            (#[trigger] bindings[i]).source_spec(),
        ) == bindings[i].down(values[i]) by {
            if i < count - 1 {
                assert(bindings[i].source_spec() != bindings[count - 1].source_spec());
            }
        }
    }
}

/// A poll that finds all inputs as they are held sends nothing and changes nothing.
pub proof fn lemma_still_poll_sends_nothing(
    sources: Map<InputSource, KeyCode>,
    bindings: Seq<InputBinding>,
    values: Seq<i16>,
)
    requires
        values.len() >= bindings.len(),
        forall|i: int|
            0 <= i < bindings.len() ==> sources.contains_key(
                (#[trigger] bindings[i]).source_spec(),
            ) == bindings[i].down(values[i]),
    ensures
        read_bindings(sources, bindings, values) == (sources, Seq::<Event>::empty()),
    decreases bindings.len(),
{
    if bindings.len() > 0 {
        let init = bindings.drop_last();
        assert forall|i: int| 0 <= i < init.len() implies sources.contains_key(
            (#[trigger] init[i]).source_spec(),
        ) == init[i].down(values[i]) by {
            assert(init[i] == bindings[i]);
        }
        lemma_still_poll_sends_nothing(sources, init, values);
        let last = bindings.len() - 1;
        assert(sources.contains_key(bindings[last].source_spec()) == bindings[last].down(
            values[last],
        ));
    }
}

/// The second of two polls that read the same values sends nothing.
pub proof fn lemma_second_poll_sends_nothing(
    sources: Map<InputSource, KeyCode>,
    values: Seq<i16>,
)
    requires
        values.len() == all_bindings().len(),
    ensures
        ({
            let after = read_bindings(sources, all_bindings(), values).0;
            read_bindings(after, all_bindings(), values) == (after, Seq::<Event>::empty())
        }),
{
    lemma_bindings_are_distinct();
    lemma_poll_follows_the_inputs(sources, all_bindings(), values);
    lemma_still_poll_sends_nothing(
        read_bindings(sources, all_bindings(), values).0,
        all_bindings(),
        values,
    );
}

/// The bindings of the core have no input twice.
pub proof fn lemma_bindings_are_distinct()
    ensures
        distinct_inputs(all_bindings()),
{
    let all = all_bindings();
    assert forall|i: int, j: int| 0 <= i < j < all.len() implies (#[trigger] all[i]).source_spec()
        != (#[trigger] all[j]).source_spec() by {
        if i >= 17 {
            assert(all[i] == keyboard_binding(KEYBOARD_BINDINGS[i - 17]));
            assert(all[j] == keyboard_binding(KEYBOARD_BINDINGS[j - 17]));
        } else if j >= 17 {
            assert(all[j] == keyboard_binding(KEYBOARD_BINDINGS[j - 17]));
        } else if i >= 4 {
            assert(all[i] == joypad_binding(JOYPAD_BINDINGS[i - 4]));
            assert(all[j] == joypad_binding(JOYPAD_BINDINGS[j - 4]));
        } else if j >= 4 {
            assert(all[j] == joypad_binding(JOYPAD_BINDINGS[j - 4]));
        } else {
            assert(all[i] == analog_binding(ANALOG_BINDINGS[i]));
            assert(all[j] == analog_binding(ANALOG_BINDINGS[j]));
        }
    }
}

// ---------------------------------------------------------------------------
// What is bound to what

/// The input is bound to the key.
pub open spec fn binds(device: u32, id: u32, direction: int, key: KeyCode) -> bool {
    exists|i: int|
        {
            &&& 0 <= i < all_bindings().len()
            &&& (#[trigger] all_bindings()[i]).device == device
            &&& all_bindings()[i].id == id
            &&& all_bindings()[i].index == 0
            &&& all_bindings()[i].direction == direction
            &&& all_bindings()[i].key == key
        }
}

proof fn lemma_keyboard_binding(i: int)
    requires
        0 <= i < 24,
    ensures
        all_bindings()[17 + i] == keyboard_binding(KEYBOARD_BINDINGS[i]),
        binds(3, KEYBOARD_BINDINGS[i].0, 0, KEYBOARD_BINDINGS[i].1),
{
    assert(all_bindings()[17 + i] == keyboard_binding(KEYBOARD_BINDINGS[i]));
}

proof fn lemma_joypad_binding(i: int)
    requires
        0 <= i < 13,
    ensures
        binds(1, JOYPAD_BINDINGS[i].0, 0, JOYPAD_BINDINGS[i].1),
{
    assert(all_bindings()[4 + i] == joypad_binding(JOYPAD_BINDINGS[i]));
}

proof fn lemma_analog_binding(i: int)
    requires
        0 <= i < 4,
    ensures
        binds(5, ANALOG_BINDINGS[i].0, ANALOG_BINDINGS[i].1 as int, ANALOG_BINDINGS[i].2),
{
    assert(all_bindings()[i] == analog_binding(ANALOG_BINDINGS[i]));
}

/// The digits of the keyboard are the digits of the phone, its arrows and the stick are
/// the phone's directions, and the cross of a gamepad is the cross of digits round 5.
pub proof fn lemma_inputs_point_where_they_lie()
    ensures
        binds(3, 0x30, 0, KeyCode::NUM0),
        binds(3, 0x31, 0, KeyCode::NUM1),
        binds(3, 0x32, 0, KeyCode::NUM2),
        binds(3, 0x33, 0, KeyCode::NUM3),
        binds(3, 0x34, 0, KeyCode::NUM4),
        binds(3, 0x35, 0, KeyCode::NUM5),
        binds(3, 0x36, 0, KeyCode::NUM6),
        binds(3, 0x37, 0, KeyCode::NUM7),
        binds(3, 0x38, 0, KeyCode::NUM8),
        binds(3, 0x39, 0, KeyCode::NUM9),
        binds(3, 0x2a, 0, KeyCode::STAR),
        binds(3, 0x23, 0, KeyCode::HASH),
        binds(3, 273, 0, KeyCode::UP),
        binds(3, 274, 0, KeyCode::DOWN),
        binds(3, 275, 0, KeyCode::RIGHT),
        binds(3, 276, 0, KeyCode::LEFT),
        binds(3, 13, 0, KeyCode::OK),
        binds(3, 8, 0, KeyCode::CLEAR),
        binds(3, 282, 0, KeyCode::LEFT_SOFT_KEY),
        binds(3, 283, 0, KeyCode::RIGHT_SOFT_KEY),
        binds(3, 32, 0, KeyCode::CALL),
        binds(3, 27, 0, KeyCode::HANGUP),
        binds(3, 280, 0, KeyCode::VOLUME_UP),
        binds(3, 281, 0, KeyCode::VOLUME_DOWN),
        binds(5, 1, -1, KeyCode::UP),
        binds(5, 1, 1, KeyCode::DOWN),
        binds(5, 0, -1, KeyCode::LEFT),
        binds(5, 0, 1, KeyCode::RIGHT),
        binds(1, 4, 0, KeyCode::NUM2),
        binds(1, 5, 0, KeyCode::NUM8),
        binds(1, 6, 0, KeyCode::NUM4),
        binds(1, 7, 0, KeyCode::NUM6),
        binds(1, 0, 0, KeyCode::OK),
        binds(1, 8, 0, KeyCode::CLEAR),
        binds(1, 1, 0, KeyCode::NUM7),
        binds(1, 9, 0, KeyCode::NUM9),
        binds(1, 10, 0, KeyCode::STAR),
        binds(1, 11, 0, KeyCode::HASH),
        binds(1, 12, 0, KeyCode::NUM1),
        binds(1, 13, 0, KeyCode::NUM3),
        binds(1, 3, 0, KeyCode::NUM0),
        all_bindings().len() == 41,
{
    assert forall|i: int| 0 <= i < 24 implies binds(
        3,
        (#[trigger] KEYBOARD_BINDINGS[i]).0,
        0,
        KEYBOARD_BINDINGS[i].1,
    ) by {
        lemma_keyboard_binding(i);
    }
    assert forall|i: int| 0 <= i < 13 implies binds(
        1,
        (#[trigger] JOYPAD_BINDINGS[i]).0,
        0,
        JOYPAD_BINDINGS[i].1,
    ) by {
        lemma_joypad_binding(i);
    }
    assert forall|i: int| 0 <= i < 4 implies binds(
        5,
        (#[trigger] ANALOG_BINDINGS[i]).0,
        ANALOG_BINDINGS[i].1 as int,
        ANALOG_BINDINGS[i].2,
    ) by {
        lemma_analog_binding(i);
    }
    assert(KEYBOARD_BINDINGS[0].0 == 273 && KEYBOARD_BINDINGS[1].0 == 274);
    assert(KEYBOARD_BINDINGS[2].0 == 276 && KEYBOARD_BINDINGS[3].0 == 275);
    assert(KEYBOARD_BINDINGS[4].0 == 13 && KEYBOARD_BINDINGS[5].0 == 8);
    assert(KEYBOARD_BINDINGS[6].0 == 282 && KEYBOARD_BINDINGS[7].0 == 283);
    assert(KEYBOARD_BINDINGS[8].0 == 32 && KEYBOARD_BINDINGS[9].0 == 27);
    assert(KEYBOARD_BINDINGS[10].0 == 280 && KEYBOARD_BINDINGS[11].0 == 281);
    assert(KEYBOARD_BINDINGS[12].0 == 48 && KEYBOARD_BINDINGS[13].0 == 49);
    assert(KEYBOARD_BINDINGS[14].0 == 50 && KEYBOARD_BINDINGS[15].0 == 51);
    assert(KEYBOARD_BINDINGS[16].0 == 52 && KEYBOARD_BINDINGS[17].0 == 53);
    assert(KEYBOARD_BINDINGS[18].0 == 54 && KEYBOARD_BINDINGS[19].0 == 55);
    assert(KEYBOARD_BINDINGS[20].0 == 56 && KEYBOARD_BINDINGS[21].0 == 57);
    assert(KEYBOARD_BINDINGS[22].0 == 42 && KEYBOARD_BINDINGS[23].0 == 35);
    assert(ANALOG_BINDINGS[0].0 == 1 && ANALOG_BINDINGS[1].0 == 1);
    assert(ANALOG_BINDINGS[2].0 == 0 && ANALOG_BINDINGS[3].0 == 0);
    assert(JOYPAD_BINDINGS[0].0 == 4 && JOYPAD_BINDINGS[1].0 == 5 && JOYPAD_BINDINGS[2].0 == 6);
    assert(JOYPAD_BINDINGS[3].0 == 7 && JOYPAD_BINDINGS[4].0 == 0 && JOYPAD_BINDINGS[5].0 == 8);
    assert(JOYPAD_BINDINGS[6].0 == 1 && JOYPAD_BINDINGS[7].0 == 9 && JOYPAD_BINDINGS[8].0 == 10);
    assert(JOYPAD_BINDINGS[9].0 == 11 && JOYPAD_BINDINGS[10].0 == 12);
    assert(JOYPAD_BINDINGS[11].0 == 13 && JOYPAD_BINDINGS[12].0 == 3);
}

/// A stick presses a direction where it leans that way by half of its range or more; the
/// two directions of an axis are mirrored and never pressed together. A button is
/// pressed where it reports anything.
pub proof fn lemma_stick_leans_one_way(
    one: InputBinding,
    other: InputBinding,
    button: InputBinding,
    value: i16,
)
    requires
        one.direction == 1,
        other.direction == -1,
        button.direction == 0,
    ensures
        one.down(value) <==> 2 * value >= 0x8000,
        other.down(value) <==> 2 * value <= -0x8000,
        !(one.down(value) && other.down(value)),
        value > i16::MIN ==> one.down(value) == other.down((-value) as i16),
        button.down(value) <==> value != 0,
{
}

/// An input that goes down sends its own key, if nothing holds that key yet, and one that
/// goes up lets go of the key that it held; the input is held in between, and no other
/// input is touched.
pub proof fn lemma_inputs_send_their_keys(
    sources: Map<InputSource, KeyCode>,
    binding: InputBinding,
    value: i16,
    other: InputSource,
)
    ensures
        ({
            let source = binding.source_spec();
            let (after, event) = read_binding(sources, binding, value);
            &&& after.contains_key(source) == binding.down(value)
            &&& other != source ==> after.contains_key(other) == sources.contains_key(other) && (
            sources.contains_key(other) ==> after[other] == sources[other])
            &&& !sources.contains_key(source) && binding.down(value) ==> {
                &&& after[source] == binding.key
                &&& event == if is_held(sources, binding.key) {
                    None
                } else {
                    Some(Event::Keydown(binding.key))
                }
            }
            &&& sources.contains_key(source) && !binding.down(value) ==> {
                event == if is_held(after, sources[source]) {
                    None
                } else {
                    Some(Event::Keyup(sources[source]))
                }
            }
        }),
{
}

/// A frontend is shown every input of the stick and the buttons with what it is for, in
/// the order of the bindings, and an empty entry at the end.
pub proof fn lemma_descriptors_show_the_bindings(i: int)
    requires
        0 <= i < 17,
    ensures
        descriptor_list().len() == 18,
        ({
            let shown = descriptor_list()[i];
            let bound = all_bindings()[i];
            &&& shown.device == bound.device
            &&& shown.id == bound.id
            &&& shown.index == bound.index
            &&& shown.port == 0
            &&& shown.description == Some(bound.description)
        }),
        descriptor_list().last().description is None,
{
}

} // verus!
