//! What holds the phone's keys down in the desktop program, when a key that is held
//! down repeats, and what the phone is told of it.

use vstd::prelude::*;

use crate::config::{Bindings, InputKey};
use crate::gamepad::GamepadCallbackEvent;
use crate::keys::{GamepadInput, KeyCode, WinitKeyCode};
use crate::pressed::{Event, PressedKeys};
use crate::table::Table;
use crate::window::WindowCallbackEvent;

verus! {

use crate::pressed::{is_held, lemma_press_is_an_edge, lemma_release_is_an_edge};
use crate::table::{lemma_push_contains, lemma_take_contains};

/// What can hold a phone key down.
#[derive(Clone, Copy, Debug, PartialEq, Eq, Hash, Structural)]
pub enum InputSource {
    Keyboard(WinitKeyCode),
    Gamepad { id: u32, input: GamepadInput },
}

impl InputKey for InputSource {
    fn same(self, other: InputSource) -> (r: bool) {
        self == other
    }
}

impl InputKey for KeyCode {
    fn same(self, other: KeyCode) -> (r: bool) {
        self == other
    }
}

/// A key of the keyboard, as far as the window system knows it.
#[derive(Clone, Copy, Debug, PartialEq, Eq, Structural)]
pub enum PhysicalKey {
    Code(WinitKeyCode),
    Unidentified,
}

/// After how many milliseconds a key that is held down repeats.
pub const REPEAT_MS: u128 = 100;

/// More than the repeat time has passed. Times are in nanoseconds.
pub open spec fn repeats(last: u128, now: u128) -> bool {
    now >= last && (now - last) / 1_000_000 > REPEAT_MS
}

/// The inputs that are held down, with what they hold, and when each held key was
/// last sent.
#[verifier::ext_equal]
pub struct InputModel {
    pub sources: Map<InputSource, KeyCode>,
    pub times: Map<KeyCode, u128>,
}

impl InputModel {
    /// Exactly the keys that are held have a time.
    pub open spec fn wf(self) -> bool {
        forall|key: KeyCode| #[trigger]
            self.times.contains_key(key) <==> is_held(self.sources, key)
    }

    /// `key` goes down if `source` goes down and holds it.
    pub open spec fn goes_down(self, source: InputSource, key: KeyCode) -> bool {
        !self.sources.contains_key(source) && !is_held(self.sources, key)
    }

    /// `source` went down at `now` and holds `key`. An input that was down already
    /// changes nothing.
    pub open spec fn pressed(self, source: InputSource, key: KeyCode, now: u128) -> InputModel {
        InputModel {
            sources: if self.sources.contains_key(source) {
                self.sources
            } else {
                self.sources.insert(source, key)
            },
            times: if self.goes_down(source, key) {
                self.times.insert(key, now)
            } else {
                self.times
            },
        }
    }

    /// The key that goes up if `source` goes up: the one that only it holds.
    pub open spec fn goes_up(self, source: InputSource) -> Option<KeyCode> {
        if self.sources.contains_key(source) && !is_held(
            self.sources.remove(source),
            self.sources[source],
        ) {
            Some(self.sources[source])
        } else {
            None
        }
    }

    /// `source` went up.
    pub open spec fn released(self, source: InputSource) -> InputModel {
        InputModel {
            sources: self.sources.remove(source),
            times: match self.goes_up(source) {
                Some(key) => self.times.remove(key),
                None => self.times,
            },
        }
    }

    /// `key` repeats at `now`.
    pub open spec fn is_due(self, key: KeyCode, now: u128) -> bool {
        self.times.contains_key(key) && repeats(self.times[key], now)
    }

    /// The keys that repeat at `now` were sent.
    pub open spec fn repeated(self, now: u128) -> InputModel {
        InputModel {
            times: self.times.map_entries(
                |key: KeyCode, last: u128|
                    if repeats(last, now) {
                        now
                    } else {
                        last
                    },
            ),
            ..self
        }
    }

    /// What a key of the keyboard comes to when it goes down at `now`.
    pub open spec fn after_key_down(
        self,
        key: PhysicalKey,
        keyboard_map: Map<WinitKeyCode, KeyCode>,
        now: u128,
    ) -> (InputModel, Option<Event>) {
        match key_binding(key, keyboard_map) {
            Some((source, keycode)) => (
                self.pressed(source, keycode, now),
                if self.goes_down(source, keycode) {
                    Some(Event::Keydown(keycode))
                } else {
                    None
                },
            ),
            None => (self, None),
        }
    }

    /// What an input comes to when it goes up.
    pub open spec fn after_release(self, source: InputSource) -> (InputModel, Option<Event>) {
        (
            self.released(source),
            match self.goes_up(source) {
                Some(key) => Some(Event::Keyup(key)),
                None => None,
            },
        )
    }

    /// What a key of the keyboard comes to when it goes up.
    pub open spec fn after_key_up(self, key: PhysicalKey) -> (InputModel, Option<Event>) {
        match key {
            PhysicalKey::Code(code) => self.after_release(InputSource::Keyboard(code)),
            PhysicalKey::Unidentified => (self, None),
        }
    }

    /// What an input of a gamepad comes to at `now`.
    pub open spec fn after_pad(
        self,
        gamepad_map: Map<GamepadInput, KeyCode>,
        event: GamepadCallbackEvent,
        now: u128,
    ) -> (InputModel, Option<Event>) {
        match event {
            GamepadCallbackEvent::Keydown { id, input } => if gamepad_map.contains_key(input) {
                let source = InputSource::Gamepad { id, input };
                (
                    self.pressed(source, gamepad_map[input], now),
                    if self.goes_down(source, gamepad_map[input]) {
                        Some(Event::Keydown(gamepad_map[input]))
                    } else {
                        None
                    },
                )
            } else {
                (self, None)
            },
            GamepadCallbackEvent::Keyup { id, input } => self.after_release(
                InputSource::Gamepad { id, input },
            ),
        }
    }

    /// What inputs of gamepads come to, one after the other.
    pub open spec fn after_pads(
        self,
        gamepad_map: Map<GamepadInput, KeyCode>,
        events: Seq<(GamepadCallbackEvent, u128)>,
    ) -> (InputModel, Seq<Event>)
        decreases events.len(),
    {
        if events.len() == 0 {
            (self, Seq::empty())
        } else {
            let (model, sent) = self.after_pads(gamepad_map, events.drop_last());
            let (model, event) = model.after_pad(gamepad_map, events.last().0, events.last().1);
            (model, sent + sent_with(event))
        }
    }
}

/// The event, where there is one.
pub open spec fn sent_with(event: Option<Event>) -> Seq<Event> {
    match event {
        Some(event) => seq![event],
        None => Seq::empty(),
    }
}

/// `keys` are the keys that repeat at `now`, each once.
pub open spec fn is_due_list(model: InputModel, now: u128, keys: Seq<KeyCode>) -> bool {
    &&& keys.no_duplicates()
    &&& forall|key: KeyCode| #[trigger] keys.contains(key) <==> model.is_due(key, now)
}

/// The phone is told of `keys` that repeat.
pub open spec fn repeat_events(keys: Seq<KeyCode>) -> Seq<Event> {
    keys.map_values(|key: KeyCode| Event::Keyrepeat(key))
}

/// Exactly the keys that are held keep having a time.
pub proof fn lemma_times_follow_keys(
    model: InputModel,
    source: InputSource,
    key: KeyCode,
    now: u128,
)
    requires
        model.wf(),
    ensures
        model.pressed(source, key, now).wf(),
        model.released(source).wf(),
        model.repeated(now).wf(),
{
    let pressed = model.pressed(source, key, now);
    assert forall|other: KeyCode| #[trigger] pressed.times.contains_key(other) <==> is_held(
        pressed.sources,
        other,
    ) by {
        assert(model.times.contains_key(other) <==> is_held(model.sources, other));
        if !model.sources.contains_key(source) {
            lemma_press_is_an_edge(model.sources, source, key);
        }
    }
    let released = model.released(source);
    assert forall|other: KeyCode| #[trigger] released.times.contains_key(other) <==> is_held(
        released.sources,
        other,
    ) by {
        assert(model.times.contains_key(other) <==> is_held(model.sources, other));
        if model.sources.contains_key(source) {
            lemma_release_is_an_edge(model.sources, source);
        } else {
            assert(released.sources =~= model.sources);
        }
    }
    let repeated = model.repeated(now);
    assert forall|other: KeyCode| #[trigger] repeated.times.contains_key(other) <==> is_held(
        repeated.sources,
        other,
    ) by {
        assert(model.times.contains_key(other) <==> is_held(model.sources, other));
    }
}

/// The phone is told of a key exactly when it goes down with its first input or up
/// with its last.
pub proof fn lemma_keys_are_sent_on_edges(
    model: InputModel,
    source: InputSource,
    key: KeyCode,
    now: u128,
    other: KeyCode,
)
    ensures
        is_held(model.pressed(source, key, now).sources, other) == (is_held(model.sources, other)
            || (other == key && model.goes_down(source, key))),
        is_held(model.released(source).sources, other) == (is_held(model.sources, other)
            && model.goes_up(source) != Some(other)),
{
    if model.sources.contains_key(source) {
        lemma_release_is_an_edge(model.sources, source);
    } else {
        lemma_press_is_an_edge(model.sources, source, key);
        assert(model.sources.remove(source) =~= model.sources);
    }
}

/// The held keys and when each was last sent.
pub struct InputState {
    repeat_times: Table<KeyCode, u128>,
    pressed: PressedKeys<InputSource>,
}

impl View for InputState {
    type V = InputModel;

    closed spec fn view(&self) -> InputModel {
        InputModel { sources: self.pressed@, times: self.repeat_times@ }
    }
}

impl InputState {
    pub fn new() -> (r: Self)
        ensures
            r@ == (InputModel { sources: Map::empty(), times: Map::empty() }),
            r@.wf(),
    {
        InputState { repeat_times: Table::new(), pressed: PressedKeys::new() }
    }

    /// An input goes down at `now`. True where the key goes down with it.
    pub fn press(&mut self, source: InputSource, keycode: KeyCode, now: u128) -> (r: bool)
        ensures
            r == old(self)@.goes_down(source, keycode),
            final(self)@ == old(self)@.pressed(source, keycode, now),
    {
        let send_keydown = self.pressed.press(source, keycode);
        if send_keydown {
            self.repeat_times.insert(keycode, now);
        }
        send_keydown
    }

    /// An input goes up. The key that goes up with it.
    pub fn release(&mut self, source: InputSource) -> (r: Option<KeyCode>)
        ensures
            r == old(self)@.goes_up(source),
            final(self)@ == old(self)@.released(source),
    {
        proof {
            if !self@.sources.contains_key(source) {
                assert(self@.sources.remove(source) =~= self@.sources);
            }
        }
        let released = self.pressed.release(source);
        if let Some(key) = released {
            self.repeat_times.remove(key);
        }
        released
    }

    /// The held keys that repeat at `now`, each once, in no particular order.
    pub fn repeat_due(&mut self, now: u128) -> (r: Vec<KeyCode>)
        ensures
            is_due_list(old(self)@, now, r@),
            final(self)@ == old(self)@.repeated(now),
    {
        let keys = self.repeat_times.keys();
        let ghost first = self@.times;
        let mut repeated: Vec<KeyCode> = Vec::new();
        for index in 0..keys.len()
            invariant
                keys@.no_duplicates(),
                first == old(self)@.times,
                forall|key: KeyCode| #[trigger] keys@.contains(key) <==> first.contains_key(key),
                self@.sources == old(self)@.sources,
                self@.times.dom() == first.dom(),
                forall|i: int|
                    index <= i < keys@.len() ==> self@.times[#[trigger] keys@[i]]
                        == first[keys@[i]],
                forall|i: int|
                    0 <= i < index ==> self@.times[#[trigger] keys@[i]] == if repeats(
                        first[keys@[i]],
                        now,
                    ) {
                        now
                    } else {
                        first[keys@[i]]
                    },
                repeated@.no_duplicates(),
                forall|key: KeyCode| #[trigger]
                    repeated@.contains(key) <==> keys@.take(index as int).contains(key)
                        && repeats(first[key], now),
        {
            let key = keys[index];
            proof {
                lemma_take_contains(keys@, index as int);
                assert(keys@.contains(key));
            }
            if let Some(last) = self.repeat_times.get(key) {
                if now >= last && (now - last) / 1_000_000 > REPEAT_MS {
                    let ghost times = self@.times;
                    proof {
                        lemma_push_contains(repeated@, key);
                    }
                    repeated.push(key);
                    self.repeat_times.insert(key, now);
                    assert(self@.times.dom() =~= times.dom());
                }
            }
        }
        proof {
            assert(keys@.take(keys@.len() as int) =~= keys@);
            let after = old(self)@.repeated(now);
            assert forall|key: KeyCode| #[trigger] self@.times.contains_key(key) implies self@.times[key]
                == after.times[key] by {
                assert(first.contains_key(key));
                assert(keys@.contains(key));
                let i = choose|i: int| 0 <= i < keys@.len() && keys@[i] == key;
                assert(self@.times[keys@[i]] == self@.times[key]);
            }
            assert(self@.times =~= after.times);
            assert(self@ =~= after);
        }
        repeated
    }

    /// A key of the keyboard goes down at `now`.
    pub fn key_down(
        &mut self,
        key: PhysicalKey,
        keyboard_map: &Bindings<WinitKeyCode>,
        now: u128,
    ) -> (r: Option<Event>)
        ensures
            (final(self)@, r) == old(self)@.after_key_down(key, keyboard_map@, now),
    {
        match convert_keyboard_input(key, keyboard_map) {
            Some((source, keycode)) => {
                if self.press(source, keycode, now) {
                    Some(Event::Keydown(keycode))
                } else {
                    None
                }
            },
            None => None,
        }
    }

    /// A key of the keyboard goes up.
    pub fn key_up(&mut self, key: PhysicalKey) -> (r: Option<Event>)
        ensures
            (final(self)@, r) == old(self)@.after_key_up(key),
    {
        match key {
            PhysicalKey::Code(code) => match self.release(InputSource::Keyboard(code)) {
                Some(keycode) => Some(Event::Keyup(keycode)),
                None => None,
            },
            PhysicalKey::Unidentified => None,
        }
    }

    /// A gamepad tells of an input at `now`.
    pub fn handle_gamepad_event(
        &mut self,
        gamepad_map: &Bindings<GamepadInput>,
        event: GamepadCallbackEvent,
        now: u128,
    ) -> (r: Option<Event>)
        ensures
            (final(self)@, r) == old(self)@.after_pad(gamepad_map@, event, now),
    {
        match event {
            GamepadCallbackEvent::Keydown { id, input } => {
                let Some(keycode) = gamepad_map.get(input) else {
                    return None;
                };
                if self.press(InputSource::Gamepad { id, input }, keycode, now) {
                    Some(Event::Keydown(keycode))
                } else {
                    None
                }
            },
            GamepadCallbackEvent::Keyup { id, input } => match self.release(
                InputSource::Gamepad { id, input },
            ) {
                Some(keycode) => Some(Event::Keyup(keycode)),
                None => None,
            },
        }
    }

    /// The window is idle: what the gamepads told comes first, each with the time at
    /// which it is looked at, and then the keys that repeat at `now`.
    pub fn update(
        &mut self,
        gamepad_map: &Bindings<GamepadInput>,
        pads: &[(GamepadCallbackEvent, u128)],
        now: u128,
    ) -> (r: Vec<Event>)
        ensures
            ({
                let (model, sent) = old(self)@.after_pads(gamepad_map@, pads@);
                &&& final(self)@ == model.repeated(now)
                &&& exists|keys: Seq<KeyCode>| #[trigger]
                    is_due_list(model, now, keys) && r@ == sent + repeat_events(keys)
            }),
    {
        let mut events: Vec<Event> = Vec::new();
        assert(pads@.take(0) =~= Seq::<(GamepadCallbackEvent, u128)>::empty());
        for index in 0..pads.len()
            invariant
                (self@, events@) == old(self)@.after_pads(gamepad_map@, pads@.take(index as int)),
        {
            proof {
                let next = pads@.take(index + 1);
                assert(next.drop_last() =~= pads@.take(index as int));
                assert(next.last() == pads@[index as int]);
            }
            let ghost sent = events@;
            let (pad, time) = pads[index];
            if let Some(event) = self.handle_gamepad_event(gamepad_map, pad, time) {
                events.push(event);
                assert(events@ =~= sent + seq![event]);
            } else {
                assert(sent =~= sent + Seq::<Event>::empty());
            }
        }
        assert(pads@.take(pads@.len() as int) =~= pads@);
        let ghost sent = events@;
        let ghost model = self@;
        let keys = self.repeat_due(now);
        for index in 0..keys.len()
            invariant
                events@ == sent + repeat_events(keys@.take(index as int)),
        {
            let ghost before = keys@.take(index as int);
            assert(keys@.take(index + 1) =~= before.push(keys@[index as int]));
            assert(repeat_events(before.push(keys@[index as int])) =~= repeat_events(before).push(
                Event::Keyrepeat(keys@[index as int]),
            ));
            events.push(Event::Keyrepeat(keys[index]));
        }
        assert(keys@.take(keys@.len() as int) =~= keys@);
        assert(is_due_list(model, now, keys@));
        events
    }

    /// What the phone is told when the window tells of `event` at `now`. `pads` is what
    /// the gamepads told since the window was last idle.
    pub fn window_callback(
        &mut self,
        event: WindowCallbackEvent,
        keyboard_map: &Bindings<WinitKeyCode>,
        gamepad_map: &Bindings<GamepadInput>,
        pads: &[(GamepadCallbackEvent, u128)],
        now: u128,
    ) -> (r: Vec<Event>)
        ensures
            match event {
                WindowCallbackEvent::Update => {
                    let (model, sent) = old(self)@.after_pads(gamepad_map@, pads@);
                    &&& final(self)@ == model.repeated(now)
                    &&& exists|keys: Seq<KeyCode>| #[trigger]
                        is_due_list(model, now, keys) && r@ == sent + repeat_events(keys)
                },
                WindowCallbackEvent::Redraw => {
                    &&& final(self)@ == old(self)@
                    &&& r@ == seq![Event::Redraw]
                },
                WindowCallbackEvent::Keydown(key) => {
                    let (model, sent) = old(self)@.after_key_down(key, keyboard_map@, now);
                    &&& final(self)@ == model
                    &&& r@ == sent_with(sent)
                },
                WindowCallbackEvent::Keyup(key) => {
                    let (model, sent) = old(self)@.after_key_up(key);
                    &&& final(self)@ == model
                    &&& r@ == sent_with(sent)
                },
            },
    {
        let mut events: Vec<Event> = Vec::new();
        let sent = match event {
            WindowCallbackEvent::Update => {
                return self.update(gamepad_map, pads, now);
            },
            WindowCallbackEvent::Redraw => Some(Event::Redraw),
            WindowCallbackEvent::Keydown(key) => self.key_down(key, keyboard_map, now),
            WindowCallbackEvent::Keyup(key) => self.key_up(key),
        };
        if let Some(event) = sent {
            events.push(event);
        }
        assert(events@ =~= sent_with(sent));
        events
    }
}

/// What a key of the keyboard is bound to.
pub open spec fn key_binding(
    key: PhysicalKey,
    keyboard_map: Map<WinitKeyCode, KeyCode>,
) -> Option<(InputSource, KeyCode)> {
    match key {
        PhysicalKey::Code(code) => if keyboard_map.contains_key(code) {
            Some((InputSource::Keyboard(code), keyboard_map[code]))
        } else {
            None
        },
        PhysicalKey::Unidentified => None,
    }
}

/// What a key of the keyboard is bound to.
pub fn convert_keyboard_input(
    key: PhysicalKey,
    keyboard_map: &Bindings<WinitKeyCode>,
) -> (r: Option<(InputSource, KeyCode)>)
    ensures
        r == key_binding(key, keyboard_map@),
{
    match key {
        PhysicalKey::Code(code) => match keyboard_map.get(code) {
            Some(keycode) => Some((InputSource::Keyboard(code), keycode)),
            None => None,
        },
        PhysicalKey::Unidentified => None,
    }
}

// ---------------------------------------------------------------------------
// What the phone is told

/// A key of the keyboard sends the phone key that it is bound to, if nothing holds that
/// one yet, and lets go of it again, if nothing else holds it. A key without a binding
/// sends nothing and holds nothing.
pub proof fn lemma_keyboard_key_sends_its_phone_key(
    model: InputModel,
    code: WinitKeyCode,
    keyboard_map: Map<WinitKeyCode, KeyCode>,
    now: u128,
)
    requires
        !model.sources.contains_key(InputSource::Keyboard(code)),
    ensures
        ({
            let key = PhysicalKey::Code(code);
            let (down, sent) = model.after_key_down(key, keyboard_map, now);
            let (up, let_go) = down.after_key_up(key);
            if keyboard_map.contains_key(code) {
                let bound = keyboard_map[code];
                &&& sent == if is_held(model.sources, bound) {
                    None
                } else {
                    Some(Event::Keydown(bound))
                }
                &&& is_held(down.sources, bound)
                &&& let_go == if is_held(model.sources, bound) {
                    None
                } else {
                    Some(Event::Keyup(bound))
                }
                &&& up.sources == model.sources
            } else {
                &&& sent is None
                &&& down == model
                &&& let_go is None
                &&& up.sources == model.sources
            }
        }),
{
    let source = InputSource::Keyboard(code);
    let key = PhysicalKey::Code(code);
    let (down, _) = model.after_key_down(key, keyboard_map, now);
    let (up, _) = down.after_key_up(key);
    if keyboard_map.contains_key(code) {
        assert(down.sources.contains_key(source) && down.sources[source] == keyboard_map[code]);
        assert(down.sources.remove(source) =~= model.sources);
    } else {
        assert(model.sources.remove(source) =~= model.sources);
    }
}

/// An input of a gamepad does the same for the key that it is bound to; two gamepads are
/// told apart.
pub proof fn lemma_gamepad_input_sends_its_phone_key(
    model: InputModel,
    id: u32,
    input: GamepadInput,
    gamepad_map: Map<GamepadInput, KeyCode>,
    now: u128,
    other: u32,
)
    requires
        !model.sources.contains_key(InputSource::Gamepad { id, input }),
        gamepad_map.contains_key(input),
        other != id,
    ensures
        ({
            let bound = gamepad_map[input];
            let (down, sent) = model.after_pad(
                gamepad_map,
                GamepadCallbackEvent::Keydown { id, input },
                now,
            );
            let (up, let_go) = down.after_pad(
                gamepad_map,
                GamepadCallbackEvent::Keyup { id, input },
                now,
            );
            let (still, _) = down.after_pad(
                gamepad_map,
                GamepadCallbackEvent::Keyup { id: other, input },
                now,
            );
            &&& sent == if is_held(model.sources, bound) {
                None
            } else {
                Some(Event::Keydown(bound))
            }
            &&& is_held(down.sources, bound)
            &&& let_go == if is_held(model.sources, bound) {
                None
            } else {
                Some(Event::Keyup(bound))
            }
            &&& up.sources == model.sources
            &&& is_held(still.sources, bound)
        }),
{
    let source = InputSource::Gamepad { id, input };
    let (down, _) = model.after_pad(
        gamepad_map,
        GamepadCallbackEvent::Keydown { id, input },
        now,
    );
    assert(down.sources.contains_key(source) && down.sources[source] == gamepad_map[input]);
    assert(down.sources.remove(source) =~= model.sources);
    let still = down.sources.remove(InputSource::Gamepad { id: other, input });
    assert(still.contains_key(source) && still[source] == gamepad_map[input]);
}

/// A key repeats once it has been held for more than 100 whole milliseconds since it was
/// last sent, and then not again before as long has passed once more.
pub proof fn lemma_keys_repeat_every_tenth_of_a_second(
    model: InputModel,
    key: KeyCode,
    now: u128,
    later: u128,
)
    requires
        now <= later,
    ensures
        model.is_due(key, now) <==> model.times.contains_key(key) && now - model.times[key]
            >= 101_000_000,
        model.is_due(key, now) && later - now < 101_000_000 ==> !model.repeated(now).is_due(
            key,
            later,
        ),
        !model.is_due(key, now) && model.times.contains_key(key) ==> model.repeated(now).times[key]
            == model.times[key],
        model.repeated(now).sources == model.sources,
{
}

/// A key that goes down is counted from then on.
pub proof fn lemma_repeat_counts_from_the_press(
    model: InputModel,
    source: InputSource,
    key: KeyCode,
    now: u128,
    later: u128,
)
    requires
        model.goes_down(source, key),
        now <= later,
    ensures
        model.pressed(source, key, now).is_due(key, later) <==> later - now >= 101_000_000,
{
}

/// What gamepads tell is handled in order, and what comes of each part is what comes of
/// it alone.
pub proof fn lemma_gamepads_are_heard_in_order(
    model: InputModel,
    gamepad_map: Map<GamepadInput, KeyCode>,
    event: (GamepadCallbackEvent, u128),
)
    ensures
        model.after_pads(gamepad_map, seq![event]).0 == model.after_pad(
            gamepad_map,
            event.0,
            event.1,
        ).0,
        model.after_pads(gamepad_map, seq![event]).1 == match model.after_pad(
            gamepad_map,
            event.0,
            event.1,
        ).1 {
            Some(sent) => seq![sent],
            None => Seq::empty(),
        },
{
    let one = seq![event];
    assert(one.drop_last() =~= Seq::<(GamepadCallbackEvent, u128)>::empty());
    assert(model.after_pads(gamepad_map, one.drop_last()) == (model, Seq::<Event>::empty()));
    assert(model.after_pads(gamepad_map, one).1 =~= sent_with(
        model.after_pad(gamepad_map, event.0, event.1).1,
    ));
}

/// The phone is told once of each key that is held for long enough, and of no other.
pub proof fn lemma_held_keys_are_repeated(
    model: InputModel,
    now: u128,
    keys: Seq<KeyCode>,
    key: KeyCode,
)
    requires
        is_due_list(model, now, keys),
    ensures
        repeat_events(keys).contains(Event::Keyrepeat(key)) <==> model.times.contains_key(key) && now
            - model.times[key] >= 101_000_000,
        repeat_events(keys).len() == keys.len(),
        repeat_events(keys).no_duplicates(),
        forall|i: int| 0 <= i < keys.len() ==> (#[trigger] repeat_events(keys)[i]) is Keyrepeat,
{
    let events = repeat_events(keys);
    if keys.contains(key) {
        let i = choose|i: int| 0 <= i < keys.len() && keys[i] == key;
        assert(events[i] == Event::Keyrepeat(key));
    }
    if events.contains(Event::Keyrepeat(key)) {
        let i = choose|i: int| 0 <= i < events.len() && events[i] == Event::Keyrepeat(key);
        assert(keys[i] == key);
    }
    assert(keys.contains(key) <==> model.is_due(key, now));
}

} // verus!
