//! The gamepads of the desktop program: which of their inputs are pressed, where
//! their sticks point, and how they vibrate.

use vstd::prelude::*;

use crate::config::InputKey;
use crate::keys::{Button, GamepadAxisDirection, GamepadInput};
use crate::table::Table;

verus! {

use crate::table::{lemma_push_contains, lemma_take_contains};

/// An input of one gamepad.
#[derive(Clone, Copy, Debug, PartialEq, Eq, Hash, Structural)]
pub struct PadInput {
    pub id: u32,
    pub input: GamepadInput,
}

impl InputKey for PadInput {
    fn same(self, other: PadInput) -> (r: bool) {
        self == other
    }
}

#[derive(Clone, Copy, Debug, PartialEq, Eq, Hash, Structural)]
pub enum StickKind {
    Left,
    Right,
}

/// A stick of one gamepad.
#[derive(Clone, Copy, Debug, PartialEq, Eq, Hash, Structural)]
pub struct PadStick {
    pub id: u32,
    pub stick: StickKind,
}

impl InputKey for PadStick {
    fn same(self, other: PadStick) -> (r: bool) {
        self == other
    }
}

#[derive(Clone, Copy, Debug, PartialEq, Eq, Structural)]
pub enum StickAxisComponent {
    X,
    Y,
}

/// The axes that a gamepad reports.
#[derive(Clone, Copy, Debug, PartialEq, Eq, Structural)]
pub enum Axis {
    LeftStickX,
    LeftStickY,
    RightStickX,
    RightStickY,
    Other,
}

/// Where a stick is: the bit patterns of the two numbers that the gamepad reported
/// last, and the direction that counts as pressed.
#[derive(Clone, Copy, Debug, PartialEq, Eq, Structural)]
pub struct StickState {
    pub x: u32,
    pub y: u32,
    pub active_direction: Option<GamepadAxisDirection>,
}

/// How a stick leans: whether far enough to count, and where to.
#[derive(Clone, Copy, Debug, PartialEq, Eq, Structural)]
pub struct Lean {
    pub far: bool,
    pub sideways: bool,
    pub right: bool,
    pub down: bool,
}

/// What a gamepad tells the program.
#[derive(Clone, Copy, Debug, PartialEq, Eq, Structural)]
pub enum GamepadCallbackEvent {
    Keydown { id: u32, input: GamepadInput },
    Keyup { id: u32, input: GamepadInput },
}

/// The stick and the component that an axis is.
pub open spec fn stick_of(axis: Axis) -> Option<(StickKind, StickAxisComponent)> {
    match axis {
        Axis::LeftStickX => Some((StickKind::Left, StickAxisComponent::X)),
        Axis::LeftStickY => Some((StickKind::Left, StickAxisComponent::Y)),
        Axis::RightStickX => Some((StickKind::Right, StickAxisComponent::X)),
        Axis::RightStickY => Some((StickKind::Right, StickAxisComponent::Y)),
        Axis::Other => None,
    }
}

/// The stick and the component that an axis is.
pub fn stick_axis(axis: Axis) -> (r: Option<(StickKind, StickAxisComponent)>)
    ensures
        r == stick_of(axis),
{
    match axis {
        Axis::LeftStickX => Some((StickKind::Left, StickAxisComponent::X)),
        Axis::LeftStickY => Some((StickKind::Left, StickAxisComponent::Y)),
        Axis::RightStickX => Some((StickKind::Right, StickAxisComponent::X)),
        Axis::RightStickY => Some((StickKind::Right, StickAxisComponent::Y)),
        Axis::Other => None,
    }
}

/// How far a stick must lean to count, in tenths of its way.
pub open spec fn threshold_for(current_direction: Option<GamepadAxisDirection>) -> u8 {
    if current_direction is Some {
        3u8
    } else {
        5u8
    }
}

/// How far a stick must lean to count, in tenths of its way: less far once it
/// counts than before.
pub fn activation_threshold(current_direction: Option<GamepadAxisDirection>) -> (r: u8)
    ensures
        r == threshold_for(current_direction),
{
    if current_direction.is_some() {
        3
    } else {
        5
    }
}

/// The direction that a leaning stick presses.
pub open spec fn direction_of(stick: StickKind, lean: Lean) -> Option<GamepadAxisDirection> {
    if !lean.far {
        None
    } else if lean.sideways {
        Some(
            match (stick, lean.right) {
                (StickKind::Left, true) => GamepadAxisDirection::LeftStickRight,
                (StickKind::Left, false) => GamepadAxisDirection::LeftStickLeft,
                (StickKind::Right, true) => GamepadAxisDirection::RightStickRight,
                (StickKind::Right, false) => GamepadAxisDirection::RightStickLeft,
            },
        )
    } else {
        Some(
            match (stick, lean.down) {
                (StickKind::Left, true) => GamepadAxisDirection::LeftStickDown,
                (StickKind::Left, false) => GamepadAxisDirection::LeftStickUp,
                (StickKind::Right, true) => GamepadAxisDirection::RightStickDown,
                (StickKind::Right, false) => GamepadAxisDirection::RightStickUp,
            },
        )
    }
}

/// The direction that a leaning stick presses.
pub fn resolve_stick_direction(stick: StickKind, lean: Lean) -> (r: Option<GamepadAxisDirection>)
    ensures
        r == direction_of(stick, lean),
{
    if !lean.far {
        return None;
    }
    if lean.sideways {
        if lean.right {
            Some(
                match stick {
                    StickKind::Left => GamepadAxisDirection::LeftStickRight,
                    StickKind::Right => GamepadAxisDirection::RightStickRight,
                },
            )
        } else {
            Some(
                match stick {
                    StickKind::Left => GamepadAxisDirection::LeftStickLeft,
                    StickKind::Right => GamepadAxisDirection::RightStickLeft,
                },
            )
        }
    } else if lean.down {
        Some(
            match stick {
                StickKind::Left => GamepadAxisDirection::LeftStickDown,
                StickKind::Right => GamepadAxisDirection::RightStickDown,
            },
        )
    } else {
        Some(
            match stick {
                StickKind::Left => GamepadAxisDirection::LeftStickUp,
                StickKind::Right => GamepadAxisDirection::RightStickUp,
            },
        )
    }
}

/// A stick that was never moved.
pub open spec fn resting() -> StickState {
    StickState { x: 0, y: 0, active_direction: None }
}

/// What is known of a stick.
pub open spec fn stick_state(sticks: Map<PadStick, StickState>, stick: PadStick) -> StickState {
    if sticks.contains_key(stick) {
        sticks[stick]
    } else {
        resting()
    }
}

/// A stick with one number changed.
pub open spec fn with_axis(
    state: StickState,
    component: StickAxisComponent,
    value: u32,
) -> StickState {
    match component {
        StickAxisComponent::X => StickState { x: value, ..state },
        StickAxisComponent::Y => StickState { y: value, ..state },
    }
}

/// What a stick tells the program when it turns from one direction to another.
pub open spec fn turn_events(
    id: u32,
    previous: Option<GamepadAxisDirection>,
    next: Option<GamepadAxisDirection>,
) -> Seq<GamepadCallbackEvent> {
    if previous == next {
        Seq::empty()
    } else {
        let ups: Seq<GamepadCallbackEvent> = match previous {
            Some(direction) => seq![
                GamepadCallbackEvent::Keyup { id, input: GamepadInput::Axis(direction) },
            ],
            None => Seq::empty(),
        };
        match next {
            Some(direction) => ups.push(
                GamepadCallbackEvent::Keydown { id, input: GamepadInput::Axis(direction) },
            ),
            None => ups,
        }
    }
}

/// The pressed inputs after a stick turned from one direction to another.
pub open spec fn turned(
    pressed: Set<PadInput>,
    id: u32,
    previous: Option<GamepadAxisDirection>,
    next: Option<GamepadAxisDirection>,
) -> Set<PadInput> {
    if previous == next {
        pressed
    } else {
        let rest = match previous {
            Some(direction) => pressed.remove(PadInput { id, input: GamepadInput::Axis(direction) }),
            None => pressed,
        };
        match next {
            Some(direction) => rest.insert(PadInput { id, input: GamepadInput::Axis(direction) }),
            None => rest,
        }
    }
}

/// The gamepads: their pressed inputs and their sticks.
pub struct GamepadState {
    pressed_inputs: Table<PadInput, ()>,
    stick_states: Table<PadStick, StickState>,
}

impl GamepadState {
    /// The inputs that are pressed.
    pub closed spec fn pressed(&self) -> Set<PadInput> {
        self.pressed_inputs@.dom()
    }

    /// What is known of the sticks.
    pub closed spec fn sticks(&self) -> Map<PadStick, StickState> {
        self.stick_states@
    }

    /// The direction that a stick presses is among the pressed inputs.
    pub open spec fn wf(&self) -> bool {
        sticks_are_pressed(self.pressed(), self.sticks())
    }

    pub fn new() -> (r: Self)
        ensures
            r.wf(),
            r.pressed() == Set::<PadInput>::empty(),
            r.sticks() == Map::<PadStick, StickState>::empty(),
    {
        GamepadState { pressed_inputs: Table::new(), stick_states: Table::new() }
    }

    /// A button goes down.
    pub fn press_button(&mut self, id: u32, button: Button) -> (r: GamepadCallbackEvent)
        ensures
            old(self).wf() ==> final(self).wf(),
            final(self).pressed() == old(self).pressed().insert(
                (PadInput { id, input: GamepadInput::Button(button) }),
            ),
            final(self).sticks() == old(self).sticks(),
            r == (GamepadCallbackEvent::Keydown { id, input: GamepadInput::Button(button) }),
    {
        let input = GamepadInput::Button(button);
        self.pressed_inputs.insert(PadInput { id, input }, ());
        assert(self.pressed() =~= old(self).pressed().insert(PadInput { id, input }));
        proof {
            lemma_buttons_keep_sticks_pressed(old(self).pressed(), self.pressed(), self.sticks());
        }
        GamepadCallbackEvent::Keydown { id, input }
    }

    /// A button goes up.
    pub fn release_button(&mut self, id: u32, button: Button) -> (r: GamepadCallbackEvent)
        ensures
            old(self).wf() ==> final(self).wf(),
            final(self).pressed() == old(self).pressed().remove(
                (PadInput { id, input: GamepadInput::Button(button) }),
            ),
            final(self).sticks() == old(self).sticks(),
            r == (GamepadCallbackEvent::Keyup { id, input: GamepadInput::Button(button) }),
    {
        let input = GamepadInput::Button(button);
        self.pressed_inputs.remove(PadInput { id, input });
        assert(self.pressed() =~= old(self).pressed().remove(PadInput { id, input }));
        proof {
            lemma_buttons_keep_sticks_pressed(old(self).pressed(), self.pressed(), self.sticks());
        }
        GamepadCallbackEvent::Keyup { id, input }
    }

    /// A stick reports the number of one axis. What is known of the stick now, its
    /// direction not yet looked at again.
    pub fn set_axis(
        &mut self,
        id: u32,
        stick: StickKind,
        component: StickAxisComponent,
        value: u32,
    ) -> (r: StickState)
        ensures
            old(self).wf() ==> final(self).wf(),
            r == with_axis(
                stick_state(old(self).sticks(), (PadStick { id, stick })),
                component,
                value,
            ),
            final(self).sticks() == old(self).sticks().insert((PadStick { id, stick }), r),
            final(self).pressed() == old(self).pressed(),
    {
        let place = PadStick { id, stick };
        let mut state = match self.stick_states.get(place) {
            Some(state) => state,
            None => StickState { x: 0, y: 0, active_direction: None },
        };
        match component {
            StickAxisComponent::X => {
                state.x = value;
            },
            StickAxisComponent::Y => {
                state.y = value;
            },
        }
        self.stick_states.insert(place, state);
        assert(old(self).wf() ==> self.wf()) by {
            assert forall|other: PadStick| #[trigger]
                self.sticks().contains_key(other) implies self.sticks()[other].active_direction
                == stick_state(old(self).sticks(), other).active_direction by {}
        }
        state
    }

    /// A stick leans as its numbers say.
    pub fn turn_stick(&mut self, id: u32, stick: StickKind, lean: Lean) -> (r: Vec<
        GamepadCallbackEvent,
    >)
        ensures
            old(self).wf() ==> final(self).wf(),
            ({
                let place = PadStick { id, stick };
                let state = stick_state(old(self).sticks(), place);
                let next = direction_of(stick, lean);
                &&& r@ == turn_events(id, state.active_direction, next)
                &&& final(self).pressed() == turned(
                    old(self).pressed(),
                    id,
                    state.active_direction,
                    next,
                )
                &&& final(self).sticks() == old(self).sticks().insert(
                    place,
                    StickState { active_direction: next, ..state },
                )
            }),
    {
        let place = PadStick { id, stick };
        let mut state = match self.stick_states.get(place) {
            Some(state) => state,
            None => StickState { x: 0, y: 0, active_direction: None },
        };
        let previous = state.active_direction;
        let next = resolve_stick_direction(stick, lean);
        proof {
            if self.wf() {
                lemma_turning_keeps_sticks_pressed(self.pressed(), self.sticks(), place, lean);
            }
        }
        state.active_direction = next;
        self.stick_states.insert(place, state);
        self.transition_stick_direction(id, previous, next)
    }

    fn transition_stick_direction(
        &mut self,
        id: u32,
        previous_direction: Option<GamepadAxisDirection>,
        next_direction: Option<GamepadAxisDirection>,
    ) -> (r: Vec<GamepadCallbackEvent>)
        ensures
            r@ == turn_events(id, previous_direction, next_direction),
            final(self).pressed() == turned(
                old(self).pressed(),
                id,
                previous_direction,
                next_direction,
            ),
            final(self).sticks() == old(self).sticks(),
    {
        let mut events: Vec<GamepadCallbackEvent> = Vec::new();
        if previous_direction == next_direction {
            return events;
        }
        if let Some(direction) = previous_direction {
            let input = GamepadInput::Axis(direction);
            self.pressed_inputs.remove(PadInput { id, input });
            events.push(GamepadCallbackEvent::Keyup { id, input });
        }
        if let Some(direction) = next_direction {
            let input = GamepadInput::Axis(direction);
            self.pressed_inputs.insert(PadInput { id, input }, ());
            events.push(GamepadCallbackEvent::Keydown { id, input });
        }
        assert(events@ =~= turn_events(id, previous_direction, next_direction));
        assert(self.pressed() =~= turned(
            old(self).pressed(),
            id,
            previous_direction,
            next_direction,
        ));
        events
    }

    /// A gamepad is gone: its sticks are forgotten and all that it pressed goes up,
    /// each input once, in no particular order.
    pub fn disconnect(&mut self, id: u32) -> (r: Vec<GamepadCallbackEvent>)
        ensures
            old(self).wf() ==> final(self).wf(),
            final(self).pressed() == old(self).pressed().filter(|input: PadInput| input.id != id),
            final(self).sticks() == old(self).sticks().remove(
                (PadStick { id, stick: StickKind::Left }),
            ).remove((PadStick { id, stick: StickKind::Right })),
            r@.no_duplicates(),
            forall|event: GamepadCallbackEvent| #[trigger]
                r@.contains(event) <==> {
                    &&& event matches GamepadCallbackEvent::Keyup { id: pad, input }
                    &&& pad == id
                    &&& old(self).pressed().contains((PadInput { id, input }))
                },
    {
        self.stick_states.remove(PadStick { id, stick: StickKind::Left });
        self.stick_states.remove(PadStick { id, stick: StickKind::Right });
        let ghost first = self.pressed();
        let inputs = self.pressed_inputs.keys();
        let mut events: Vec<GamepadCallbackEvent> = Vec::new();
        for index in 0..inputs.len()
            invariant
                inputs@.no_duplicates(),
                forall|input: PadInput| #[trigger]
                    inputs@.contains(input) <==> first.contains(input),
                self.sticks() == old(self).sticks().remove(
                    (PadStick { id, stick: StickKind::Left }),
                ).remove((PadStick { id, stick: StickKind::Right })),
                forall|input: PadInput| #[trigger]
                    self.pressed().contains(input) <==> first.contains(input) && !(input.id == id
                        && inputs@.take(index as int).contains(input)),
                events@.no_duplicates(),
                forall|event: GamepadCallbackEvent| #[trigger]
                    events@.contains(event) <==> {
                        &&& event matches GamepadCallbackEvent::Keyup { id: pad, input }
                        &&& pad == id
                        &&& inputs@.take(index as int).contains((PadInput { id, input }))
                    },
        {
            let pressed = inputs[index];
            proof {
                lemma_take_contains(inputs@, index as int);
                assert(inputs@.contains(pressed));
            }
            if pressed.id == id {
                let event = GamepadCallbackEvent::Keyup { id, input: pressed.input };
                proof {
                    lemma_push_contains(events@, event);
                }
                let ghost held = self.pressed();
                self.pressed_inputs.remove(pressed);
                assert(self.pressed() =~= held.remove(pressed));
                events.push(event);
            }
        }
        assert(inputs@.take(inputs@.len() as int) =~= inputs@);
        assert(self.pressed() =~= first.filter(|input: PadInput| input.id != id));
        assert(old(self).wf() ==> self.wf()) by {
            assert forall|place: PadStick| #[trigger]
                self.sticks().contains_key(place) implies old(self).sticks().contains_key(place)
                && old(self).sticks()[place] == self.sticks()[place] && place.id != id by {
                assert(place.stick == StickKind::Left || place.stick == StickKind::Right);
            }
        }
        events
    }
}

/// How a gamepad vibrates: how strongly, how long in milliseconds, and how long the
/// effect is kept.
#[derive(Clone, Copy, Debug, PartialEq, Eq, Structural)]
pub struct Vibration {
    pub magnitude: u16,
    pub duration_ms: u32,
    pub keep_ms: u64,
}

/// The strength for an intensity in percent, as far as a gamepad's number reaches.
pub open spec fn magnitude_of(intensity: u8) -> int {
    (65535 * intensity / 100) % 65536
}

/// How the gamepads answer a request to vibrate. Without a gamepad that can, or
/// with no strength, they do not.
pub fn vibration(can_vibrate: bool, duration_ms: u64, intensity: u8) -> (r: Option<Vibration>)
    ensures
        r is Some <==> can_vibrate && magnitude_of(intensity) != 0,
        r matches Some(vibration) ==> {
            &&& vibration.magnitude == magnitude_of(intensity)
            &&& vibration.duration_ms == if duration_ms < 1 {
                1u64
            } else if duration_ms > u32::MAX {
                u32::MAX as u64
            } else {
                duration_ms
            }
            &&& vibration.keep_ms == vibration.duration_ms + 250
        },
{
    if !can_vibrate {
        return None;
    }
    let magnitude = (65535u32 * intensity as u32 / 100 % 65536) as u16;
    if magnitude == 0 {
        return None;
    }
    let duration_ms: u32 = if duration_ms < 1 {
        1
    } else if duration_ms > u32::MAX as u64 {
        u32::MAX
    } else {
        duration_ms as u32
    };
    Some(Vibration { magnitude, duration_ms, keep_ms: duration_ms as u64 + 250 })
}

/// The direction that a stick presses is among the pressed inputs.
pub open spec fn sticks_are_pressed(
    pressed: Set<PadInput>,
    sticks: Map<PadStick, StickState>,
) -> bool {
    forall|place: PadStick| #[trigger]
        sticks.contains_key(place) ==> (sticks[place].active_direction matches Some(direction)
            ==> direction_belongs(place.stick, direction) && pressed.contains(
            (PadInput { id: place.id, input: GamepadInput::Axis(direction) }),
        ))
}

/// The direction is one of the stick's.
pub open spec fn direction_belongs(stick: StickKind, direction: GamepadAxisDirection) -> bool {
    match direction {
        GamepadAxisDirection::LeftStickUp => stick == StickKind::Left,
        GamepadAxisDirection::LeftStickDown => stick == StickKind::Left,
        GamepadAxisDirection::LeftStickLeft => stick == StickKind::Left,
        GamepadAxisDirection::LeftStickRight => stick == StickKind::Left,
        GamepadAxisDirection::RightStickUp => stick == StickKind::Right,
        GamepadAxisDirection::RightStickDown => stick == StickKind::Right,
        GamepadAxisDirection::RightStickLeft => stick == StickKind::Right,
        GamepadAxisDirection::RightStickRight => stick == StickKind::Right,
    }
}

proof fn lemma_buttons_keep_sticks_pressed(
    before: Set<PadInput>,
    after: Set<PadInput>,
    sticks: Map<PadStick, StickState>,
)
    requires
        forall|input: PadInput|
            input.input is Axis ==> #[trigger] before.contains(input) == after.contains(input),
    ensures
        sticks_are_pressed(before, sticks) ==> sticks_are_pressed(after, sticks),
{
    if sticks_are_pressed(before, sticks) {
        assert forall|place: PadStick| #[trigger] sticks.contains_key(place) implies (
        sticks[place].active_direction matches Some(direction) ==> direction_belongs(
            place.stick,
            direction,
        ) && after.contains((PadInput { id: place.id, input: GamepadInput::Axis(direction) }))) by {
            if let Some(direction) = sticks[place].active_direction {
                assert(before.contains(
                    PadInput { id: place.id, input: GamepadInput::Axis(direction) },
                ));
            }
        }
    }
}

/// Turning a stick keeps the direction of every stick among the pressed inputs, so
/// that a gamepad that goes lets go of its sticks too.
pub proof fn lemma_turning_keeps_sticks_pressed(
    pressed: Set<PadInput>,
    sticks: Map<PadStick, StickState>,
    place: PadStick,
    lean: Lean,
)
    requires
        sticks_are_pressed(pressed, sticks),
    ensures
        ({
            let state = stick_state(sticks, place);
            let next = direction_of(place.stick, lean);
            sticks_are_pressed(
                turned(pressed, place.id, state.active_direction, next),
                sticks.insert(place, StickState { active_direction: next, ..state }),
            )
        }),
{
    let state = stick_state(sticks, place);
    let next = direction_of(place.stick, lean);
    let after = sticks.insert(place, StickState { active_direction: next, ..state });
    let inputs = turned(pressed, place.id, state.active_direction, next);
    assert forall|other: PadStick| #[trigger] after.contains_key(other) implies (
    after[other].active_direction matches Some(direction) ==> direction_belongs(
        other.stick,
        direction,
    ) && inputs.contains((PadInput { id: other.id, input: GamepadInput::Axis(direction) }))) by {
        if other != place {
            assert(sticks.contains_key(other));
            if sticks.contains_key(place) {
                assert(sticks[place] == state);
            }
        } else {
            if sticks.contains_key(place) {
                assert(sticks[place] == state);
            }
        }
    }
}

// ---------------------------------------------------------------------------
// What the sticks and the motor do

/// The direction points to the right, to the left, down or up.
pub open spec fn points(direction: GamepadAxisDirection, right: bool, sideways: bool, down: bool) -> bool {
    match direction {
        GamepadAxisDirection::LeftStickRight => sideways && right,
        GamepadAxisDirection::RightStickRight => sideways && right,
        GamepadAxisDirection::LeftStickLeft => sideways && !right,
        GamepadAxisDirection::RightStickLeft => sideways && !right,
        GamepadAxisDirection::LeftStickDown => !sideways && down,
        GamepadAxisDirection::RightStickDown => !sideways && down,
        GamepadAxisDirection::LeftStickUp => !sideways && !down,
        GamepadAxisDirection::RightStickUp => !sideways && !down,
    }
}

/// A stick that leans far enough presses the one direction of its own to which it leans;
/// one that does not presses none.
pub proof fn lemma_stick_presses_where_it_leans(stick: StickKind, lean: Lean)
    ensures
        direction_of(stick, lean) is Some <==> lean.far,
        direction_of(stick, lean) matches Some(direction) ==> direction_belongs(stick, direction)
            && points(direction, lean.right, lean.sideways, lean.down),
{
}

/// When a stick turns, the direction that it leaves goes up before the one that it comes
/// to goes down, each once; then the new direction is pressed and the old one is not.
/// A stick that stays sends nothing.
pub proof fn lemma_turning_changes_the_direction(
    pressed: Set<PadInput>,
    id: u32,
    previous: Option<GamepadAxisDirection>,
    next: Option<GamepadAxisDirection>,
    other: PadInput,
)
    ensures
        ({
            let events = turn_events(id, previous, next);
            let after = turned(pressed, id, previous, next);
            &&& previous == next ==> events.len() == 0 && after == pressed
            &&& previous != next && previous is Some ==> {
                let left = GamepadInput::Axis(previous->0);
                &&& events.first() == (GamepadCallbackEvent::Keyup { id, input: left })
                &&& !after.contains((PadInput { id, input: left }))
            }
            &&& previous != next && next is Some ==> {
                let come = GamepadInput::Axis(next->0);
                &&& events.last() == (GamepadCallbackEvent::Keydown { id, input: come })
                &&& after.contains((PadInput { id, input: come }))
            }
            &&& previous != next ==> events.len() == (if previous is Some {
                1int
            } else {
                0
            }) + (if next is Some {
                1int
            } else {
                0
            })
            &&& other.id != id || other.input is Button ==> after.contains(other)
                == pressed.contains(other)
        }),
{
}

/// A report of one axis changes that number of the stick and nothing else.
pub proof fn lemma_axes_are_kept_apart(state: StickState, value: u32)
    ensures
        with_axis(state, StickAxisComponent::X, value).x == value,
        with_axis(state, StickAxisComponent::X, value).y == state.y,
        with_axis(state, StickAxisComponent::Y, value).y == value,
        with_axis(state, StickAxisComponent::Y, value).x == state.x,
        with_axis(state, StickAxisComponent::X, value).active_direction == state.active_direction,
        with_axis(state, StickAxisComponent::Y, value).active_direction == state.active_direction,
{
}

/// Four axes belong to sticks, each to another place; all others to none.
pub proof fn lemma_axes_have_their_sticks(one: Axis, other: Axis)
    ensures
        stick_of(one) is None <==> one == Axis::Other,
        one != other ==> stick_of(one) != stick_of(other),
        stick_of(Axis::LeftStickX) == Some((StickKind::Left, StickAxisComponent::X)),
        stick_of(Axis::RightStickY) == Some((StickKind::Right, StickAxisComponent::Y)),
        stick_of(Axis::LeftStickY) matches Some((stick, _)) && stick == StickKind::Left,
{
}

/// A vibration is as strong as its intensity in percent says: none at 0, all that the
/// motor has at 100, and in between at less than one step below the exact share.
pub proof fn lemma_vibration_has_its_strength(intensity: u8)
    requires
        intensity <= 100,
    ensures
        0 <= magnitude_of(intensity) <= 65535,
        100 * magnitude_of(intensity) <= 65535 * intensity < 100 * magnitude_of(intensity) + 100,
        magnitude_of(0) == 0,
        magnitude_of(100) == 65535,
{
}

/// A stick that counts goes on counting where it would not begin to.
pub proof fn lemma_leaning_stick_holds_on(direction: GamepadAxisDirection)
    ensures
        threshold_for(Some(direction)) < threshold_for(None),
        10 * threshold_for(Some(direction)) == 30,
        2 * threshold_for(None) == 10,
{
}

/// A stick of which nothing is known rests in the middle and points nowhere; one that was
/// reported is as it was reported.
pub proof fn lemma_unknown_stick_rests(sticks: Map<PadStick, StickState>, stick: PadStick)
    ensures
        !sticks.contains_key(stick) ==> {
            let state = stick_state(sticks, stick);
            &&& state.x == 0
            &&& state.y == 0
            &&& state.active_direction is None
        },
        sticks.contains_key(stick) ==> stick_state(sticks, stick) == sticks[stick],
{
}

} // verus!
