//! The key bindings of the desktop program, and the file they are kept in.

use vstd::prelude::*;

use crate::keys::{
    format_backend_key_code, format_gamepad_input, format_winit_key_code, parse_backend_key_code,
    parse_gamepad_input, parse_winit_key_code, Button, GamepadAxisDirection, GamepadInput, KeyCode,
    WinitKeyCode,
};
use crate::text::{chars_of, find_in, same_text, text_of, trim_span};

verus! {

use crate::keys::{
    gamepad_input_name,
    lemma_gamepad_names_differ,
    lemma_phone_names_differ,
    lemma_winit_names_differ,
    names_phone_key,
    phone_key_name,
    winit_key_name,
};
use crate::text::{find_char, trimmed};

/// What a key binding starts from.
pub trait InputKey: Copy {
    fn same(self, other: Self) -> (r: bool)
        ensures
            r == (self == other),
    ;
}

impl InputKey for WinitKeyCode {
    fn same(self, other: WinitKeyCode) -> (r: bool) {
        self == other
    }
}

impl InputKey for GamepadInput {
    fn same(self, other: GamepadInput) -> (r: bool) {
        self == other
    }
}

/// What a list of bindings comes to: a later one replaces an earlier one.
pub open spec fn bindings_of<K>(entries: Seq<(K, KeyCode)>) -> Map<K, KeyCode>
    decreases entries.len(),
{
    if entries.len() == 0 {
        Map::empty()
    } else {
        bindings_of(entries.drop_last()).insert(entries.last().0, entries.last().1)
    }
}

/// The bindings with those of `defaults` whose input has none.
pub open spec fn completed<K>(
    bindings: Map<K, KeyCode>,
    defaults: Seq<(K, KeyCode)>,
) -> Map<K, KeyCode>
    decreases defaults.len(),
{
    if defaults.len() == 0 {
        bindings
    } else {
        let before = completed(bindings, defaults.drop_last());
        let (input, key) = defaults.last();
        if before.contains_key(input) {
            before
        } else {
            before.insert(input, key)
        }
    }
}

/// Which phone key each input is bound to.
pub struct Bindings<K: InputKey> {
    entries: Vec<(K, KeyCode)>,
}

impl<K: InputKey> View for Bindings<K> {
    type V = Map<K, KeyCode>;

    closed spec fn view(&self) -> Map<K, KeyCode> {
        bindings_of(self.entries@)
    }
}

impl<K: InputKey> Bindings<K> {
    pub fn new() -> (r: Self)
        ensures
            r@ == Map::<K, KeyCode>::empty(),
    {
        Bindings { entries: Vec::new() }
    }

    /// Binds `input`, in place of what it was bound to.
    pub fn insert(&mut self, input: K, key: KeyCode)
        ensures
            final(self)@ == old(self)@.insert(input, key),
    {
        self.entries.push((input, key));
        assert(self.entries@.drop_last() =~= old(self).entries@);
    }

    /// The phone key that `input` is bound to.
    pub fn get(&self, input: K) -> (r: Option<KeyCode>)
        ensures
            r == if self@.contains_key(input) {
                Some(self@[input])
            } else {
                None
            },
    {
        let mut index: usize = self.entries.len();
        assert(self.entries@.take(index as int) =~= self.entries@);
        while index > 0
            invariant
                index <= self.entries@.len(),
                bindings_of(self.entries@.take(index as int)).contains_key(input)
                    == self@.contains_key(input),
                self@.contains_key(input) ==> bindings_of(
                    self.entries@.take(index as int),
                )[input] == self@[input],
            decreases index,
        {
            assert(self.entries@.take(index as int).drop_last() =~= self.entries@.take(index - 1));
            index -= 1;
            if self.entries[index].0.same(input) {
                return Some(self.entries[index].1);
            }
        }
        None
    }

    /// Adds those of `defaults` whose input is not bound yet.
    pub fn complete(&mut self, defaults: &[(K, KeyCode)])
        ensures
            final(self)@ == completed(old(self)@, defaults@),
    {
        let ghost before = self@;
        let mut index: usize = 0;
        assert(defaults@.take(0) =~= Seq::<(K, KeyCode)>::empty());
        while index < defaults.len()
            invariant
                index <= defaults@.len(),
                self@ == completed(before, defaults@.take(index as int)),
            decreases defaults@.len() - index,
        {
            assert(defaults@.take(index + 1).drop_last() =~= defaults@.take(index as int));
            let (input, key) = defaults[index];
            if self.get(input).is_none() {
                self.insert(input, key);
            }
            index += 1;
        }
        assert(defaults@.take(defaults@.len() as int) =~= defaults@);
    }
}

/// The bindings of the keyboard until they are changed.
pub const DEFAULT_KEYBOARD_MAP: [(WinitKeyCode, KeyCode); 24] = [
    (WinitKeyCode::Digit1, KeyCode::NUM1),
    (WinitKeyCode::Digit2, KeyCode::NUM2),
    (WinitKeyCode::Digit3, KeyCode::NUM3),
    (WinitKeyCode::KeyQ, KeyCode::NUM4),
    (WinitKeyCode::KeyW, KeyCode::NUM5),
    (WinitKeyCode::KeyE, KeyCode::NUM6),
    (WinitKeyCode::KeyA, KeyCode::NUM7),
    (WinitKeyCode::KeyS, KeyCode::NUM8),
    (WinitKeyCode::KeyD, KeyCode::NUM9),
    (WinitKeyCode::KeyZ, KeyCode::STAR),
    (WinitKeyCode::KeyX, KeyCode::NUM0),
    (WinitKeyCode::KeyC, KeyCode::HASH),
    (WinitKeyCode::Space, KeyCode::OK),
    (WinitKeyCode::ArrowUp, KeyCode::UP),
    (WinitKeyCode::ArrowDown, KeyCode::DOWN),
    (WinitKeyCode::ArrowLeft, KeyCode::LEFT),
    (WinitKeyCode::ArrowRight, KeyCode::RIGHT),
    (WinitKeyCode::Backspace, KeyCode::CLEAR),
    (WinitKeyCode::ShiftLeft, KeyCode::LEFT_SOFT_KEY),
    (WinitKeyCode::ShiftRight, KeyCode::RIGHT_SOFT_KEY),
    (WinitKeyCode::Backquote, KeyCode::VOLUME_UP),
    (WinitKeyCode::Tab, KeyCode::VOLUME_DOWN),
    (WinitKeyCode::F1, KeyCode::CALL),
    (WinitKeyCode::F2, KeyCode::HANGUP),
];

/// The bindings of the gamepad's buttons until they are changed.
pub const DEFAULT_GAMEPAD_BUTTON_MAP: [(Button, KeyCode); 13] = [
    (Button::South, KeyCode::OK),
    (Button::East, KeyCode::CLEAR),
    (Button::West, KeyCode::NUM7),
    (Button::North, KeyCode::NUM9),
    (Button::DPadUp, KeyCode::NUM2),
    (Button::DPadDown, KeyCode::NUM8),
    (Button::DPadLeft, KeyCode::NUM4),
    (Button::DPadRight, KeyCode::NUM6),
    (Button::LeftTrigger, KeyCode::STAR),
    (Button::RightTrigger, KeyCode::HASH),
    (Button::LeftTrigger2, KeyCode::NUM1),
    (Button::RightTrigger2, KeyCode::NUM3),
    (Button::Start, KeyCode::NUM0),
];

/// The bindings of the gamepad's left stick until they are changed.
pub const DEFAULT_GAMEPAD_AXIS_MAP: [(GamepadAxisDirection, KeyCode); 4] = [
    (GamepadAxisDirection::LeftStickUp, KeyCode::DOWN),
    (GamepadAxisDirection::LeftStickDown, KeyCode::UP),
    (GamepadAxisDirection::LeftStickLeft, KeyCode::LEFT),
    (GamepadAxisDirection::LeftStickRight, KeyCode::RIGHT),
];

/// The bindings of the gamepad until they are changed: its buttons, then its
/// stick.
pub open spec fn gamepad_defaults() -> Seq<(GamepadInput, KeyCode)> {
    Seq::new(
        17,
        |i: int|
            if i < 13 {
                (
                    GamepadInput::Button(DEFAULT_GAMEPAD_BUTTON_MAP@[i].0),
                    DEFAULT_GAMEPAD_BUTTON_MAP@[i].1,
                )
            } else {
                (
                    GamepadInput::Axis(DEFAULT_GAMEPAD_AXIS_MAP@[i - 13].0),
                    DEFAULT_GAMEPAD_AXIS_MAP@[i - 13].1,
                )
            },
    )
}

/// The bindings of the gamepad until they are changed.
pub fn default_gamepad_map() -> (r: Vec<(GamepadInput, KeyCode)>)
    ensures
        r@ == gamepad_defaults(),
{
    let mut map: Vec<(GamepadInput, KeyCode)> = Vec::new();
    let mut index: usize = 0;
    while index < 13
        invariant
            index <= 13,
            map@ == gamepad_defaults().take(index as int),
        decreases 13 - index,
    {
        let (button, key) = DEFAULT_GAMEPAD_BUTTON_MAP[index];
        map.push((GamepadInput::Button(button), key));
        index += 1;
        assert(map@ =~= gamepad_defaults().take(index as int));
    }
    let mut index: usize = 0;
    while index < 4
        invariant
            index <= 4,
            map@ == gamepad_defaults().take(13 + index),
        decreases 4 - index,
    {
        let (axis, key) = DEFAULT_GAMEPAD_AXIS_MAP[index];
        map.push((GamepadInput::Axis(axis), key));
        index += 1;
        assert(map@ =~= gamepad_defaults().take(13 + index));
    }
    assert(map@ =~= gamepad_defaults());
    map
}

/// The names of the phone keys, as the file lists them for its reader.
pub const AVAILABLE_PHONE_KEY_NAMES: &'static str =
    "UP DOWN LEFT RIGHT OK LEFT_SOFT_KEY RIGHT_SOFT_KEY CLEAR CALL HANGUP VOLUME_UP VOLUME_DOWN NUM0 NUM1 NUM2 NUM3 NUM4 NUM5 NUM6 NUM7 NUM8 NUM9 HASH STAR";

// ---------------------------------------------------------------------------
// Reading

/// The part of the file that is being read.
#[derive(Clone, Copy, Debug, PartialEq, Eq, Structural)]
pub enum Section {
    Outside,
    Keyboard,
    Gamepad,
}

/// What has been read so far.
#[verifier::ext_equal]
pub struct ReaderModel {
    pub section: Section,
    pub keyboard: Map<WinitKeyCode, KeyCode>,
    pub gamepad: Map<GamepadInput, KeyCode>,
}

/// The keyboard key that has this name.
pub open spec fn keyboard_key(name: Seq<char>) -> Option<WinitKeyCode> {
    if exists|k: WinitKeyCode|
        k != WinitKeyCode::Unsupported && #[trigger] winit_key_name(k) == name {
        Some(
            choose|k: WinitKeyCode|
                k != WinitKeyCode::Unsupported && #[trigger] winit_key_name(k) == name,
        )
    } else {
        None
    }
}

/// The gamepad input that has this name.
pub open spec fn gamepad_input(name: Seq<char>) -> Option<GamepadInput> {
    if exists|k: GamepadInput|
        k != GamepadInput::Button(Button::Unknown) && #[trigger] gamepad_input_name(k) == name {
        Some(
            choose|k: GamepadInput|
                k != GamepadInput::Button(Button::Unknown) && #[trigger] gamepad_input_name(k)
                    == name,
        )
    } else {
        None
    }
}

/// The phone key that this text names.
pub open spec fn phone_key(name: Seq<char>) -> Option<KeyCode> {
    if exists|k: KeyCode| #[trigger] names_phone_key(k, name) {
        Some(choose|k: KeyCode| #[trigger] names_phone_key(k, name))
    } else {
        None
    }
}

impl ReaderModel {
    /// One line read, the white space around it dropped. A line that is empty or a
    /// comment, has no `=`, stands in no section or names something unknown is
    /// ignored.
    pub open spec fn read(self, line: Seq<char>) -> ReaderModel {
        if line.len() == 0 || line[0] == '#' || line[0] == ';' {
            self
        } else if line == "[keyboard]"@ {
            ReaderModel { section: Section::Keyboard, ..self }
        } else if line == "[gamepad]"@ {
            ReaderModel { section: Section::Gamepad, ..self }
        } else {
            let middle = find_char(line, '=', 0);
            if middle == line.len() {
                self
            } else {
                let source = trimmed(line.take(middle));
                let target = trimmed(line.skip(middle + 1));
                match (self.section, phone_key(target)) {
                    (Section::Keyboard, Some(key)) => match keyboard_key(source) {
                        Some(input) => ReaderModel {
                            keyboard: self.keyboard.insert(input, key),
                            ..self
                        },
                        None => self,
                    },
                    (Section::Gamepad, Some(key)) => match gamepad_input(source) {
                        Some(input) => ReaderModel {
                            gamepad: self.gamepad.insert(input, key),
                            ..self
                        },
                        None => self,
                    },
                    _ => self,
                }
            }
        }
    }

    /// All lines of `text` from `from` on read.
    pub open spec fn read_from(self, text: Seq<char>, from: int) -> ReaderModel
        decreases text.len() - from,
    {
        if from < 0 || from >= text.len() {
            self
        } else {
            let length = find_char(text.skip(from), '\n', 0);
            let line = text.subrange(from, from + length);
            if length < 0 || from + length >= text.len() {
                self.read(trimmed(line))
            } else {
                self.read(trimmed(line)).read_from(text, from + length + 1)
            }
        }
    }
}

/// What a file is read from.
pub open spec fn unread() -> ReaderModel {
    ReaderModel { section: Section::Outside, keyboard: Map::empty(), gamepad: Map::empty() }
}

struct Reader {
    section: Section,
    keyboard: Bindings<WinitKeyCode>,
    gamepad: Bindings<GamepadInput>,
}

impl View for Reader {
    type V = ReaderModel;

    closed spec fn view(&self) -> ReaderModel {
        ReaderModel {
            section: self.section,
            keyboard: self.keyboard@,
            gamepad: self.gamepad@,
        }
    }
}

fn keyboard_key_of(name: &str) -> (r: Option<WinitKeyCode>)
    ensures
        r == keyboard_key(name@),
{
    let r = parse_winit_key_code(name);
    proof {
        if let Some(k) = r {
            let chosen = choose|c: WinitKeyCode|
                c != WinitKeyCode::Unsupported && #[trigger] winit_key_name(c) == name@;
            assert(winit_key_name(chosen) == name@);
            lemma_winit_names_differ(k, chosen);
        }
    }
    r
}

fn gamepad_input_of(name: &str) -> (r: Option<GamepadInput>)
    ensures
        r == gamepad_input(name@),
{
    let r = parse_gamepad_input(name);
    proof {
        if let Some(k) = r {
            let chosen = choose|c: GamepadInput|
                c != GamepadInput::Button(Button::Unknown) && #[trigger] gamepad_input_name(c)
                    == name@;
            assert(gamepad_input_name(chosen) == name@);
            lemma_gamepad_names_differ(k, chosen);
        }
    }
    r
}

fn phone_key_of(name: &str) -> (r: Option<KeyCode>)
    ensures
        r == phone_key(name@),
{
    let r = parse_backend_key_code(name);
    proof {
        if let Some(k) = r {
            let chosen = choose|c: KeyCode| #[trigger] names_phone_key(c, name@);
            assert(names_phone_key(chosen, name@));
            lemma_phone_names_differ(k, chosen, name@);
        }
    }
    r
}

impl Reader {
    /// Reads the line `chars[from..to]`, which has no white space around it.
    fn read(&mut self, chars: &[char], from: usize, to: usize)
        requires
            from <= to <= chars@.len(),
        ensures
            final(self)@ == old(self)@.read(chars@.subrange(from as int, to as int)),
    {
        let ghost line = chars@.subrange(from as int, to as int);
        if from == to || chars[from] == '#' || chars[from] == ';' {
            return;
        }
        let text = text_of(chars, from, to);
        if same_text(text.as_str(), "[keyboard]") {
            self.section = Section::Keyboard;
            return;
        }
        if same_text(text.as_str(), "[gamepad]") {
            self.section = Section::Gamepad;
            return;
        }
        let middle = find_in(chars, '=', from, to);
        if middle == to {
            return;
        }
        let (source_from, source_to) = trim_span(chars, from, middle);
        let (target_from, target_to) = trim_span(chars, middle + 1, to);
        proof {
            assert(line.take(middle - from) =~= chars@.subrange(from as int, middle as int));
            assert(line.skip(middle - from + 1) =~= chars@.subrange(middle + 1, to as int));
        }
        let source = text_of(chars, source_from, source_to);
        let target = text_of(chars, target_from, target_to);
        match self.section {
            Section::Keyboard => {
                if let (Some(input), Some(key)) = (
                    keyboard_key_of(source.as_str()),
                    phone_key_of(target.as_str()),
                ) {
                    self.keyboard.insert(input, key);
                }
            },
            Section::Gamepad => {
                if let (Some(input), Some(key)) = (
                    gamepad_input_of(source.as_str()),
                    phone_key_of(target.as_str()),
                ) {
                    self.gamepad.insert(input, key);
                }
            },
            Section::Outside => {},
        }
    }
}

/// Key bindings.
pub struct Config {
    keyboard: Bindings<WinitKeyCode>,
    gamepad: Bindings<GamepadInput>,
}

impl Config {
    pub closed spec fn keyboard(&self) -> Map<WinitKeyCode, KeyCode> {
        self.keyboard@
    }

    pub closed spec fn gamepad(&self) -> Map<GamepadInput, KeyCode> {
        self.gamepad@
    }

    /// The bindings that a file makes. What it does not bind is bound as by default.
    pub fn parse(content: &str) -> (r: Self)
        ensures
            r.keyboard() == completed(
                unread().read_from(content@, 0).keyboard,
                DEFAULT_KEYBOARD_MAP@,
            ),
            r.gamepad() == completed(
                unread().read_from(content@, 0).gamepad,
                gamepad_defaults(),
            ),
    {
        let chars = chars_of(content);
        let ghost text = content@;
        let count = chars.len();
        let mut reader = Reader {
            section: Section::Outside,
            keyboard: Bindings::new(),
            gamepad: Bindings::new(),
        };
        let mut from: usize = 0;
        while from < count
            invariant
                chars@ == text,
                count == text.len(),
                from <= count,
                reader@.read_from(text, from as int) == unread().read_from(text, 0),
            decreases count - from,
        {
            let end = find_in(chars.as_slice(), '\n', from, count);
            assert(text.skip(from as int) =~= text.subrange(from as int, count as int));
            let (start, stop) = trim_span(chars.as_slice(), from, end);
            let ghost before = reader@;
            reader.read(chars.as_slice(), start, stop);
            assert(before.read_from(text, from as int) == if end >= count {
                reader@
            } else {
                reader@.read_from(text, end + 1)
            });
            if end < count {
                from = end + 1;
            } else {
                from = count;
            }
        }
        let Reader { section: _, keyboard, gamepad } = reader;
        let mut keyboard = keyboard;
        let mut gamepad = gamepad;
        keyboard.complete(&DEFAULT_KEYBOARD_MAP);
        gamepad.complete(default_gamepad_map().as_slice());
        Config { keyboard, gamepad }
    }

    /// The bindings of the file with this content. Where there is no file, the
    /// default bindings, and the text of the file to write.
    pub fn load(content: Option<&str>) -> (r: (Self, Option<String>))
        ensures
            match content {
                Some(content) => {
                    &&& r.1 is None
                    &&& r.0.keyboard() == completed(
                        unread().read_from(content@, 0).keyboard,
                        DEFAULT_KEYBOARD_MAP@,
                    )
                    &&& r.0.gamepad() == completed(
                        unread().read_from(content@, 0).gamepad,
                        gamepad_defaults(),
                    )
                },
                None => {
                    &&& r.1 matches Some(text)
                    &&& text@ == default_text()
                    &&& r.0.keyboard() == bindings_of(DEFAULT_KEYBOARD_MAP@)
                    &&& r.0.gamepad() == bindings_of(gamepad_defaults())
                },
            },
    {
        match content {
            Some(content) => (Config::parse(content), None),
            None => {
                let config = Config::default();
                let text = to_cfg_string();
                (config, Some(text))
            },
        }
    }

    pub fn keyboard_map(&self) -> (r: &Bindings<WinitKeyCode>)
        ensures
            r@ == self.keyboard(),
    {
        &self.keyboard
    }

    pub fn gamepad_map(&self) -> (r: &Bindings<GamepadInput>)
        ensures
            r@ == self.gamepad(),
    {
        &self.gamepad
    }
}

impl Default for Config {
    fn default() -> (r: Self)
        ensures
            r.keyboard() == bindings_of(DEFAULT_KEYBOARD_MAP@),
            r.gamepad() == bindings_of(gamepad_defaults()),
    {
        let keyboard = all_bindings(&DEFAULT_KEYBOARD_MAP);
        let gamepad = all_bindings(default_gamepad_map().as_slice());
        Config { keyboard, gamepad }
    }
}

fn all_bindings<K: InputKey>(entries: &[(K, KeyCode)]) -> (r: Bindings<K>)
    ensures
        r@ == bindings_of(entries@),
{
    let mut bindings: Bindings<K> = Bindings::new();
    let mut index: usize = 0;
    assert(entries@.take(0) =~= Seq::<(K, KeyCode)>::empty());
    while index < entries.len()
        invariant
            index <= entries@.len(),
            bindings@ == bindings_of(entries@.take(index as int)),
        decreases entries@.len() - index,
    {
        assert(entries@.take(index + 1).drop_last() =~= entries@.take(index as int));
        let (input, key) = entries[index];
        bindings.insert(input, key);
        index += 1;
    }
    assert(entries@.take(entries@.len() as int) =~= entries@);
    bindings
}

// ---------------------------------------------------------------------------
// Writing

/// The comment at the top of a file.
pub open spec fn header_text() -> Seq<char> {
    "# Available mobile key names:"@ + "\n"@ + ("# "@ + AVAILABLE_PHONE_KEY_NAMES@) + "\n"@
        + "# Keyboard values use Winit physical key names."@ + "\n"@
        + "# Gamepad values use GilRs button names plus axis directions."@ + "\n"@
        + "# Axis names: LeftStickUp LeftStickDown LeftStickLeft LeftStickRight RightStickUp RightStickDown RightStickLeft RightStickRight"@
        + "\n"@ + "\n"@
}

/// A line that binds an input to a key.
pub open spec fn binding_line(input: Seq<char>, key: KeyCode) -> Seq<char> {
    input + " = "@ + phone_key_name(key) + "\n"@
}

/// The lines of the first `n` keyboard bindings.
pub open spec fn keyboard_lines(n: int) -> Seq<char>
    decreases n,
{
    if n <= 0 {
        Seq::empty()
    } else {
        let (input, key) = DEFAULT_KEYBOARD_MAP@[n - 1];
        keyboard_lines(n - 1) + binding_line(winit_key_name(input), key)
    }
}

/// The lines of the first `n` gamepad bindings.
pub open spec fn gamepad_lines(n: int) -> Seq<char>
    decreases n,
{
    if n <= 0 {
        Seq::empty()
    } else {
        let (input, key) = gamepad_defaults()[n - 1];
        gamepad_lines(n - 1) + binding_line(gamepad_input_name(input), key)
    }
}

/// The text of a file with the default bindings.
pub open spec fn default_text() -> Seq<char> {
    header_text() + "[keyboard]"@ + "\n"@ + keyboard_lines(24) + "\n"@ + "[gamepad]"@ + "\n"@
        + gamepad_lines(17)
}

/// The comment at the top of a file.
pub fn config_header() -> (r: String)
    ensures
        r@ == header_text(),
{
    let mut output = "# Available mobile key names:".to_owned();
    output.append("\n");
    output.append("# ");
    output.append(AVAILABLE_PHONE_KEY_NAMES);
    output.append("\n");
    output.append("# Keyboard values use Winit physical key names.");
    output.append("\n");
    output.append("# Gamepad values use GilRs button names plus axis directions.");
    output.append("\n");
    output.append(
        "# Axis names: LeftStickUp LeftStickDown LeftStickLeft LeftStickRight RightStickUp RightStickDown RightStickLeft RightStickRight",
    );
    output.append("\n");
    output.append("\n");
    assert(output@ =~= header_text());
    output
}

fn append_binding(output: &mut String, input: &str, key: KeyCode)
    ensures
        final(output)@ == old(output)@ + binding_line(input@, key),
{
    output.append(input);
    output.append(" = ");
    output.append(format_backend_key_code(key));
    output.append("\n");
    assert(output@ =~= old(output)@ + binding_line(input@, key));
}

/// The text of a file with the default bindings.
pub fn to_cfg_string() -> (r: String)
    ensures
        r@ == default_text(),
{
    let mut output = config_header();
    output.append("[keyboard]");
    output.append("\n");
    let ghost before = output@;
    let mut index: usize = 0;
    while index < 24
        invariant
            index <= 24,
            output@ == before + keyboard_lines(index as int),
        decreases 24 - index,
    {
        let (input, key) = DEFAULT_KEYBOARD_MAP[index];
        append_binding(&mut output, format_winit_key_code(input), key);
        index += 1;
        assert(output@ =~= before + keyboard_lines(index as int));
    }
    output.append("\n");
    output.append("[gamepad]");
    output.append("\n");
    let ghost middle = output@;
    let gamepad = default_gamepad_map();
    let mut index: usize = 0;
    while index < 17
        invariant
            index <= 17,
            gamepad@ == gamepad_defaults(),
            output@ == middle + gamepad_lines(index as int),
        decreases 17 - index,
    {
        let (input, key) = gamepad[index];
        append_binding(&mut output, format_gamepad_input(input), key);
        index += 1;
        assert(output@ =~= middle + gamepad_lines(index as int));
    }
    output
}

// ---------------------------------------------------------------------------
// What the defaults are for

/// A file can change a default binding: what it binds stays bound as it says.
pub proof fn lemma_file_wins<K>(
    bindings: Map<K, KeyCode>,
    defaults: Seq<(K, KeyCode)>,
    input: K,
)
    requires
        bindings.contains_key(input),
    ensures
        completed(bindings, defaults).contains_key(input),
        completed(bindings, defaults)[input] == bindings[input],
    decreases defaults.len(),
{
    if defaults.len() > 0 {
        lemma_file_wins(bindings, defaults.drop_last(), input);
    }
}

/// Every input of the defaults is bound in the end.
pub proof fn lemma_defaults_are_bound<K>(
    bindings: Map<K, KeyCode>,
    defaults: Seq<(K, KeyCode)>,
    i: int,
)
    requires
        0 <= i < defaults.len(),
    ensures
        completed(bindings, defaults).contains_key(defaults[i].0),
    decreases defaults.len(),
{
    if i < defaults.len() - 1 {
        lemma_defaults_are_bound(bindings, defaults.drop_last(), i);
        assert(defaults.drop_last()[i] == defaults[i]);
    }
}

} // verus!
