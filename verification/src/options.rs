//! The options that a frontend keeps for the core, and what the core reads from
//! them.

use vstd::prelude::*;

use crate::text::{holds_char, parse_number, same_text};

verus! {

use crate::text::{decimal, lemma_decimal_reads_back, lemma_numbers_are_plain, number_of};

/// Which runtime runs the content.
#[derive(Clone, Copy, Debug, PartialEq, Eq, Structural)]
pub enum RuntimeOption {
    Auto,
    Ktf,
    Lgt,
    Skt,
    J2me,
}

/// The characters of a text that may be missing.
pub open spec fn optional(text: Option<String>) -> Option<Seq<char>> {
    match text {
        Some(text) => Some(text@),
        None => None,
    }
}

/// What a frontend has chosen.
pub struct CoreOptions {
    pub width: u32,
    pub height: u32,
    pub runtime: RuntimeOption,
    pub midi_enabled: bool,
    pub midi_volume: u8,
    pub sound_font_path: Option<String>,
}

/// What `CoreOptions` holds.
pub struct OptionsModel {
    pub width: u32,
    pub height: u32,
    pub runtime: RuntimeOption,
    pub midi_enabled: bool,
    pub midi_volume: u8,
    pub sound_font_path: Option<Seq<char>>,
}

impl View for CoreOptions {
    type V = OptionsModel;

    open spec fn view(&self) -> OptionsModel {
        OptionsModel {
            width: self.width,
            height: self.height,
            runtime: self.runtime,
            midi_enabled: self.midi_enabled,
            midi_volume: self.midi_volume,
            sound_font_path: optional(self.sound_font_path),
        }
    }
}

/// The options of a frontend that chooses nothing.
pub open spec fn default_options() -> OptionsModel {
    OptionsModel {
        width: 240,
        height: 320,
        runtime: RuntimeOption::Auto,
        midi_enabled: true,
        midi_volume: 5,
        sound_font_path: None,
    }
}

impl Default for CoreOptions {
    fn default() -> (r: Self)
        ensures
            r@ == default_options(),
    {
        CoreOptions {
            width: 240,
            height: 320,
            runtime: RuntimeOption::Auto,
            midi_enabled: true,
            midi_volume: 5,
            sound_font_path: None,
        }
    }
}

/// The values that a frontend keeps for the core's variables. A variable that it
/// does not know has none.
pub struct CoreVariables {
    pub resolution: Option<String>,
    pub runtime: Option<String>,
    pub midi: Option<String>,
    pub midi_volume: Option<String>,
    pub midi_soundfont: Option<String>,
}

/// The screen size that a value of `wie_resolution` names.
pub open spec fn resolution_of(value: Option<Seq<char>>) -> (u32, u32) {
    if value == Some("128x128"@) {
        (128, 128)
    } else if value == Some("128x160"@) {
        (128, 160)
    } else if value == Some("176x208"@) {
        (176, 208)
    } else {
        (240, 320)
    }
}

/// The runtime that a value of `wie_runtime` names.
pub open spec fn runtime_of(value: Option<Seq<char>>) -> RuntimeOption {
    if value == Some("ktf"@) {
        RuntimeOption::Ktf
    } else if value == Some("lgt"@) {
        RuntimeOption::Lgt
    } else if value == Some("skt"@) {
        RuntimeOption::Skt
    } else if value == Some("j2me"@) {
        RuntimeOption::J2me
    } else {
        RuntimeOption::Auto
    }
}

/// The volume that a value of `wie_midi_volume` names: a number up to 10, or 5.
pub open spec fn volume_of(value: Option<Seq<char>>) -> u8 {
    match value {
        Some(text) => match number_of(text, 10) {
            Some(volume) => volume as u8,
            None => 5,
        },
        None => 5,
    }
}

/// The file name that a value of `wie_midi_soundfont` asks for. A name that could
/// lead out of the directory asks for none.
pub open spec fn sound_font_of(value: Option<Seq<char>>) -> Option<Seq<char>> {
    match value {
        Some(name) => if name == "builtin"@ || name.contains('/') || name.contains('\\')
            || name.contains('\0') {
            None
        } else {
            Some(name)
        },
        None => None,
    }
}

/// What the core reads from a frontend's variables, given the path of the
/// requested sound font file where there is such a file.
pub open spec fn options_of(
    variables: CoreVariables,
    sound_font_file: Option<Seq<char>>,
) -> OptionsModel {
    OptionsModel {
        width: resolution_of(optional(variables.resolution)).0,
        height: resolution_of(optional(variables.resolution)).1,
        runtime: runtime_of(optional(variables.runtime)),
        midi_enabled: optional(variables.midi) != Some("off"@),
        midi_volume: volume_of(optional(variables.midi_volume)),
        sound_font_path: if sound_font_of(optional(variables.midi_soundfont)) is Some {
            sound_font_file
        } else {
            None
        },
    }
}

fn is_value(value: &Option<String>, text: &str) -> (r: bool)
    ensures
        r == (optional(*value) == Some(text@)),
{
    match value {
        Some(value) => same_text(value.as_str(), text),
        None => false,
    }
}

/// The file, in the directory of sound fonts, that the variables ask for.
pub fn requested_sound_font(variables: &CoreVariables) -> (r: Option<String>)
    ensures
        optional(r) == sound_font_of(optional(variables.midi_soundfont)),
{
    match &variables.midi_soundfont {
        Some(name) => {
            if same_text(name.as_str(), "builtin") || holds_char(name.as_str(), '/')
                || holds_char(name.as_str(), '\\') || holds_char(name.as_str(), '\0') {
                None
            } else {
                Some(name.as_str().to_owned())
            }
        },
        None => None,
    }
}

/// Reads the options from a frontend's variables. Without a frontend they are the
/// default ones. `sound_font_file` is the path of the file that
/// `requested_sound_font` names, where there is such a file.
pub fn read_core_options(
    variables: Option<&CoreVariables>,
    sound_font_file: Option<String>,
) -> (r: CoreOptions)
    ensures
        r@ == match variables {
            Some(variables) => options_of(*variables, optional(sound_font_file)),
            None => default_options(),
        },
{
    let mut options = CoreOptions::default();
    let Some(variables) = variables else {
        return options;
    };
    if is_value(&variables.resolution, "128x128") {
        options.width = 128;
        options.height = 128;
    } else if is_value(&variables.resolution, "128x160") {
        options.width = 128;
        options.height = 160;
    } else if is_value(&variables.resolution, "176x208") {
        options.width = 176;
        options.height = 208;
    }
    options.runtime = if is_value(&variables.runtime, "ktf") {
        RuntimeOption::Ktf
    } else if is_value(&variables.runtime, "lgt") {
        RuntimeOption::Lgt
    } else if is_value(&variables.runtime, "skt") {
        RuntimeOption::Skt
    } else if is_value(&variables.runtime, "j2me") {
        RuntimeOption::J2me
    } else {
        RuntimeOption::Auto
    };
    options.midi_enabled = !is_value(&variables.midi, "off");
    if let Some(value) = &variables.midi_volume {
        if let Some(volume) = parse_number(value.as_str(), 10) {
            options.midi_volume = volume as u8;
        }
    }
    if requested_sound_font(variables).is_some() {
        options.sound_font_path = sound_font_file;
    }
    options
}

/// Whether the frontend has new values: it must say so and be asked with success.
pub fn core_options_updated(reply: Option<bool>) -> (r: bool)
    ensures
        r == (reply == Some(true)),
{
    match reply {
        Some(updated) => updated,
        None => false,
    }
}

/// The volume never exceeds what the synthesizer takes, and the screen is one of
/// those on offer.
pub proof fn lemma_options_in_range(variables: CoreVariables, sound_font_file: Option<Seq<char>>)
    ensures
        options_of(variables, sound_font_file).midi_volume <= 10,
        options_of(variables, sound_font_file).width >= 128,
        options_of(variables, sound_font_file).height >= 128,
        options_of(variables, sound_font_file).width <= 240,
        options_of(variables, sound_font_file).height <= 320,
{
}

/// No value of `wie_midi_soundfont` leads out of the directory of sound fonts.
pub proof fn lemma_sound_font_stays(value: Option<Seq<char>>)
    ensures
        sound_font_of(value) matches Some(name) ==> !name.contains('/') && !name.contains('\\')
            && !name.contains('\0'),
{
}

/// Every option goes by its own variable, and one that is missing is as if nothing was
/// chosen.
pub proof fn lemma_options_go_by_their_variables(
    one: CoreVariables,
    other: CoreVariables,
    file: Option<Seq<char>>,
)
    ensures
        optional(one.resolution) == optional(other.resolution) ==> options_of(one, file).width
            == options_of(other, file).width && options_of(one, file).height == options_of(
            other,
            file,
        ).height,
        optional(one.runtime) == optional(other.runtime) ==> options_of(one, file).runtime
            == options_of(other, file).runtime,
        optional(one.midi) == optional(other.midi) ==> options_of(one, file).midi_enabled
            == options_of(other, file).midi_enabled,
        optional(one.midi_volume) == optional(other.midi_volume) ==> options_of(
            one,
            file,
        ).midi_volume == options_of(other, file).midi_volume,
        one.resolution is None ==> options_of(one, file).width == default_options().width
            && options_of(one, file).height == default_options().height,
        one.runtime is None ==> options_of(one, file).runtime == default_options().runtime,
        one.midi is None ==> options_of(one, file).midi_enabled,
        default_options().midi_enabled,
        one.midi_volume is None ==> options_of(one, file).midi_volume
            == default_options().midi_volume,
        one.midi_soundfont is None ==> options_of(one, file).sound_font_path is None,
        default_options().sound_font_path is None,
        optional(one.midi) == Some("off"@) ==> !options_of(one, file).midi_enabled,
        optional(one.midi) == Some("on"@) ==> options_of(one, file).midi_enabled,
{
    reveal_strlit("on");
    reveal_strlit("off");
    assert("on"@.len() != "off"@.len());
}

/// A plain name asks for the file of that name, and the built-in font for none.
pub proof fn lemma_plain_name_asks_for_its_file(name: Seq<char>, variables: CoreVariables, file: Seq<char>)
    ensures
        name != "builtin"@ && !name.contains('/') && !name.contains('\\') && !name.contains('\0')
            ==> sound_font_of(Some(name)) == Some(name),
        sound_font_of(Some("builtin"@)) is None,
        sound_font_of(optional(variables.midi_soundfont)) is Some ==> options_of(
            variables,
            Some(file),
        ).sound_font_path == Some(file),
        sound_font_of(optional(variables.midi_soundfont)) is None ==> options_of(
            variables,
            Some(file),
        ).sound_font_path is None,
{
}

/// A volume is read as the number that it is the text of; anything else is as loud as
/// when nothing is chosen.
pub proof fn lemma_volume_is_its_number(volume: nat)
    ensures
        volume <= 10 ==> volume_of(Some(decimal(volume))) == volume,
        volume > 10 ==> volume_of(Some(decimal(volume))) == volume_of(None),
        volume_of(Some(Seq::empty())) == volume_of(None),
{
    lemma_decimal_reads_back(volume);
    lemma_numbers_are_plain(decimal(volume), 10, 0);
    if volume > 10 {
        assert(number_of(decimal(volume), volume) == Some(volume));
    }
}

} // verus!
