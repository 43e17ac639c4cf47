//! What the core tells a frontend about its options: their names, descriptions and
//! values, in the frontend's language, through the newest interface it has.

use vstd::prelude::*;

use crate::text::{
    chars_of, find_behind_last, holds_char, lower_chars, not_after, same_text, text_of,
};

verus! {

use crate::options::{default_options, resolution_of, runtime_of, sound_font_of, volume_of, RuntimeOption};
use crate::text::{behind_last, digits_value, lemma_behind_last, lemma_text_order, lowered, text_le};

// ---------------------------------------------------------------------------
// Languages

/// The languages that the options are described in.
#[derive(Clone, Copy, Debug, PartialEq, Eq, Structural)]
pub enum Locale {
    English,
    ZhHans,
    ZhHant,
}

pub const RETRO_LANGUAGE_CHINESE_TRADITIONAL: u32 = 11;

pub const RETRO_LANGUAGE_CHINESE_SIMPLIFIED: u32 = 12;

/// The language for what a frontend answers when it is asked for its own.
pub open spec fn locale_of(language: Option<u32>) -> Locale {
    match language {
        Some(language) => if language == RETRO_LANGUAGE_CHINESE_SIMPLIFIED {
            Locale::ZhHans
        } else if language == RETRO_LANGUAGE_CHINESE_TRADITIONAL {
            Locale::ZhHant
        } else {
            Locale::English
        },
        None => Locale::English,
    }
}

/// The language for what a frontend answers when it is asked for its own.
pub fn frontend_locale(language: Option<u32>) -> (r: Locale)
    ensures
        r == locale_of(language),
{
    match language {
        Some(language) => {
            if language == RETRO_LANGUAGE_CHINESE_SIMPLIFIED {
                Locale::ZhHans
            } else if language == RETRO_LANGUAGE_CHINESE_TRADITIONAL {
                Locale::ZhHant
            } else {
                Locale::English
            }
        },
        None => Locale::English,
    }
}

/// The one of three texts that is in the language `locale`.
pub open spec fn localized(
    locale: Locale,
    en: Seq<char>,
    zh_hans: Seq<char>,
    zh_hant: Seq<char>,
) -> Seq<char> {
    match locale {
        Locale::English => en,
        Locale::ZhHans => zh_hans,
        Locale::ZhHant => zh_hant,
    }
}

/// The one of three texts that is in the language `locale`.
pub fn text(
    locale: Locale,
    en: &'static str,
    zh_hans: &'static str,
    zh_hant: &'static str,
) -> (r: &'static str)
    ensures
        r@ == localized(locale, en@, zh_hans@, zh_hant@),
{
    match locale {
        Locale::English => en,
        Locale::ZhHans => zh_hans,
        Locale::ZhHant => zh_hant,
    }
}

// ---------------------------------------------------------------------------
// Values

/// How many values the interface has room for. The last place stays empty.
pub const RETRO_NUM_CORE_OPTION_VALUES_MAX: usize = 128;

/// A value of an option, and how it is shown where that is not the value itself.
pub struct CoreOptionValue {
    pub value: String,
    pub label: Option<&'static str>,
}

/// What `CoreOptionValue` holds.
pub struct ValueModel {
    pub value: Seq<char>,
    pub label: Option<Seq<char>>,
}

impl View for CoreOptionValue {
    type V = ValueModel;

    open spec fn view(&self) -> ValueModel {
        ValueModel {
            value: self.value@,
            label: match self.label {
                Some(label) => Some(label@),
                None => None,
            },
        }
    }
}

/// A value that is shown as it is.
pub open spec fn unlabelled(value: Seq<char>) -> ValueModel {
    ValueModel { value, label: None }
}

/// A value that is shown as `label`.
pub open spec fn labelled(value: Seq<char>, label: Seq<char>) -> ValueModel {
    ValueModel { value, label: Some(label) }
}

fn plain(value: &str) -> (r: CoreOptionValue)
    ensures
        r@ == unlabelled(value@),
{
    CoreOptionValue { value: value.to_owned(), label: None }
}

fn shown(value: &str, label: &'static str) -> (r: CoreOptionValue)
    ensures
        r@ == labelled(value@, label@),
{
    CoreOptionValue { value: value.to_owned(), label: Some(label) }
}

/// What a list of values holds.
pub open spec fn value_models(values: Seq<CoreOptionValue>) -> Seq<ValueModel> {
    values.map_values(|value: CoreOptionValue| value@)
}

/// What a list of texts holds.
pub open spec fn texts(list: Seq<String>) -> Seq<Seq<char>> {
    list.map_values(|text: String| text@)
}

pub open spec fn resolution_values() -> Seq<ValueModel> {
    seq![
        unlabelled("240x320"@),
        unlabelled("176x208"@),
        unlabelled("128x160"@),
        unlabelled("128x128"@),
    ]
}

fn list_resolution_values() -> (r: Vec<CoreOptionValue>)
    ensures
        value_models(r@) == resolution_values(),
{
    let values = vec![
        plain("240x320"),
        plain("176x208"),
        plain("128x160"),
        plain("128x128"),
    ];
    assert(value_models(values@) =~= resolution_values());
    values
}

pub open spec fn runtime_values(locale: Locale) -> Seq<ValueModel> {
    seq![
        labelled("auto"@, localized(locale, "Auto"@, "自动"@, "自動"@)),
        unlabelled("ktf"@),
        unlabelled("lgt"@),
        unlabelled("skt"@),
        unlabelled("j2me"@),
    ]
}

fn list_runtime_values(locale: Locale) -> (r: Vec<CoreOptionValue>)
    ensures
        value_models(r@) == runtime_values(locale),
{
    let values = vec![
        shown("auto", text(locale, "Auto", "自动", "自動")),
        plain("ktf"),
        plain("lgt"),
        plain("skt"),
        plain("j2me"),
    ];
    assert(value_models(values@) =~= runtime_values(locale));
    values
}

pub open spec fn on_off_values(locale: Locale) -> Seq<ValueModel> {
    seq![
        labelled("on"@, localized(locale, "On"@, "开启"@, "開啟"@)),
        labelled("off"@, localized(locale, "Off"@, "关闭"@, "關閉"@)),
    ]
}

fn list_on_off_values(locale: Locale) -> (r: Vec<CoreOptionValue>)
    ensures
        value_models(r@) == on_off_values(locale),
{
    let values = vec![
        shown("on", text(locale, "On", "开启", "開啟")),
        shown("off", text(locale, "Off", "关闭", "關閉")),
    ];
    assert(value_models(values@) =~= on_off_values(locale));
    values
}

pub open spec fn volume_values() -> Seq<ValueModel> {
    seq![
        unlabelled("0"@),
        unlabelled("1"@),
        unlabelled("2"@),
        unlabelled("3"@),
        unlabelled("4"@),
        unlabelled("5"@),
        unlabelled("6"@),
        unlabelled("7"@),
        unlabelled("8"@),
        unlabelled("9"@),
        unlabelled("10"@),
    ]
}

fn list_volume_values() -> (r: Vec<CoreOptionValue>)
    ensures
        value_models(r@) == volume_values(),
{
    let values = vec![
        plain("0"),
        plain("1"),
        plain("2"),
        plain("3"),
        plain("4"),
        plain("5"),
        plain("6"),
        plain("7"),
        plain("8"),
        plain("9"),
        plain("10"),
    ];
    assert(value_models(values@) =~= volume_values());
    values
}

/// The values of `wie_midi_soundfont`: the built-in font and the files.
pub open spec fn sound_font_values(locale: Locale, sound_fonts: Seq<Seq<char>>) -> Seq<ValueModel> {
    seq![labelled("builtin"@, localized(locale, "Built-in"@, "内置"@, "內建"@))]
        + sound_fonts.map_values(|name: Seq<char>| unlabelled(name))
}

fn list_sound_font_values(locale: Locale, sound_fonts: &[String]) -> (r: Vec<CoreOptionValue>)
    ensures
        value_models(r@) == sound_font_values(locale, texts(sound_fonts@)),
{
    let ghost all = sound_font_values(locale, texts(sound_fonts@));
    let mut values = vec![shown("builtin", text(locale, "Built-in", "内置", "內建"))];
    assert(value_models(values@) =~= all.take(1));
    for index in 0..sound_fonts.len()
        invariant
            all == sound_font_values(locale, texts(sound_fonts@)),
            value_models(values@) == all.take(index + 1),
    {
        let ghost before = values@;
        values.push(plain(sound_fonts[index].as_str()));
        assert(values@.last()@ == all[index + 1]);
        assert(value_models(values@) =~= value_models(before).push(all[index + 1]));
        assert(value_models(values@) =~= all.take(index + 2));
    }
    assert(value_models(values@) =~= all);
    values
}

/// The places of the interface with the values in them, from the first on. The
/// last place is empty.
pub open spec fn slots(values: Seq<ValueModel>) -> Seq<Option<ValueModel>> {
    Seq::new(
        RETRO_NUM_CORE_OPTION_VALUES_MAX as nat,
        |i: int|
            if i < values.len() && i < RETRO_NUM_CORE_OPTION_VALUES_MAX - 1 {
                Some(values[i])
            } else {
                None
            },
    )
}

/// What a place of the interface holds.
pub open spec fn slot_model(slot: Option<CoreOptionValue>) -> Option<ValueModel> {
    match slot {
        Some(value) => Some(value@),
        None => None,
    }
}

/// What the places of the interface hold.
pub open spec fn slot_models(list: Seq<Option<CoreOptionValue>>) -> Seq<Option<ValueModel>> {
    list.map_values(|slot: Option<CoreOptionValue>| slot_model(slot))
}

/// Puts the values into the places of the interface.
pub fn into_array(values: Vec<CoreOptionValue>) -> (r: Vec<Option<CoreOptionValue>>)
    ensures
        slot_models(r@) == slots(value_models(values@)),
{
    let ghost all = value_models(values@);
    let mut places: Vec<Option<CoreOptionValue>> = Vec::new();
    for value in it: values
        invariant
            all == value_models(it.seq()),
            places@.len() == if it.index() < 127 { it.index() } else { 127 },
            forall|i: int| 0 <= i < places@.len() ==> slot_model(#[trigger] places@[i]) == Some(
                all[i],
            ),
    {
        if places.len() < RETRO_NUM_CORE_OPTION_VALUES_MAX - 1 {
            assert(value@ == all[it.index() as int]);
            places.push(Some(value));
        }
    }
    let ghost filled = places@.len();
    while places.len() < RETRO_NUM_CORE_OPTION_VALUES_MAX
        invariant
            filled <= places@.len() <= 128,
            filled == if all.len() < 127 { all.len() } else { 127 },
            forall|i: int| 0 <= i < filled ==> slot_model(#[trigger] places@[i]) == Some(all[i]),
            forall|i: int| filled <= i < places@.len() ==> #[trigger] places@[i] is None,
        decreases 128 - places@.len(),
    {
        places.push(None);
    }
    assert(slot_models(places@) =~= slots(all));
    places
}

// ---------------------------------------------------------------------------
// Descriptions

/// A group that options are shown in.
pub struct CoreOptionV2Category {
    pub key: &'static str,
    pub desc: &'static str,
    pub info: &'static str,
}

/// What `CoreOptionV2Category` holds.
pub struct CategoryModel {
    pub key: Seq<char>,
    pub desc: Seq<char>,
    pub info: Seq<char>,
}

impl View for CoreOptionV2Category {
    type V = CategoryModel;

    open spec fn view(&self) -> CategoryModel {
        CategoryModel { key: self.key@, desc: self.desc@, info: self.info@ }
    }
}

/// An option, as the second interface describes one.
pub struct CoreOptionV2Definition {
    pub key: &'static str,
    pub desc: &'static str,
    pub desc_categorized: &'static str,
    pub info: &'static str,
    pub category_key: &'static str,
    pub values: Vec<Option<CoreOptionValue>>,
    pub default_value: &'static str,
}

/// What `CoreOptionV2Definition` holds.
pub struct V2Model {
    pub key: Seq<char>,
    pub desc: Seq<char>,
    pub desc_categorized: Seq<char>,
    pub info: Seq<char>,
    pub category_key: Seq<char>,
    pub values: Seq<Option<ValueModel>>,
    pub default_value: Seq<char>,
}

impl View for CoreOptionV2Definition {
    type V = V2Model;

    open spec fn view(&self) -> V2Model {
        V2Model {
            key: self.key@,
            desc: self.desc@,
            desc_categorized: self.desc_categorized@,
            info: self.info@,
            category_key: self.category_key@,
            values: slot_models(self.values@),
            default_value: self.default_value@,
        }
    }
}

/// An option, as the first interface describes one.
pub struct CoreOptionDefinition {
    pub key: &'static str,
    pub desc: &'static str,
    pub info: &'static str,
    pub values: Vec<Option<CoreOptionValue>>,
    pub default_value: &'static str,
}

/// What `CoreOptionDefinition` holds.
pub struct V1Model {
    pub key: Seq<char>,
    pub desc: Seq<char>,
    pub info: Seq<char>,
    pub values: Seq<Option<ValueModel>>,
    pub default_value: Seq<char>,
}

impl View for CoreOptionDefinition {
    type V = V1Model;

    open spec fn view(&self) -> V1Model {
        V1Model {
            key: self.key@,
            desc: self.desc@,
            info: self.info@,
            values: slot_models(self.values@),
            default_value: self.default_value@,
        }
    }
}

pub open spec fn category_models(list: Seq<CoreOptionV2Category>) -> Seq<CategoryModel> {
    list.map_values(|category: CoreOptionV2Category| category@)
}

/// The groups of options.
pub open spec fn categories_of(locale: Locale) -> Seq<CategoryModel> {
    seq![
        CategoryModel {
            key: "video"@,
            desc: localized(locale, "Video"@, "视频"@, "影像"@),
            info: localized(locale, "Screen size."@, "屏幕尺寸。"@, "螢幕尺寸。"@),
        },
        CategoryModel {
            key: "audio"@,
            desc: localized(locale, "Audio"@, "音频"@, "音訊"@),
            info: localized(locale, "Music settings."@, "音乐设置。"@, "音樂設定。"@),
        },
        CategoryModel {
            key: "system"@,
            desc: localized(locale, "System"@, "系统"@, "系統"@),
            info: localized(locale, "Content runtime selection."@, "内容运行平台选择。"@, "內容執行平台選擇。"@),
        },
    ]
}

/// The groups of options.
pub fn v2_categories(locale: Locale) -> (r: Vec<CoreOptionV2Category>)
    ensures
        category_models(r@) == categories_of(locale),
{
    let categories = vec![
        CoreOptionV2Category {
            key: "video",
            desc: text(locale, "Video", "视频", "影像"),
            info: text(locale, "Screen size.", "屏幕尺寸。", "螢幕尺寸。"),
        },
        CoreOptionV2Category {
            key: "audio",
            desc: text(locale, "Audio", "音频", "音訊"),
            info: text(locale, "Music settings.", "音乐设置。", "音樂設定。"),
        },
        CoreOptionV2Category {
            key: "system",
            desc: text(locale, "System", "系统", "系統"),
            info: text(locale, "Content runtime selection.", "内容运行平台选择。", "內容執行平台選擇。"),
        },
    ];
    assert(category_models(categories@) =~= categories_of(locale));
    categories
}

pub open spec fn v2_models(list: Seq<CoreOptionV2Definition>) -> Seq<V2Model> {
    list.map_values(|definition: CoreOptionV2Definition| definition@)
}

/// The options as the second interface describes them.
pub open spec fn v2_of(locale: Locale, sound_fonts: Seq<Seq<char>>) -> Seq<V2Model> {
    seq![
        V2Model {
            key: "wie_resolution"@,
            desc: localized(locale, "Screen Resolution"@, "屏幕分辨率"@, "螢幕解析度"@),
            desc_categorized: localized(locale, "Resolution"@, "分辨率"@, "解析度"@),
            info: localized(locale, "Screen size exposed to the emulated app. Requires reload."@, "程式的屏幕尺寸。需重载核心。"@, "程式的螢幕尺寸。需重載核心。"@),
            category_key: "video"@,
            values: slots(resolution_values()),
            default_value: "240x320"@,
        },
        V2Model {
            key: "wie_runtime"@,
            desc: localized(locale, "Runtime"@, "运行平台"@, "執行平台"@),
            desc_categorized: localized(locale, "Runtime"@, "平台"@, "平台"@),
            info: localized(locale, "Force a platform runtime, or leave content detection automatic."@, "强制指定平台运行时，默认自动识别。"@, "強制指定平台執行環境，預設自動辨識。"@),
            category_key: "system"@,
            values: slots(runtime_values(locale)),
            default_value: "auto"@,
        },
        V2Model {
            key: "wie_midi"@,
            desc: localized(locale, "MIDI Music"@, "MIDI 音乐"@, "MIDI 音樂"@),
            desc_categorized: localized(locale, "MIDI"@, "MIDI"@, "MIDI"@),
            info: localized(locale, "Enable synthesized MIDI music."@, "启用软件合成的 MIDI 音乐。"@, "啟用軟體合成的 MIDI 音樂。"@),
            category_key: "audio"@,
            values: slots(on_off_values(locale)),
            default_value: "on"@,
        },
        V2Model {
            key: "wie_midi_soundfont"@,
            desc: localized(locale, "MIDI SoundFont"@, "MIDI 音色库"@, "MIDI 音色庫"@),
            desc_categorized: localized(locale, "SoundFont"@, "音色库"@, "音色庫"@),
            info: localized(locale, "SF2 file from system/wie/sf2. Requires reload."@, "来自 system/wie/sf2 的 SF2 文件。需重载核心。"@, "來自 system/wie/sf2 的 SF2 檔案。需重載核心。"@),
            category_key: "audio"@,
            values: slots(sound_font_values(locale, sound_fonts)),
            default_value: "builtin"@,
        },
        V2Model {
            key: "wie_midi_volume"@,
            desc: localized(locale, "MIDI Synth Volume"@, "MIDI 合成音量"@, "MIDI 合成音量"@),
            desc_categorized: localized(locale, "MIDI Volume"@, "MIDI 音量"@, "MIDI 音量"@),
            info: localized(locale, "MIDI synthesizer volume. Requires reload."@, "MIDI 合成器音量。需重载核心。"@, "MIDI 合成器音量。需重載核心。"@),
            category_key: "audio"@,
            values: slots(volume_values()),
            default_value: "5"@,
        },
    ]
}

/// The options as the second interface describes them.
pub fn v2_definitions(locale: Locale, sound_fonts: &[String]) -> (r: Vec<CoreOptionV2Definition>)
    ensures
        v2_models(r@) == v2_of(locale, texts(sound_fonts@)),
{
    let definitions = vec![
        CoreOptionV2Definition {
            key: "wie_resolution",
            desc: text(locale, "Screen Resolution", "屏幕分辨率", "螢幕解析度"),
            desc_categorized: text(locale, "Resolution", "分辨率", "解析度"),
            info: text(locale, "Screen size exposed to the emulated app. Requires reload.", "程式的屏幕尺寸。需重载核心。", "程式的螢幕尺寸。需重載核心。"),
            category_key: "video",
            values: into_array(list_resolution_values()),
            default_value: "240x320",
        },
        CoreOptionV2Definition {
            key: "wie_runtime",
            desc: text(locale, "Runtime", "运行平台", "執行平台"),
            desc_categorized: text(locale, "Runtime", "平台", "平台"),
            info: text(locale, "Force a platform runtime, or leave content detection automatic.", "强制指定平台运行时，默认自动识别。", "強制指定平台執行環境，預設自動辨識。"),
            category_key: "system",
            values: into_array(list_runtime_values(locale)),
            default_value: "auto",
        },
        CoreOptionV2Definition {
            key: "wie_midi",
            desc: text(locale, "MIDI Music", "MIDI 音乐", "MIDI 音樂"),
            desc_categorized: text(locale, "MIDI", "MIDI", "MIDI"),
            info: text(locale, "Enable synthesized MIDI music.", "启用软件合成的 MIDI 音乐。", "啟用軟體合成的 MIDI 音樂。"),
            category_key: "audio",
            values: into_array(list_on_off_values(locale)),
            default_value: "on",
        },
        CoreOptionV2Definition {
            key: "wie_midi_soundfont",
            desc: text(locale, "MIDI SoundFont", "MIDI 音色库", "MIDI 音色庫"),
            desc_categorized: text(locale, "SoundFont", "音色库", "音色庫"),
            info: text(locale, "SF2 file from system/wie/sf2. Requires reload.", "来自 system/wie/sf2 的 SF2 文件。需重载核心。", "來自 system/wie/sf2 的 SF2 檔案。需重載核心。"),
            category_key: "audio",
            values: into_array(list_sound_font_values(locale, sound_fonts)),
            default_value: "builtin",
        },
        CoreOptionV2Definition {
            key: "wie_midi_volume",
            desc: text(locale, "MIDI Synth Volume", "MIDI 合成音量", "MIDI 合成音量"),
            desc_categorized: text(locale, "MIDI Volume", "MIDI 音量", "MIDI 音量"),
            info: text(locale, "MIDI synthesizer volume. Requires reload.", "MIDI 合成器音量。需重载核心。", "MIDI 合成器音量。需重載核心。"),
            category_key: "audio",
            values: into_array(list_volume_values()),
            default_value: "5",
        },
    ];
    assert(v2_models(definitions@) =~= v2_of(locale, texts(sound_fonts@)));
    definitions
}

pub open spec fn v1_models(list: Seq<CoreOptionDefinition>) -> Seq<V1Model> {
    list.map_values(|definition: CoreOptionDefinition| definition@)
}

/// The options as the first interface describes them.
pub open spec fn v1_of(locale: Locale, sound_fonts: Seq<Seq<char>>) -> Seq<V1Model> {
    seq![
        V1Model {
            key: "wie_resolution"@,
            desc: localized(locale, "Screen Resolution"@, "屏幕分辨率"@, "螢幕解析度"@),
            info: localized(locale, "Screen size exposed to the emulated app. Requires reload."@, "程序的屏幕尺寸。需重载核心。"@, "程式的螢幕尺寸。需重載核心。"@),
            values: slots(resolution_values()),
            default_value: "240x320"@,
        },
        V1Model {
            key: "wie_runtime"@,
            desc: localized(locale, "Runtime"@, "运行平台"@, "執行平台"@),
            info: localized(locale, "Force a platform runtime, or leave content detection automatic."@, "强制指定平台运行时，默认自动识别。"@, "強制指定平台執行環境，預設自動辨識。"@),
            values: slots(runtime_values(locale)),
            default_value: "auto"@,
        },
        V1Model {
            key: "wie_midi"@,
            desc: localized(locale, "MIDI Music"@, "MIDI 音乐"@, "MIDI 音樂"@),
            info: localized(locale, "Enable synthesized MIDI music."@, "启用软件合成的 MIDI 音乐。"@, "啟用軟體合成的 MIDI 音樂。"@),
            values: slots(on_off_values(locale)),
            default_value: "on"@,
        },
        V1Model {
            key: "wie_midi_soundfont"@,
            desc: localized(locale, "MIDI SoundFont"@, "MIDI 音色库"@, "MIDI 音色庫"@),
            info: localized(locale, "SF2 file from system/wie/sf2. Requires reload."@, "来自 system/wie/sf2 的 SF2 文件。需重载核心。"@, "來自 system/wie/sf2 的 SF2 檔案。需重載核心。"@),
            values: slots(sound_font_values(locale, sound_fonts)),
            default_value: "builtin"@,
        },
        V1Model {
            key: "wie_midi_volume"@,
            desc: localized(locale, "MIDI Synth Volume"@, "MIDI 合成音量"@, "MIDI 合成音量"@),
            info: localized(locale, "MIDI synthesizer volume. Requires reload."@, "MIDI 合成器音量。需重载核心。"@, "MIDI 合成器音量。需重載核心。"@),
            values: slots(volume_values()),
            default_value: "5"@,
        },
    ]
}

/// The options as the first interface describes them.
pub fn v1_definitions(locale: Locale, sound_fonts: &[String]) -> (r: Vec<CoreOptionDefinition>)
    ensures
        v1_models(r@) == v1_of(locale, texts(sound_fonts@)),
{
    let definitions = vec![
        CoreOptionDefinition {
            key: "wie_resolution",
            desc: text(locale, "Screen Resolution", "屏幕分辨率", "螢幕解析度"),
            info: text(locale, "Screen size exposed to the emulated app. Requires reload.", "程序的屏幕尺寸。需重载核心。", "程式的螢幕尺寸。需重載核心。"),
            values: into_array(list_resolution_values()),
            default_value: "240x320",
        },
        CoreOptionDefinition {
            key: "wie_runtime",
            desc: text(locale, "Runtime", "运行平台", "執行平台"),
            info: text(locale, "Force a platform runtime, or leave content detection automatic.", "强制指定平台运行时，默认自动识别。", "強制指定平台執行環境，預設自動辨識。"),
            values: into_array(list_runtime_values(locale)),
            default_value: "auto",
        },
        CoreOptionDefinition {
            key: "wie_midi",
            desc: text(locale, "MIDI Music", "MIDI 音乐", "MIDI 音樂"),
            info: text(locale, "Enable synthesized MIDI music.", "启用软件合成的 MIDI 音乐。", "啟用軟體合成的 MIDI 音樂。"),
            values: into_array(list_on_off_values(locale)),
            default_value: "on",
        },
        CoreOptionDefinition {
            key: "wie_midi_soundfont",
            desc: text(locale, "MIDI SoundFont", "MIDI 音色库", "MIDI 音色庫"),
            info: text(locale, "SF2 file from system/wie/sf2. Requires reload.", "来自 system/wie/sf2 的 SF2 文件。需重载核心。", "來自 system/wie/sf2 的 SF2 檔案。需重載核心。"),
            values: into_array(list_sound_font_values(locale, sound_fonts)),
            default_value: "builtin",
        },
        CoreOptionDefinition {
            key: "wie_midi_volume",
            desc: text(locale, "MIDI Synth Volume", "MIDI 合成音量", "MIDI 合成音量"),
            info: text(locale, "MIDI synthesizer volume. Requires reload.", "MIDI 合成器音量。需重载核心。", "MIDI 合成器音量。需重載核心。"),
            values: into_array(list_volume_values()),
            default_value: "5",
        },
    ];
    assert(v1_models(definitions@) =~= v1_of(locale, texts(sound_fonts@)));
    definitions
}

// ---------------------------------------------------------------------------
// The oldest interface

/// A variable of the oldest interface: its name, and its description and values
/// in one text.
pub struct CoreVariable {
    pub key: &'static str,
    pub value: String,
}

/// What a list of variables holds.
pub open spec fn variable_models(list: Seq<CoreVariable>) -> Seq<(Seq<char>, Seq<char>)> {
    list.map_values(|variable: CoreVariable| (variable.key@, variable.value@))
}

/// `start` and the names, each behind a bar.
pub open spec fn barred(start: Seq<char>, names: Seq<Seq<char>>) -> Seq<char>
    decreases names.len(),
{
    if names.len() == 0 {
        start
    } else {
        barred(start, names.drop_last()).push('|') + names.last()
    }
}

/// The text of `wie_midi_soundfont` in the oldest interface.
pub open spec fn sound_font_variable(locale: Locale, sound_fonts: Seq<Seq<char>>) -> Seq<char> {
    barred(
        localized(
            locale,
            "MIDI SoundFont; builtin"@,
            "MIDI 音色库; builtin"@,
            "MIDI 音色庫; builtin"@,
        ),
        sound_fonts,
    )
}

/// The text of `wie_midi_soundfont` in the oldest interface.
pub fn legacy_sound_font_variable(locale: Locale, sound_fonts: &[String]) -> (r: String)
    ensures
        r@ == sound_font_variable(locale, texts(sound_fonts@)),
{
    let start = text(
        locale,
        "MIDI SoundFont; builtin",
        "MIDI 音色库; builtin",
        "MIDI 音色庫; builtin",
    );
    let ghost names = texts(sound_fonts@);
    let mut value = start.to_owned();
    assert(names.take(0) =~= Seq::<Seq<char>>::empty());
    for index in 0..sound_fonts.len()
        invariant
            names == texts(sound_fonts@),
            value@ == barred(start@, names.take(index as int)),
    {
        value.push('|');
        value.append(sound_fonts[index].as_str());
        assert(names.take(index + 1).drop_last() =~= names.take(index as int));
        assert(names.take(index + 1).last() == sound_fonts@[index as int]@);
    }
    assert(names.take(names.len() as int) =~= names);
    value
}

/// The variables of the oldest interface.
pub open spec fn variables_of(locale: Locale, sound_fonts: Seq<Seq<char>>) -> Seq<(Seq<char>, Seq<char>)> {
    seq![
        ("wie_resolution"@, localized(locale, "Screen Resolution; 240x320|176x208|128x160|128x128"@, "屏幕分辨率; 240x320|176x208|128x160|128x128"@, "螢幕解析度; 240x320|176x208|128x160|128x128"@)),
        ("wie_runtime"@, localized(locale, "Runtime; auto|ktf|lgt|skt|j2me"@, "运行平台; auto|ktf|lgt|skt|j2me"@, "執行平台; auto|ktf|lgt|skt|j2me"@)),
        ("wie_midi"@, localized(locale, "MIDI Music; on|off"@, "MIDI 音乐; on|off"@, "MIDI 音樂; on|off"@)),
        ("wie_midi_volume"@, localized(locale, "MIDI Synth Volume; 5|0|1|2|3|4|6|7|8|9|10"@, "MIDI 合成音量; 5|0|1|2|3|4|6|7|8|9|10"@, "MIDI 合成音量; 5|0|1|2|3|4|6|7|8|9|10"@)),
        ("wie_midi_soundfont"@, sound_font_variable(locale, sound_fonts)),
    ]
}

/// The variables of the oldest interface.
pub fn legacy_variables(locale: Locale, sound_fonts: &[String]) -> (r: Vec<CoreVariable>)
    ensures
        variable_models(r@) == variables_of(locale, texts(sound_fonts@)),
{
    let variables = vec![
        CoreVariable { key: "wie_resolution", value: text(locale, "Screen Resolution; 240x320|176x208|128x160|128x128", "屏幕分辨率; 240x320|176x208|128x160|128x128", "螢幕解析度; 240x320|176x208|128x160|128x128").to_owned() },
        CoreVariable { key: "wie_runtime", value: text(locale, "Runtime; auto|ktf|lgt|skt|j2me", "运行平台; auto|ktf|lgt|skt|j2me", "執行平台; auto|ktf|lgt|skt|j2me").to_owned() },
        CoreVariable { key: "wie_midi", value: text(locale, "MIDI Music; on|off", "MIDI 音乐; on|off", "MIDI 音樂; on|off").to_owned() },
        CoreVariable { key: "wie_midi_volume", value: text(locale, "MIDI Synth Volume; 5|0|1|2|3|4|6|7|8|9|10", "MIDI 合成音量; 5|0|1|2|3|4|6|7|8|9|10", "MIDI 合成音量; 5|0|1|2|3|4|6|7|8|9|10").to_owned() },
        CoreVariable {
            key: "wie_midi_soundfont",
            value: legacy_sound_font_variable(locale, sound_fonts),
        },
    ];
    assert(variable_models(variables@) =~= variables_of(locale, texts(sound_fonts@)));
    variables
}

// ---------------------------------------------------------------------------
// Registration

/// All that the second interface takes.
pub struct CoreOptionsV2 {
    pub categories: Vec<CoreOptionV2Category>,
    pub definitions: Vec<CoreOptionV2Definition>,
}

/// What `CoreOptionsV2` holds.
pub struct CoreOptionsV2Model {
    pub categories: Seq<CategoryModel>,
    pub definitions: Seq<V2Model>,
}

impl View for CoreOptionsV2 {
    type V = CoreOptionsV2Model;

    open spec fn view(&self) -> CoreOptionsV2Model {
        CoreOptionsV2Model {
            categories: category_models(self.categories@),
            definitions: v2_models(self.definitions@),
        }
    }
}

pub open spec fn core_options_v2_of(
    locale: Locale,
    sound_fonts: Seq<Seq<char>>,
) -> CoreOptionsV2Model {
    CoreOptionsV2Model {
        categories: categories_of(locale),
        definitions: v2_of(locale, sound_fonts),
    }
}

/// All that the second interface takes, in one language.
pub fn core_options_v2(locale: Locale, sound_fonts: &[String]) -> (r: CoreOptionsV2)
    ensures
        r@ == core_options_v2_of(locale, texts(sound_fonts@)),
{
    CoreOptionsV2 {
        categories: v2_categories(locale),
        definitions: v2_definitions(locale, sound_fonts),
    }
}

/// A way to tell a frontend about the options.
pub enum OptionCall {
    V2Intl { us: CoreOptionsV2, local: CoreOptionsV2 },
    V2 { us: CoreOptionsV2 },
    V1Intl { definitions: Vec<CoreOptionDefinition>, local_definitions: Vec<CoreOptionDefinition> },
    V1 { definitions: Vec<CoreOptionDefinition> },
    Variables { list: Vec<CoreVariable> },
}

/// What an `OptionCall` holds.
pub enum CallModel {
    V2Intl { us: CoreOptionsV2Model, local: CoreOptionsV2Model },
    V2 { us: CoreOptionsV2Model },
    V1Intl { definitions: Seq<V1Model>, local_definitions: Seq<V1Model> },
    V1 { definitions: Seq<V1Model> },
    Variables { list: Seq<(Seq<char>, Seq<char>)> },
}

impl View for OptionCall {
    type V = CallModel;

    open spec fn view(&self) -> CallModel {
        match *self {
            OptionCall::V2Intl { us, local } => CallModel::V2Intl { us: us@, local: local@ },
            OptionCall::V2 { us } => CallModel::V2 { us: us@ },
            OptionCall::V1Intl { definitions, local_definitions } => CallModel::V1Intl {
                definitions: v1_models(definitions@),
                local_definitions: v1_models(local_definitions@),
            },
            OptionCall::V1 { definitions } => CallModel::V1 {
                definitions: v1_models(definitions@),
            },
            OptionCall::Variables { list } => CallModel::Variables { list: variable_models(list@) },
        }
    }
}

/// What a list of calls holds.
pub open spec fn call_models(list: Seq<OptionCall>) -> Seq<CallModel> {
    list.map_values(|call: OptionCall| call@)
}

/// The ways to try, in turn, until the frontend takes one. `version` is the newest
/// interface that the frontend has, where it answers that question.
pub open spec fn calls_of(
    version: Option<u32>,
    locale: Locale,
    sound_fonts: Seq<Seq<char>>,
) -> Seq<CallModel> {
    if version matches Some(version) && version >= 2 {
        let us = core_options_v2_of(Locale::English, sound_fonts);
        let last = CallModel::V2 { us };
        if locale == Locale::English {
            seq![last]
        } else {
            seq![CallModel::V2Intl { us, local: core_options_v2_of(locale, sound_fonts) }, last]
        }
    } else if version == Some(1u32) {
        let definitions = v1_of(Locale::English, sound_fonts);
        let last = CallModel::V1 { definitions };
        if locale == Locale::English {
            seq![last]
        } else {
            seq![
                CallModel::V1Intl { definitions, local_definitions: v1_of(locale, sound_fonts) },
                last,
            ]
        }
    } else {
        seq![CallModel::Variables { list: variables_of(locale, sound_fonts) }]
    }
}

/// The ways to tell the frontend about the options, to be tried in turn until it
/// takes one. `version` is the newest interface that the frontend has, where it
/// answers that question.
pub fn register_core_options(
    version: Option<u32>,
    locale: Locale,
    sound_fonts: &[String],
) -> (r: Vec<OptionCall>)
    ensures
        call_models(r@) == calls_of(version, locale, texts(sound_fonts@)),
{
    let version = match version {
        Some(version) => version,
        None => 0,
    };
    let mut calls: Vec<OptionCall> = Vec::new();
    if version >= 2 {
        if locale != Locale::English {
            let us = core_options_v2(Locale::English, sound_fonts);
            let local = core_options_v2(locale, sound_fonts);
            calls.push(OptionCall::V2Intl { us, local });
        }
        calls.push(OptionCall::V2 { us: core_options_v2(Locale::English, sound_fonts) });
    } else if version >= 1 {
        if locale != Locale::English {
            let definitions = v1_definitions(Locale::English, sound_fonts);
            let local_definitions = v1_definitions(locale, sound_fonts);
            calls.push(OptionCall::V1Intl { definitions, local_definitions });
        }
        calls.push(OptionCall::V1 { definitions: v1_definitions(Locale::English, sound_fonts) });
    } else {
        calls.push(OptionCall::Variables { list: legacy_variables(locale, sound_fonts) });
    }
    calls
}

/// How the frontend may run faster than real time. The ratio is a whole number.
#[derive(Clone, Copy, Debug, PartialEq, Eq, Structural)]
pub struct FastforwardingOverride {
    pub ratio: i32,
    pub fastforward: bool,
    pub notification: bool,
    pub inhibit_toggle: bool,
}

/// Keeps the frontend at real time, which the guest's clock follows.
pub fn disable_fastforward() -> (r: FastforwardingOverride)
    ensures
        r.ratio == -1,
        !r.fastforward,
        !r.notification,
        r.inhibit_toggle,
{
    FastforwardingOverride {
        ratio: -1,
        fastforward: false,
        notification: false,
        inhibit_toggle: true,
    }
}

// ---------------------------------------------------------------------------
// The sound font files

/// What is behind the last dot of a file name, where something is before it.
pub open spec fn extension(name: Seq<char>) -> Option<Seq<char>> {
    if behind_last(name, '.') <= 1 {
        None
    } else {
        Some(name.skip(behind_last(name, '.')))
    }
}

/// The file name ends in `.sf2`, in any case.
pub open spec fn is_sf2(name: Seq<char>) -> bool {
    extension(name) matches Some(extension) && lowered(extension) == "sf2"@
}

/// Whether a file of this name is a sound font.
pub fn is_sf2_path(name: &str) -> (r: bool)
    ensures
        r == is_sf2(name@),
{
    let chars = chars_of(name);
    let from = find_behind_last(chars.as_slice(), '.');
    if from <= 1 {
        return false;
    }
    let end = text_of(chars.as_slice(), from, chars.len());
    assert(end@ =~= name@.skip(from as int));
    let lowers = lower_chars(end.as_str());
    let lower = text_of(lowers.as_slice(), 0, lowers.len());
    assert(lower@ =~= lowered(end@));
    same_text(lower.as_str(), "sf2")
}

/// An entry of a directory.
pub struct DirectoryEntry {
    pub name: String,
    pub is_file: bool,
}

/// The entry is a sound font file that can be offered.
pub open spec fn offered(name: Seq<char>, is_file: bool) -> bool {
    is_file && is_sf2(name) && !name.contains('\0')
}

/// The names of the entries that are sound font files.
pub open spec fn offered_names(entries: Seq<DirectoryEntry>) -> Seq<Seq<char>>
    decreases entries.len(),
{
    if entries.len() == 0 {
        Seq::empty()
    } else {
        let before = offered_names(entries.drop_last());
        let entry = entries.last();
        if offered(entry.name@, entry.is_file) {
            before.push(entry.name@)
        } else {
            before
        }
    }
}

/// `a` is listed before `b`, or neither before the other: upper and lower case
/// count alike.
pub open spec fn listed_before(a: Seq<char>, b: Seq<char>) -> bool {
    text_le(lowered(a), lowered(b))
}

/// A sorted list with `name` behind all that are not listed after it.
pub open spec fn insert_name(sorted: Seq<Seq<char>>, name: Seq<char>) -> Seq<Seq<char>>
    decreases sorted.len(),
{
    if sorted.len() == 0 || listed_before(sorted.last(), name) {
        sorted.push(name)
    } else {
        insert_name(sorted.drop_last(), name).push(sorted.last())
    }
}

/// The names in the order of the list; those that differ in case alone keep their
/// order.
pub open spec fn sorted_names(names: Seq<Seq<char>>) -> Seq<Seq<char>>
    decreases names.len(),
{
    if names.len() == 0 {
        Seq::empty()
    } else {
        insert_name(sorted_names(names.drop_last()), names.last())
    }
}

/// How many sound font files are offered at most.
pub const SOUND_FONTS_MAX: usize = 126;

/// The first names of a list, as many as are offered.
pub open spec fn truncated(names: Seq<Seq<char>>) -> Seq<Seq<char>> {
    if names.len() <= SOUND_FONTS_MAX {
        names
    } else {
        names.take(SOUND_FONTS_MAX as int)
    }
}

proof fn lemma_insert_name_at(sorted: Seq<Seq<char>>, name: Seq<char>, at: int)
    requires
        0 <= at <= sorted.len(),
        forall|i: int| at <= i < sorted.len() ==> !listed_before(#[trigger] sorted[i], name),
        at > 0 ==> listed_before(sorted[at - 1], name),
    ensures
        insert_name(sorted, name) == sorted.insert(at, name),
    decreases sorted.len(),
{
    if at == sorted.len() {
        assert(sorted.insert(at, name) =~= sorted.push(name));
    } else {
        lemma_insert_name_at(sorted.drop_last(), name, at);
        assert(sorted.insert(at, name) =~= sorted.drop_last().insert(at, name).push(
            sorted.last(),
        ));
    }
}

fn is_listed_before(a: &str, b: &str) -> (r: bool)
    ensures
        r == listed_before(a@, b@),
{
    let left = lower_chars(a);
    let right = lower_chars(b);
    not_after(left.as_slice(), right.as_slice())
}

/// The sound font files of a directory, as many as an option can offer, in the
/// order of their names.
pub fn sound_font_options(entries: Vec<DirectoryEntry>) -> (r: Vec<String>)
    ensures
        texts(r@) == truncated(sorted_names(offered_names(entries@))),
{
    let ghost all = entries@;
    let mut sorted: Vec<String> = Vec::new();
    assert(texts(sorted@) =~= sorted_names(offered_names(all.take(0))));
    for entry in it: entries
        invariant
            all == it.seq(),
            texts(sorted@) == sorted_names(offered_names(all.take(it.index() as int))),
    {
        let ghost next = all.take(it.index() + 1);
        assert(next.drop_last() =~= all.take(it.index() as int));
        assert(next.last() == entry);
        if entry.is_file && is_sf2_path(entry.name.as_str()) && !holds_char(
            entry.name.as_str(),
            '\0',
        ) {
            let name = entry.name;
            let mut at: usize = sorted.len();
            while at > 0 && !is_listed_before(sorted[at - 1].as_str(), name.as_str())
                invariant
                    at <= sorted@.len(),
                    forall|i: int|
                        at <= i < sorted@.len() ==> !listed_before((#[trigger] sorted@[i])@, name@),
                decreases at,
            {
                at -= 1;
            }
            proof {
                let before = texts(sorted@);
                assert forall|i: int| at <= i < before.len() implies !listed_before(
                    #[trigger] before[i],
                    name@,
                ) by {
                    assert(!listed_before(sorted@[i]@, name@));
                }
                lemma_insert_name_at(before, name@, at as int);
                assert(texts(sorted@.insert(at as int, name)) =~= before.insert(at as int, name@));
                let names = offered_names(next);
                assert(names.drop_last() =~= offered_names(all.take(it.index() as int)));
            }
            sorted.insert(at, name);
        }
    }
    assert(all.take(all.len() as int) =~= all);
    if sorted.len() > SOUND_FONTS_MAX {
        let ghost names = texts(sorted@);
        sorted.truncate(SOUND_FONTS_MAX);
        assert(texts(sorted@) =~= names.take(SOUND_FONTS_MAX as int));
    }
    sorted
}

// ---------------------------------------------------------------------------
// What holds of the lists

/// The names stand in the order of the list.
pub open spec fn in_order(names: Seq<Seq<char>>) -> bool {
    forall|i: int, j: int|
        0 <= i <= j < names.len() ==> listed_before(#[trigger] names[i], #[trigger] names[j])
}

proof fn lemma_listed(a: Seq<char>, b: Seq<char>, c: Seq<char>)
    ensures
        listed_before(a, a),
        listed_before(a, b) || listed_before(b, a),
        listed_before(a, b) && listed_before(b, c) ==> listed_before(a, c),
{
    lemma_text_order(lowered(a), lowered(a), lowered(a));
    lemma_text_order(lowered(a), lowered(b), lowered(c));
}

proof fn lemma_insert_name(sorted: Seq<Seq<char>>, name: Seq<char>)
    requires
        in_order(sorted),
    ensures
        in_order(insert_name(sorted, name)),
        insert_name(sorted, name).len() == sorted.len() + 1,
        insert_name(sorted, name).to_multiset() == sorted.to_multiset().insert(name),
    decreases sorted.len(),
{
    broadcast use vstd::seq_lib::group_to_multiset_ensures;

    let r = insert_name(sorted, name);
    if sorted.len() == 0 || listed_before(sorted.last(), name) {
        assert forall|i: int, j: int| 0 <= i <= j < r.len() implies listed_before(
            #[trigger] r[i],
            #[trigger] r[j],
        ) by {
            if i == sorted.len() {
                lemma_listed(name, name, name);
            } else if j == sorted.len() {
                assert(listed_before(sorted[i], sorted[sorted.len() - 1]));
                lemma_listed(sorted[i], sorted.last(), name);
            }
        }
    } else {
        let init = sorted.drop_last();
        let last = sorted.last();
        assert(in_order(init)) by {
            assert forall|i: int, j: int| 0 <= i <= j < init.len() implies listed_before(
                #[trigger] init[i],
                #[trigger] init[j],
            ) by {
                assert(listed_before(sorted[i], sorted[j]));
            }
        }
        lemma_insert_name(init, name);
        lemma_listed(last, name, name);
        lemma_listed(last, last, last);
        let inner = insert_name(init, name);
        assert(sorted =~= init.push(last));
        assert(r.to_multiset() =~= sorted.to_multiset().insert(name));
        assert forall|i: int, j: int| 0 <= i <= j < r.len() implies listed_before(
            #[trigger] r[i],
            #[trigger] r[j],
        ) by {
            if j < inner.len() {
                assert(listed_before(inner[i], inner[j]));
            } else if i < inner.len() {
                assert(inner.to_multiset().contains(inner[i]));
                assert(inner[i] == name || init.contains(inner[i]));
                if inner[i] != name {
                    let k = choose|k: int| 0 <= k < init.len() && init[k] == inner[i];
                    assert(listed_before(sorted[k], sorted[sorted.len() - 1]));
                }
            }
        }
    }
}

proof fn lemma_sorted_names(names: Seq<Seq<char>>)
    ensures
        in_order(sorted_names(names)),
        sorted_names(names).len() == names.len(),
        sorted_names(names).to_multiset() == names.to_multiset(),
    decreases names.len(),
{
    broadcast use vstd::seq_lib::group_to_multiset_ensures;

    if names.len() > 0 {
        lemma_sorted_names(names.drop_last());
        lemma_insert_name(sorted_names(names.drop_last()), names.last());
        assert(names =~= names.drop_last().push(names.last()));
    } else {
        assert(names =~= Seq::empty());
    }
}

proof fn lemma_offered_names(entries: Seq<DirectoryEntry>)
    ensures
        forall|i: int|
            0 <= i < offered_names(entries).len() ==> offered(
                #[trigger] offered_names(entries)[i],
                true,
            ),
    decreases entries.len(),
{
    if entries.len() > 0 {
        let before = offered_names(entries.drop_last());
        let names = offered_names(entries);
        lemma_offered_names(entries.drop_last());
        assert forall|i: int| 0 <= i < names.len() implies offered(#[trigger] names[i], true) by {
            if i < before.len() {
                assert(names[i] == before[i]);
            }
        }
    }
}

/// The sound fonts are offered in the order of their names. All of them are files
/// that end in `.sf2`, none is offered that is not there, and as long as there is
/// room none is left out.
pub proof fn lemma_sound_fonts_listed(entries: Seq<DirectoryEntry>)
    ensures
        in_order(truncated(sorted_names(offered_names(entries)))),
        truncated(sorted_names(offered_names(entries))).len() <= SOUND_FONTS_MAX,
        forall|i: int|
            0 <= i < truncated(sorted_names(offered_names(entries))).len() ==> offered(
                #[trigger] truncated(sorted_names(offered_names(entries)))[i],
                true,
            ),
        sorted_names(offered_names(entries)).to_multiset() == offered_names(
            entries,
        ).to_multiset(),
{
    broadcast use vstd::seq_lib::group_to_multiset_ensures;

    let names = offered_names(entries);
    let sorted = sorted_names(names);
    lemma_sorted_names(names);
    lemma_offered_names(entries);
    assert forall|i: int| 0 <= i < sorted.len() implies offered(#[trigger] sorted[i], true) by {
        assert(sorted.to_multiset().contains(sorted[i]));
        assert(names.contains(sorted[i]));
    }
    let listed = truncated(sorted);
    assert forall|i: int, j: int| 0 <= i <= j < listed.len() implies listed_before(
        #[trigger] listed[i],
        #[trigger] listed[j],
    ) by {
        assert(listed_before(sorted[i], sorted[j]));
    }
}

/// Every list of values ends in an empty place, and every sound font that is
/// offered has a place.
pub proof fn lemma_sound_fonts_have_room(locale: Locale, sound_fonts: Seq<Seq<char>>)
    requires
        sound_fonts.len() <= SOUND_FONTS_MAX,
    ensures
        slots(sound_font_values(locale, sound_fonts)).last() is None,
        forall|i: int|
            0 <= i < sound_fonts.len() ==> slots(sound_font_values(locale, sound_fonts))[i + 1]
                == Some(unlabelled(#[trigger] sound_fonts[i])),
{
    let values = sound_font_values(locale, sound_fonts);
    assert forall|i: int| 0 <= i < sound_fonts.len() implies slots(values)[i + 1] == Some(
        unlabelled(#[trigger] sound_fonts[i]),
    ) by {
        assert(values[i + 1] == unlabelled(sound_fonts[i]));
    }
}

/// A value is among those of an option.
pub open spec fn has_value(values: Seq<Option<ValueModel>>, value: Seq<char>) -> bool {
    exists|i: int|
        0 <= i < values.len() && (#[trigger] values[i] matches Some(slot) && slot.value == value)
}

proof fn lemma_has_value(values: Seq<ValueModel>, at: int)
    requires
        0 <= at < values.len(),
        at < RETRO_NUM_CORE_OPTION_VALUES_MAX - 1,
    ensures
        has_value(slots(values), values[at].value),
{
    assert(slots(values)[at] == Some(values[at]));
}

/// The default of every option is one of its values.
pub proof fn lemma_defaults_are_values(locale: Locale, sound_fonts: Seq<Seq<char>>)
    ensures
        forall|i: int|
            0 <= i < v2_of(locale, sound_fonts).len() ==> has_value(
                (#[trigger] v2_of(locale, sound_fonts)[i]).values,
                v2_of(locale, sound_fonts)[i].default_value,
            ),
{
    lemma_has_value(resolution_values(), 0);
    lemma_has_value(runtime_values(locale), 0);
    lemma_has_value(on_off_values(locale), 0);
    lemma_has_value(sound_font_values(locale, sound_fonts), 0);
    lemma_has_value(volume_values(), 5);
    let list = v2_of(locale, sound_fonts);
    assert forall|i: int| 0 <= i < list.len() implies has_value(
        (#[trigger] list[i]).values,
        list[i].default_value,
    ) by {
        assert(i == 0 || i == 1 || i == 2 || i == 3 || i == 4);
    }
}

/// Both interfaces describe the same options with the same values.
pub proof fn lemma_interfaces_agree(locale: Locale, sound_fonts: Seq<Seq<char>>)
    ensures
        v1_of(locale, sound_fonts).len() == v2_of(locale, sound_fonts).len(),
        forall|i: int|
            0 <= i < v1_of(locale, sound_fonts).len() ==> {
                let old_one = #[trigger] v1_of(locale, sound_fonts)[i];
                let new_one = v2_of(locale, sound_fonts)[i];
                &&& old_one.key == new_one.key
                &&& old_one.desc == new_one.desc
                &&& old_one.values == new_one.values
                &&& old_one.default_value == new_one.default_value
            },
{
}

/// Every screen size that is offered is read back as itself.
pub proof fn lemma_offered_sizes_are_read()
    ensures
        resolution_of(Some(resolution_values()[0].value)) == (240u32, 320u32),
        resolution_of(Some(resolution_values()[1].value)) == (176u32, 208u32),
        resolution_of(Some(resolution_values()[2].value)) == (128u32, 160u32),
        resolution_of(Some(resolution_values()[3].value)) == (128u32, 128u32),
{
    reveal_strlit("240x320");
    reveal_strlit("176x208");
    reveal_strlit("128x160");
    reveal_strlit("128x128");
    assert("240x320"@[0] == '2');
    assert("176x208"@[1] == '7');
    assert("128x160"@[5] == '6');
    assert("128x128"@[1] == '2');
    assert("128x128"@[5] == '2');
    assert("128x128"@[0] == '1');
    assert("128x160"@[0] == '1');
    assert("128x160"@[1] == '2');
    assert("176x208"@[0] == '1');
}

/// Every runtime that is offered is read back as itself.
pub proof fn lemma_offered_runtimes_are_read(locale: Locale)
    ensures
        runtime_of(Some(runtime_values(locale)[0].value)) == RuntimeOption::Auto,
        runtime_of(Some(runtime_values(locale)[1].value)) == RuntimeOption::Ktf,
        runtime_of(Some(runtime_values(locale)[2].value)) == RuntimeOption::Lgt,
        runtime_of(Some(runtime_values(locale)[3].value)) == RuntimeOption::Skt,
        runtime_of(Some(runtime_values(locale)[4].value)) == RuntimeOption::J2me,
{
    reveal_strlit("auto");
    reveal_strlit("ktf");
    reveal_strlit("lgt");
    reveal_strlit("skt");
    reveal_strlit("j2me");
    assert("auto"@[0] == 'a');
    assert("ktf"@[0] == 'k');
    assert("lgt"@[0] == 'l');
    assert("skt"@[0] == 's');
    assert("j2me"@[0] == 'j');
}

proof fn lemma_digit_is_read(value: Seq<char>, digit: int)
    requires
        value.len() == 1,
        0 <= digit <= 9,
        value[0] as int == digit + 48,
    ensures
        volume_of(Some(value)) == digit,
{
    reveal_with_fuel(digits_value, 2);
    assert(value.drop_last().len() == 0);
}

/// Every volume that is offered is read back as itself.
pub proof fn lemma_offered_volumes_are_read(volume: int)
    requires
        0 <= volume <= 10,
    ensures
        volume_of(Some(volume_values()[volume].value)) == volume,
{
    reveal_strlit("0");
    reveal_strlit("1");
    reveal_strlit("2");
    reveal_strlit("3");
    reveal_strlit("4");
    reveal_strlit("5");
    reveal_strlit("6");
    reveal_strlit("7");
    reveal_strlit("8");
    reveal_strlit("9");
    reveal_strlit("10");
    if volume < 10 {
        lemma_digit_is_read(volume_values()[volume].value, volume);
    } else {
        reveal_with_fuel(digits_value, 3);
        let ten = "10"@;
        assert(ten.drop_last() =~= seq!['1']);
        assert(ten.drop_last().drop_last().len() == 0);
        assert(digits_value(ten) == 10);
        assert(volume_values()[10].value == ten);
    }
}

/// Every sound font that is offered is the one that is asked for once it is chosen,
/// where its name could not lead out of the directory.
pub proof fn lemma_offered_sound_fonts_are_read(name: Seq<char>)
    requires
        offered(name, true),
        !name.contains('/'),
        !name.contains('\\'),
    ensures
        sound_font_of(Some(name)) == Some(name),
{
    if name == "builtin"@ {
        reveal_strlit("builtin");
        lemma_behind_last(name, '.');
        assert(name[behind_last(name, '.') - 1] == '.');
    }
}

// ---------------------------------------------------------------------------
// What a frontend is told

/// A Chinese frontend is told in its own script, every other one in English; each text is
/// the one of its language.
pub proof fn lemma_frontends_are_told_in_their_language(
    language: u32,
    en: Seq<char>,
    zh_hans: Seq<char>,
    zh_hant: Seq<char>,
)
    ensures
        localized(locale_of(Some(12)), en, zh_hans, zh_hant) == zh_hans,
        localized(locale_of(Some(11)), en, zh_hans, zh_hant) == zh_hant,
        language != 11 && language != 12 ==> localized(
            locale_of(Some(language)),
            en,
            zh_hans,
            zh_hant,
        ) == en,
        localized(locale_of(None), en, zh_hans, zh_hant) == en,
{
}

/// A file is a sound font if and only if its name ends in a dot and `sf2`, whatever the
/// case of the letters, with something before the dot.
pub proof fn lemma_sound_fonts_end_in_sf2(stem: Seq<char>, end: Seq<char>)
    requires
        stem.len() > 0,
        !end.contains('.'),
    ensures
        is_sf2(stem.push('.') + end) <==> lowered(end) == "sf2"@,
        !is_sf2(end),
        !is_sf2(seq!['.'] + end),
{
    lemma_extension(stem, end);
    lemma_behind_last(end, '.');
    let at = behind_last(end, '.');
    if at > 0 {
        assert(end.contains(end[at - 1]));
    }
    let hidden = seq!['.'] + end;
    lemma_behind_last(hidden, '.');
    let at = behind_last(hidden, '.');
    if at > 1 {
        assert(hidden[at - 1] == end[at - 2]);
        assert(end.contains(end[at - 2]));
    }
}

proof fn lemma_extension(stem: Seq<char>, end: Seq<char>)
    requires
        stem.len() > 0,
        !end.contains('.'),
    ensures
        extension(stem.push('.') + end) == Some(end),
{
    let name = stem.push('.') + end;
    let dot = stem.len() as int;
    lemma_behind_last(name, '.');
    let at = behind_last(name, '.');
    assert(name[dot] == '.');
    if at > dot + 1 {
        assert(name[at - 1] == end[at - 1 - dot - 1]);
        assert(end.contains(end[at - 1 - dot - 1]));
    }
    assert(at == dot + 1);
    assert(name.skip(at) =~= end);
}

/// The files of a directory are gone through in order, and each that can be offered is
/// named once for each time it is there.
pub proof fn lemma_directory_is_gone_through(entries: Seq<DirectoryEntry>, entry: DirectoryEntry)
    ensures
        offered(entry.name@, entry.is_file) ==> offered_names(entries.push(entry))
            == offered_names(entries).push(entry.name@),
        !offered(entry.name@, entry.is_file) ==> offered_names(entries.push(entry))
            == offered_names(entries),
        !entry.is_file ==> !offered(entry.name@, entry.is_file),
        entry.name@.contains('\0') ==> !offered(entry.name@, entry.is_file),
        entry.is_file && is_sf2(entry.name@) && !entry.name@.contains('\0') ==> offered(
            entry.name@,
            entry.is_file,
        ),
        offered_names(Seq::empty()).len() == 0,
{
    assert(entries.push(entry).drop_last() =~= entries);
}

/// Two names that differ in case alone keep their order.
pub proof fn lemma_same_names_keep_their_order(first: Seq<char>, second: Seq<char>)
    requires
        lowered(first) == lowered(second),
    ensures
        sorted_names(seq![first, second]) == seq![first, second],
{
    reveal_with_fuel(sorted_names, 3);
    reveal_with_fuel(insert_name, 2);
    let two = seq![first, second];
    let one = seq![first];
    assert(two.drop_last() =~= one);
    assert(one.drop_last() =~= Seq::<Seq<char>>::empty());
    assert(one.last() == first && two.last() == second);
    assert(sorted_names(one) =~= one);
    lemma_text_order(lowered(first), lowered(second), lowered(second));
    assert(sorted_names(two) =~= two);
}

/// A value takes the place of its number, as long as there is one; the last place and
/// those behind the values are empty.
pub proof fn lemma_values_have_their_places(values: Seq<ValueModel>, i: int)
    requires
        0 <= i < 128,
    ensures
        slots(values).len() == 128,
        i < values.len() && i < 127 ==> slots(values)[i] == Some(values[i]),
        i >= values.len() || i == 127 ==> slots(values)[i] is None,
{
}

/// The names of the oldest interface follow the built-in font in order, each behind a bar.
pub proof fn lemma_names_stand_behind_bars(start: Seq<char>, names: Seq<Seq<char>>, name: Seq<char>)
    ensures
        barred(start, Seq::empty()) == start,
        barred(start, names.push(name)) == barred(start, names) + seq!['|'] + name,
{
    assert(names.push(name).drop_last() =~= names);
    assert(barred(start, names).push('|') + name =~= barred(start, names) + seq!['|'] + name);
}

/// A frontend is told through the newest interface that it has: first in its own
/// language, where that is not English, and then in English alone.
pub proof fn lemma_newest_interface_is_used(
    version: u32,
    locale: Locale,
    fonts: Seq<Seq<char>>,
)
    ensures
        ({
            let calls = calls_of(Some(version), locale, fonts);
            &&& version >= 2 ==> (calls.last() matches CallModel::V2 { us } && us.definitions
                == v2_of(Locale::English, fonts) && us.categories == categories_of(Locale::English))
            &&& version == 1 ==> (calls.last() matches CallModel::V1 { definitions } && definitions
                == v1_of(Locale::English, fonts))
            &&& version == 0 ==> (calls.last() matches CallModel::Variables { list } && list
                == variables_of(locale, fonts))
            &&& calls.len() == if version >= 1 && locale != Locale::English {
                2int
            } else {
                1
            }
            &&& version >= 2 && locale != Locale::English ==> (calls[0] matches CallModel::V2Intl {
                us,
                local,
            } && us.definitions == v2_of(Locale::English, fonts) && local.definitions == v2_of(
                locale,
                fonts,
            ) && local.categories == categories_of(locale))
            &&& version == 1 && locale != Locale::English ==> (calls[0] matches CallModel::V1Intl {
                definitions,
                local_definitions,
            } && definitions == v1_of(Locale::English, fonts) && local_definitions == v1_of(
                locale,
                fonts,
            ))
        }),
        calls_of(None, locale, fonts) == calls_of(Some(0), locale, fonts),
{
}

/// What is offered as the default is what a frontend that chooses nothing gets.
pub proof fn lemma_offered_defaults_are_the_defaults(locale: Locale, fonts: Seq<Seq<char>>)
    ensures
        ({
            let list = v2_of(locale, fonts);
            let defaults = default_options();
            &&& resolution_of(Some(list[0].default_value)) == (defaults.width, defaults.height)
            &&& runtime_of(Some(list[1].default_value)) == defaults.runtime
            &&& (list[2].default_value != "off"@) == defaults.midi_enabled
            &&& sound_font_of(Some(list[3].default_value)) == defaults.sound_font_path
            &&& volume_of(Some(list[4].default_value)) == defaults.midi_volume
        }),
{
    lemma_offered_sizes_are_read();
    lemma_offered_runtimes_are_read(locale);
    lemma_offered_volumes_are_read(5);
    reveal_strlit("on");
    reveal_strlit("off");
    assert("on"@.len() != "off"@.len());
}

/// Every option is in one of the groups that are shown.
pub proof fn lemma_options_are_in_groups(locale: Locale, fonts: Seq<Seq<char>>, i: int)
    requires
        0 <= i < v2_of(locale, fonts).len(),
    ensures
        exists|j: int|
            0 <= j < categories_of(locale).len() && (#[trigger] categories_of(locale)[j]).key
                == v2_of(locale, fonts)[i].category_key,
{
    let groups = categories_of(locale);
    assert(groups[0].key == "video"@ && groups[1].key == "audio"@ && groups[2].key == "system"@);
}

} // verus!
