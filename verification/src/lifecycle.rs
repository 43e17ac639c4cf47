//! From the frontend's first call to its last: which content is loaded, and what
//! the core says of itself.

use vstd::prelude::*;

use crate::content::LoadedContent;
use crate::retro_core::{LibretroCore, AUDIO_FPS};
use crate::options::CoreOptions;
use crate::text::chars_of;
use crate::voices::AUDIO_SAMPLE_RATE;

verus! {

pub const RETRO_API_VERSION: u32 = 1;

pub const RETRO_REGION_NTSC: u32 = 0;

pub const RETRO_LOG_INFO: u32 = 1;

pub const RETRO_LOG_WARN: u32 = 2;

pub const RETRO_LOG_ERROR: u32 = 3;

/// What the core says of itself.
#[derive(Clone, Copy)]
pub struct SystemInfo {
    pub library_name: &'static str,
    pub library_version: &'static str,
    pub valid_extensions: &'static str,
    pub need_fullpath: bool,
    pub block_extract: bool,
}

/// The core takes ZIP archives by their path and unpacks them itself.
pub fn system_info() -> (r: SystemInfo)
    ensures
        r.library_name@ == "Mobile - Korea (Wie-Libretro)"@,
        r.library_version@ == "0.0.1"@,
        r.valid_extensions@ == "zip"@,
        r.need_fullpath,
        r.block_extract,
{
    SystemInfo {
        library_name: "Mobile - Korea (Wie-Libretro)",
        library_version: "0.0.1",
        valid_extensions: "zip",
        need_fullpath: true,
        block_extract: true,
    }
}

/// The size of the screen, and the rates of pictures and samples. The aspect ratio
/// is that of the sizes.
#[derive(Clone, Copy, Debug, PartialEq, Eq, Structural)]
pub struct SystemAvInfo {
    pub base_width: u32,
    pub base_height: u32,
    pub max_width: u32,
    pub max_height: u32,
    pub fps: u32,
    pub sample_rate: u32,
}

/// The size of the screen, and the rates of pictures and samples.
pub fn av_info(options: &CoreOptions) -> (r: SystemAvInfo)
    ensures
        r == (SystemAvInfo {
            base_width: options.width,
            base_height: options.height,
            max_width: options.width,
            max_height: options.height,
            fps: 60,
            sample_rate: 48_000,
        }),
{
    SystemAvInfo {
        base_width: options.width,
        base_height: options.height,
        max_width: options.width,
        max_height: options.height,
        fps: AUDIO_FPS,
        sample_rate: AUDIO_SAMPLE_RATE,
    }
}

/// What is left of a message once it is logged: a zero byte becomes a space.
pub open spec fn loggable(message: Seq<char>) -> Seq<char> {
    message.map_values(
        |c: char|
            if c == '\0' {
                ' '
            } else {
                c
            },
    )
}

/// A message as it is logged.
pub fn log_message(message: &str) -> (r: String)
    ensures
        r@ == loggable(message@),
{
    let chars = chars_of(message);
    let mut text = String::new();
    for index in 0..chars.len()
        invariant
            chars@ == message@,
            text@.len() == index,
            forall|i: int| 0 <= i < index ==> text@[i] == loggable(message@)[i],
    {
        let c = chars[index];
        let ghost before = text@;
        if c == '\0' {
            text.push(' ');
        } else {
            text.push(c);
        }
        assert forall|i: int| 0 <= i < index + 1 implies text@[i] == loggable(message@)[i] by {
            if i < index {
                assert(text@[i] == before[i]);
            }
        }
    }
    assert(text@ =~= loggable(message@));
    text
}

/// What is loaded, and where its files are kept.
pub struct GlobalState {
    save_dir: String,
    core: Option<LibretroCore>,
}

impl GlobalState {
    /// The directory that files are kept in.
    pub closed spec fn directory(&self) -> Seq<char> {
        self.save_dir@
    }

    /// The core with its content, where some is loaded.
    pub closed spec fn loaded(&self) -> Option<LibretroCore> {
        self.core
    }

    /// Nothing is loaded.
    pub fn new(save_dir: String) -> (r: Self)
        ensures
            r.directory() == save_dir@,
            r.loaded() is None,
    {
        GlobalState { save_dir, core: None }
    }

    /// Files are kept in another directory from now on.
    pub fn set_directory(&mut self, save_dir: String)
        ensures
            final(self).directory() == save_dir@,
            final(self).loaded() == old(self).loaded(),
    {
        self.save_dir = save_dir;
    }

    pub fn save_dir(&self) -> (r: &str)
        ensures
            r@ == self.directory(),
    {
        self.save_dir.as_str()
    }

    /// Unloads. The core that is to be shut down.
    pub fn unload_locked(&mut self) -> (r: Option<LibretroCore>)
        ensures
            r == old(self).loaded(),
            final(self).loaded() is None,
            final(self).directory() == old(self).directory(),
    {
        let mut core: Option<LibretroCore> = None;
        std::mem::swap(&mut core, &mut self.core);
        core
    }

    /// The content is loaded, or could not be. True where it is.
    pub fn load_locked(&mut self, core: Option<LibretroCore>) -> (r: bool)
        requires
            old(self).loaded() is None,
        ensures
            r == core is Some,
            final(self).loaded() == core,
            final(self).directory() == old(self).directory(),
    {
        let done = core.is_some();
        self.core = core;
        done
    }

    /// The content that a reset loads again.
    pub fn content(&self) -> (r: Option<LoadedContent>)
        ensures
            r is Some <==> self.loaded() is Some,
            r matches Some(content) ==> content.name@ == self.loaded()->0.content_name()
                && content.data@ == self.loaded()->0.content_data(),
    {
        match &self.core {
            Some(core) => Some(core.content()),
            None => None,
        }
    }
}

/// The core keeps no states: there is nothing to store and nothing to restore.
pub fn serialize_size() -> (r: usize)
    ensures
        r == 0,
{
    0
}

/// A logged message has no zero byte and says the same otherwise.
pub proof fn lemma_logged_message_says_the_same(message: Seq<char>, i: int)
    requires
        0 <= i < message.len(),
    ensures
        loggable(message).len() == message.len(),
        message[i] != '\0' ==> loggable(message)[i] == message[i],
        message[i] == '\0' ==> loggable(message)[i] == ' ',
        !loggable(message).contains('\0'),
{
}

} // verus!
