//! The content that a frontend hands to the core: its name, its bytes, and the
//! runtime that runs it.

use std::sync::Arc;

use vstd::prelude::*;

use crate::options::RuntimeOption;
use crate::storage::split_path;
use crate::text::{chars_of, copy_text, ends_with, not_after, same_text};

verus! {

use crate::option_list::texts;
use crate::options::optional;
use crate::storage::{is_plain, lemma_path_parts_are_joined, plain_parts};
use crate::text::{ends_in, lemma_text_order, text_le};

/// The bytes of a ZIP archive, and its name.
#[derive(Clone)]
pub struct LoadedContent {
    pub name: String,
    pub data: Arc<Vec<u8>>,
}

impl LoadedContent {
    /// Content of one file.
    pub fn single(name: String, data: Vec<u8>) -> (r: Self)
        ensures
            r.name@ == name@,
            r.data@ == data@,
    {
        LoadedContent { name, data: Arc::new(data) }
    }
}

// ---------------------------------------------------------------------------
// Runtimes

/// Which runtimes can run an archive.
#[derive(Clone, Copy, Debug, PartialEq, Eq, Structural)]
pub struct Loadable {
    pub ktf: bool,
    pub lgt: bool,
    pub skt: bool,
}

/// What runs an archive: a runtime, or the generic one with a JAR of the archive.
pub enum EmulatorChoice {
    Ktf,
    Lgt,
    Skt,
    J2me { jar: String },
}

/// What an `EmulatorChoice` holds.
pub enum ChoiceModel {
    Ktf,
    Lgt,
    Skt,
    J2me { jar: Seq<char> },
}

impl View for EmulatorChoice {
    type V = ChoiceModel;

    open spec fn view(&self) -> ChoiceModel {
        match *self {
            EmulatorChoice::Ktf => ChoiceModel::Ktf,
            EmulatorChoice::Lgt => ChoiceModel::Lgt,
            EmulatorChoice::Skt => ChoiceModel::Skt,
            EmulatorChoice::J2me { jar } => ChoiceModel::J2me { jar: jar@ },
        }
    }
}

/// Why content cannot be run.
#[derive(Clone, Copy, Debug, PartialEq, Eq, Structural)]
pub enum ContentError {
    NotKtf,
    NotLgt,
    NotSkt,
    NoJar,
}

impl ContentError {
    /// What the error says.
    pub fn message(&self) -> (r: &'static str)
        ensures
            r@ == match *self {
                ContentError::NotKtf => "Content is not a KTF archive"@,
                ContentError::NotLgt => "Content is not an LGT archive"@,
                ContentError::NotSkt => "Content is not an SKT archive"@,
                ContentError::NoJar => "No JAR file found in ZIP archive"@,
            },
    {
        match self {
            ContentError::NotKtf => "Content is not a KTF archive",
            ContentError::NotLgt => "Content is not an LGT archive",
            ContentError::NotSkt => "Content is not an SKT archive",
            ContentError::NoJar => "No JAR file found in ZIP archive",
        }
    }
}

/// The first JAR among the names, in the order of the names as texts.
pub open spec fn first_jar(names: Seq<Seq<char>>) -> Option<Seq<char>>
    decreases names.len(),
{
    if names.len() == 0 {
        None
    } else {
        let before = first_jar(names.drop_last());
        let name = names.last();
        if !ends_in(name, ".jar"@) || (before matches Some(jar) && text_le(jar, name)) {
            before
        } else {
            Some(name)
        }
    }
}

/// A JAR is found exactly if there is one, and none of the others comes before it.
pub proof fn lemma_first_jar(names: Seq<Seq<char>>)
    ensures
        first_jar(names) is None <==> forall|i: int|
            0 <= i < names.len() ==> !ends_in(#[trigger] names[i], ".jar"@),
        first_jar(names) matches Some(jar) ==> {
            &&& names.contains(jar)
            &&& ends_in(jar, ".jar"@)
            &&& forall|i: int|
                0 <= i < names.len() && ends_in(#[trigger] names[i], ".jar"@) ==> text_le(
                    jar,
                    names[i],
                )
        },
    decreases names.len(),
{
    if names.len() > 0 {
        let init = names.drop_last();
        let name = names.last();
        lemma_first_jar(init);
        assert(names[names.len() - 1] == name);
        assert forall|i: int| 0 <= i < init.len() implies #[trigger] names[i] == init[i] by {}
        lemma_text_order(name, name, name);
        if let Some(jar) = first_jar(init) {
            let i = choose|i: int| 0 <= i < init.len() && init[i] == jar;
            assert(names[i] == jar);
            lemma_text_order(jar, name, name);
        }
        if first_jar(names) == Some(name) {
            if let Some(jar) = first_jar(init) {
                if ends_in(name, ".jar"@) {
                    assert forall|i: int|
                        0 <= i < names.len() && ends_in(
                            #[trigger] names[i],
                            ".jar"@,
                        ) implies text_le(name, names[i]) by {
                        if i < init.len() {
                            assert(init[i] == names[i]);
                            lemma_text_order(name, jar, names[i]);
                        }
                    }
                }
            }
        }
    }
}

/// What runs an archive whose files have these names.
pub open spec fn chosen(
    loadable: Loadable,
    names: Seq<Seq<char>>,
    runtime: RuntimeOption,
) -> Result<ChoiceModel, ContentError> {
    let generic = match first_jar(names) {
        Some(jar) => Ok(ChoiceModel::J2me { jar }),
        None => Err(ContentError::NoJar),
    };
    match runtime {
        RuntimeOption::Ktf => if loadable.ktf {
            Ok(ChoiceModel::Ktf)
        } else {
            Err(ContentError::NotKtf)
        },
        RuntimeOption::Lgt => if loadable.lgt {
            Ok(ChoiceModel::Lgt)
        } else {
            Err(ContentError::NotLgt)
        },
        RuntimeOption::Skt => if loadable.skt {
            Ok(ChoiceModel::Skt)
        } else {
            Err(ContentError::NotSkt)
        },
        RuntimeOption::J2me => generic,
        RuntimeOption::Auto => if loadable.ktf {
            Ok(ChoiceModel::Ktf)
        } else if loadable.lgt {
            Ok(ChoiceModel::Lgt)
        } else if loadable.skt {
            Ok(ChoiceModel::Skt)
        } else {
            generic
        },
    }
}

/// What a result with a choice in it holds.
pub open spec fn choice_model(
    choice: Result<EmulatorChoice, ContentError>,
) -> Result<ChoiceModel, ContentError> {
    match choice {
        Ok(choice) => Ok(choice@),
        Err(error) => Err(error),
    }
}

/// The first JAR among the names, in the order of the names as texts.
pub fn find_jar(names: &[String]) -> (r: Result<String, ContentError>)
    ensures
        (match r {
            Ok(name) => first_jar(texts(names@)) == Some(name@),
            Err(error) => first_jar(texts(names@)) is None && error == ContentError::NoJar,
        }),
{
    let mut found: Option<usize> = None;
    let ghost all = texts(names@);
    assert(all.take(0) =~= Seq::<Seq<char>>::empty());
    for index in 0..names.len()
        invariant
            all == texts(names@),
            match found {
                Some(at) => at < index && first_jar(all.take(index as int)) == Some(all[at as int]),
                None => first_jar(all.take(index as int)) is None,
            },
    {
        proof {
            let next = all.take(index + 1);
            assert(next.drop_last() =~= all.take(index as int));
            assert(next.last() == names@[index as int]@);
        }
        let name = names[index].as_str();
        if ends_with(name, ".jar") {
            let keeps = match found {
                Some(at) => not_after(
                    chars_of(names[at].as_str()).as_slice(),
                    chars_of(name).as_slice(),
                ),
                None => false,
            };
            if !keeps {
                found = Some(index);
            }
        }
    }
    assert(all.take(all.len() as int) =~= all);
    match found {
        Some(at) => Ok(names[at].as_str().to_owned()),
        None => Err(ContentError::NoJar),
    }
}

/// Chooses what runs an archive. `names` are the names of its files.
pub fn load_emulator(
    loadable: Loadable,
    names: &[String],
    runtime: RuntimeOption,
) -> (r: Result<EmulatorChoice, ContentError>)
    ensures
        choice_model(r) == chosen(loadable, texts(names@), runtime),
{
    match runtime {
        RuntimeOption::Ktf => {
            if !loadable.ktf {
                return Err(ContentError::NotKtf);
            }
            Ok(EmulatorChoice::Ktf)
        },
        RuntimeOption::Lgt => {
            if !loadable.lgt {
                return Err(ContentError::NotLgt);
            }
            Ok(EmulatorChoice::Lgt)
        },
        RuntimeOption::Skt => {
            if !loadable.skt {
                return Err(ContentError::NotSkt);
            }
            Ok(EmulatorChoice::Skt)
        },
        RuntimeOption::J2me => match find_jar(names) {
            Ok(jar) => Ok(EmulatorChoice::J2me { jar }),
            Err(error) => Err(error),
        },
        RuntimeOption::Auto => {
            if loadable.ktf {
                Ok(EmulatorChoice::Ktf)
            } else if loadable.lgt {
                Ok(EmulatorChoice::Lgt)
            } else if loadable.skt {
                Ok(EmulatorChoice::Skt)
            } else {
                match find_jar(names) {
                    Ok(jar) => Ok(EmulatorChoice::J2me { jar }),
                    Err(error) => Err(error),
                }
            }
        },
    }
}

/// How an emulator is started in the core: without a debugger and unprofiled.
#[derive(Clone, Copy, Debug, PartialEq, Eq, Structural)]
pub struct EmulatorOptions {
    pub enable_gdbserver: bool,
    pub profile: bool,
}

pub fn emulator_options() -> (r: EmulatorOptions)
    ensures
        !r.enable_gdbserver,
        !r.profile,
{
    EmulatorOptions { enable_gdbserver: false, profile: false }
}

/// A runtime that is forced is used if and only if it can run the archive, and is
/// never replaced by another.
pub proof fn lemma_forced_runtime_is_kept(
    loadable: Loadable,
    names: Seq<Seq<char>>,
    runtime: RuntimeOption,
)
    ensures
        runtime == RuntimeOption::Ktf ==> (chosen(loadable, names, runtime) is Ok
            <==> loadable.ktf),
        runtime == RuntimeOption::Lgt ==> (chosen(loadable, names, runtime) is Ok
            <==> loadable.lgt),
        runtime == RuntimeOption::Skt ==> (chosen(loadable, names, runtime) is Ok
            <==> loadable.skt),
        runtime == RuntimeOption::J2me ==> (chosen(loadable, names, runtime) is Ok <==> first_jar(
            names,
        ) is Some),
        chosen(loadable, names, runtime) matches Ok(choice) ==> match runtime {
            RuntimeOption::Ktf => choice is Ktf,
            RuntimeOption::Lgt => choice is Lgt,
            RuntimeOption::Skt => choice is Skt,
            RuntimeOption::J2me => choice is J2me,
            RuntimeOption::Auto => true,
        },
{
}

/// Where no runtime is forced, an archive is refused only if nothing can run it.
pub proof fn lemma_auto_refuses_last(loadable: Loadable, names: Seq<Seq<char>>)
    ensures
        chosen(loadable, names, RuntimeOption::Auto) is Err <==> !loadable.ktf && !loadable.lgt
            && !loadable.skt && first_jar(names) is None,
{
}

// ---------------------------------------------------------------------------
// What the frontend hands over

/// The name of the file that a path leads to.
pub open spec fn file_name(path: Seq<char>) -> Option<Seq<char>> {
    let parts = plain_parts(path, 0);
    if parts.len() == 0 || parts.last() == ".."@ {
        None
    } else {
        Some(parts.last())
    }
}

/// The name of the file that a path leads to.
pub fn file_name_of(path: &str) -> (r: Option<String>)
    ensures
        optional(r) == file_name(path@),
{
    let parts = split_path(path);
    if parts.len() == 0 {
        return None;
    }
    let last = parts[parts.len() - 1].as_str();
    if same_text(last, "..") {
        None
    } else {
        Some(last.to_owned())
    }
}

/// The characters of a text that may be missing.
pub open spec fn optional_str(text: Option<&str>) -> Option<Seq<char>> {
    match text {
        Some(text) => Some(text@),
        None => None,
    }
}

/// The name of content: that of its file, or what the frontend calls it.
pub open spec fn name_of(
    path: Option<Seq<char>>,
    name: Option<Seq<char>>,
    extension: Option<Seq<char>>,
) -> Seq<char> {
    let file = match path {
        Some(path) => file_name(path),
        None => None,
    };
    match file {
        Some(file) => file,
        None => match (name, extension) {
            (Some(name), Some(extension)) => if extension.len() > 0 {
                name.push('.') + extension
            } else {
                name
            },
            (Some(name), None) => name,
            (None, _) => "content"@,
        },
    }
}

/// The name of content: that of its file, or what the frontend calls it.
pub fn content_name(path: Option<&str>, name: Option<&str>, extension: Option<&str>) -> (r: String)
    ensures
        r@ == name_of(optional_str(path), optional_str(name), optional_str(extension)),
{
    if let Some(path) = path {
        if let Some(file) = file_name_of(path) {
            return file;
        }
    }
    match (name, extension) {
        (Some(name), Some(extension)) => {
            let chars = chars_of(extension);
            let mut text = copy_text(name);
            if chars.len() > 0 {
                text.push('.');
                text.append(extension);
            }
            text
        },
        (Some(name), None) => copy_text(name),
        (None, _) => "content".to_owned(),
    }
}

/// What a frontend tells about content: its path, where it has one, and how many
/// of its bytes are in memory.
pub struct GameInfo {
    pub path: Option<String>,
    pub in_memory: Option<usize>,
}

/// The same, with what the frontend calls the content.
pub struct GameInfoExt {
    pub full_path: Option<String>,
    pub name: Option<String>,
    pub ext: Option<String>,
    pub in_memory: Option<usize>,
}

/// Where the bytes of content are.
pub enum ContentSource {
    Memory,
    File { path: String },
}

/// What a `ContentSource` holds.
pub enum SourceModel {
    Memory,
    File { path: Seq<char> },
}

impl View for ContentSource {
    type V = SourceModel;

    open spec fn view(&self) -> SourceModel {
        match *self {
            ContentSource::Memory => SourceModel::Memory,
            ContentSource::File { path } => SourceModel::File { path: path@ },
        }
    }
}

/// Bytes in memory come before a file; an empty piece of memory does not count.
pub open spec fn source_of(
    in_memory: Option<usize>,
    path: Option<Seq<char>>,
) -> Option<SourceModel> {
    if in_memory matches Some(size) && size > 0 {
        Some(SourceModel::Memory)
    } else {
        match path {
            Some(path) => Some(SourceModel::File { path }),
            None => None,
        }
    }
}

fn find_source(in_memory: Option<usize>, path: &Option<String>) -> (r: Option<ContentSource>)
    ensures
        (match r {
            Some(source) => source_of(in_memory, optional(*path)) == Some(source@),
            None => source_of(in_memory, optional(*path)) is None,
        }),
{
    if let Some(size) = in_memory {
        if size > 0 {
            return Some(ContentSource::Memory);
        }
    }
    match path {
        Some(path) => Some(ContentSource::File { path: path.as_str().to_owned() }),
        None => None,
    }
}

fn as_text(text: &Option<String>) -> (r: Option<&str>)
    ensures
        optional_str(r) == optional(*text),
{
    match text {
        Some(text) => Some(text.as_str()),
        None => None,
    }
}

/// The name of the content that a frontend hands over, and where its bytes are.
/// The longer description, where there is one, comes before the short one.
pub fn content_from_game_info(
    game: &GameInfo,
    ext: Option<&GameInfoExt>,
) -> (r: Result<(String, ContentSource), &'static str>)
    ensures
        (match (r, ext) {
            (Ok((name, source)), Some(ext)) => {
                &&& name@ == name_of(optional(ext.full_path), optional(ext.name), optional(ext.ext))
                &&& source_of(ext.in_memory, optional(ext.full_path)) == Some(source@)
            },
            (Ok((name, source)), None) => {
                &&& name@ == name_of(optional(game.path), None, None)
                &&& source_of(game.in_memory, optional(game.path)) == Some(source@)
            },
            (Err(message), Some(ext)) => {
                &&& source_of(ext.in_memory, optional(ext.full_path)) is None
                &&& message@
                    == "Frontend did not provide content data or a readable full path"@
            },
            (Err(message), None) => {
                &&& source_of(game.in_memory, optional(game.path)) is None
                &&& message@ == "Frontend did not provide content data or a readable path"@
            },
        }),
{
    match ext {
        Some(ext) => {
            let name = content_name(as_text(&ext.full_path), as_text(&ext.name), as_text(&ext.ext));
            match find_source(ext.in_memory, &ext.full_path) {
                Some(source) => Ok((name, source)),
                None => Err("Frontend did not provide content data or a readable full path"),
            }
        },
        None => {
            let name = content_name(as_text(&game.path), None, None);
            match find_source(game.in_memory, &game.path) {
                Some(source) => Ok((name, source)),
                None => Err("Frontend did not provide content data or a readable path"),
            }
        },
    }
}

/// A file's name is what its path ends in, and content goes by that name, whatever the
/// frontend calls it.
pub proof fn lemma_content_is_named_after_its_file(
    directory: Seq<char>,
    file: Seq<char>,
    name: Option<Seq<char>>,
    extension: Option<Seq<char>>,
)
    requires
        is_plain(file),
        !directory.contains('/'),
    ensures
        file_name(file) == Some(file),
        file_name(directory.push('/') + file) == Some(file),
        name_of(Some(directory.push('/') + file), name, extension) == file,
{
    reveal_strlit("..");
    lemma_path_parts_are_joined(directory, file);
    lemma_path_parts_are_joined(file, file);
    let parts = plain_parts(directory.push('/') + file, 0);
    assert(parts.last() == file);
}

/// Content without a file has the name and the extension that the frontend gives, with a
/// dot between them.
pub proof fn lemma_content_is_named_by_the_frontend(name: Seq<char>, extension: Seq<char>)
    ensures
        extension.len() > 0 ==> name_of(None, Some(name), Some(extension)) == name + seq!['.']
            + extension,
        name_of(None, Some(name), Some(Seq::empty())) == name,
        name_of(None, Some(name), None) == name,
        name_of(None, None, Some(extension)) == "content"@,
{
    assert(name.push('.') + extension =~= name + seq!['.'] + extension);
}

/// Bytes in memory are used where there are any, else the file.
pub proof fn lemma_memory_comes_first(size: usize, path: Seq<char>)
    ensures
        size > 0 ==> source_of(Some(size), Some(path)) == Some(SourceModel::Memory),
        size > 0 ==> source_of(Some(size), None) == Some(SourceModel::Memory),
        source_of(Some(0), Some(path)) == Some(SourceModel::File { path }),
        source_of(None, Some(path)) == Some(SourceModel::File { path }),
        source_of(None, None) is None,
        source_of(Some(0), None) is None,
{
}

/// Where no runtime is forced, KTF comes before LGT, LGT before SKT, and a JAR is run
/// only where none of them can run the archive; each refusal names what is missing.
pub proof fn lemma_auto_tries_in_order(loadable: Loadable, names: Seq<Seq<char>>)
    ensures
        loadable.ktf ==> chosen(loadable, names, RuntimeOption::Auto) == Ok::<
            ChoiceModel,
            ContentError,
        >(ChoiceModel::Ktf),
        !loadable.ktf && loadable.lgt ==> chosen(loadable, names, RuntimeOption::Auto) == Ok::<
            ChoiceModel,
            ContentError,
        >(ChoiceModel::Lgt),
        !loadable.ktf && !loadable.lgt && loadable.skt ==> chosen(
            loadable,
            names,
            RuntimeOption::Auto,
        ) == Ok::<ChoiceModel, ContentError>(ChoiceModel::Skt),
        !loadable.ktf && !loadable.lgt && !loadable.skt ==> chosen(
            loadable,
            names,
            RuntimeOption::Auto,
        ) == chosen(loadable, names, RuntimeOption::J2me),
        first_jar(names) matches Some(first) ==> chosen(loadable, names, RuntimeOption::J2me)
            == Ok::<ChoiceModel, ContentError>(ChoiceModel::J2me { jar: first }),
        first_jar(names) is None ==> chosen(loadable, names, RuntimeOption::J2me) == Err::<
            ChoiceModel,
            ContentError,
        >(ContentError::NoJar),
        !loadable.ktf ==> chosen(loadable, names, RuntimeOption::Ktf) == Err::<
            ChoiceModel,
            ContentError,
        >(ContentError::NotKtf),
        !loadable.lgt ==> chosen(loadable, names, RuntimeOption::Lgt) == Err::<
            ChoiceModel,
            ContentError,
        >(ContentError::NotLgt),
        !loadable.skt ==> chosen(loadable, names, RuntimeOption::Skt) == Err::<
            ChoiceModel,
            ContentError,
        >(ContentError::NotSkt),
{
}

} // verus!
