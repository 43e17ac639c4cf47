//! What the desktop program runs, and what its emulator is told.

use vstd::prelude::*;

use crate::content::Loadable;
use crate::pressed::Event;
use crate::text::{
    chars_of, cut_all_ends, decimal_text, ends_with, find_behind_last, hexadecimal_text,
    holds_part, lower_chars, replace_all, text_of,
};

verus! {

use crate::option_list::texts;
use crate::text::{
    behind_last,
    cut_ends,
    decimal,
    ends_in,
    hexadecimal,
    lemma_behind_last,
    lemma_ends_are_cut,
    lemma_first_find_is_replaced,
    lemma_found_part,
    lemma_part_is_found,
    lowered,
    occurs,
    occurs_at,
    replaced,
};

// ---------------------------------------------------------------------------
// Files

/// Why a file cannot be run.
#[derive(Clone, Copy, Debug, PartialEq, Eq, Structural)]
pub enum StartError {
    UnknownArchive,
    UnknownFile,
}

impl StartError {
    /// What the error says.
    pub fn message(&self) -> (r: &'static str)
        ensures
            r@ == match *self {
                StartError::UnknownArchive => "Unknown archive format"@,
                StartError::UnknownFile => "Unknown file format"@,
            },
    {
        match self {
            StartError::UnknownArchive => "Unknown archive format",
            StartError::UnknownFile => "Unknown file format",
        }
    }
}

/// What a file is, going by its name: an archive; a description of the JAR beside
/// it, with the JAR's path and name; or a JAR, with its name and its title.
pub enum FileKind {
    Zip,
    Jad { jar_path: String, jar_name: String },
    Jar { name: String, title: String },
}

/// What a `FileKind` holds.
pub enum FileModel {
    Zip,
    Jad { jar_path: Seq<char>, jar_name: Seq<char> },
    Jar { name: Seq<char>, title: Seq<char> },
}

impl View for FileKind {
    type V = FileModel;

    open spec fn view(&self) -> FileModel {
        match *self {
            FileKind::Zip => FileModel::Zip,
            FileKind::Jad { jar_path, jar_name } => FileModel::Jad {
                jar_path: jar_path@,
                jar_name: jar_name@,
            },
            FileKind::Jar { name, title } => FileModel::Jar { name: name@, title: title@ },
        }
    }
}

/// What is behind the last slash of a path. A path without a slash loses its first
/// character.
pub open spec fn base_name(path: Seq<char>) -> Seq<char> {
    path.skip(
        if behind_last(path, '/') == 0 {
            1
        } else {
            behind_last(path, '/')
        },
    )
}

/// The path has a slash, or its first character is a single byte that can go.
pub open spec fn has_base_name(path: Seq<char>) -> bool {
    behind_last(path, '/') > 0 || (path.len() > 0 && (path[0] as int) < 128)
}

/// The path of the JAR beside a description.
pub open spec fn jar_beside(path: Seq<char>) -> Seq<char> {
    replaced(path, ".jad"@, ".jar"@, 0)
}

/// What a file is, going by its name.
pub open spec fn kind_of(filename: Seq<char>) -> Result<FileModel, StartError> {
    if ends_in(filename, "zip"@) {
        Ok(FileModel::Zip)
    } else if ends_in(filename, "jad"@) {
        Ok(
            FileModel::Jad {
                jar_path: jar_beside(filename),
                jar_name: base_name(jar_beside(filename)),
            },
        )
    } else if ends_in(filename, "jar"@) {
        Ok(
            FileModel::Jar {
                name: base_name(filename),
                title: cut_ends(base_name(filename), ".jar"@),
            },
        )
    } else {
        Err(StartError::UnknownFile)
    }
}

/// Where a name is cut, it can be cut.
pub open spec fn is_cuttable(filename: Seq<char>) -> bool {
    &&& ends_in(filename, "jad"@) && !ends_in(filename, "zip"@) ==> has_base_name(
        jar_beside(filename),
    )
    &&& ends_in(filename, "jar"@) && !ends_in(filename, "zip"@) && !ends_in(filename, "jad"@)
        ==> has_base_name(filename)
}

fn cut_base_name(path: &str) -> (r: String)
    requires
        has_base_name(path@),
    ensures
        r@ == base_name(path@),
{
    let chars = chars_of(path);
    let behind = find_behind_last(chars.as_slice(), '/');
    let from: usize = if behind == 0 {
        1
    } else {
        behind
    };
    assert(path@.skip(from as int) =~= chars@.subrange(from as int, chars@.len() as int));
    text_of(chars.as_slice(), from, chars.len())
}

/// What a file is, going by its name.
pub fn file_kind(filename: &str) -> (r: Result<FileKind, StartError>)
    requires
        is_cuttable(filename@),
    ensures
        (match r {
            Ok(kind) => kind_of(filename@) == Ok::<FileModel, StartError>(kind@),
            Err(error) => kind_of(filename@) == Err::<FileModel, StartError>(error),
        }),
{
    if ends_with(filename, "zip") {
        Ok(FileKind::Zip)
    } else if ends_with(filename, "jad") {
        proof {
            reveal_strlit(".jad");
        }
        let jar_path = replace_all(filename, ".jad", ".jar");
        let jar_name = cut_base_name(jar_path.as_str());
        Ok(FileKind::Jad { jar_path, jar_name })
    } else if ends_with(filename, "jar") {
        let name = cut_base_name(filename);
        proof {
            reveal_strlit(".jar");
        }
        let title = cut_all_ends(name.as_str(), ".jar");
        Ok(FileKind::Jar { name, title })
    } else {
        Err(StartError::UnknownFile)
    }
}

/// The runtimes.
#[derive(Clone, Copy, Debug, PartialEq, Eq, Structural)]
pub enum Runtime {
    Ktf,
    Lgt,
    Skt,
    J2me,
}

/// The runtime for a file. Only an archive can be one that no runtime knows.
pub open spec fn runtime_for(kind: FileModel, loadable: Loadable) -> Result<Runtime, StartError> {
    if kind is Jad {
        Ok(Runtime::J2me)
    } else if loadable.ktf {
        Ok(Runtime::Ktf)
    } else if loadable.lgt {
        Ok(Runtime::Lgt)
    } else if loadable.skt {
        Ok(Runtime::Skt)
    } else if kind is Zip {
        Err(StartError::UnknownArchive)
    } else {
        Ok(Runtime::J2me)
    }
}

/// The runtime for a file. `loadable` says which runtimes can run the archive, or
/// the JAR, whichever it is.
pub fn choose_runtime(kind: &FileKind, loadable: Loadable) -> (r: Result<Runtime, StartError>)
    ensures
        r == runtime_for(kind@, loadable),
{
    let archive = match kind {
        FileKind::Jad { .. } => {
            return Ok(Runtime::J2me);
        },
        FileKind::Zip => true,
        FileKind::Jar { .. } => false,
    };
    if loadable.ktf {
        Ok(Runtime::Ktf)
    } else if loadable.lgt {
        Ok(Runtime::Lgt)
    } else if loadable.skt {
        Ok(Runtime::Skt)
    } else if archive {
        Err(StartError::UnknownArchive)
    } else {
        Ok(Runtime::J2me)
    }
}

/// What is started for a file.
pub struct StartPlan {
    pub kind: FileKind,
    pub runtime: Runtime,
}

/// What is started for a file of this name that these runtimes can run.
pub fn start(filename: &str, loadable: Loadable) -> (r: Result<StartPlan, StartError>)
    requires
        is_cuttable(filename@),
    ensures
        (match r {
            Ok(plan) => kind_of(filename@) == Ok::<FileModel, StartError>(plan.kind@)
                && runtime_for(plan.kind@, loadable) == Ok::<Runtime, StartError>(plan.runtime),
            Err(error) => match kind_of(filename@) {
                Ok(kind) => runtime_for(kind, loadable) == Err::<Runtime, StartError>(error),
                Err(unknown) => error == unknown,
            },
        }),
{
    match file_kind(filename) {
        Ok(kind) => match choose_runtime(&kind, loadable) {
            Ok(runtime) => Ok(StartPlan { kind, runtime }),
            Err(error) => Err(error),
        },
        Err(error) => Err(error),
    }
}

/// What is told apart from a path is its last part: it holds no slash.
pub proof fn lemma_base_name_is_flat(path: Seq<char>)
    requires
        has_base_name(path),
    ensures
        !base_name(path).contains('/'),
{
    lemma_behind_last(path, '/');
    let name = base_name(path);
    if name.contains('/') {
        let i = choose|i: int| 0 <= i < name.len() && name[i] == '/';
        let from = if behind_last(path, '/') == 0 {
            1
        } else {
            behind_last(path, '/')
        };
        assert(path[from + i] == '/');
    }
}

// ---------------------------------------------------------------------------
// The command line

/// What the command line asks for: a list of the MIDI ports, or a run.
pub enum RunMode {
    ListMidiDevices,
    Run { filename: String, enable_gdbserver: bool, midi_device: Option<usize> },
}

/// What to do for a command line. A run needs the name of a file.
pub fn run_mode(
    filename: Option<String>,
    debug: bool,
    midi_device: Option<usize>,
    list_midi_devices: bool,
) -> (r: Result<RunMode, &'static str>)
    ensures
        list_midi_devices ==> (r matches Ok(mode) && mode is ListMidiDevices),
        !list_midi_devices ==> match (r, filename) {
            (Ok(RunMode::Run { filename: run, enable_gdbserver, midi_device: device }), Some(
                name,
            )) => run@ == name@ && enable_gdbserver == debug && device == midi_device,
            (Err(message), None) => message@ == "filename is required"@,
            _ => false,
        },
{
    if list_midi_devices {
        return Ok(RunMode::ListMidiDevices);
    }
    match filename {
        Some(filename) => Ok(RunMode::Run { filename, enable_gdbserver: debug, midi_device }),
        None => Err("filename is required"),
    }
}

// ---------------------------------------------------------------------------
// The emulator's thread

/// What the emulator's thread is told.
#[derive(Clone, Copy, Debug, PartialEq, Eq, Structural)]
pub enum EmulatorCommand {
    Event(Event),
    Shutdown,
}

/// The events among the commands.
pub open spec fn events_in(commands: Seq<EmulatorCommand>) -> Seq<Event>
    decreases commands.len(),
{
    if commands.len() == 0 {
        Seq::empty()
    } else {
        let before = events_in(commands.drop_last());
        match commands.last() {
            EmulatorCommand::Event(event) => before.push(event),
            EmulatorCommand::Shutdown => before,
        }
    }
}

/// What to do with the commands that came in: all events are handled, and where a
/// shutdown is among the commands, the thread ends behind them.
pub fn drain_commands(commands: &[EmulatorCommand]) -> (r: (Vec<Event>, bool))
    ensures
        r.0@ == events_in(commands@),
        r.1 == commands@.contains(EmulatorCommand::Shutdown),
{
    let mut events: Vec<Event> = Vec::new();
    let mut shutdown = false;
    assert(events@ =~= events_in(commands@.take(0)));
    for index in 0..commands.len()
        invariant
            events@ == events_in(commands@.take(index as int)),
            shutdown == exists|i: int|
                0 <= i < index && #[trigger] commands@[i] == EmulatorCommand::Shutdown,
    {
        proof {
            let next = commands@.take(index + 1);
            assert(next.drop_last() =~= commands@.take(index as int));
            assert(next.last() == commands@[index as int]);
        }
        match commands[index] {
            EmulatorCommand::Event(event) => {
                events.push(event);
            },
            EmulatorCommand::Shutdown => {
                assert(commands@[index as int] == EmulatorCommand::Shutdown);
                shutdown = true;
            },
        }
    }
    assert(commands@.take(commands@.len() as int) =~= commands@);
    (events, shutdown)
}

// ---------------------------------------------------------------------------
// MIDI ports

/// The port is that of the virtual synthesizer.
pub open spec fn is_virtual_synth(name: Seq<char>) -> bool {
    occurs(lowered(name), "virtualmidisynth"@)
}

/// Whether the port is that of the virtual synthesizer.
pub fn is_virtual_midi_synth_port(port_name: &str) -> (r: bool)
    ensures
        r == is_virtual_synth(port_name@),
{
    let chars = lower_chars(port_name);
    let part = chars_of("virtualmidisynth");
    holds_part(chars.as_slice(), part.as_slice())
}

/// The first port of the virtual synthesizer, from `from` on.
pub open spec fn first_virtual_synth(names: Seq<Seq<char>>, from: int) -> Option<int>
    decreases names.len() - from,
{
    if from < 0 || from >= names.len() {
        None
    } else if is_virtual_synth(names[from]) {
        Some(from)
    } else {
        first_virtual_synth(names, from + 1)
    }
}

/// The port to use where none is asked for: the virtual synthesizer, or the first.
pub open spec fn port_by_name(names: Seq<Seq<char>>) -> Option<int> {
    match first_virtual_synth(names, 0) {
        Some(index) => Some(index),
        None => if names.len() > 0 {
            Some(0)
        } else {
            None
        },
    }
}

/// What is in an index that may be missing.
pub open spec fn optional_index(index: Option<usize>) -> Option<int> {
    match index {
        Some(index) => Some(index as int),
        None => None,
    }
}

/// The port to use where none is asked for: the virtual synthesizer, or the first.
pub fn select_midi_output_port_by_name(port_names: &[String]) -> (r: Option<usize>)
    ensures
        optional_index(r) == port_by_name(texts(port_names@)),
{
    let ghost names = texts(port_names@);
    for index in 0..port_names.len()
        invariant
            names == texts(port_names@),
            first_virtual_synth(names, 0) == first_virtual_synth(names, index as int),
    {
        if is_virtual_midi_synth_port(port_names[index].as_str()) {
            return Some(index);
        }
    }
    if port_names.len() > 0 {
        Some(0)
    } else {
        None
    }
}

/// The port to use: the one asked for, where there is one of that number.
pub fn select_midi_output_port(port_names: &[String], requested: Option<usize>) -> (r: Option<
    usize,
>)
    ensures
        optional_index(r) == if requested matches Some(index) && index < port_names@.len() {
            optional_index(requested)
        } else {
            port_by_name(texts(port_names@))
        },
{
    if let Some(index) = requested {
        if index < port_names.len() {
            return Some(index);
        }
    }
    select_midi_output_port_by_name(port_names)
}

proof fn lemma_first_virtual_synth(names: Seq<Seq<char>>, from: int)
    requires
        0 <= from,
    ensures
        first_virtual_synth(names, from) matches Some(index) ==> from <= index < names.len(),
    decreases names.len() - from,
{
    if from < names.len() && !is_virtual_synth(names[from]) {
        lemma_first_virtual_synth(names, from + 1);
    }
}

/// A port is found exactly if there is one, and it is one of those there are.
pub proof fn lemma_port_is_one_of_them(names: Seq<Seq<char>>)
    ensures
        port_by_name(names) is Some <==> names.len() > 0,
        port_by_name(names) matches Some(index) ==> 0 <= index < names.len(),
{
    lemma_first_virtual_synth(names, 0);
}

// ---------------------------------------------------------------------------
// Profiles

/// The frames of a stack, outermost first, as hexadecimal numbers with semicolons
/// between them.
pub open spec fn folded(stack: Seq<u32>) -> Seq<char>
    decreases stack.len(),
{
    if stack.len() == 0 {
        Seq::empty()
    } else {
        let frame = seq!['0', 'x'] + hexadecimal(stack[0] as nat);
        if stack.len() == 1 {
            frame
        } else {
            folded(stack.skip(1)).push(';') + frame
        }
    }
}

/// A sample of a profile, as one line without its end.
pub open spec fn sample_line(stack: Seq<u32>, count: u32) -> Seq<char> {
    folded(stack).push(' ') + decimal(count as nat)
}

/// A sample of a profile, as one line without its end. The innermost frame of the
/// stack comes first.
pub fn fold_sample(stack: &[u32], count: u32) -> (r: String)
    ensures
        r@ == sample_line(stack@, count),
{
    let mut text = String::new();
    let mut index: usize = stack.len();
    assert(stack@.skip(index as int) =~= Seq::<u32>::empty());
    while index > 0
        invariant
            index <= stack@.len(),
            text@ == folded(stack@.skip(index as int)),
        decreases index,
    {
        let ghost before = text@;
        let ghost inner = stack@.skip(index as int);
        let ghost outer = stack@.skip(index - 1);
        assert(outer.skip(1) =~= inner);
        if index < stack.len() {
            text.push(';');
        }
        index -= 1;
        let frame = hexadecimal_text(stack[index]);
        let ghost start = text@;
        text.push('0');
        text.push('x');
        text.append(frame.as_str());
        assert(text@ =~= start + (seq!['0', 'x'] + hexadecimal(stack@[index as int] as nat)));
        assert(outer[0] == stack@[index as int]);
        proof {
            if outer.len() == 1 {
                assert(before =~= Seq::<char>::empty());
                assert(start =~= Seq::<char>::empty());
                assert(text@ =~= seq!['0', 'x'] + hexadecimal(stack@[index as int] as nat));
            }
        }
    }
    assert(stack@.skip(0) =~= stack@);
    text.push(' ');
    let number = decimal_text(count);
    text.append(number.as_str());
    text
}

// ---------------------------------------------------------------------------
// What names and commands come to

proof fn lemma_base_name(directory: Seq<char>, name: Seq<char>)
    requires
        !name.contains('/'),
    ensures
        base_name(directory.push('/') + name) == name,
{
    let path = directory.push('/') + name;
    lemma_behind_last(path, '/');
    let at = behind_last(path, '/');
    let slash = directory.len() as int;
    assert(path[slash] == '/');
    if at > slash + 1 {
        assert(path[at - 1] == name[at - 1 - slash - 1]);
        assert(name.contains(name[at - 1 - slash - 1]));
    }
    assert(at == slash + 1);
    assert(path.skip(at) =~= name);
}

proof fn lemma_ends_by_last(s: Seq<char>)
    ensures
        ends_in(s, "zip"@) ==> s.last() == 'p',
        ends_in(s, "jad"@) ==> s.last() == 'd',
        ends_in(s, "jar"@) ==> s.last() == 'r',
{
    reveal_strlit("zip");
    reveal_strlit("jad");
    reveal_strlit("jar");
    if ends_in(s, "zip"@) {
        lemma_found_part(s, "zip"@, s.len() - 3);
        assert("zip"@[2] == 'p');
    }
    if ends_in(s, "jad"@) {
        lemma_found_part(s, "jad"@, s.len() - 3);
        assert("jad"@[2] == 'd');
    }
    if ends_in(s, "jar"@) {
        lemma_found_part(s, "jar"@, s.len() - 3);
        assert("jar"@[2] == 'r');
    }
}

/// A JAR is started under the name of its file, without its directory, and its title is
/// that name without its ending. An archive is known by its ending alone.
pub proof fn lemma_jar_has_name_and_title(directory: Seq<char>, title: Seq<char>)
    requires
        !title.contains('/'),
        !ends_in(title, ".jar"@),
    ensures
        kind_of(directory.push('/') + (title + ".jar"@)) == Ok::<FileModel, StartError>(
            FileModel::Jar { name: title + ".jar"@, title },
        ),
        kind_of(directory + ".zip"@) == Ok::<FileModel, StartError>(FileModel::Zip),
{
    reveal_strlit(".jar");
    reveal_strlit(".zip");
    reveal_strlit("jar");
    reveal_strlit("zip");
    let name = title + ".jar"@;
    let path = directory.push('/') + name;
    if name.contains('/') {
        let i = choose|i: int| 0 <= i < name.len() && name[i] == '/';
        if i < title.len() {
            assert(title[i] == '/');
        } else {
            assert(name[i] == ".jar"@[i - title.len()]);
        }
    }
    lemma_base_name(directory, name);
    assert(path.subrange(path.len() - 3, path.len() as int) =~= "jar"@);
    assert(path.last() == 'r');
    lemma_ends_by_last(path);
    lemma_ends_are_cut(title, ".jar"@);
    let archive = directory + ".zip"@;
    assert(archive.subrange(archive.len() - 3, archive.len() as int) =~= "zip"@);
}

/// A description leads to the JAR of the same name beside it.
pub proof fn lemma_description_leads_to_its_jar(directory: Seq<char>, stem: Seq<char>)
    requires
        !stem.contains('/'),
        forall|i: int|
            0 <= i < directory.len() + 1 + stem.len() ==> !occurs_at(
                directory.push('/') + stem + ".jad"@,
                ".jad"@,
                i,
            ),
    ensures
        kind_of(directory.push('/') + stem + ".jad"@) == Ok::<FileModel, StartError>(
            FileModel::Jad {
                jar_path: directory.push('/') + stem + ".jar"@,
                jar_name: stem + ".jar"@,
            },
        ),
{
    reveal_strlit(".jad");
    reveal_strlit(".jar");
    reveal_strlit("jad");
    let before = directory.push('/') + stem;
    let path = before + ".jad"@;
    let none = Seq::<char>::empty();
    assert(before + ".jad"@ + none =~= path);
    lemma_first_find_is_replaced(before, ".jad"@, none, ".jar"@);
    assert(before + ".jar"@ + replaced(none, ".jad"@, ".jar"@, 0) =~= before + ".jar"@);
    assert(path.subrange(path.len() - 3, path.len() as int) =~= "jad"@);
    assert(path.last() == 'd');
    lemma_ends_by_last(path);
    let name = stem + ".jar"@;
    if name.contains('/') {
        let i = choose|i: int| 0 <= i < name.len() && name[i] == '/';
        if i < stem.len() {
            assert(stem[i] == '/');
        } else {
            assert(name[i] == ".jar"@[i - stem.len()]);
        }
    }
    lemma_base_name(directory, name);
    assert(before + ".jar"@ =~= directory.push('/') + name);
}

/// A file that ends in none of the known endings is refused.
pub proof fn lemma_other_files_are_refused(path: Seq<char>)
    requires
        path.len() == 0 || (path.last() != 'p' && path.last() != 'd' && path.last() != 'r'),
    ensures
        kind_of(path) == Err::<FileModel, StartError>(StartError::UnknownFile),
{
    reveal_strlit("zip");
    reveal_strlit("jad");
    reveal_strlit("jar");
    lemma_ends_by_last(path);
}

/// A runtime is used only for a file that it can run, in the order KTF, LGT, SKT; the
/// generic one is for the JARs that none of them can run and for all descriptions, and
/// an archive that none of them can run is refused.
pub proof fn lemma_runtimes_are_tried_in_order(kind: FileModel, loadable: Loadable)
    ensures
        kind is Jad ==> runtime_for(kind, loadable) == Ok::<Runtime, StartError>(Runtime::J2me),
        runtime_for(kind, loadable) == Ok::<Runtime, StartError>(Runtime::Ktf) <==> !(kind is Jad)
            && loadable.ktf,
        runtime_for(kind, loadable) == Ok::<Runtime, StartError>(Runtime::Lgt) <==> !(kind is Jad)
            && !loadable.ktf && loadable.lgt,
        runtime_for(kind, loadable) == Ok::<Runtime, StartError>(Runtime::Skt) <==> !(kind is Jad)
            && !loadable.ktf && !loadable.lgt && loadable.skt,
        runtime_for(kind, loadable) is Err <==> kind is Zip && !loadable.ktf && !loadable.lgt
            && !loadable.skt,
        runtime_for(kind, loadable) matches Err(error) ==> error == StartError::UnknownArchive,
{
}

/// Commands hand on their events, all of them, in the order in which they came.
pub proof fn lemma_commands_keep_their_events(
    before: Seq<EmulatorCommand>,
    after: Seq<EmulatorCommand>,
    event: Event,
)
    ensures
        events_in(before + after) == events_in(before) + events_in(after),
        events_in(seq![EmulatorCommand::Event(event)]) == seq![event],
        events_in(seq![EmulatorCommand::Shutdown]).len() == 0,
    decreases after.len(),
{
    reveal_with_fuel(events_in, 2);
    let one = seq![EmulatorCommand::Event(event)];
    let end = seq![EmulatorCommand::Shutdown];
    assert(one.drop_last().len() == 0 && one.last() == EmulatorCommand::Event(event));
    assert(end.drop_last().len() == 0 && end.last() == EmulatorCommand::Shutdown);
    assert(events_in(one) =~= seq![event]);
    if after.len() > 0 {
        lemma_commands_keep_their_events(before, after.drop_last(), event);
        assert((before + after).drop_last() =~= before + after.drop_last());
        assert((before + after).last() == after.last());
        assert(events_in(before + after) =~= events_in(before) + events_in(after));
    } else {
        assert(before + after =~= before);
        assert(events_in(before) + events_in(after) =~= events_in(before));
    }
}

/// The virtual synthesizer is known by its name within that of the port, whatever the
/// case of the letters.
pub proof fn lemma_virtual_synth_is_known(before: Seq<char>, name: Seq<char>, after: Seq<char>)
    requires
        lowered(name) == "virtualmidisynth"@,
    ensures
        is_virtual_synth(before + name + after),
{
    let whole = before + name + after;
    assert(lowered(whole) =~= lowered(before) + lowered(name) + lowered(after));
    lemma_part_is_found(lowered(before), lowered(name), lowered(after));
}

proof fn lemma_first_synth_is_first(names: Seq<Seq<char>>, from: int, i: int)
    requires
        0 <= from <= i < names.len(),
        is_virtual_synth(names[i]),
    ensures
        first_virtual_synth(names, from) matches Some(index) && from <= index <= i
            && is_virtual_synth(names[index]),
    decreases i - from,
{
    if !is_virtual_synth(names[from]) {
        lemma_first_synth_is_first(names, from + 1, i);
    }
}

/// The port of the first virtual synthesizer is used where there is one.
pub proof fn lemma_first_virtual_synth_is_used(names: Seq<Seq<char>>, i: int)
    requires
        0 <= i < names.len(),
    ensures
        is_virtual_synth(names[i]) ==> (port_by_name(names) matches Some(index) && 0 <= index <= i
            && is_virtual_synth(names[index])),
        (forall|j: int| 0 <= j < names.len() ==> !is_virtual_synth(#[trigger] names[j]))
            ==> port_by_name(names) == Some(0int),
{
    if is_virtual_synth(names[i]) {
        lemma_first_synth_is_first(names, 0, i);
    }
    lemma_first_virtual_synth(names, 0);
    lemma_found_synth(names, 0);
}

proof fn lemma_found_synth(names: Seq<Seq<char>>, from: int)
    requires
        0 <= from,
    ensures
        first_virtual_synth(names, from) matches Some(index) ==> from <= index < names.len()
            && is_virtual_synth(names[index]),
    decreases names.len() - from,
{
    if from < names.len() && !is_virtual_synth(names[from]) {
        lemma_found_synth(names, from + 1);
    }
}

/// A stack is written from its outermost frame inwards, each frame as a hexadecimal
/// number, with a semicolon before each frame but the first. A blank and the count end
/// the line.
pub proof fn lemma_stack_is_written_outermost_first(stack: Seq<u32>, outer: u32, count: u32)
    ensures
        stack.len() > 0 ==> folded(stack.push(outer)) == seq!['0', 'x'] + hexadecimal(outer as nat)
            + seq![';'] + folded(stack),
        folded(seq![outer]) == seq!['0', 'x'] + hexadecimal(outer as nat),
        sample_line(stack, count) == folded(stack) + seq![' '] + decimal(count as nat),
    decreases stack.len(),
{
    let one = seq![outer];
    assert(one[0] == outer);
    assert(folded(one) =~= seq!['0', 'x'] + hexadecimal(outer as nat));
    assert(sample_line(stack, count) =~= folded(stack) + seq![' '] + decimal(count as nat));
    if stack.len() > 0 {
        let whole = stack.push(outer);
        let rest = stack.skip(1);
        assert(whole.skip(1) =~= rest.push(outer));
        assert(whole[0] == stack[0]);
        let head = seq!['0', 'x'] + hexadecimal(outer as nat);
        let frame = seq!['0', 'x'] + hexadecimal(stack[0] as nat);
        if rest.len() > 0 {
            lemma_stack_is_written_outermost_first(rest, outer, count);
            assert((head + seq![';'] + folded(rest)).push(';') + frame =~= head + seq![';'] + (
            folded(rest).push(';') + frame));
        } else {
            assert(rest.push(outer) =~= one);
            assert(folded(one).push(';') + frame =~= head + seq![';'] + frame);
        }
    }
}

} // verus!
