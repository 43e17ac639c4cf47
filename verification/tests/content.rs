use wie::content::{
    content_from_game_info, content_name, emulator_options, file_name_of, find_jar, load_emulator,
    ContentError, ContentSource, EmulatorChoice, GameInfo, GameInfoExt, Loadable, LoadedContent,
};
use wie::options::RuntimeOption;

fn names(list: &[&str]) -> Vec<String> {
    list.iter().map(|name| (*name).to_owned()).collect()
}

const NOTHING: Loadable = Loadable { ktf: false, lgt: false, skt: false };

#[test]
fn the_first_jar_is_taken() {
    assert_eq!(find_jar(&names(&["a.txt", "b.jar", "c.jar"])), Ok("b.jar".to_owned()));
    assert_eq!(find_jar(&names(&["c.jar", "b.jar", "B.txt", "bb.jar"])), Ok("b.jar".to_owned()));
    assert_eq!(find_jar(&names(&["a.jar.txt"])), Err(ContentError::NoJar));
}

#[test]
fn runtimes_are_found_in_order() {
    let files = names(&["x.jar"]);
    let auto = |loadable| load_emulator(loadable, &files, RuntimeOption::Auto);
    assert!(matches!(auto(Loadable { ktf: true, lgt: true, skt: true }), Ok(EmulatorChoice::Ktf)));
    assert!(matches!(auto(Loadable { ktf: false, lgt: true, skt: true }), Ok(EmulatorChoice::Lgt)));
    assert!(matches!(auto(Loadable { ktf: false, lgt: false, skt: true }), Ok(EmulatorChoice::Skt)));
    assert!(matches!(auto(NOTHING), Ok(EmulatorChoice::J2me { jar }) if jar == "x.jar"));
    assert!(matches!(load_emulator(NOTHING, &[], RuntimeOption::Auto), Err(ContentError::NoJar)));
}

#[test]
fn forced_runtimes_must_fit() {
    let files = names(&["x.jar"]);
    let all = Loadable { ktf: true, lgt: true, skt: true };
    assert!(matches!(load_emulator(all, &files, RuntimeOption::Lgt), Ok(EmulatorChoice::Lgt)));
    assert!(matches!(load_emulator(all, &files, RuntimeOption::J2me), Ok(EmulatorChoice::J2me { .. })));
    let refused = |runtime| match load_emulator(NOTHING, &files, runtime) {
        Err(error) => error,
        Ok(_) => panic!("accepted"),
    };
    assert_eq!(refused(RuntimeOption::Ktf), ContentError::NotKtf);
    assert_eq!(refused(RuntimeOption::Lgt), ContentError::NotLgt);
    assert_eq!(refused(RuntimeOption::Skt), ContentError::NotSkt);
    assert_eq!(ContentError::NotLgt.message(), "Content is not an LGT archive");
    assert!(!emulator_options().enable_gdbserver);
}

#[test]
fn content_is_called_like_its_file() {
    assert_eq!(file_name_of("/a/b/c.zip"), Some("c.zip".to_owned()));
    assert_eq!(file_name_of("c.zip/"), Some("c.zip".to_owned()));
    assert_eq!(file_name_of("/a/.."), None);
    assert_eq!(file_name_of("/"), None);
    assert_eq!(content_name(Some("/a/b.zip"), Some("n"), Some("zip")), "b.zip");
    assert_eq!(content_name(None, Some("n"), Some("zip")), "n.zip");
    assert_eq!(content_name(Some("/"), Some("n"), Some("")), "n");
    assert_eq!(content_name(None, Some("n"), None), "n");
    assert_eq!(content_name(None, None, Some("zip")), "content");
}

#[test]
fn memory_comes_before_files() {
    let game = GameInfo { path: Some("/g/x.zip".to_owned()), in_memory: Some(4) };
    let (name, source) = content_from_game_info(&game, None).unwrap();
    assert_eq!(name, "x.zip");
    assert!(matches!(source, ContentSource::Memory));

    let game = GameInfo { path: Some("/g/x.zip".to_owned()), in_memory: Some(0) };
    let (_, source) = content_from_game_info(&game, None).unwrap();
    assert!(matches!(source, ContentSource::File { path } if path == "/g/x.zip"));

    let ext = GameInfoExt {
        full_path: None,
        name: Some("y".to_owned()),
        ext: Some("zip".to_owned()),
        in_memory: Some(1),
    };
    let (name, source) = content_from_game_info(&game, Some(&ext)).unwrap();
    assert_eq!(name, "y.zip");
    assert!(matches!(source, ContentSource::Memory));

    let nothing = GameInfo { path: None, in_memory: None };
    assert_eq!(
        content_from_game_info(&nothing, None).err(),
        Some("Frontend did not provide content data or a readable path")
    );
    let ext = GameInfoExt { full_path: None, name: None, ext: None, in_memory: None };
    assert_eq!(
        content_from_game_info(&game, Some(&ext)).err(),
        Some("Frontend did not provide content data or a readable full path")
    );
}

#[test]
fn content_holds_its_bytes() {
    let content = LoadedContent::single("test.zip".to_owned(), vec![1, 2]);
    assert_eq!(content.name, "test.zip");
    assert_eq!(*content.data, vec![1, 2]);
}
