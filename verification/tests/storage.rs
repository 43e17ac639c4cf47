use std::path::PathBuf;

use wie::option_list::DirectoryEntry;
use wie::storage::{
    split_path, DiskPath, LibretroDatabase, LibretroDatabaseRepository, LibretroFilesystem,
};

fn on_disk(path: DiskPath) -> PathBuf {
    let mut full = PathBuf::from(path.base);
    full.extend(path.parts);
    full
}

fn entry(name: &str, is_file: bool) -> DirectoryEntry {
    DirectoryEntry { name: name.to_owned(), is_file }
}

#[test]
fn database_path_stays_inside_app_scope() {
    let repo = LibretroDatabaseRepository::new("/tmp/wie".to_owned());
    let path = on_disk(repo.path_for_database("/../save0.dat", "PD140106"));

    assert!(path.starts_with(PathBuf::from("/tmp/wie/PD140106/db")));
}

#[test]
fn path_rejects_parent_components() {
    let fs = LibretroFilesystem::new("/tmp/wie".to_owned());

    assert!(fs.path_for("game", "../escape").is_none());
}

#[test]
fn path_scopes_by_aid() {
    let fs = LibretroFilesystem::new("/tmp/wie".to_owned());

    assert_eq!(
        fs.path_for("game", "save.bin").map(on_disk),
        Some(PathBuf::from("/tmp/wie/game/fs/save.bin"))
    );
}

#[test]
fn database_names_are_made_safe() {
    let repo = LibretroDatabaseRepository::new("/b".to_owned());
    let parts = |name: &str, app: &str| repo.path_for_database(name, app).parts;
    assert_eq!(parts("/../save0.dat", "PD1"), vec!["PD1", "db", "_", "save0.dat"]);
    assert_eq!(parts("a/./b//c", "x/y\\z"), vec!["xyz", "db", "a", "b", "c"]);
    assert_eq!(parts("a\\b\0c", ".."), vec!["_", "db", "a_b_c"]);
    assert_eq!(parts("///", "/"), vec!["_", "db", "_"]);
    assert_eq!(parts("", "."), vec!["_", "db", "_"]);
}

#[test]
fn file_paths_are_checked() {
    let fs = LibretroFilesystem::new("/b".to_owned());
    let parts = |aid: &str, path: &str| fs.path_for(aid, path).map(|path| path.parts);
    assert_eq!(
        parts("g/a", "./x//y/"),
        Some(vec!["ga".to_owned(), "fs".to_owned(), "x".to_owned(), "y".to_owned()])
    );
    assert_eq!(parts("g", "/x"), None);
    assert_eq!(parts("g", "x/../y"), None);
    assert_eq!(parts("g", ""), None);
    assert_eq!(parts("g", "./."), None);
    assert_eq!(parts("..", "x"), None);
    assert_eq!(parts("//", "x"), None);
    assert_eq!(split_path("a/../b"), vec!["a", "..", "b"]);
}

#[test]
fn records_have_the_first_free_number() {
    assert_eq!(LibretroDatabase::next_free_record_id(&[]), 1);
    assert_eq!(LibretroDatabase::next_free_record_id(&[1, 2, 4]), 3);
    assert_eq!(LibretroDatabase::next_free_record_id(&[2, 1]), 3);
    assert_eq!(LibretroDatabase::next_free_record_id(&[5]), 1);
}

#[test]
fn records_are_files_with_numbers() {
    let entries =
        vec![entry("1", true), entry("02", true), entry("3", false), entry("x", true), entry("+4", true)];
    assert_eq!(LibretroDatabase::get_record_ids(&entries), vec![1, 2, 4]);
    assert_eq!(LibretroDatabase::taken_record_ids(&entries), vec![1, 3]);

    let repo = LibretroDatabaseRepository::new("/b".to_owned());
    let database = LibretroDatabase::new(repo.path_for_database("scores", "app"));
    assert_eq!(on_disk(database.path_for_record(120)), PathBuf::from("/b/app/db/scores/120"));
}

#[test]
fn reads_and_writes_go_by_the_size() {
    assert_eq!(LibretroFilesystem::read_len(10, 4, 3, 100), 3);
    assert_eq!(LibretroFilesystem::read_len(10, 4, 30, 100), 6);
    assert_eq!(LibretroFilesystem::read_len(10, 4, 30, 2), 2);
    assert_eq!(LibretroFilesystem::read_len(10, 10, 1, 1), 0);
    assert_eq!(LibretroFilesystem::extended_len(10, 11), Some(11));
    assert_eq!(LibretroFilesystem::extended_len(10, 10), None);
}
