use notefs::error::{Existing, FsError};
use notefs::paths::{
    claim_new_path, copy_destination, copy_target, entry_name, explorer_target, join_path, md_file_path,
    plain_name, rename_target,
};

#[test]
fn join_path_puts_one_separator() {
    assert_eq!(join_path("/notes", "a.md"), "/notes/a.md");
    assert_eq!(join_path("/notes/", "a.md"), "/notes/a.md");
    assert_eq!(join_path("", "a.md"), "a.md");
    assert_eq!(join_path("/notes", "/tmp/x"), "/tmp/x");
}

#[test]
fn plain_names() {
    assert!(plain_name("notes"));
    assert!(plain_name(".hidden"));
    assert!(!plain_name(""));
    assert!(!plain_name("."));
    assert!(!plain_name(".."));
    assert!(!plain_name("a/b"));
}

#[test]
fn md_file_path_forces_the_extension() {
    assert_eq!(md_file_path("/d", "notes"), Ok("/d/notes.md".to_string()));
    assert_eq!(md_file_path("/d", "notes.md"), Ok("/d/notes.md".to_string()));
    assert_eq!(md_file_path("/d", "todo.txt"), Ok("/d/todo.md".to_string()));
    assert_eq!(md_file_path("/d", ".plan"), Ok("/d/.plan.md".to_string()));
    assert_eq!(md_file_path("/d", "a/b"), Err(FsError::InvalidPath));
}

#[test]
fn second_create_is_refused() {
    let p = md_file_path("/d", "notes").unwrap();
    assert_eq!(claim_new_path(p.clone(), false, Existing::File), Ok("/d/notes.md".to_string()));
    assert_eq!(claim_new_path(p, true, Existing::File), Err(FsError::AlreadyExists(Existing::File)));
}

#[test]
fn copy_into_directory_with_same_name() {
    let taken = vec!["a.txt".to_string()];
    assert_eq!(copy_target("a.txt", "/d", &taken), "/d/a_copy_1.txt");
    assert_eq!(copy_destination("/src/a.txt", "/d", &taken), Ok("/d/a_copy_1.txt".to_string()));
    assert_eq!(copy_destination("/src/a.txt", "/d", &Vec::new()), Ok("/d/a.txt".to_string()));
}

#[test]
fn copy_of_path_without_file_name_is_refused() {
    assert_eq!(copy_destination("/", "/d", &Vec::new()), Err(FsError::InvalidSourcePath));
    assert_eq!(copy_destination("/x/..", "/d", &Vec::new()), Err(FsError::InvalidSourcePath));
}

#[test]
fn rename_stays_in_the_parent() {
    assert_eq!(rename_target("/notes/a.md", "b.md"), Ok("/notes/b.md".to_string()));
    assert_eq!(rename_target("/", "b.md"), Err(FsError::InvalidPath));
}

#[test]
fn rename_onto_sibling_is_refused() {
    let target = rename_target("/notes/a.md", "b.md").unwrap();
    assert_eq!(
        claim_new_path(target, true, Existing::Sibling),
        Err(FsError::AlreadyExists(Existing::Sibling))
    );
}

#[test]
fn entry_name_is_final_component() {
    assert_eq!(entry_name("/notes/sub/a.md"), "a.md");
    assert_eq!(entry_name("/notes/sub/"), "sub");
    assert_eq!(entry_name("/"), "/");
}

#[test]
fn explorer_opens_the_folder_of_a_file() {
    assert_eq!(explorer_target("/notes/a.md", true), "/notes");
    assert_eq!(explorer_target("/notes", false), "/notes");
    assert_eq!(explorer_target("/", true), "/");
}
