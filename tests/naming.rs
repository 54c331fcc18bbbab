use notefs::naming::{decimal_string, names_contain, stem_string, unique_copy_name};

fn names(list: &[&str]) -> Vec<String> {
    list.iter().map(|s| s.to_string()).collect()
}

#[test]
fn decimal_string_spells_numbers() {
    assert_eq!(decimal_string(0), "0");
    assert_eq!(decimal_string(7), "7");
    assert_eq!(decimal_string(10), "10");
    assert_eq!(decimal_string(4096), "4096");
    assert_eq!(decimal_string(u64::MAX), "18446744073709551615");
}

#[test]
fn stem_follows_the_last_dot() {
    assert_eq!(stem_string("a.txt"), "a");
    assert_eq!(stem_string("archive.tar.gz"), "archive.tar");
    assert_eq!(stem_string(".bashrc"), ".bashrc");
    assert_eq!(stem_string("README"), "README");
    assert_eq!(stem_string("a."), "a");
}

#[test]
fn names_contain_compares_whole_names() {
    let taken = names(&["a.txt", "b"]);
    assert!(names_contain(&taken, &"b".to_string()));
    assert!(!names_contain(&taken, &"a".to_string()));
    assert!(!names_contain(&Vec::new(), &"a".to_string()));
}

#[test]
fn free_name_is_kept() {
    assert_eq!(unique_copy_name("a.txt", &names(&["b.txt"])), "a.txt");
    assert_eq!(unique_copy_name("a.txt", &Vec::new()), "a.txt");
}

#[test]
fn taken_name_gets_first_copy_number() {
    assert_eq!(unique_copy_name("a.txt", &names(&["a.txt"])), "a_copy_1.txt");
    assert_eq!(unique_copy_name("notes", &names(&["notes"])), "notes_copy_1");
    assert_eq!(unique_copy_name("a.", &names(&["a."])), "a_copy_1");
    assert_eq!(unique_copy_name(".env", &names(&[".env"])), ".env_copy_1");
}

#[test]
fn copies_count_up_without_gaps() {
    let mut taken = names(&["a.txt"]);
    let mut made = Vec::new();
    for _ in 0..4 {
        let n = unique_copy_name("a.txt", &taken);
        taken.push(n.clone());
        made.push(n);
    }
    assert_eq!(made, names(&["a_copy_1.txt", "a_copy_2.txt", "a_copy_3.txt", "a_copy_4.txt"]));
}

#[test]
fn first_gap_is_filled() {
    let taken = names(&["a.txt", "a_copy_1.txt", "a_copy_3.txt"]);
    assert_eq!(unique_copy_name("a.txt", &taken), "a_copy_2.txt");
}
