use docker_volume_backup::entry_path::ArchiveEntryPath;
use docker_volume_backup::negative_index::NegativeIndex;

fn components(text: &str) -> Vec<String> {
    ArchiveEntryPath::from_text(text).components().clone()
}

fn volume(text: &str) -> Option<String> {
    ArchiveEntryPath::from_text(text).volume_name()
}

#[test]
fn components_of_a_volume_entry() {
    assert_eq!(components("./vol-a/f1"), vec![".", "vol-a", "f1"]);
    assert_eq!(components("./vol-a/sub/f2"), vec![".", "vol-a", "sub", "f2"]);
}

#[test]
fn components_of_a_rooted_path_start_with_the_root() {
    assert_eq!(components("/vol/f"), vec!["/", "vol", "f"]);
    assert_eq!(components("/"), vec!["/"]);
    assert_eq!(components("//"), vec!["/"]);
}

#[test]
fn components_skip_empty_pieces_and_inner_dots() {
    assert_eq!(components("./vol-a//sub/./f"), vec![".", "vol-a", "sub", "f"]);
    assert_eq!(components("vol-a/./f/"), vec!["vol-a", "f"]);
    assert_eq!(components("/./a"), vec!["/", "a"]);
    assert_eq!(components("./."), vec!["."]);
}

#[test]
fn components_keep_a_leading_dot_and_every_double_dot() {
    assert_eq!(components("."), vec!["."]);
    assert_eq!(components("./"), vec!["."]);
    assert_eq!(components("./../x"), vec![".", "..", "x"]);
    assert_eq!(components("a/.."), vec!["a", ".."]);
    assert_eq!(components(".hidden/...").len(), 2);
}

#[test]
fn components_of_the_empty_text_are_none() {
    assert_eq!(components(""), Vec::<String>::new());
}

#[test]
fn components_hold_text_beyond_ascii() {
    assert_eq!(components("./völ/üñí/日本"), vec![".", "völ", "üñí", "日本"]);
}

#[test]
fn ancestor_depths_of_a_relative_path_end_with_the_empty_path() {
    assert_eq!(ArchiveEntryPath::from_text("./vol-a/f1").ancestor_depths(), vec![3, 2, 1, 0]);
    assert_eq!(ArchiveEntryPath::from_text("").ancestor_depths(), vec![0]);
}

#[test]
fn ancestor_depths_of_a_rooted_path_end_with_the_root() {
    assert_eq!(ArchiveEntryPath::from_text("/a/b").ancestor_depths(), vec![3, 2, 1]);
    assert_eq!(ArchiveEntryPath::from_text("/").ancestor_depths(), vec![1]);
}

#[test]
fn volume_is_the_directory_under_the_leading_dot() {
    assert_eq!(volume("./vol-a/f1"), Some("vol-a".to_string()));
    assert_eq!(volume("./vol-a/sub/f2"), Some("vol-a".to_string()));
    assert_eq!(volume("./vol-b/f3"), Some("vol-b".to_string()));
    assert_eq!(volume("./vol-a/"), Some("vol-a".to_string()));
    assert_eq!(volume("./vol-a"), Some("vol-a".to_string()));
}

#[test]
fn shallow_paths_name_no_volume() {
    assert_eq!(volume(""), None);
    assert_eq!(volume("."), None);
    assert_eq!(volume("./"), None);
    assert_eq!(volume("file"), None);
    assert_eq!(volume("/"), None);
    assert_eq!(volume("/a"), None);
}

#[test]
fn volume_of_a_path_without_leading_dot_is_its_second_component() {
    assert_eq!(volume("vol-a/f1"), Some("f1".to_string()));
    assert_eq!(volume("vol-a/f1/deep/er"), Some("f1".to_string()));
}

#[test]
fn volume_of_a_rooted_path_is_its_second_name() {
    assert_eq!(volume("/vol/f"), Some("f".to_string()));
    assert_eq!(volume("/vol/f/g"), Some("f".to_string()));
}

#[test]
fn double_dot_in_the_place_of_the_volume_names_none() {
    assert_eq!(volume("./../x"), None);
    assert_eq!(volume("a/.."), None);
    assert_eq!(volume("/a/../b"), None);
}

#[test]
fn neg_index_counts_from_the_end_for_negative_indices() {
    let items = vec![10, 20, 30];
    assert_eq!(items.neg_index(-1), Some(&30));
    assert_eq!(items.neg_index(-2), Some(&20));
    assert_eq!(items.neg_index(-3), Some(&10));
}

#[test]
fn neg_index_counts_from_the_front_otherwise() {
    let items = vec![10, 20, 30];
    assert_eq!(items.neg_index(0), Some(&10));
    assert_eq!(items.neg_index(2), Some(&30));
}

#[test]
fn neg_index_is_none_out_of_range() {
    let items = vec![10, 20, 30];
    assert_eq!(items.neg_index(3), None);
    assert_eq!(items.neg_index(-4), None);
    assert_eq!(items.neg_index(isize::MAX), None);
    assert_eq!(items.neg_index(isize::MIN), None);
    let nothing: Vec<u8> = Vec::new();
    assert_eq!(nothing.neg_index(0), None);
    assert_eq!(nothing.neg_index(-1), None);
}
