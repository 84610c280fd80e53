use dupfinder::cli::{plan_run, RunPlan};
use dupfinder::paths::{file_name_of, join_path, parent_of, str_eq};

#[test]
fn parent_is_the_text_before_the_last_slash() {
    assert_eq!(parent_of("/a/x.txt"), "/a".to_string());
    assert_eq!(parent_of("/a/b/c.txt"), "/a/b".to_string());
    assert_eq!(parent_of("x.txt"), "".to_string());
    assert_eq!(parent_of("/x.txt"), "".to_string());
    assert_eq!(parent_of(""), "".to_string());
}

#[test]
fn file_name_is_the_text_after_the_last_slash() {
    assert_eq!(file_name_of("/a/x.txt"), "x.txt".to_string());
    assert_eq!(file_name_of("x.txt"), "x.txt".to_string());
    assert_eq!(file_name_of("/a/b/"), "".to_string());
}

#[test]
fn join_inserts_one_separator() {
    assert_eq!(join_path("/backup", "x.txt"), "/backup/x.txt".to_string());
    assert_eq!(join_path("", "x.txt"), "/x.txt".to_string());
}

#[test]
fn join_then_split_gives_the_parts_back() {
    let joined = join_path("/dest/dir", "name.bin");
    assert_eq!(parent_of(&joined), "/dest/dir".to_string());
    assert_eq!(file_name_of(&joined), "name.bin".to_string());
}

#[test]
fn str_eq_compares_characters() {
    assert!(str_eq("abc", "abc"));
    assert!(str_eq("", ""));
    assert!(!str_eq("abc", "abd"));
    assert!(!str_eq("abc", "ab"));
}

#[test]
fn no_arguments_means_usage() {
    assert_eq!(plan_run(&vec!["dupfinder".to_string()]), RunPlan::Usage);
    assert_eq!(plan_run(&Vec::new()), RunPlan::Usage);
}

#[test]
fn arguments_after_the_program_name_are_roots() {
    let args = vec!["dupfinder".to_string(), "/a".to_string(), "/b".to_string()];
    match plan_run(&args) {
        RunPlan::Scan { roots } => {
            assert_eq!(roots, vec!["/a".to_string(), "/b".to_string()]);
        }
        RunPlan::Usage => panic!("expected a scan plan"),
    }
}
