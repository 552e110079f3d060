use chuckfmt::args::{
    expand_files_from_list, files_list_path, find_option_value_in, has_assume_filename,
    is_value_taker, split_opts_files,
};

fn strings(v: &[&str]) -> Vec<String> {
    v.iter().map(|s| s.to_string()).collect()
}

#[test]
fn separator_splits_options_from_files() {
    let args = strings(&["-style=llvm", "foo.ck", "--", "a.ck", "-", "--", "-b.ck"]);
    let (opts, files) = split_opts_files(&args);
    assert_eq!(opts, strings(&["-style=llvm", "foo.ck"]));
    assert_eq!(files, strings(&["a.ck", "-b.ck"]));
}

#[test]
fn separator_at_end_gives_no_files() {
    let args = strings(&["-i", "--"]);
    let (opts, files) = split_opts_files(&args);
    assert_eq!(opts, strings(&["-i"]));
    assert!(files.is_empty());
}

#[test]
fn value_after_value_taking_option_is_an_option() {
    let args = strings(&["--style", "file.ck", "a.ck", "-assume-filename", "b.ck"]);
    let (opts, files) = split_opts_files(&args);
    assert_eq!(opts, strings(&["--style", "file.ck", "-assume-filename", "b.ck"]));
    assert_eq!(files, strings(&["a.ck"]));
}

#[test]
fn dashes_and_argument_files_are_options() {
    let args = strings(&["-", "-i", "@args.txt", "x.ck", "--Wno-error=unknown"]);
    let (opts, files) = split_opts_files(&args);
    assert_eq!(opts, strings(&["-", "-i", "@args.txt", "--Wno-error=unknown"]));
    assert_eq!(files, strings(&["x.ck"]));
}

#[test]
fn value_taking_option_at_end_has_no_value() {
    let args = strings(&["a.ck", "--lines"]);
    let (opts, files) = split_opts_files(&args);
    assert_eq!(opts, strings(&["--lines"]));
    assert_eq!(files, strings(&["a.ck"]));
}

#[test]
fn option_used_as_value_does_not_take_the_next_token() {
    let args = strings(&["--style", "--style", "foo.ck"]);
    let (opts, files) = split_opts_files(&args);
    assert_eq!(opts, strings(&["--style", "--style"]));
    assert_eq!(files, strings(&["foo.ck"]));
}

#[test]
fn registry_holds_both_spellings() {
    assert!(is_value_taker("--qualifier-alignment"));
    assert!(is_value_taker("-qualifier-alignment"));
    assert!(is_value_taker("-files"));
    assert!(!is_value_taker("-i"));
    assert!(!is_value_taker("--style=llvm"));
}

#[test]
fn joined_value_wins_over_separate_value() {
    let opts = strings(&["--files", "first.txt", "-files=second.txt"]);
    assert_eq!(
        find_option_value_in(&opts, "--files", "-files"),
        Some("second.txt".to_string())
    );
}

#[test]
fn separate_value_is_the_next_token() {
    let opts = strings(&["-i", "-files", "list.txt"]);
    assert_eq!(
        find_option_value_in(&opts, "--files", "-files"),
        Some("list.txt".to_string())
    );
    assert_eq!(files_list_path(&opts), Some("list.txt".to_string()));
}

#[test]
fn option_without_value_gives_none() {
    let opts = strings(&["-i", "--files"]);
    assert_eq!(find_option_value_in(&opts, "--files", "-files"), None);
    assert_eq!(files_list_path(&strings(&["-i"])), None);
}

#[test]
fn joined_value_may_be_empty() {
    let opts = strings(&["--files="]);
    assert_eq!(files_list_path(&opts), Some(String::new()));
}

#[test]
fn assume_filename_in_any_spelling() {
    assert!(has_assume_filename(&strings(&["-i", "--assume-filename=x.java"])));
    assert!(has_assume_filename(&strings(&["-assume-filename", "x.java"])));
    assert!(has_assume_filename(&strings(&["--assume-filename"])));
    assert!(has_assume_filename(&strings(&["-assume-filename=y"])));
    assert!(!has_assume_filename(&strings(&["-i", "--assume-file=x"])));
    assert!(!has_assume_filename(&[]));
}

#[test]
fn file_list_with_three_names_and_a_blank_line() {
    let mut files = strings(&["first.ck"]);
    expand_files_from_list(&mut files, "a.ck\nb.ck\n\nc.ck\n");
    assert_eq!(files, strings(&["first.ck", "a.ck", "b.ck", "c.ck"]));
}

#[test]
fn file_list_lines_are_trimmed() {
    let mut files = Vec::new();
    expand_files_from_list(&mut files, "  a b.ck \r\n\t\r\n   \nlast.ck");
    assert_eq!(files, strings(&["a b.ck", "last.ck"]));
}

#[test]
fn empty_file_list_adds_nothing() {
    let mut files = strings(&["x.ck"]);
    expand_files_from_list(&mut files, "");
    expand_files_from_list(&mut files, "\n\n \n");
    assert_eq!(files, strings(&["x.ck"]));
}
