use chuckfmt::args::split_opts_files;
use chuckfmt::driver::{
    exe_name, plan_invocation, resolve_formatter, search_names, ConfigError, Mode, UsageError,
};

fn strings(v: &[&str]) -> Vec<String> {
    v.iter().map(|s| s.to_string()).collect()
}

#[test]
fn in_place_without_files_is_a_usage_error() {
    let args = strings(&["-i", "-style=llvm"]);
    let (opts, files) = split_opts_files(&args);
    let r = plan_invocation(opts, files);
    assert!(matches!(r, Err(UsageError::InPlaceWithoutFiles)));
}

#[test]
fn in_place_drops_the_flag_and_adds_assumed_name() {
    let args = strings(&["-i", "a.ck", "b.ck"]);
    let (opts, files) = split_opts_files(&args);
    let inv = plan_invocation(opts, files).expect("files given");
    assert_eq!(inv.mode, Mode::InPlace);
    assert_eq!(inv.opts, strings(&["--assume-filename=code.java"]));
    assert_eq!(inv.files, strings(&["a.ck", "b.ck"]));
}

#[test]
fn given_assumed_name_is_kept() {
    let args = strings(&["--assume-filename", "x.cpp", "a.ck"]);
    let (opts, files) = split_opts_files(&args);
    let inv = plan_invocation(opts, files).expect("no in-place flag");
    assert_eq!(inv.mode, Mode::FilesToStdout);
    assert_eq!(inv.opts, strings(&["--assume-filename", "x.cpp"]));
}

#[test]
fn no_files_reads_standard_input() {
    let args = strings(&["-style=llvm"]);
    let (opts, files) = split_opts_files(&args);
    let inv = plan_invocation(opts, files).expect("no in-place flag");
    assert_eq!(inv.mode, Mode::StdinToStdout);
    assert_eq!(inv.opts, strings(&["-style=llvm", "--assume-filename=code.java"]));
    assert!(inv.files.is_empty());
}

#[test]
fn override_that_is_not_executable_is_a_configuration_error() {
    let r = resolve_formatter(Some("/tmp/plain.txt".to_string()), false, Some("/usr/bin/clang-format".to_string()));
    assert_eq!(r, Err(ConfigError::OverrideNotExecutable("/tmp/plain.txt".to_string())));
}

#[test]
fn executable_override_wins_over_path() {
    let r = resolve_formatter(Some("/opt/cf".to_string()), true, Some("/usr/bin/clang-format".to_string()));
    assert_eq!(r, Ok("/opt/cf".to_string()));
}

#[test]
fn path_search_result_is_used_without_override() {
    let r = resolve_formatter(None, false, Some("/usr/bin/clang-format".to_string()));
    assert_eq!(r, Ok("/usr/bin/clang-format".to_string()));
    assert_eq!(resolve_formatter(None, true, None), Err(ConfigError::NotFound));
}

#[test]
fn executable_name_per_platform() {
    assert_eq!(exe_name("clang-format", true), "clang-format.exe");
    assert_eq!(exe_name("clang-format", false), "clang-format");
}

#[test]
fn in_place_flag_after_separator_is_a_file() {
    let args = strings(&["--", "-i"]);
    let (opts, files) = split_opts_files(&args);
    let inv = plan_invocation(opts, files).expect("no in-place flag among options");
    assert_eq!(inv.mode, Mode::FilesToStdout);
    assert_eq!(inv.files, strings(&["-i"]));
}

#[test]
fn in_place_formats_each_file_once() {
    let args = strings(&["-i", "b.ck", "a.ck", "b.ck", "a.ck", "c.ck"]);
    let (opts, files) = split_opts_files(&args);
    let inv = plan_invocation(opts, files).expect("files given");
    assert_eq!(inv.mode, Mode::InPlace);
    assert_eq!(inv.files, strings(&["b.ck", "a.ck", "c.ck"]));
}

#[test]
fn streaming_keeps_repeated_files() {
    let args = strings(&["a.ck", "a.ck"]);
    let (opts, files) = split_opts_files(&args);
    let inv = plan_invocation(opts, files).expect("no in-place flag");
    assert_eq!(inv.files, strings(&["a.ck", "a.ck"]));
}

#[test]
fn search_names_per_platform() {
    assert_eq!(search_names("clang-format", false), strings(&["clang-format"]));
    assert_eq!(search_names("clang-format", true), strings(&["clang-format", "clang-format.exe"]));
    assert_eq!(search_names("clang-format.EXE", true), strings(&["clang-format.EXE"]));
    assert_eq!(search_names("exe", true), strings(&["exe", "exe.exe"]));
}
