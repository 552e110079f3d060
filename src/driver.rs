//! The decisions of one invocation: which formatter binary runs, in which
//! mode, and with which options.
use vstd::prelude::*;
use crate::args::{has_assume_filename, is_assume_filename, strs};
use crate::text::str_eq;

verus! {

/// The option added when none tells the formatter which file standard input
/// stands for; its extension makes the formatter parse the text as Java.
pub open spec fn default_assume_filename() -> Seq<char> {
    "--assume-filename=code.java"@
}

/// The options with an assumed file name added where none is given.
pub open spec fn with_assume_filename(opts: Seq<Seq<char>>) -> Seq<Seq<char>> {
    if exists|j: int| 0 <= j < opts.len() && is_assume_filename(#[trigger] opts[j]) {
        opts
    } else {
        opts.push(default_assume_filename())
    }
}

/// The flag that asks for files to be rewritten in place.
pub open spec fn is_in_place_flag(t: Seq<char>) -> bool {
    t == "-i"@
}

/// Whether the options ask for in-place rewriting.
pub open spec fn wants_in_place(opts: Seq<Seq<char>>) -> bool {
    exists|j: int| 0 <= j < opts.len() && is_in_place_flag(#[trigger] opts[j])
}

/// The options without the in-place flag, in their order.
pub open spec fn without_in_place(opts: Seq<Seq<char>>) -> Seq<Seq<char>>
    decreases opts.len(),
{
    if opts.len() == 0 {
        seq![]
    } else {
        let rest = without_in_place(opts.drop_last());
        if is_in_place_flag(opts.last()) {
            rest
        } else {
            rest.push(opts.last())
        }
    }
}

/// How an invocation runs.
#[derive(Clone, Copy, Debug, PartialEq, Eq, Structural)]
pub enum Mode {
    /// Format standard input and write the result to standard output.
    StdinToStdout,
    /// Format each file in turn and write the results to standard output.
    FilesToStdout,
    /// Format each file in turn and overwrite it with the result.
    InPlace,
}

/// One invocation: its mode, the options handed to the formatter, and the
/// files it works on.
pub struct Invocation {
    pub mode: Mode,
    pub opts: Vec<String>,
    pub files: Vec<String>,
}

/// A request that cannot be carried out.
#[derive(Clone, Copy, Debug, PartialEq, Eq, Structural)]
pub enum UsageError {
    /// In-place rewriting was asked for without any file.
    InPlaceWithoutFiles,
}

fn has_in_place_flag(opts: &[String]) -> (r: bool)
    ensures
        r == wants_in_place(strs(opts@)),
{
    let ghost toks = strs(opts@);
    let n = opts.len();
    let mut i: usize = 0;
    while i < n
        invariant
            n == opts@.len(),
            toks == strs(opts@),
            i <= n,
            forall|j: int| 0 <= j < i ==> !is_in_place_flag(#[trigger] toks[j]),
        decreases n - i,
    {
        if str_eq(opts[i].as_str(), "-i") {
            assert(is_in_place_flag(toks[i as int]));
            return true;
        }
        i = i + 1;
    }
    false
}

fn drop_in_place_flags(opts: Vec<String>) -> (r: Vec<String>)
    ensures
        strs(r@) == without_in_place(strs(opts@)),
{
    let ghost toks = strs(opts@);
    let mut out: Vec<String> = Vec::new();
    let n = opts.len();
    let mut i: usize = 0;
    while i < n
        invariant
            n == opts@.len(),
            toks == strs(opts@),
            i <= n,
            strs(out@) == without_in_place(toks.take(i as int)),
        decreases n - i,
    {
        proof {
            assert(toks.take(i + 1).drop_last() =~= toks.take(i as int));
            assert(strs(out@.push(opts@[i as int])) =~= strs(out@).push(toks[i as int]));
        }
        if !str_eq(opts[i].as_str(), "-i") {
            out.push(opts[i].clone());
        }
        i = i + 1;
    }
    proof {
        assert(toks.take(n as int) =~= toks);
    }
    out
}

/// The names with each later repeat of an earlier one left out, in the order
/// of their first appearance.
pub open spec fn first_occurrences(names: Seq<Seq<char>>) -> Seq<Seq<char>>
    decreases names.len(),
{
    if names.len() == 0 {
        seq![]
    } else {
        let rest = first_occurrences(names.drop_last());
        if rest.contains(names.last()) {
            rest
        } else {
            rest.push(names.last())
        }
    }
}

fn contains_str(v: &Vec<String>, s: &str) -> (r: bool)
    ensures
        r == strs(v@).contains(s@),
{
    let n = v.len();
    let mut k: usize = 0;
    while k < n
        invariant
            n == v@.len(),
            k <= n,
            forall|j: int| 0 <= j < k ==> v@[j]@ != s@,
        decreases n - k,
    {
        if str_eq(v[k].as_str(), s) {
            assert(strs(v@)[k as int] == s@);
            return true;
        }
        k = k + 1;
    }
    proof {
        if strs(v@).contains(s@) {
            let w = choose|w: int| 0 <= w < strs(v@).len() && strs(v@)[w] == s@;
            assert(v@[w]@ == s@);
        }
    }
    false
}

fn drop_repeats(files: Vec<String>) -> (r: Vec<String>)
    ensures
        strs(r@) == first_occurrences(strs(files@)),
{
    let ghost names = strs(files@);
    let mut out: Vec<String> = Vec::new();
    let n = files.len();
    let mut i: usize = 0;
    while i < n
        invariant
            n == files@.len(),
            names == strs(files@),
            i <= n,
            strs(out@) == first_occurrences(names.take(i as int)),
        decreases n - i,
    {
        proof {
            assert(names.take(i + 1).drop_last() =~= names.take(i as int));
            assert(strs(out@.push(files@[i as int])) =~= strs(out@).push(names[i as int]));
        }
        if !contains_str(&out, files[i].as_str()) {
            out.push(files[i].clone());
        }
        i = i + 1;
    }
    proof {
        assert(names.take(n as int) =~= names);
    }
    out
}

/// Decides how an invocation runs from the options and files that the
/// arguments name.
///
/// An assumed file name is added to the options where none is given. With `-i`
/// among the options the files are rewritten in place, each once, in the order
/// they were first named; `-i` is not handed on to the formatter, which reads
/// each file from standard input, and at least one file is needed. Otherwise
/// the files, or standard input where there are none, are formatted to
/// standard output, in the order given.
pub fn plan_invocation(opts: Vec<String>, files: Vec<String>) -> (r: Result<
    Invocation,
    UsageError,
>)
    ensures
        r is Err <==> wants_in_place(strs(opts@)) && files@.len() == 0,
        r matches Err(e) ==> e == UsageError::InPlaceWithoutFiles,
        r matches Ok(inv) ==> {
            &&& strs(inv.files@) == if wants_in_place(strs(opts@)) {
                first_occurrences(strs(files@))
            } else {
                strs(files@)
            }
            &&& inv.mode == if wants_in_place(strs(opts@)) {
                Mode::InPlace
            } else if files@.len() == 0 {
                Mode::StdinToStdout
            } else {
                Mode::FilesToStdout
            }
            &&& strs(inv.opts@) == if wants_in_place(strs(opts@)) {
                without_in_place(with_assume_filename(strs(opts@)))
            } else {
                with_assume_filename(strs(opts@))
            }
        },
{
    let in_place = has_in_place_flag(opts.as_slice());
    let mut opts = opts;
    let ghost before = strs(opts@);
    if !has_assume_filename(opts.as_slice()) {
        let extra = "--assume-filename=code.java".to_owned();
        proof {
            assert(strs(opts@.push(extra)) =~= before.push(default_assume_filename()));
        }
        opts.push(extra);
        proof {
            assert forall|j: int| 0 <= j < before.len() implies !is_assume_filename(
                #[trigger] before[j],
            ) by {
                assert(before[j] == opts@[j]@);
            }
        }
    } else {
        proof {
            let j = choose|j: int| 0 <= j < opts@.len() && is_assume_filename(#[trigger] opts@[j]@);
            assert(before[j] == opts@[j]@);
        }
    }
    if in_place {
        if files.len() == 0 {
            return Err(UsageError::InPlaceWithoutFiles);
        }
        Ok(Invocation { mode: Mode::InPlace, opts: drop_in_place_flags(opts), files: drop_repeats(files) })
    } else if files.len() == 0 {
        Ok(Invocation { mode: Mode::StdinToStdout, opts, files })
    } else {
        Ok(Invocation { mode: Mode::FilesToStdout, opts, files })
    }
}

/// Why no formatter binary can be used.
#[derive(Clone, Debug, PartialEq, Eq)]
pub enum ConfigError {
    /// The override names a path that is not an executable file.
    OverrideNotExecutable(String),
    /// No override is set and no executable of the formatter's name is on the search path.
    NotFound,
}

/// Chooses the formatter binary.
///
/// An override, where set, decides alone: it is used if it names an executable
/// file and is an error otherwise. Without one, the first executable found on
/// the search path is used, and none found is an error.
pub fn resolve_formatter(
    override_path: Option<String>,
    override_is_executable: bool,
    found_on_path: Option<String>,
) -> (r: Result<String, ConfigError>)
    ensures
        match override_path {
            Some(p) => if override_is_executable {
                r matches Ok(b) && b@ == p@
            } else {
                r matches Err(ConfigError::OverrideNotExecutable(q)) && q@ == p@
            },
            None => match found_on_path {
                Some(p) => r matches Ok(b) && b@ == p@,
                None => r matches Err(ConfigError::NotFound),
            },
        },
{
    match override_path {
        Some(p) => {
            if override_is_executable {
                Ok(p)
            } else {
                Err(ConfigError::OverrideNotExecutable(p))
            }
        },
        None => match found_on_path {
            Some(p) => Ok(p),
            None => Err(ConfigError::NotFound),
        },
    }
}

/// The file name of an executable called `base` on the platform: with `.exe`
/// added on Windows.
pub fn exe_name(base: &str, windows: bool) -> (r: String)
    ensures
        r@ == if windows {
            base@ + ".exe"@
        } else {
            base@
        },
{
    if windows {
        base.to_owned().concat(".exe")
    } else {
        base.to_owned()
    }
}

/// Whether `s` ends in `.exe`, in any letter case.
pub open spec fn ends_with_exe(s: Seq<char>) -> bool {
    let n = s.len();
    n >= 4 && s[n - 4] == '.' && (s[n - 3] == 'e' || s[n - 3] == 'E') && (s[n - 2] == 'x'
        || s[n - 2] == 'X') && (s[n - 1] == 'e' || s[n - 1] == 'E')
}

/// The file names tried in each directory of the search path, in order, for a
/// program called `program`: the name itself, then on Windows the name with
/// `.exe` added, unless it already ends in `.exe`.
pub fn search_names(program: &str, windows: bool) -> (r: Vec<String>)
    ensures
        strs(r@) == if windows && !ends_with_exe(program@) {
            seq![program@, program@ + ".exe"@]
        } else {
            seq![program@]
        },
{
    let mut names: Vec<String> = Vec::new();
    names.push(program.to_owned());
    let n = program.unicode_len();
    let has_exe = n >= 4 && program.get_char(n - 4) == '.' && (program.get_char(n - 3) == 'e'
        || program.get_char(n - 3) == 'E') && (program.get_char(n - 2) == 'x' || program.get_char(
        n - 2,
    ) == 'X') && (program.get_char(n - 1) == 'e' || program.get_char(n - 1) == 'E');
    if windows && !has_exe {
        names.push(program.to_owned().concat(".exe"));
    }
    proof {
        if windows && !has_exe {
            assert(strs(names@) =~= seq![program@, program@ + ".exe"@]);
        } else {
            assert(strs(names@) =~= seq![program@]);
        }
    }
    names
}

} // verus!
