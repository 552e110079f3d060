//! Splitting the argument list into formatter options and target files.
use vstd::prelude::*;
use crate::text::{is_prefix, list_entries, non_blank_lines, split_lines, starts_with, str_eq, trimmed_range};

verus! {

/// The views of a sequence of strings.
pub open spec fn strs(v: Seq<String>) -> Seq<Seq<char>> {
    v.map_values(|s: String| s@)
}

/// The token that separates options from files.
pub open spec fn is_separator(t: Seq<char>) -> bool {
    t == "--"@
}

/// Whether the token list holds a separator.
pub open spec fn has_separator(toks: Seq<Seq<char>>) -> bool {
    exists|j: int| 0 <= j < toks.len() && is_separator(#[trigger] toks[j])
}

/// `pos` is the first separator of `toks`.
pub open spec fn first_separator_at(toks: Seq<Seq<char>>, pos: int) -> bool {
    0 <= pos < toks.len() && is_separator(toks[pos]) && forall|j: int|
        0 <= j < pos ==> !is_separator(#[trigger] toks[j])
}

/// Tokens after the separator that name no file: standard input and a second separator.
pub open spec fn is_placeholder(t: Seq<char>) -> bool {
    t == "-"@ || t == "--"@
}

/// The file targets among the tokens that follow the separator.
pub open spec fn strict_files(toks: Seq<Seq<char>>) -> Seq<Seq<char>>
    decreases toks.len(),
{
    if toks.len() == 0 {
        seq![]
    } else {
        let rest = strict_files(toks.drop_last());
        if is_placeholder(toks.last()) {
            rest
        } else {
            rest.push(toks.last())
        }
    }
}

/// Options of the formatter whose next token is their value.
pub open spec fn is_value_taking_option(t: Seq<char>) -> bool {
    t == "-Wno-error"@ || t == "--Wno-error"@ || t == "-assume-filename"@ || t
        == "--assume-filename"@ || t == "-cursor"@ || t == "--cursor"@ || t == "-fallback-style"@
        || t == "--fallback-style"@ || t == "-ferror-limit"@ || t == "--ferror-limit"@ || t
        == "-files"@ || t == "--files"@ || t == "-length"@ || t == "--length"@ || t == "-lines"@
        || t == "--lines"@ || t == "-offset"@ || t == "--offset"@ || t == "-qualifier-alignment"@
        || t == "--qualifier-alignment"@ || t == "-style"@ || t == "--style"@
}

/// A token that reads as an option: it starts with `-` (`-` alone included) or
/// with `@`, the mark of an argument file.
pub open spec fn looks_like_option(t: Seq<char>) -> bool {
    t.len() > 0 && (t[0] == '-' || t[0] == '@')
}

/// Classification of the tokens without a separator, left to right: the
/// options, the files, and whether the next token is the value of an option.
pub open spec fn heuristic_split(toks: Seq<Seq<char>>) -> (Seq<Seq<char>>, Seq<Seq<char>>, bool)
    decreases toks.len(),
{
    if toks.len() == 0 {
        (seq![], seq![], false)
    } else {
        let (o, f, pending) = heuristic_split(toks.drop_last());
        let t = toks.last();
        if pending {
            (o.push(t), f, false)
        } else if is_value_taking_option(t) {
            (o.push(t), f, true)
        } else if looks_like_option(t) {
            (o.push(t), f, false)
        } else {
            (o, f.push(t), false)
        }
    }
}

/// The options and the files that an argument list names.
pub open spec fn classify(toks: Seq<Seq<char>>) -> (Seq<Seq<char>>, Seq<Seq<char>>) {
    if has_separator(toks) {
        let pos = choose|p: int| first_separator_at(toks, p);
        (toks.take(pos), strict_files(toks.skip(pos + 1)))
    } else {
        let (o, f, _) = heuristic_split(toks);
        (o, f)
    }
}

/// Whether `tok` is one of the options whose next token is their value.
pub fn is_value_taker(tok: &str) -> (r: bool)
    ensures
        r == is_value_taking_option(tok@),
{
    str_eq(tok, "-Wno-error") || str_eq(tok, "--Wno-error") || str_eq(tok, "-assume-filename")
        || str_eq(tok, "--assume-filename") || str_eq(tok, "-cursor") || str_eq(tok, "--cursor")
        || str_eq(tok, "-fallback-style") || str_eq(tok, "--fallback-style") || str_eq(
        tok,
        "-ferror-limit",
    ) || str_eq(tok, "--ferror-limit") || str_eq(tok, "-files") || str_eq(tok, "--files")
        || str_eq(tok, "-length") || str_eq(tok, "--length") || str_eq(tok, "-lines") || str_eq(
        tok,
        "--lines",
    ) || str_eq(tok, "-offset") || str_eq(tok, "--offset") || str_eq(
        tok,
        "-qualifier-alignment",
    ) || str_eq(tok, "--qualifier-alignment") || str_eq(tok, "-style") || str_eq(tok, "--style")
}

fn looks_like_option_exec(tok: &str) -> (r: bool)
    ensures
        r == looks_like_option(tok@),
{
    if tok.unicode_len() == 0 {
        false
    } else {
        let c = tok.get_char(0);
        c == '-' || c == '@'
    }
}

proof fn lemma_strs_push(v: Seq<String>, s: String)
    ensures
        strs(v.push(s)) == strs(v).push(s@),
{
    assert(strs(v.push(s)) =~= strs(v).push(s@));
}

/// Splits the argument list into the options forwarded to the formatter and
/// the target files.
///
/// With a `--` token, everything before the first one is an option and
/// everything after it is a file, but for `-` and `--`, which are dropped.
/// Without one, a token that follows a value-taking option is that option's
/// value, a token starting with `-` or `@` is an option, and any other token
/// is a file.
pub fn split_opts_files(args: &[String]) -> (r: (Vec<String>, Vec<String>))
    ensures
        strs(r.0@) == classify(strs(args@)).0,
        strs(r.1@) == classify(strs(args@)).1,
{
    let ghost toks = strs(args@);
    let n = args.len();
    let mut pos: usize = 0;
    let mut found = false;
    while !found && pos < n
        invariant
            n == args@.len(),
            toks == strs(args@),
            pos <= n,
            found ==> pos < n && is_separator(toks[pos as int]),
            forall|j: int| 0 <= j < pos ==> !is_separator(#[trigger] toks[j]),
        decreases n - pos + (if found { 0int } else { 1int }),
    {
        if str_eq(args[pos].as_str(), "--") {
            found = true;
        } else {
            pos = pos + 1;
        }
    }
    if found {
        proof {
            assert(is_separator(toks[pos as int]));
            assert(first_separator_at(toks, pos as int));
            assert(has_separator(toks));
            let p = choose|p: int| first_separator_at(toks, p);
            if p < pos {
                assert(!is_separator(toks[p]));
            }
            if pos < p {
                assert(!is_separator(toks[pos as int]));
            }
        }
        let mut opts: Vec<String> = Vec::new();
        let mut i: usize = 0;
        while i < pos
            invariant
                pos < n == args@.len(),
                toks == strs(args@),
                i <= pos,
                strs(opts@) == toks.take(i as int),
            decreases pos - i,
        {
            proof {
                lemma_strs_push(opts@, args[i as int]);
                assert(toks.take(i + 1) =~= toks.take(i as int).push(toks[i as int]));
            }
            opts.push(args[i].clone());
            i = i + 1;
        }
        let ghost tail = toks.skip(pos + 1);
        let mut files: Vec<String> = Vec::new();
        let mut k: usize = pos + 1;
        while k < n
            invariant
                pos < n == args@.len(),
                toks == strs(args@),
                tail == toks.skip(pos + 1),
                pos + 1 <= k <= n,
                strs(files@) == strict_files(tail.take(k - pos - 1)),
            decreases n - k,
        {
            let ghost j = k - pos - 1;
            proof {
                assert(tail.take(j + 1).drop_last() =~= tail.take(j));
                assert(tail.take(j + 1).last() == toks[k as int]);
                lemma_strs_push(files@, args[k as int]);
            }
            let tok = args[k].as_str();
            if !(str_eq(tok, "-") || str_eq(tok, "--")) {
                files.push(args[k].clone());
            }
            k = k + 1;
        }
        proof {
            assert(tail.take(n - pos - 1) =~= tail);
        }
        return (opts, files);
    }
    let mut opts: Vec<String> = Vec::new();
    let mut files: Vec<String> = Vec::new();
    let mut pending = false;
    let mut i: usize = 0;
    while i < n
        invariant
            n == args@.len(),
            toks == strs(args@),
            i <= n,
            heuristic_split(toks.take(i as int)) == (strs(opts@), strs(files@), pending),
        decreases n - i,
    {
        proof {
            assert(toks.take(i + 1).drop_last() =~= toks.take(i as int));
            lemma_strs_push(opts@, args[i as int]);
            lemma_strs_push(files@, args[i as int]);
        }
        let tok = args[i].as_str();
        if pending {
            pending = false;
            opts.push(args[i].clone());
        } else if is_value_taker(tok) {
            pending = true;
            opts.push(args[i].clone());
        } else if looks_like_option_exec(tok) {
            opts.push(args[i].clone());
        } else {
            files.push(args[i].clone());
        }
        i = i + 1;
    }
    proof {
        assert(toks.take(n as int) =~= toks);
        assert(!has_separator(toks));
    }
    (opts, files)
}

/// The value of `a` when it is written `name=value`.
pub open spec fn joined_value(a: Seq<char>, name: Seq<char>) -> Option<Seq<char>> {
    if is_prefix(name.push('='), a) {
        Some(a.skip(name.len() + 1int))
    } else {
        None
    }
}

/// The first value given in the `long=value` or `short=value` form, the long
/// spelling taking precedence within one token.
pub open spec fn first_joined_value(opts: Seq<Seq<char>>, long: Seq<char>, short: Seq<char>) -> Option<
    Seq<char>,
>
    decreases opts.len(),
{
    if opts.len() == 0 {
        None
    } else if joined_value(opts[0], long) is Some {
        joined_value(opts[0], long)
    } else if joined_value(opts[0], short) is Some {
        joined_value(opts[0], short)
    } else {
        first_joined_value(opts.drop_first(), long, short)
    }
}

/// The token after the first one spelled `long` or `short`; none where that
/// one is the last token.
pub open spec fn first_separate_value(opts: Seq<Seq<char>>, long: Seq<char>, short: Seq<char>) -> Option<
    Seq<char>,
>
    decreases opts.len(),
{
    if opts.len() == 0 {
        None
    } else if opts[0] == long || opts[0] == short {
        if opts.len() > 1 {
            Some(opts[1])
        } else {
            None
        }
    } else {
        first_separate_value(opts.drop_first(), long, short)
    }
}

/// The value of an option among `opts`: a joined form anywhere wins over a
/// separate one.
pub open spec fn option_value(opts: Seq<Seq<char>>, long: Seq<char>, short: Seq<char>) -> Option<
    Seq<char>,
> {
    match first_joined_value(opts, long, short) {
        Some(v) => Some(v),
        None => first_separate_value(opts, long, short),
    }
}

fn joined_value_exec(a: &str, name: &str) -> (r: Option<String>)
    ensures
        r matches Some(v) ==> joined_value(a@, name@) == Some(v@),
        r is None ==> joined_value(a@, name@) is None,
{
    let n = a.unicode_len();
    let m = name.unicode_len();
    if m < n && starts_with(a, name) && a.get_char(m) == '=' {
        proof {
            assert(a@.subrange(0, m + 1) =~= name@.push('='));
        }
        let v = a.substring_char(m + 1, n);
        proof {
            assert(v@ =~= a@.skip(m + 1));
        }
        Some(v.to_owned())
    } else {
        proof {
            let np = name@.push('=');
            if is_prefix(np, a@) {
                assert(a@.subrange(0, m as int) =~= a@.subrange(0, np.len() as int).subrange(
                    0,
                    m as int,
                ));
                assert(np.subrange(0, m as int) =~= name@);
                assert(a@[m as int] == a@.subrange(0, np.len() as int)[m as int]);
                assert(np[m as int] == '=');
            }
        }
        None
    }
}

/// Finds the value of the option spelled `long` or `short` among `opts`.
///
/// A token `long=value` or `short=value` anywhere in the list is taken first;
/// otherwise the token after the first bare `long` or `short`, if any.
pub fn find_option_value_in(opts: &[String], long: &str, short: &str) -> (r: Option<String>)
    ensures
        r matches Some(v) ==> option_value(strs(opts@), long@, short@) == Some(v@),
        r is None ==> option_value(strs(opts@), long@, short@) is None,
{
    let ghost toks = strs(opts@);
    proof {
        assert(toks.skip(0) =~= toks);
    }
    let n = opts.len();
    let mut i: usize = 0;
    while i < n
        invariant
            n == opts@.len(),
            toks == strs(opts@),
            i <= n,
            first_joined_value(toks, long@, short@) == first_joined_value(
                toks.skip(i as int),
                long@,
                short@,
            ),
        decreases n - i,
    {
        proof {
            assert(toks.skip(i as int).drop_first() =~= toks.skip(i + 1));
            assert(toks.skip(i as int)[0] == opts@[i as int]@);
        }
        let a = opts[i].as_str();
        match joined_value_exec(a, long) {
            Some(v) => {
                return Some(v);
            },
            None => {},
        }
        match joined_value_exec(a, short) {
            Some(v) => {
                return Some(v);
            },
            None => {},
        }
        i = i + 1;
    }
    let mut k: usize = 0;
    while k < n
        invariant
            n == opts@.len(),
            toks == strs(opts@),
            k <= n,
            first_joined_value(toks, long@, short@) is None,
            first_separate_value(toks, long@, short@) == first_separate_value(
                toks.skip(k as int),
                long@,
                short@,
            ),
        decreases n - k,
    {
        proof {
            assert(toks.skip(k as int).drop_first() =~= toks.skip(k + 1));
            assert(toks.skip(k as int)[0] == opts@[k as int]@);
        }
        let a = opts[k].as_str();
        if str_eq(a, long) || str_eq(a, short) {
            if k + 1 < n {
                proof {
                    assert(toks.skip(k as int)[1] == opts@[k + 1]@);
                }
                return Some(opts[k + 1].clone());
            } else {
                return None;
            }
        }
        k = k + 1;
    }
    None
}

/// Whether a token names the file that standard input stands for.
pub open spec fn is_assume_filename(o: Seq<char>) -> bool {
    o == "--assume-filename"@ || o == "-assume-filename"@ || is_prefix("--assume-filename="@, o)
        || is_prefix("-assume-filename="@, o)
}

/// Whether the options already tell the formatter which file standard input stands for.
pub fn has_assume_filename(opts: &[String]) -> (r: bool)
    ensures
        r == exists|j: int| 0 <= j < opts@.len() && is_assume_filename(#[trigger] opts@[j]@),
{
    let n = opts.len();
    let mut i: usize = 0;
    while i < n
        invariant
            n == opts@.len(),
            i <= n,
            forall|j: int| 0 <= j < i ==> !is_assume_filename(#[trigger] opts@[j]@),
        decreases n - i,
    {
        let o = opts[i].as_str();
        if str_eq(o, "--assume-filename") || str_eq(o, "-assume-filename") || starts_with(
            o,
            "--assume-filename=",
        ) || starts_with(o, "-assume-filename=") {
            return true;
        }
        i = i + 1;
    }
    false
}

/// The file named by the `--files` or `-files` option, whose lines are more
/// target files.
pub fn files_list_path(opts: &[String]) -> (r: Option<String>)
    ensures
        r matches Some(v) ==> option_value(strs(opts@), "--files"@, "-files"@) == Some(v@),
        r is None ==> option_value(strs(opts@), "--files"@, "-files"@) is None,
{
    find_option_value_in(opts, "--files", "-files")
}

/// Appends to `files` the entries of a file list: its lines, trimmed, without
/// the blank ones, in their order.
pub fn expand_files_from_list(files: &mut Vec<String>, content: &str)
    ensures
        strs(final(files)@) == strs(old(files)@) + list_entries(content@),
{
    let ghost c = content@;
    let ghost base = strs(files@);
    let n = content.unicode_len();
    let mut start: usize = 0;
    let mut i: usize = 0;
    proof {
        assert(c.take(0) =~= seq![]);
        assert(seq![seq![]].drop_last() =~= Seq::<Seq<char>>::empty());
        assert(c.subrange(0, 0) =~= Seq::<char>::empty());
        assert(base + seq![] =~= base);
    }
    while i < n
        invariant
            n == c.len(),
            c == content@,
            start <= i <= n,
            split_lines(c.take(i as int)).len() >= 1,
            split_lines(c.take(i as int)).last() == c.subrange(start as int, i as int),
            strs(files@) == base + non_blank_lines(split_lines(c.take(i as int)).drop_last()),
        decreases n - i,
    {
        let ghost ls = split_lines(c.take(i as int));
        proof {
            assert(c.take(i + 1).drop_last() =~= c.take(i as int));
            assert(c.take(i + 1).last() == c[i as int]);
        }
        if content.get_char(i) == '\n' {
            let t = trimmed_range(content, start, i);
            proof {
                assert(split_lines(c.take(i + 1)) == ls.push(seq![]));
                assert(ls.push(seq![]).drop_last() =~= ls);
                assert(ls.drop_last().push(ls.last()) =~= ls);
                assert(c.subrange(i + 1, i + 1) =~= Seq::<char>::empty());
            }
            if t.unicode_len() > 0 {
                proof {
                    assert(strs(files@.push(t)) =~= strs(files@).push(t@));
                    assert((base + non_blank_lines(ls.drop_last())).push(t@) =~= base + non_blank_lines(ls.drop_last()).push(t@));
                }
                files.push(t);
            }
            start = i + 1;
        } else {
            proof {
                let ls2 = ls.update(ls.len() - 1, ls.last().push(c[i as int]));
                assert(ls2.drop_last() =~= ls.drop_last());
                assert(c.subrange(start as int, i + 1) =~= c.subrange(start as int, i as int).push(c[i as int]));
            }
        }
        i = i + 1;
    }
    let t = trimmed_range(content, start, n);
    let ghost ls = split_lines(c.take(n as int));
    proof {
        assert(c.take(n as int) =~= c);
        assert(ls.drop_last().push(ls.last()) =~= ls);
    }
    if t.unicode_len() > 0 {
        proof {
            assert(strs(files@.push(t)) =~= strs(files@).push(t@));
            assert((base + non_blank_lines(ls.drop_last())).push(t@) =~= base + non_blank_lines(ls.drop_last()).push(t@));
        }
        files.push(t);
    }
}

proof fn lemma_strict_files_members(toks: Seq<Seq<char>>)
    ensures
        forall|j: int|
            0 <= j < toks.len() && !is_placeholder(toks[j]) ==> #[trigger] strict_files(
                toks,
            ).contains(toks[j]),
        forall|k: int|
            0 <= k < strict_files(toks).len() ==> !is_placeholder(#[trigger] strict_files(toks)[k]),
    decreases toks.len(),
{
    if toks.len() > 0 {
        let init = toks.drop_last();
        lemma_strict_files_members(init);
        let rest = strict_files(init);
        let all = strict_files(toks);
        assert forall|j: int| 0 <= j < toks.len() && !is_placeholder(toks[j]) implies #[trigger] all.contains(
            toks[j],
        ) by {
            if j < toks.len() - 1 {
                assert(init[j] == toks[j]);
                assert(rest.contains(init[j]));
                let w = choose|w: int| 0 <= w < rest.len() && rest[w] == init[j];
                if !is_placeholder(toks.last()) {
                    assert(all[w] == rest[w]);
                }
            } else {
                assert(all[all.len() - 1] == toks[j]);
            }
        }
        assert forall|k: int| 0 <= k < all.len() implies !is_placeholder(#[trigger] all[k]) by {
            if k < rest.len() {
                assert(all[k] == rest[k]);
            }
        }
    }
}

/// With a `--` token, the options are exactly the tokens before the first one;
/// every later token but `-` and `--` is a file, and no file is `-` or `--`.
pub proof fn law_separator_splits(toks: Seq<Seq<char>>, pos: int)
    requires
        first_separator_at(toks, pos),
    ensures
        classify(toks).0 == toks.take(pos),
        forall|j: int|
            pos < j < toks.len() && !is_placeholder(toks[j]) ==> #[trigger] classify(
                toks,
            ).1.contains(toks[j]),
        forall|k: int|
            0 <= k < classify(toks).1.len() ==> !is_placeholder(#[trigger] classify(toks).1[k]),
{
    assert(has_separator(toks)) by {
        assert(is_separator(toks[pos]));
    }
    let p = choose|p: int| first_separator_at(toks, p);
    if p < pos {
        assert(!is_separator(toks[p]));
    }
    if pos < p {
        assert(!is_separator(toks[pos]));
    }
    let tail = toks.skip(pos + 1);
    lemma_strict_files_members(tail);
    assert forall|j: int| pos < j < toks.len() && !is_placeholder(toks[j]) implies #[trigger] classify(
        toks,
    ).1.contains(toks[j]) by {
        assert(tail[j - pos - 1] == toks[j]);
    }
}

/// Without a `--` token, whether the token at `i` is the value of the option
/// before it: that one takes a value and is not itself a value.
pub open spec fn is_value_position(toks: Seq<Seq<char>>, i: int) -> bool
    decreases i,
{
    if i <= 0 {
        false
    } else {
        is_value_taking_option(toks[i - 1]) && !is_value_position(toks, i - 1)
    }
}

/// Without a `--` token, whether the token at `i` is a file: it is no value,
/// takes no value, and does not read as an option.
pub open spec fn is_file_position(toks: Seq<Seq<char>>, i: int) -> bool {
    !is_value_position(toks, i) && !is_value_taking_option(toks[i]) && !looks_like_option(toks[i])
}

/// The tokens among the first `n` at file positions, in order.
pub open spec fn file_tokens(toks: Seq<Seq<char>>, n: int) -> Seq<Seq<char>>
    decreases n,
{
    if n <= 0 {
        seq![]
    } else if is_file_position(toks, n - 1) {
        file_tokens(toks, n - 1).push(toks[n - 1])
    } else {
        file_tokens(toks, n - 1)
    }
}

/// The tokens among the first `n` at the other positions, in order.
pub open spec fn option_tokens(toks: Seq<Seq<char>>, n: int) -> Seq<Seq<char>>
    decreases n,
{
    if n <= 0 {
        seq![]
    } else if is_file_position(toks, n - 1) {
        option_tokens(toks, n - 1)
    } else {
        option_tokens(toks, n - 1).push(toks[n - 1])
    }
}

proof fn lemma_heuristic_positions(toks: Seq<Seq<char>>, n: int)
    requires
        0 <= n <= toks.len(),
    ensures
        heuristic_split(toks.take(n)) == (
            option_tokens(toks, n),
            file_tokens(toks, n),
            is_value_position(toks, n),
        ),
    decreases n,
{
    if n > 0 {
        lemma_heuristic_positions(toks, n - 1);
        assert(toks.take(n).drop_last() =~= toks.take(n - 1));
        assert(toks.take(n).last() == toks[n - 1]);
    } else {
        assert(toks.take(0) =~= Seq::<Seq<char>>::empty());
    }
}

/// Without a `--` token, the files are exactly the tokens at file positions and
/// the options all the others, each in order. So a token right after a
/// value-taking option that is not itself a value is that option's value: it
/// is an option, and never a file, whatever it looks like.
pub proof fn law_value_follows_option(toks: Seq<Seq<char>>)
    requires
        !has_separator(toks),
    ensures
        classify(toks).0 == option_tokens(toks, toks.len() as int),
        classify(toks).1 == file_tokens(toks, toks.len() as int),
        forall|i: int|
            0 < i < toks.len() && is_value_taking_option(toks[i - 1]) && !is_value_position(
                toks,
                i - 1,
            ) ==> #[trigger] is_value_position(toks, i) && !is_file_position(toks, i),
{
    lemma_heuristic_positions(toks, toks.len() as int);
    assert(toks.take(toks.len() as int) =~= toks);
}

} // verus!
