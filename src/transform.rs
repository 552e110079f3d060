//! The text rewrites applied around the formatter.
//!
//! Each rewrite is one whole-buffer regular-expression substitution, made by
//! the `regex` crate that `lazy_regex` re-exports. The rewrites run in a fixed
//! order: one before the formatter sees the text, the others on its output.
use vstd::prelude::*;
use lazy_regex::Regex;
use crate::text::str_eq;

verus! {

#[verifier::external_type_specification]
#[verifier::external_body]
pub struct ExRegex(Regex);

/// Whether `Regex::new` accepts a pattern.
pub uninterp spec fn regex_compiles(pattern: Seq<char>) -> bool;

/// What `Regex::replace_all` gives for a pattern, a text and a replacement
/// template: each leftmost non-overlapping match replaced by the template,
/// with `$n` standing for the n-th group.
pub uninterp spec fn regex_replace_all(pattern: Seq<char>, text: Seq<char>, rep: Seq<char>) -> Seq<
    char,
>;

/// A compiled pattern, together with the source it was compiled from.
pub struct Rule {
    pattern: String,
    regex: Regex,
}

impl Rule {
    /// The source of the pattern.
    pub closed spec fn pattern(self) -> Seq<char> {
        self.pattern@
    }
}

/// Relies on `regex::Regex::new`: it compiles a pattern, or refuses it as
/// invalid or too large, depending on the pattern alone.
#[verifier::external_body]
fn compile(pattern: &str) -> (r: Option<Rule>)
    ensures
        r is Some <==> regex_compiles(pattern@),
        r matches Some(rule) ==> rule.pattern() == pattern@,
{
    match Regex::new(pattern) {
        Ok(regex) => Some(Rule { pattern: pattern.to_owned(), regex }),
        Err(_) => None,
    }
}

/// Relies on `regex::Regex::replace_all` with a `&str` replacement template.
#[verifier::external_body]
fn replace_all(rule: &Rule, text: &str, rep: &str) -> (r: String)
    ensures
        r@ == regex_replace_all(rule.pattern(), text@, rep@),
{
    rule.regex.replace_all(text, rep).into_owned()
}

/// The rewrite made before formatting: a `;` after a one-line `@import`
/// declaration, so that the formatter does not join it with the next line.
pub open spec fn pre_rule() -> (Seq<char>, Seq<char>) {
    (r#"(?m)^(\s*@import\s*\{?\s*".*"\s*?\}?\s*?)$"#@, "$1;"@)
}

/// The rewrites made on the formatter's output, in the order they run.
pub open spec fn post_rules() -> Seq<(Seq<char>, Seq<char>)> {
    seq![
        (r"=\s*>"@, "=>"@),
        (r"=\s*<"@, "=<"@),
        (r"@\s*=>"@, "@=>"@),
        (r"=\s*\^\s*"@, "=^ "@),
        (r"([0-9]+(?:\.[0-9]*)?)\s+::"@, "$1::"@),
        (r"<<<\s*"@, "<<< "@),
        (r"< < <\s*"@, "<<< "@),
        (r"\s*>>>\s*;"@, " >>>;"@),
        (r"%\s*\("@, "%("@),
        (r"\s*-\s*-\s*>\s*"@, " --> "@),
        (r"(?m)^([+-])\s+([0-9]+(?:\.[0-9]*)?|\.[0-9]+)"@, "$1$2"@),
        (r"spork\s*~\s*"@, "spork ~ "@),
        (r"(?m)^(\s*@import.*);$"@, "$1"@),
    ]
}

/// The text after the given rewrites, applied in order.
pub open spec fn apply_rules(rules: Seq<(Seq<char>, Seq<char>)>, s: Seq<char>) -> Seq<char>
    decreases rules.len(),
{
    if rules.len() == 0 {
        s
    } else {
        let (pattern, rep) = rules.last();
        regex_replace_all(pattern, apply_rules(rules.drop_last(), s), rep)
    }
}

/// The text handed to the formatter for source text `s`.
pub open spec fn pre_format_text(s: Seq<char>) -> Seq<char> {
    regex_replace_all(pre_rule().0, s, pre_rule().1)
}

/// The final text for formatter output `s`. The last rule, which takes the
/// `;` off `@import` lines, runs only where the rewrite before formatting
/// added one, so that a `;` written in the source stays.
pub open spec fn post_format_text(s: Seq<char>, added_terminators: bool) -> Seq<char> {
    if added_terminators {
        apply_rules(post_rules(), s)
    } else {
        apply_rules(post_rules().drop_last(), s)
    }
}

/// Whether every pattern of the pipeline compiles.
pub open spec fn all_rules_compile() -> bool {
    regex_compiles(pre_rule().0) && forall|i: int|
        0 <= i < post_rules().len() ==> regex_compiles(#[trigger] post_rules()[i].0)
}

/// One compiled substitution: a pattern and its replacement template.
pub struct Substitution {
    rule: Rule,
    replacement: String,
}

impl Substitution {
    /// The pattern source and the replacement template.
    pub closed spec fn view(self) -> (Seq<char>, Seq<char>) {
        (self.rule.pattern(), self.replacement@)
    }
}

/// The compiled rewrite pipeline.
pub struct Transforms {
    pre: Substitution,
    post: Vec<Substitution>,
}

fn add_rule(rules: &mut Vec<Substitution>, pattern: &str, rep: &str) -> (ok: bool)
    ensures
        ok == regex_compiles(pattern@),
        ok ==> final(rules)@.len() == old(rules)@.len() + 1 && final(rules)@.last().view() == (
        pattern@,
        rep@,
        ) && forall|i: int|
            0 <= i < old(rules)@.len() ==> #[trigger] final(rules)@[i] == old(rules)@[i],
{
    match compile(pattern) {
        Some(rule) => {
            rules.push(Substitution { rule, replacement: rep.to_owned() });
            true
        },
        None => false,
    }
}

impl Transforms {
    /// The pipeline holds the fixed rules, in their order.
    pub closed spec fn wf(&self) -> bool {
        &&& self.pre.view() == pre_rule()
        &&& self.post@.len() == post_rules().len()
        &&& forall|i: int| 0 <= i < post_rules().len() ==> #[trigger] self.post@[i].view() == post_rules()[i]
    }

    /// Compiles the pipeline; none where a pattern does not compile.
    pub fn new() -> (r: Option<Transforms>)
        ensures
            r is Some <==> all_rules_compile(),
            r matches Some(t) ==> t.wf(),
    {
        let pre = match compile(r#"(?m)^(\s*@import\s*\{?\s*".*"\s*?\}?\s*?)$"#) {
            Some(rule) => Substitution { rule, replacement: "$1;".to_owned() },
            None => {
                return None;
            },
        };
        let ghost rs = post_rules();
        let mut post: Vec<Substitution> = Vec::new();
        if !add_rule(&mut post, r"=\s*>", "=>") {
            assert(!regex_compiles(rs[0].0));
            return None;
        }
        if !add_rule(&mut post, r"=\s*<", "=<") {
            assert(!regex_compiles(rs[1].0));
            return None;
        }
        if !add_rule(&mut post, r"@\s*=>", "@=>") {
            assert(!regex_compiles(rs[2].0));
            return None;
        }
        if !add_rule(&mut post, r"=\s*\^\s*", "=^ ") {
            assert(!regex_compiles(rs[3].0));
            return None;
        }
        if !add_rule(&mut post, r"([0-9]+(?:\.[0-9]*)?)\s+::", "$1::") {
            assert(!regex_compiles(rs[4].0));
            return None;
        }
        if !add_rule(&mut post, r"<<<\s*", "<<< ") {
            assert(!regex_compiles(rs[5].0));
            return None;
        }
        if !add_rule(&mut post, r"< < <\s*", "<<< ") {
            assert(!regex_compiles(rs[6].0));
            return None;
        }
        if !add_rule(&mut post, r"\s*>>>\s*;", " >>>;") {
            assert(!regex_compiles(rs[7].0));
            return None;
        }
        if !add_rule(&mut post, r"%\s*\(", "%(") {
            assert(!regex_compiles(rs[8].0));
            return None;
        }
        if !add_rule(&mut post, r"\s*-\s*-\s*>\s*", " --> ") {
            assert(!regex_compiles(rs[9].0));
            return None;
        }
        if !add_rule(&mut post, r"(?m)^([+-])\s+([0-9]+(?:\.[0-9]*)?|\.[0-9]+)", "$1$2") {
            assert(!regex_compiles(rs[10].0));
            return None;
        }
        if !add_rule(&mut post, r"spork\s*~\s*", "spork ~ ") {
            assert(!regex_compiles(rs[11].0));
            return None;
        }
        if !add_rule(&mut post, r"(?m)^(\s*@import.*);$", "$1") {
            assert(!regex_compiles(rs[12].0));
            return None;
        }
        let t = Transforms { pre, post };
        assert(t.wf());
        Some(t)
    }

    /// Rewrites source text before it is handed to the formatter, and tells
    /// whether it changed the text. The rewrite only ever appends a `;` to a
    /// match, so a change means that a terminator was added.
    pub fn pre_format(&self, s: &str) -> (r: (String, bool))
        requires
            self.wf(),
        ensures
            r.0@ == pre_format_text(s@),
            r.1 == (r.0@ != s@),
    {
        let out = replace_all(&self.pre.rule, s, self.pre.replacement.as_str());
        let changed = !str_eq(out.as_str(), s);
        (out, changed)
    }

    /// Rewrites the formatter's output into the final text; `added_terminators`
    /// is what `pre_format` reported for the source of that output.
    pub fn post_format(&self, s: &str, added_terminators: bool) -> (r: String)
        requires
            self.wf(),
        ensures
            r@ == post_format_text(s@, added_terminators),
    {
        let ghost rs = if added_terminators {
            post_rules()
        } else {
            post_rules().drop_last()
        };
        let mut out = s.to_owned();
        let n = if added_terminators {
            self.post.len()
        } else {
            self.post.len() - 1
        };
        let mut i: usize = 0;
        while i < n
            invariant
                self.wf(),
                rs == if added_terminators {
                    post_rules()
                } else {
                    post_rules().drop_last()
                },
                n == rs.len(),
                i <= n,
                out@ == apply_rules(rs.take(i as int), s@),
            decreases n - i,
        {
            let sub = &self.post[i];
            let next = replace_all(&sub.rule, out.as_str(), sub.replacement.as_str());
            proof {
                assert(rs.take(i + 1).drop_last() =~= rs.take(i as int));
                assert(rs[i as int] == post_rules()[i as int]);
                assert(self.post@[i as int].view() == rs[i as int]);
            }
            out = next;
            i = i + 1;
        }
        proof {
            assert(rs.take(n as int) =~= rs);
        }
        out
    }
}

} // verus!
