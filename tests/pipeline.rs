use chuckfmt::transform::Transforms;

fn post(s: &str) -> String {
    Transforms::new().expect("patterns compile").post_format(s, false)
}

fn round_trip(s: &str) -> String {
    let t = Transforms::new().expect("patterns compile");
    let (pre, added) = t.pre_format(s);
    t.post_format(&pre, added)
}

#[test]
fn patterns_compile() {
    assert!(Transforms::new().is_some());
}

#[test]
fn chuck_operator_split_by_newline_is_joined() {
    assert_eq!(post("1 =\n    > int x;"), "1 => int x;");
    assert_eq!(post("x = < y;"), "x =< y;");
    assert_eq!(post("1 =\t\t> y;"), "1 => y;");
}

#[test]
fn at_arrow_is_tight() {
    assert_eq!(post("new Foo @ => Foo f;"), "new Foo @=> Foo f;");
    assert_eq!(post("new Foo @ = > Foo f;"), "new Foo @=> Foo f;");
}

#[test]
fn upchuck_gets_one_space() {
    assert_eq!(post("a =   ^ b;"), "a =^ b;");
}

#[test]
fn space_before_scope_operator_after_number_is_removed() {
    assert_eq!(post("1.5    ::foo"), "1.5::foo");
    assert_eq!(post("2 ::second"), "2::second");
}

#[test]
fn debug_print_padding() {
    assert_eq!(post("<<<    \"hi\" >>>;"), "<<< \"hi\" >>>;");
    assert_eq!(post("< < <x\n  >>> ;"), "<<< x >>>;");
}

#[test]
fn modulo_paren_arrow_and_spork() {
    assert_eq!(post("x % (y)"), "x %(y)");
    assert_eq!(post("a -  - > b"), "a --> b");
    assert_eq!(post("spork~ go();"), "spork ~ go();");
}

#[test]
fn signed_number_at_line_start() {
    assert_eq!(post("-  5 => int x;\n+ .5;"), "-5 => int x;\n+.5;");
}

#[test]
fn clean_text_is_unchanged() {
    let s = "1 => int x;\n<<< x >>>;\nspork ~ go();\n";
    assert_eq!(post(s), s);
}

#[test]
fn import_gets_a_terminator_before_formatting() {
    let t = Transforms::new().expect("patterns compile");
    assert_eq!(
        t.pre_format("@import \"lib.ck\"\n1 => int x;"),
        ("@import \"lib.ck\";\n1 => int x;".to_string(), true)
    );
    assert_eq!(
        t.pre_format("@import { \"a.ck\", \"b.ck\" }"),
        ("@import { \"a.ck\", \"b.ck\" };".to_string(), true)
    );
    assert_eq!(t.pre_format("@import \"lib.ck\";"), ("@import \"lib.ck\";".to_string(), false));
}

#[test]
fn import_round_trip_without_formatter() {
    let s = "@import \"lib.ck\"\n1 => int x;\n";
    assert_eq!(round_trip(s), s);
    let s = "  @import {\"a.ck\", \"b.ck\"}";
    assert_eq!(round_trip(s), s);
}

#[test]
fn written_import_terminator_is_kept() {
    let s = "@import \"lib.ck\";\n1 => int x;\n";
    assert_eq!(round_trip(s), s);
}

#[test]
fn added_import_terminator_is_removed_after_formatting() {
    let t = Transforms::new().expect("patterns compile");
    assert_eq!(t.post_format("@import \"lib.ck\";\n", true), "@import \"lib.ck\"\n");
    assert_eq!(t.post_format("@import \"lib.ck\";\n", false), "@import \"lib.ck\";\n");
}
