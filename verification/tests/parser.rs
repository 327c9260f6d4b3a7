use minicomp::{parse, try_parse, Decl, ParseFault};

fn dump(decls: &[Decl<String>]) -> String {
    format!("{:?}", decls)
}

#[test]
fn parses_a_sum() {
    let (rest, decls) = try_parse("main = 1 + 2").unwrap();
    assert_eq!(rest, "");
    assert_eq!(dump(&decls), "[Bind(\"main\", [], Binop(Add, Integer(1), Integer(2)))]");
}

#[test]
fn operators_group_to_the_left() {
    let (rest, decls) = try_parse("a=1-2+3").unwrap();
    assert_eq!(rest, "");
    assert_eq!(
        dump(&decls),
        "[Bind(\"a\", [], Binop(Add, Binop(Sub, Integer(1), Integer(2)), Integer(3)))]"
    );
}

#[test]
fn several_declarations_and_whitespace() {
    let (rest, decls) = try_parse("  a = 1\nb = \"hi\" - 3\n\n").unwrap();
    assert_eq!(rest, "");
    assert_eq!(
        dump(&decls),
        "[Bind(\"a\", [], Integer(1)), Bind(\"b\", [], Binop(Sub, String(\"hi\"), Integer(3)))]"
    );
    let (rest, decls) = try_parse("a = 1\tb = 2").unwrap();
    assert_eq!(rest, "");
    assert_eq!(decls.len(), 2);
}

#[test]
fn stops_at_what_does_not_scan() {
    let (rest, decls) = try_parse("a = 1 +").unwrap();
    assert_eq!(rest, "+");
    assert_eq!(dump(&decls), "[Bind(\"a\", [], Integer(1))]");
    let (rest, decls) = try_parse("a = 1 2").unwrap();
    assert_eq!(rest, "2");
    assert_eq!(decls.len(), 1);
    let (rest, decls) = try_parse("= 1").unwrap();
    assert_eq!(rest, "= 1");
    assert!(decls.is_empty());
    let (rest, decls) = try_parse("a 1").unwrap();
    assert_eq!(rest, "a 1");
    assert!(decls.is_empty());
    let (rest, decls) = try_parse("a = b").unwrap();
    assert_eq!(rest, "a = b");
    assert!(decls.is_empty());
}

#[test]
fn empty_text() {
    let (rest, decls) = try_parse("").unwrap();
    assert_eq!(rest, "");
    assert!(decls.is_empty());
    let (rest, decls) = try_parse(" \n\t\r ").unwrap();
    assert_eq!(rest, "");
    assert!(decls.is_empty());
}

#[test]
fn integer_limits() {
    let (_, decls) = try_parse("x = 9223372036854775807").unwrap();
    assert_eq!(dump(&decls), "[Bind(\"x\", [], Integer(9223372036854775807))]");
    let (_, decls) = try_parse("x = 007").unwrap();
    assert_eq!(dump(&decls), "[Bind(\"x\", [], Integer(7))]");
    assert_eq!(try_parse("x = 9223372036854775808").unwrap_err(), ParseFault::IntegerTooLarge);
    assert_eq!(try_parse("x = 99999999999999999999").unwrap_err(), ParseFault::IntegerTooLarge);
    assert_eq!(try_parse("x = 1 - 99999999999999999999").unwrap_err(), ParseFault::IntegerTooLarge);
}

#[test]
fn unterminated_string() {
    assert_eq!(try_parse("x = \"abc").unwrap_err(), ParseFault::UnterminatedString);
    assert_eq!(try_parse("x = 1 + \"abc").unwrap_err(), ParseFault::UnterminatedString);
    assert_eq!(try_parse("a = 1\nb = \"").unwrap_err(), ParseFault::UnterminatedString);
}

#[test]
fn strings_keep_their_characters() {
    let (_, decls) = try_parse("s = \"a b\nc\"").unwrap();
    assert_eq!(dump(&decls), "[Bind(\"s\", [], String(\"a b\\nc\"))]");
    let (_, decls) = try_parse("s = \"\"").unwrap();
    assert_eq!(dump(&decls), "[Bind(\"s\", [], String(\"\"))]");
}

#[test]
fn unicode_names() {
    let (rest, decls) = try_parse("été2 = 1").unwrap();
    assert_eq!(rest, "");
    assert_eq!(dump(&decls), "[Bind(\"été2\", [], Integer(1))]");
    let (rest, decls) = try_parse("a_b = 1").unwrap();
    assert_eq!(rest, "a_b = 1");
    assert!(decls.is_empty());
}

#[test]
fn parse_agrees_with_try_parse() {
    let (rest, decls) = parse("main = 4 - \"s\" \n rest");
    assert_eq!(rest, "rest");
    assert_eq!(dump(&decls), "[Bind(\"main\", [], Binop(Sub, Integer(4), String(\"s\")))]");
}

#[test]
fn ascii_names_are_letters_and_digits() {
    let (rest, decls) = try_parse("Ab9 = 1\nz = 2\n0x = 3").unwrap();
    assert_eq!(rest, "");
    assert_eq!(dump(&decls), "[Bind(\"Ab9\", [], Integer(1)), Bind(\"z\", [], Integer(2)), Bind(\"0x\", [], Integer(3))]");
    for stop in ["$a = 1", "-a = 1", " = 1", "a! = 1"] {
        let (rest, decls) = try_parse(stop).unwrap();
        assert!(decls.is_empty(), "{}", stop);
        assert_eq!(rest, stop.trim_start());
    }
}
