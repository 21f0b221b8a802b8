use mimic::parse;
use mimic::script::{Dest, Instruction, Source, Variable};

#[test]
fn parses_directives_in_order() {
    let script = "# a comment\n\
load \"src/main.rs\" as main\n\
speed 40\n\
\n\
type main trim newline\n\
goto -2 3\n\
goto top\n\
find \"fn\" 2\n\
set debug true\n\
set count -5\n\
replace \"a\" \"b\"   # trailing comment\n";
    let parsed = parse(script).unwrap();
    assert_eq!(parsed.len(), 9);
    assert!(matches!(&parsed[0], Instruction::Load(p, k) if p == "src/main.rs" && k == "main"));
    assert!(matches!(parsed[1], Instruction::Speed(40)));
    assert!(matches!(&parsed[2], Instruction::Type { source: Source::Ident(s), trim_trailing_newline: true, prefix_newline: true } if s == "main"));
    assert!(matches!(parsed[3], Instruction::Goto(Dest::Relative { row: -2, col: 3 })));
    assert!(matches!(&parsed[4], Instruction::Goto(Dest::Marker(m)) if m == "top"));
    assert!(matches!(&parsed[5], Instruction::Find { needle, count: 2 } if needle == "fn"));
    assert!(matches!(&parsed[6], Instruction::Assign(n, Variable::Bool(true)) if n == "debug"));
    assert!(matches!(&parsed[7], Instruction::Assign(n, Variable::Int(-5)) if n == "count"));
    assert!(matches!(&parsed[8], Instruction::Replace { src, replacement: Source::Str(r) } if src == "a" && r == "b"));
}

#[test]
fn unknown_directive_names_its_line() {
    let err = parse("delete\nfrobnicate 3\n").unwrap_err();
    assert_eq!(err.line, 2);
}

#[test]
fn unclosed_quote_is_an_error() {
    let err = parse("title \"half").unwrap_err();
    assert_eq!(err.line, 1);
}

#[test]
fn wrong_arguments_are_errors() {
    assert_eq!(parse("select 1").unwrap_err().line, 1);
    assert_eq!(parse("wait x").unwrap_err().line, 1);
    assert_eq!(parse("speed 99999999999999999999").unwrap_err().line, 1);
    assert_eq!(parse("type a sideways").unwrap_err().line, 1);
    assert_eq!(parse("\n\nnumbers maybe").unwrap_err().line, 3);
}

#[test]
fn blank_script_has_no_directives() {
    assert_eq!(parse("").unwrap().len(), 0);
    assert_eq!(parse("  \n# nothing\n").unwrap().len(), 0);
}

#[test]
fn keywords_may_be_capitalised() {
    let parsed = parse("Load \"missing.txt\" as X\nSPEED 10\nDelete").unwrap();
    assert_eq!(parsed.len(), 3);
    assert!(matches!(&parsed[0], Instruction::Load(p, k) if p == "missing.txt" && k == "X"));
    assert!(matches!(parsed[1], Instruction::Speed(10)));
    assert!(matches!(parsed[2], Instruction::Delete));
}
