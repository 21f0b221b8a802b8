use mimic::compile::{compile, load_paths, speed_of, CompileError};
use mimic::instructions::Instruction;
use mimic::parse;
use mimic::script::{Dest, Instruction as Directive, Source, Variable};

fn lowered(prog: Vec<Directive>) -> Vec<Instruction> {
    compile(&prog, &vec![]).unwrap()
}

#[test]
fn speed_is_a_rate() {
    assert_eq!(speed_of(10), 100_000);
    assert_eq!(speed_of(20), 50_000);
    assert_eq!(speed_of(3), 333_333);
    assert_eq!(speed_of(6), 166_666);
    assert_eq!(speed_of(0), u64::MAX);
    let out = lowered(vec![Directive::Speed(40)]);
    assert_eq!(format!("{:?}", out), format!("{:?}", vec![Instruction::Speed(25_000)]));
}

#[test]
fn missing_load_fails_with_import_error() {
    let prog = parse("Load \"missing.txt\" as X").unwrap();
    assert_eq!(load_paths(&prog), vec!["missing.txt".to_string()]);
    match compile(&prog, &vec![None]) {
        Err(CompileError::Import(path)) => assert_eq!(path, "missing.txt"),
        other => panic!("unexpected {:?}", other),
    }
    assert!(matches!(compile(&prog, &vec![]), Err(CompileError::Import(_))));
}

#[test]
fn loaded_files_resolve_names() {
    let prog = vec![
        Directive::Load("a.rs".to_string(), "a".to_string()),
        Directive::Type { source: Source::Ident("a".to_string()), trim_trailing_newline: true, prefix_newline: true },
    ];
    let out = compile(&prog, &vec![Some("fn x() {}\n".to_string())]).unwrap();
    let expected = vec![Instruction::Insert("\n".to_string()), Instruction::LoadTypeBuffer("fn x() {}".to_string())];
    assert_eq!(format!("{:?}", out), format!("{:?}", expected));
}

#[test]
fn unbound_name_fails() {
    let prog = vec![Directive::Insert(Source::Ident("nope".to_string()))];
    match compile(&prog, &vec![]) {
        Err(CompileError::UnresolvedVariable(name)) => assert_eq!(name, "nope"),
        other => panic!("unexpected {:?}", other),
    }
}

#[test]
fn replace_is_find_select_delete_type() {
    let replace = lowered(vec![Directive::Replace {
        src: "\u{4e16}b".to_string(),
        replacement: Source::Str("xyz".to_string()),
    }]);
    let manual = lowered(vec![
        Directive::Find { needle: "\u{4e16}b".to_string(), count: 1 },
        Directive::Select { width: 3, height: 1 },
        Directive::Delete,
        Directive::Type { source: Source::Str("xyz".to_string()), trim_trailing_newline: false, prefix_newline: false },
    ]);
    assert_eq!(format!("{:?}", replace), format!("{:?}", manual));
}

#[test]
fn command_schedules_its_own_clearing() {
    let out = lowered(vec![Directive::CommandClearTimeout(250), Directive::Command(Source::Str("ls".to_string()))]);
    let expected = vec![
        Instruction::CommandClearTimeout(250_000),
        Instruction::LoadCommandBuffer("ls".to_string()),
        Instruction::ClearCommandWait,
        Instruction::ClearCommandBuffer,
    ];
    assert_eq!(format!("{:?}", out), format!("{:?}", expected));
}

#[test]
fn durations_become_microseconds() {
    let out = lowered(vec![Directive::Wait(2), Directive::LinePause(300), Directive::Jitter(15)]);
    let expected = vec![Instruction::Wait(2_000_000), Instruction::LinePause(300_000), Instruction::SetJitter(15)];
    assert_eq!(format!("{:?}", out), format!("{:?}", expected));
}

#[test]
fn assignment_binds_strings() {
    let prog = vec![
        Directive::Assign("who".to_string(), Variable::Str("me".to_string())),
        Directive::Popup(Source::Ident("who".to_string())),
        Directive::Goto(Dest::Marker("m".to_string())),
    ];
    let out = lowered(prog);
    assert_eq!(out.len(), 3);
    assert_eq!(format!("{:?}", out[1]), format!("{:?}", Instruction::Popup("me".to_string())));
    assert_eq!(format!("{:?}", out[2]), format!("{:?}", Instruction::JumpToMarker("m".to_string())));
}

#[test]
fn unreadable_load_later_in_the_script_fails_whole() {
    let prog = vec![
        Directive::Load("a.rs".to_string(), "a".to_string()),
        Directive::Delete,
        Directive::Load("b.rs".to_string(), "b".to_string()),
        Directive::Delete,
    ];
    match compile(&prog, &vec![Some("x".to_string()), None]) {
        Err(CompileError::Import(path)) => assert_eq!(path, "b.rs"),
        other => panic!("unexpected {:?}", other),
    }
}
