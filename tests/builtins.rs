use mesash::builtin::{Builtin, BuiltinSet, ExecData, ExitBuiltin, ExportBuiltin, ReadBuiltin, ShellOption, UnsetBuiltin};
use mesash::env::{EnvFd, Environment};
use mesash::error::{diagnostic, BuiltinError};
use mesash::exec::{resolve, Outcome, Stream, Streams};
use mesash::read::{read_line_from, split_fields_exec, unescape_exec, LineReader};

fn data(args: &[&str]) -> ExecData {
    ExecData { args: args.iter().map(|a| a.as_bytes().to_vec()).collect(), env: Vec::new() }
}

fn shell() -> Environment {
    Environment::new(b"sh".to_vec())
}

fn value(env: &Environment, name: &str) -> Option<String> {
    env.get_var(name.as_bytes()).map(|v| String::from_utf8(v.clone()).unwrap())
}

fn null_streams(input: Stream) -> Streams {
    Streams { input, output: Stream::Null, error: Stream::Null }
}

#[test]
fn find_matches_exact_names() {
    let set = BuiltinSet::new(vec![ShellOption::ErrExit]);
    assert!(matches!(set.find(b"exec"), Some(Builtin::Exec(_))));
    assert!(matches!(set.find(b"exit"), Some(Builtin::Exit(_))));
    assert!(matches!(set.find(b"export"), Some(Builtin::Export(_))));
    assert!(matches!(set.find(b"read"), Some(Builtin::Read(_))));
    assert!(matches!(set.find(b"unset"), Some(Builtin::Unset(_))));
    assert!(set.find(b"Exec").is_none());
    assert!(set.find(b"ls").is_none());
    assert!(set.find(b"").is_none());
}

#[test]
fn export_assignment_sets_and_exports() {
    let mut env = shell();
    let r = ExportBuiltin.run(&mut env, &data(&["FOO=bar"])).unwrap();
    assert_eq!(r.0, 0);
    assert_eq!(value(&env, "FOO").as_deref(), Some("bar"));
    assert_eq!(env.exported_vars(), vec![(b"FOO".to_vec(), b"bar".to_vec())]);
}

#[test]
fn export_value_keeps_later_equals_signs() {
    let mut env = shell();
    ExportBuiltin.run(&mut env, &data(&["A=b=c"])).unwrap();
    assert_eq!(value(&env, "A").as_deref(), Some("b=c"));
}

#[test]
fn export_bare_name_marks_before_assignment() {
    let mut env = shell();
    let r = ExportBuiltin.run(&mut env, &data(&["LATER"])).unwrap();
    assert_eq!(r.0, 0);
    assert_eq!(value(&env, "LATER"), None);
    assert!(env.exported_vars().is_empty());
    assert!(env.set_var(b"LATER", b"now".to_vec()));
    assert_eq!(env.exported_vars(), vec![(b"LATER".to_vec(), b"now".to_vec())]);
}

#[test]
fn export_list_prints_exported_pairs() {
    let mut env = shell();
    env.set_var(b"HIDDEN", b"x".to_vec());
    ExportBuiltin.run(&mut env, &data(&["A=1", "B=two"])).unwrap();
    let (status, out) = ExportBuiltin.run(&mut env, &data(&["-p"])).unwrap();
    assert_eq!(status, 0);
    assert_eq!(out, b"export A=1\nexport B=two\n".to_vec());
    assert!(matches!(ExportBuiltin.run(&mut env, &data(&["-p", "C"])), Err(BuiltinError::TooManyArguments)));
}

#[test]
fn export_rejects_bad_and_readonly_names() {
    let mut env = shell();
    env.set_readonly(b"RO", Some(b"fixed".to_vec()));
    let r = ExportBuiltin.run(&mut env, &data(&["1x=2", "RO=new", "OK=yes"])).unwrap();
    assert_eq!(r.0, 1);
    assert_eq!(value(&env, "RO").as_deref(), Some("fixed"));
    assert_eq!(value(&env, "OK").as_deref(), Some("yes"));
    assert_eq!(value(&env, "1x"), None);
}

#[test]
fn unset_removes_variable() {
    let mut env = shell();
    env.set_var(b"X", b"1".to_vec());
    assert_eq!(UnsetBuiltin.run(&mut env, &data(&["-v", "X"])), Ok(0));
    assert_eq!(value(&env, "X"), None);
    assert_eq!(UnsetBuiltin.run(&mut env, &data(&["X"])), Ok(0));
}

#[test]
fn unset_keeps_readonly_and_fails() {
    let mut env = shell();
    env.set_readonly(b"R", Some(b"v".to_vec()));
    assert_eq!(UnsetBuiltin.run(&mut env, &data(&["-v", "R"])), Ok(1));
    assert_eq!(value(&env, "R").as_deref(), Some("v"));
}

#[test]
fn unset_goes_on_after_readonly() {
    let mut env = shell();
    env.set_var(b"A", b"1".to_vec());
    env.set_readonly(b"R", Some(b"2".to_vec()));
    env.set_var(b"B", b"3".to_vec());
    assert_eq!(UnsetBuiltin.run(&mut env, &data(&["A", "R", "B"])), Ok(1));
    assert_eq!(value(&env, "A"), None);
    assert_eq!(value(&env, "R").as_deref(), Some("2"));
    assert_eq!(value(&env, "B"), None);
}

#[test]
fn unset_last_flag_wins() {
    let mut env = shell();
    env.define_func(b"f", b"echo hi".to_vec());
    env.set_var(b"f", b"var".to_vec());
    assert_eq!(UnsetBuiltin.run(&mut env, &data(&["-v", "-f", "f"])), Ok(0));
    assert!(env.get_func(b"f").is_none());
    assert_eq!(value(&env, "f").as_deref(), Some("var"));
    env.define_func(b"f", b"echo hi".to_vec());
    assert_eq!(UnsetBuiltin.run(&mut env, &data(&["-fv", "f"])), Ok(0));
    assert!(env.get_func(b"f").is_some());
    assert_eq!(value(&env, "f"), None);
}

#[test]
fn unset_bad_option() {
    let mut env = shell();
    assert_eq!(UnsetBuiltin.run(&mut env, &data(&["-x", "A"])), Err(BuiltinError::BadOption(b'x')));
}

#[test]
fn read_joins_continued_lines() {
    let mut env = shell();
    let r = ReadBuiltin.run(&mut env, &data(&["x"]), b"abc\\\ndef\n").unwrap();
    assert_eq!(r, (0, 9));
    assert_eq!(value(&env, "x").as_deref(), Some("abcdef"));
}

#[test]
fn read_raw_keeps_backslash() {
    let mut env = shell();
    let r = ReadBuiltin.run(&mut env, &data(&["-r", "x"]), b"a\\\n").unwrap();
    assert_eq!(r.0, 0);
    assert_eq!(value(&env, "x").as_deref(), Some("a\\"));
}

#[test]
fn read_bounded_split_keeps_remainder() {
    let mut env = shell();
    env.set_var(b"IFS", b":".to_vec());
    ReadBuiltin.run(&mut env, &data(&["x", "y"]), b"a:b:c\n").unwrap();
    assert_eq!(value(&env, "x").as_deref(), Some("a"));
    assert_eq!(value(&env, "y").as_deref(), Some("b:c"));
}

#[test]
fn read_default_ifs_and_missing_fields() {
    let mut env = shell();
    ReadBuiltin.run(&mut env, &data(&["a", "b", "c"]), b"one\ttwo\nrest\n").unwrap();
    assert_eq!(value(&env, "a").as_deref(), Some("one"));
    assert_eq!(value(&env, "b").as_deref(), Some("two"));
    assert_eq!(value(&env, "c").as_deref(), Some(""));
}

#[test]
fn read_resolves_escapes_per_field() {
    let mut env = shell();
    ReadBuiltin.run(&mut env, &data(&["x", "y"]), b"a\\\\b c\\d\n").unwrap();
    assert_eq!(value(&env, "x").as_deref(), Some("a\\b"));
    assert_eq!(value(&env, "y").as_deref(), Some("cd"));
}

#[test]
fn read_errors() {
    let mut env = shell();
    assert_eq!(ReadBuiltin.run(&mut env, &data(&["x"]), b""), Err(BuiltinError::NoInput));
    assert_eq!(value(&env, "x"), None);
    assert_eq!(ReadBuiltin.run(&mut env, &data(&["-r"]), b"a\n"), Err(BuiltinError::MissingOperand));
    assert_eq!(ReadBuiltin.run(&mut env, &data(&["-q", "x"]), b"a\n"), Err(BuiltinError::BadOption(b'q')));
    env.set_readonly(b"R", None);
    assert_eq!(ReadBuiltin.run(&mut env, &data(&["R", "S"]), b"1 2\n"), Ok((1, 4)));
    assert_eq!(value(&env, "S").as_deref(), Some("2"));
    assert_eq!(value(&env, "R"), None);
}

#[test]
fn read_unterminated_last_line() {
    let mut env = shell();
    assert_eq!(ReadBuiltin.run(&mut env, &data(&["x"]), b"tail"), Ok((0, 4)));
    assert_eq!(value(&env, "x").as_deref(), Some("tail"));
}

#[test]
fn split_and_unescape() {
    let f = split_fields_exec(b"a  b", b" ", 3);
    assert_eq!(f, vec![b"a".to_vec(), b"".to_vec(), b"b".to_vec()]);
    let f = split_fields_exec(b"", b" ", 2);
    assert_eq!(f, vec![b"".to_vec()]);
    assert_eq!(unescape_exec(b"\\a\\\\b"), b"a\\b".to_vec());
    assert_eq!(read_line_from(b"x\\\\\ny\n", false), (Some(b"x\\\\".to_vec()), 4));
    assert_eq!(read_line_from(b"", false), (None, 0));
}

#[test]
fn line_reader_feeds() {
    let mut rd = LineReader::new(false);
    assert!(!rd.feed(b"ab\\\n"));
    assert!(rd.feed(b"cd\n"));
    assert_eq!(rd.finish(), Some(b"abcd".to_vec()));
    let rd = LineReader::new(false);
    assert_eq!(rd.finish(), None);
    let mut rd = LineReader::new(true);
    assert!(rd.feed(b"ab\\\n"));
    assert_eq!(rd.finish(), Some(b"ab\\".to_vec()));
}

#[test]
fn exit_statuses() {
    let mut env = shell();
    env.set_last_status(7);
    assert_eq!(ExitBuiltin.run(&env, &data(&[])), Ok(7));
    assert_eq!(ExitBuiltin.run(&env, &data(&["3"])), Ok(3));
    assert_eq!(ExitBuiltin.run(&env, &data(&["300"])), Ok(44));
    assert_eq!(ExitBuiltin.run(&env, &data(&["abc"])), Err(BuiltinError::NotNumeric));
    assert_eq!(ExitBuiltin.run(&env, &data(&[""])), Err(BuiltinError::NotNumeric));
    assert_eq!(ExitBuiltin.run(&env, &data(&["1", "2"])), Err(BuiltinError::TooManyArguments));
}

#[test]
fn exec_without_command_is_a_no_op() {
    let mut env = shell();
    env.set_var(b"A", b"1".to_vec());
    let inv = Builtin::Exec(mesash::builtin::ExecBuiltin).execute_with(&mut env, &data(&[]), &null_streams(Stream::Null));
    assert!(matches!(inv.outcome, Outcome::Status(0)));
    assert!(inv.out.is_empty() && inv.err.is_empty());
    assert_eq!(value(&env, "A").as_deref(), Some("1"));
}

#[test]
fn exec_plans_replacement() {
    let mut env = shell();
    ExportBuiltin.run(&mut env, &data(&["PATH=/bin", "HOME=/root"])).unwrap();
    env.set_var(b"LOCAL", b"no".to_vec());
    let mut d = data(&["prog", "a1", "a2"]);
    d.env.push((b"HOME".to_vec(), b"/tmp".to_vec()));
    let inv = Builtin::Exec(mesash::builtin::ExecBuiltin).execute_with(&mut env, &d, &null_streams(Stream::Null));
    match inv.outcome {
        Outcome::Replace(plan) => {
            assert_eq!(plan.program, b"prog".to_vec());
            assert_eq!(plan.args, vec![b"a1".to_vec(), b"a2".to_vec()]);
            assert_eq!(
                plan.env,
                vec![
                    (b"PATH".to_vec(), b"/bin".to_vec()),
                    (b"HOME".to_vec(), b"/root".to_vec()),
                    (b"HOME".to_vec(), b"/tmp".to_vec()),
                ]
            );
            assert_eq!((plan.stdin, plan.stdout, plan.stderr), (None, None, None));
        }
        _ => panic!("expected a replacement plan"),
    }
}

#[test]
fn dispatcher_reports_errors() {
    let mut env = shell();
    let inv = Builtin::Exit(ExitBuiltin).execute_with(&mut env, &data(&["x"]), &null_streams(Stream::Null));
    assert!(matches!(inv.outcome, Outcome::Status(1)));
    assert_eq!(inv.err, b"sh: error: numeric argument required\n".to_vec());
    let inv = Builtin::Exit(ExitBuiltin).execute_with(&mut env, &data(&["256"]), &null_streams(Stream::Null));
    assert!(matches!(inv.outcome, Outcome::Exit(0)));
    let inv = Builtin::Read(ReadBuiltin).execute_with(&mut env, &data(&["v"]), &null_streams(Stream::Null));
    assert_eq!(inv.err, b"sh: error: end of input\n".to_vec());
    let inv = Builtin::Read(ReadBuiltin).execute_with(&mut env, &data(&["v"]), &null_streams(Stream::Piped(b"hi\n".to_vec())));
    assert!(matches!(inv.outcome, Outcome::Status(0)));
    assert_eq!(value(&env, "v").as_deref(), Some("hi"));
    let inv = Builtin::Read(ReadBuiltin).execute_with(&mut env, &data(&["v"]), &null_streams(Stream::Fd(0)));
    assert!(matches!(inv.outcome, Outcome::ReadFrom(0, _)));
}

#[test]
fn diagnostic_line_format() {
    assert_eq!(diagnostic(b"mesh", b"oops"), b"mesh: error: oops\n".to_vec());
    assert_eq!(BuiltinError::BadOption(b'z').message(), b"invalid option: -z".to_vec());
}

#[test]
fn resolve_copies_pipes_and_duplicates_descriptors() {
    let mut env = shell();
    env.set_fd(0, EnvFd::Piped(b"data".to_vec()));
    env.set_fd(1, EnvFd::Null);
    env.set_fd(2, EnvFd::Fd(2));
    let s = resolve(&env).unwrap();
    assert!(matches!(&s.input, Stream::Piped(v) if v == b"data"));
    assert!(matches!(s.output, Stream::Null));
    match s.error {
        Stream::Fd(n) => assert!(n != 2 && n >= 0),
        _ => panic!("expected a descriptor"),
    }
}

#[test]
fn resolve_fails_on_bad_descriptor() {
    let mut env = shell();
    env.set_fd(0, EnvFd::Fd(-5));
    assert!(matches!(resolve(&env), Err(BuiltinError::Descriptor(_))));
    let (inv, streams) = Builtin::Exit(ExitBuiltin).execute(&mut env, &data(&[]));
    assert!(streams.is_none());
    assert!(matches!(inv.outcome, Outcome::Status(1)));
    assert_eq!(inv.err, b"sh: error: cannot duplicate descriptor\n".to_vec());
}

#[test]
fn environment_tables() {
    let mut env = shell();
    assert!(matches!(env.get_fd(1), Some(EnvFd::Fd(1))));
    assert!(env.get_fd(5).is_none());
    env.set_fd(5, EnvFd::Null);
    assert!(matches!(env.get_fd(5), Some(EnvFd::Null)));
    assert!(env.get_fd(4).is_none());
    assert!(env.export_var(b"E", None));
    assert!(env.set_var(b"E", b"1".to_vec()));
    env.set_readonly(b"E", None);
    assert!(!env.set_var(b"E", b"2".to_vec()));
    assert!(!env.remove_var(b"E"));
    assert_eq!(env.exported_vars(), vec![(b"E".to_vec(), b"1".to_vec())]);
    env.define_func(b"g", b"body".to_vec());
    env.remove_func(b"g");
    assert!(env.get_func(b"g").is_none());
    assert_eq!(env.shell_name(), &b"sh".to_vec());
}

#[test]
fn export_bare_readonly_name_marks_it() {
    let mut env = shell();
    env.set_readonly(b"RO", Some(b"fixed".to_vec()));
    let r = ExportBuiltin.run(&mut env, &data(&["RO", "NEW"])).unwrap();
    assert_eq!(r.0, 0);
    assert_eq!(value(&env, "RO").as_deref(), Some("fixed"));
    assert_eq!(env.exported_vars(), vec![(b"RO".to_vec(), b"fixed".to_vec())]);
    assert!(!env.set_var(b"RO", b"other".to_vec()));
    assert!(!env.remove_var(b"RO"));
}

#[test]
fn first_unknown_flag_is_reported() {
    let mut env = shell();
    assert_eq!(UnsetBuiltin.run(&mut env, &data(&["-fqx", "A"])), Err(BuiltinError::BadOption(b'q')));
    assert_eq!(ReadBuiltin.run(&mut env, &data(&["-r", "-zy", "v"]), b"a\n"), Err(BuiltinError::BadOption(b'z')));
    let inv = Builtin::Unset(UnsetBuiltin).execute_with(&mut env, &data(&["-vk"]), &null_streams(Stream::Null));
    assert_eq!(inv.err, b"sh: error: invalid option: -k\n".to_vec());
}
