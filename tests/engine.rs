use crepl::call::{build_signature, infer_tag, marshal, Argument, FfiType, MarshalError, OpMode};
use crepl::decode::{format_int, format_result, RawResult};
use crepl::dlfcn::{combine_flags, DlOpenFlags};
use crepl::eval::{Env, Value};
use crepl::lex::{lex, lex_report, Token};
use crepl::number::parse_int;
use crepl::parser::Parser;
use crepl::registry::Registry;
use crepl::session::{directive, load_targets, plan_call, trailing, CallError, Directive};
use crepl::vars::{const_eval, var_eval, DefineError};

fn toks(line: &str) -> Vec<(Token, String)> {
    lex(line)
}

fn pair(t: Token, s: &str) -> (Token, String) {
    (t, s.to_string())
}

#[test]
fn lex_call_with_string() {
    assert_eq!(
        toks("puts \"hi\""),
        vec![pair(Token::Id, "puts"), pair(Token::CString, "hi")]
    );
}

#[test]
fn lex_load_command() {
    assert_eq!(
        toks(":l libm.so"),
        vec![pair(Token::Command, ":l"), pair(Token::FileName, "libm.so")]
    );
    assert_eq!(
        toks(":ls :ul :const :var"),
        vec![
            pair(Token::Command, ":ls"),
            pair(Token::Command, ":ul"),
            pair(Token::Command, ":const"),
            pair(Token::Command, ":var")
        ]
    );
}

#[test]
fn lex_numbers_and_operators() {
    assert_eq!(
        toks("-5 - 3"),
        vec![pair(Token::CInt, "-5"), pair(Token::Minus, "-"), pair(Token::CInt, "3")]
    );
    assert_eq!(toks("1.5e3"), vec![pair(Token::CFloat, "1.5e3")]);
    assert_eq!(toks(".5"), vec![pair(Token::CFloat, ".5")]);
    assert_eq!(toks("2e10"), vec![pair(Token::CFloat, "2e10")]);
    assert_eq!(toks("0x2A 0b101 017"), vec![
        pair(Token::CInt, "0x2A"),
        pair(Token::CInt, "0b101"),
        pair(Token::CInt, "017")
    ]);
    assert_eq!(
        toks("a<=b != c>d!"),
        vec![
            pair(Token::Id, "a"),
            pair(Token::Le, "<="),
            pair(Token::Id, "b"),
            pair(Token::BangEq, "!="),
            pair(Token::Id, "c"),
            pair(Token::Gt, ">"),
            pair(Token::Id, "d"),
            pair(Token::Bang, "!")
        ]
    );
}

#[test]
fn lex_char_literal() {
    assert_eq!(toks("putchar 'a'"), vec![pair(Token::Id, "putchar"), pair(Token::CChar, "a")]);
}

#[test]
fn lex_string_keeps_escapes() {
    assert_eq!(toks("\"a\\\"b\""), vec![pair(Token::CString, "a\\\"b")]);
}

#[test]
fn lex_skips_unrecognized() {
    let (tokens, errors) = lex_report("abs @ 3");
    assert_eq!(tokens, vec![pair(Token::Id, "abs"), pair(Token::CInt, "3")]);
    assert_eq!(errors, 1);
    let (tokens, errors) = lex_report("\"open");
    assert_eq!(tokens, vec![pair(Token::Id, "open")]);
    assert_eq!(errors, 1);
    assert_eq!(toks(""), vec![]);
    assert_eq!(toks(" \t "), vec![]);
}

#[test]
fn int_literal_radixes() {
    assert_eq!(parse_int("0x2A"), Some(42));
    assert_eq!(parse_int("0b101"), Some(5));
    assert_eq!(parse_int("017"), Some(15));
    assert_eq!(parse_int("42"), Some(42));
    assert_eq!(parse_int("0"), Some(0));
    assert_eq!(parse_int("-42"), Some(-42));
    assert_eq!(parse_int("+7"), Some(7));
    assert_eq!(parse_int("-0x10"), Some(-16));
}

#[test]
fn int_literal_limits() {
    assert_eq!(parse_int("9223372036854775807"), Some(i64::MAX));
    assert_eq!(parse_int("-9223372036854775808"), Some(i64::MIN));
    assert_eq!(parse_int("9223372036854775808"), None);
    assert_eq!(parse_int("0x"), None);
    assert_eq!(parse_int("08"), None);
    assert_eq!(parse_int(""), None);
}

#[test]
fn signature_has_one_tag_per_literal() {
    let line = toks("f 1 \"s\" 2.0 'c'");
    let args = trailing(&line);
    let sig = build_signature(&args, OpMode::Int).unwrap();
    assert_eq!(sig.args, vec![FfiType::SInt64, FfiType::Pointer, FfiType::Double, FfiType::SInt8]);
    assert_eq!(sig.ret, FfiType::SInt64);
}

#[test]
fn signature_rejects_non_literal() {
    let line = toks("f 1 x");
    let args = trailing(&line);
    let e = build_signature(&args, OpMode::Void).err().unwrap();
    assert_eq!(e.position, 1);
    assert_eq!(e.kind, Token::Id);
    assert!(matches!(plan_call(&line, OpMode::Void), Err(CallError::Signature(_))));
}

#[test]
fn int_literal_displays_in_int_mode() {
    let line = toks("abs 42");
    assert_eq!(line[1].0, Token::CInt);
    assert_eq!(infer_tag(line[1].0), Some(FfiType::SInt64));
    let plan = plan_call(&line, OpMode::Int).unwrap();
    assert_eq!(plan.signature.ret, FfiType::SInt64);
    match &plan.args[0] {
        Argument::SInt64(v) => assert_eq!(*v, 42),
        _ => panic!("expected an integer argument"),
    }
    assert_eq!(format_result(RawResult::Int(42)).unwrap(), "42");
}

#[test]
fn string_marshals_nul_terminated() {
    assert_eq!(infer_tag(Token::CString), Some(FfiType::Pointer));
    match marshal(Token::CString, "hi").unwrap() {
        Argument::Pointer(b) => assert_eq!(b, vec![b'h', b'i', 0]),
        _ => panic!("expected a pointer argument"),
    }
}

#[test]
fn marshal_errors() {
    assert_eq!(marshal(Token::CString, "a\0b").err(), Some(MarshalError::EmbeddedNul));
    assert_eq!(marshal(Token::CInt, "99999999999999999999").err(), Some(MarshalError::IntOutOfRange));
    assert_eq!(marshal(Token::CChar, "é").err(), Some(MarshalError::CharOutOfRange));
    assert_eq!(marshal(Token::Id, "x").err(), Some(MarshalError::NotALiteral));
    match marshal(Token::CChar, "A").unwrap() {
        Argument::SInt8(c) => assert_eq!(c, 65),
        _ => panic!("expected a char argument"),
    }
    match marshal(Token::CFloat, "2.5").unwrap() {
        Argument::Double(s) => assert_eq!(s, "2.5"),
        _ => panic!("expected a float argument"),
    }
    let line = toks("f 1 99999999999999999999");
    match plan_call(&line, OpMode::Int) {
        Err(CallError::Marshal { position, error }) => {
            assert_eq!(position, 1);
            assert_eq!(error, MarshalError::IntOutOfRange);
        }
        _ => panic!("expected a marshal error"),
    }
}

#[test]
fn resolve_in_two_libraries_gives_one() {
    let mut reg: Registry<u32> = Registry::new();
    assert_eq!(reg.add_lib("liba.so".to_string(), 1), None);
    assert_eq!(reg.add_lib("libb.so".to_string(), 2), None);
    assert_eq!(reg.get_sym(vec![Some(10u64), Some(20u64)]), Ok(20));
    assert_eq!(reg.get_sym(vec![Some(10u64), None]), Ok(10));
}

#[test]
fn resolve_absent_lists_every_library() {
    let mut reg: Registry<u32> = Registry::new();
    reg.add_lib("liba.so".to_string(), 1);
    reg.add_lib("libb.so".to_string(), 2);
    let e = reg.get_sym::<u64>(vec![None, None]).err().unwrap();
    assert_eq!(e.searched, vec!["liba.so".to_string(), "libb.so".to_string()]);
}

#[test]
fn unload_unknown_changes_nothing() {
    let mut reg: Registry<u32> = Registry::new();
    reg.add_lib("libc.so.6".to_string(), 1);
    let e = reg.del_lib("libnever.so").err().unwrap();
    assert_eq!(e.name, "libnever.so");
    assert_eq!(reg.len(), 1);
    assert_eq!(reg.get_libs(), vec!["libc.so.6".to_string()]);
}

#[test]
fn unload_and_reload() {
    let mut reg: Registry<u32> = Registry::new();
    reg.add_lib("a.so".to_string(), 1);
    reg.add_lib("b.so".to_string(), 2);
    assert_eq!(reg.add_lib("a.so".to_string(), 3), Some(1));
    assert_eq!(reg.get_libs(), vec!["b.so".to_string(), "a.so".to_string()]);
    assert_eq!(reg.del_lib("b.so"), Ok(2));
    assert_eq!(reg.get_libs(), vec!["a.so".to_string()]);
    assert_eq!(reg.handles(), vec![&3]);
}

#[test]
fn zero_argument_call_has_empty_signature() {
    let line = toks("getpid");
    let plan = plan_call(&line, OpMode::Int).unwrap();
    assert_eq!(plan.symbol, "getpid");
    assert!(plan.signature.args.is_empty());
    assert!(plan.args.is_empty());
}

#[test]
fn sin_call_plan_in_float_mode() {
    let mut reg: Registry<u32> = Registry::new();
    reg.add_lib("libc.so.6".to_string(), 1);
    let load = toks(":l libm.so");
    assert_eq!(directive(&load), Directive::Load);
    let (names, rejected) = load_targets(&trailing(&load));
    assert_eq!(names, vec!["libm.so".to_string()]);
    assert!(rejected.is_empty());
    reg.add_lib(names[0].clone(), 2);
    assert_eq!(directive(&toks(":f")), Directive::SetMode(OpMode::Float));
    let line = toks("sin 0");
    let plan = plan_call(&line, OpMode::Float).unwrap();
    assert_eq!(plan.symbol, "sin");
    assert_eq!(plan.signature.args, vec![FfiType::SInt64]);
    assert_eq!(plan.signature.ret, FfiType::Double);
}

#[test]
fn unresolvable_name_names_default_library() {
    let reg: Registry<u32> = {
        let mut r = Registry::new();
        r.add_lib("libc.so.6".to_string(), 1);
        r
    };
    let line = toks("nope");
    assert_eq!(directive(&line), Directive::Call);
    let e = reg.get_sym::<u64>(vec![None]).err().unwrap();
    assert_eq!(e.searched, vec!["libc.so.6".to_string()]);
    let next = toks(":ls");
    assert_eq!(directive(&next), Directive::List);
}

#[test]
fn directives() {
    assert_eq!(directive(&toks("")), Directive::Empty);
    assert_eq!(directive(&toks(":r")), Directive::Redisplay);
    assert_eq!(directive(&toks(":d")), Directive::SetMode(OpMode::Int));
    assert_eq!(directive(&toks(":c")), Directive::SetMode(OpMode::Char));
    assert_eq!(directive(&toks(":v")), Directive::SetMode(OpMode::Void));
    assert_eq!(directive(&toks(":s")), Directive::SetMode(OpMode::Ptr));
    assert_eq!(directive(&toks(":ul a.so")), Directive::Unload);
    assert_eq!(directive(&toks(":const x 1")), Directive::DefineConst);
    assert_eq!(directive(&toks(":var x 1")), Directive::DefineVar);
    assert_eq!(directive(&toks("42")), Directive::NotAFunction);
    assert_eq!(plan_call(&toks("42"), OpMode::Int).err(), Some(CallError::NotAFunction));
    let (names, rejected) = load_targets(&trailing(&toks(":l libm.so foo")));
    assert_eq!(names, vec!["libm.so".to_string()]);
    assert_eq!(rejected, vec!["foo".to_string()]);
}

#[test]
fn result_display() {
    assert_eq!(format_int(-1234), "-1234");
    assert_eq!(format_int(0), "0");
    assert_eq!(format_int(i64::MIN), "-9223372036854775808");
    assert_eq!(format_result(RawResult::Char(-3)).unwrap(), "-3");
    assert_eq!(format_result(RawResult::Nothing).unwrap(), "()");
    assert_eq!(format_result(RawResult::Text(None)).unwrap(), "(NullString)");
    assert_eq!(format_result(RawResult::Text(Some(b"ok".to_vec()))).unwrap(), "ok");
    assert!(format_result(RawResult::Text(Some(vec![0xff, 0xfe]))).is_err());
}

#[test]
fn constants_and_variables() {
    let mut env = Env::new();
    assert_eq!(const_eval(&mut env, toks("N 2 + 3 * 4")), Ok("N".to_string()));
    match env.get("N") {
        Some(Value::Integer(v)) => assert_eq!(v, 14),
        _ => panic!("N should be an integer"),
    }
    assert_eq!(var_eval(&mut env, toks("x (N - 4) * 2")), Ok("x".to_string()));
    match env.get("x") {
        Some(Value::Integer(v)) => assert_eq!(v, 20),
        _ => panic!("x should be an integer"),
    }
    assert_eq!(var_eval(&mut env, toks("N 1")), Err(DefineError::AlreadyDefined));
    assert_eq!(const_eval(&mut env, toks("x 1")), Err(DefineError::AlreadyDefined));
    assert_eq!(var_eval(&mut env, toks("")), Err(DefineError::Usage));
    assert_eq!(var_eval(&mut env, toks("1 2")), Err(DefineError::NotAnIdentifier));
    assert_eq!(var_eval(&mut env, toks("b N == 14")), Ok("b".to_string()));
    match env.get("b") {
        Some(Value::Bool(v)) => assert!(v),
        _ => panic!("b should be a bool"),
    }
    assert_eq!(var_eval(&mut env, toks("s \"ab\" * 2 + 'c'")), Ok("s".to_string()));
    match env.get("s") {
        Some(Value::CString(v)) => assert_eq!(v, "ababc"),
        _ => panic!("s should be a string"),
    }
    assert!(var_eval(&mut env, toks("y 1 / 0")).is_err());
    assert!(var_eval(&mut env, toks("y undefined_name")).is_err());
    assert!(var_eval(&mut env, toks("y (1")).is_err());
}

#[test]
fn parser_reads_one_expression() {
    let mut p = Parser::new(toks("1 + 2 * 3"));
    assert!(p.parse().is_ok());
    let mut q = Parser::new(toks("* 2"));
    assert!(q.parse().is_err());
}

#[test]
fn open_flags_combine() {
    assert_eq!(combine_flags(&[DlOpenFlags::RTLD_LAZY]), 1);
    assert_eq!(combine_flags(&[DlOpenFlags::RTLD_NOW, DlOpenFlags::RTLD_GLOBAL]), 0x102);
    assert_eq!(combine_flags(&[]), 0);
    assert_eq!(combine_flags(&[DlOpenFlags::RTLD_LAZY, DlOpenFlags::RTLD_LAZY, DlOpenFlags::RTLD_LOCAL]), 1);
}
