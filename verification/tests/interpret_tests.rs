use kaiforth::common::error::{ForthError, ForthErrorKind, ForthPhase};
use kaiforth::common::types::Op;
use kaiforth::compiler::parser::{InputSource, Parser, Token};
use kaiforth::system::system::{Output, System, WordKind};
use kaiforth::vm::state::Vm;

fn setup() -> (Vm, System, Parser) {
    let mut sys = System::new(4096).unwrap();
    sys.register_core();
    (Vm::new().unwrap(), sys, Parser::try_new().unwrap())
}

/// Feeds `text` through the interpreter, running each colon definition it
/// executes to its end before the next token.
fn interpret(vm: &mut Vm, sys: &mut System, p: &mut Parser, text: &str) -> Result<(), ForthError> {
    p.input_stack.push(InputSource { text: text.to_string(), ptr: 0 });
    assert!(sys.dict.bindings_exist());
    while let Some(tok) = p.next_token()? {
        match tok {
            Token::Float(s) => {
                let v: f64 = s.parse().unwrap();
                vm.handle_float(sys, v.to_bits())?;
            }
            t => {
                assert!(vm.token_can_run(sys, &t));
                vm.interpret_token(sys, p, t)?;
                while !vm.nested.is_empty() {
                    assert!(vm.can_step(sys));
                    let r = vm.step_tier1(sys);
                    vm.settle(r)?;
                }
            }
        }
    }
    Ok(())
}

fn stack(vm: &Vm) -> Vec<i64> {
    let mut copy = vm.try_clone().unwrap();
    let mut out = Vec::new();
    while let Ok(v) = copy.d_pop() {
        out.push(v);
    }
    out.reverse();
    out
}

fn abort() -> ForthError {
    ForthError::new(ForthErrorKind::Abort, ForthPhase::Execution)
}

#[test]
fn test_numbers_are_pushed() {
    let (mut vm, mut sys, mut p) = setup();
    interpret(&mut vm, &mut sys, &mut p, "1 2 3").unwrap();
    assert_eq!(stack(&vm), vec![1, 2, 3]);
}

#[test]
fn test_primitive_words_execute() {
    let (mut vm, mut sys, mut p) = setup();
    interpret(&mut vm, &mut sys, &mut p, "2 3 + 4 * DUP").unwrap();
    assert_eq!(stack(&vm), vec![20, 20]);
}

#[test]
fn test_colon_definition_runs() {
    let (mut vm, mut sys, mut p) = setup();
    interpret(&mut vm, &mut sys, &mut p, ": square dup * ; 5 square .").unwrap();
    assert_eq!(sys.output, vec![Output::Number(25)]);
    assert!(!sys.compiling);
    assert_eq!(stack(&vm), Vec::<i64>::new());
}

#[test]
fn test_colon_compiles_body() {
    let (mut vm, mut sys, mut p) = setup();
    let start = sys.code.len();
    interpret(&mut vm, &mut sys, &mut p, ": twice dup + ;").unwrap();
    let idx = sys.dict.lookup("twice").unwrap();
    assert_eq!(sys.dict.word(idx).kind, WordKind::Defined(start));
    assert_eq!(sys.code.ops[start..].to_vec(), vec![Op::Dup.to_u8(), Op::Add.to_u8(), Op::Ret.to_u8()]);
}

#[test]
fn test_words_starting_with_digits() {
    // A number ends at white space, so `1+` and `0=` are words.
    let (mut vm, mut sys, mut p) = setup();
    interpret(&mut vm, &mut sys, &mut p, "5 1+ 0 0=").unwrap();
    assert_eq!(stack(&vm), vec![6, -1]);
    interpret(&mut vm, &mut sys, &mut p, ": inc 1+ ;").unwrap();
    let n = sys.code.len();
    assert_eq!(sys.code.ops[n - 2..].to_vec(), vec![Op::Inc.to_u8(), Op::Ret.to_u8()]);
}

#[test]
fn test_definition_hidden_while_compiling() {
    let (mut vm, mut sys, mut p) = setup();
    interpret(&mut vm, &mut sys, &mut p, ": half").unwrap();
    assert!(sys.compiling);
    // The word being defined is hidden from lookup until `;`.
    assert_eq!(sys.dict.lookup("half"), None);
    let idx = sys.dict.latest_word.unwrap();
    assert!(sys.dict.word(idx).is_hidden);
    interpret(&mut vm, &mut sys, &mut p, "2 / ;").unwrap();
    assert!(!sys.dict.word(idx).is_hidden);
    assert_eq!(sys.dict.lookup("half"), Some(idx));
    assert!(!sys.compiling);
    interpret(&mut vm, &mut sys, &mut p, "10 half").unwrap();
    assert_eq!(stack(&vm), vec![5]);
}

#[test]
fn test_if_else_then() {
    let (mut vm, mut sys, mut p) = setup();
    interpret(&mut vm, &mut sys, &mut p, ": pick1 IF 100 ELSE 200 THEN ; 1 pick1 0 pick1").unwrap();
    assert_eq!(stack(&vm), vec![100, 200]);
}

#[test]
fn test_begin_until_loop() {
    let (mut vm, mut sys, mut p) = setup();
    interpret(&mut vm, &mut sys, &mut p, ": down BEGIN 1- DUP 0= UNTIL ; 5 down").unwrap();
    assert_eq!(stack(&vm), vec![0]);
}

#[test]
fn test_do_loop_compiles_and_runs() {
    let (mut vm, mut sys, mut p) = setup();
    interpret(&mut vm, &mut sys, &mut p, ": sum 0 5 0 DO I + LOOP ; sum").unwrap();
    assert_eq!(stack(&vm), vec![10]);
}

#[test]
fn test_control_words_outside_definition_abort() {
    let (mut vm, mut sys, mut p) = setup();
    assert_eq!(interpret(&mut vm, &mut sys, &mut p, "IF"), Err(abort()));
    let (mut vm, mut sys, mut p) = setup();
    assert_eq!(interpret(&mut vm, &mut sys, &mut p, "1 LITERAL"), Err(abort()));
}

#[test]
fn test_unbalanced_semicolon_aborts() {
    let (mut vm, mut sys, mut p) = setup();
    assert_eq!(interpret(&mut vm, &mut sys, &mut p, ": bad IF ;"), Err(abort()));
    assert!(sys.compiling);
}

#[test]
fn test_unknown_word() {
    let (mut vm, mut sys, mut p) = setup();
    assert_eq!(
        interpret(&mut vm, &mut sys, &mut p, "frobnicate"),
        Err(ForthError::new(ForthErrorKind::UnknownToken, ForthPhase::Execution))
    );
}

#[test]
fn test_literal_in_definition() {
    let (mut vm, mut sys, mut p) = setup();
    interpret(&mut vm, &mut sys, &mut p, "7 : seven LITERAL ; seven seven").unwrap();
    assert_eq!(stack(&vm), vec![7, 7]);
}

#[test]
fn test_tick_pushes_word_index() {
    let (mut vm, mut sys, mut p) = setup();
    interpret(&mut vm, &mut sys, &mut p, "' dup").unwrap();
    assert_eq!(stack(&vm), vec![sys.dict.lookup("dup").unwrap() as i64]);
    assert_eq!(
        interpret(&mut vm, &mut sys, &mut p, "' nosuchword"),
        Err(ForthError::new(ForthErrorKind::UnknownToken, ForthPhase::Execution))
    );
}

#[test]
fn test_tick_execute() {
    let (mut vm, mut sys, mut p) = setup();
    interpret(&mut vm, &mut sys, &mut p, "3 4 ' + execute").unwrap();
    assert_eq!(stack(&vm), vec![7]);
}

#[test]
fn test_float_token() {
    let (mut vm, mut sys, mut p) = setup();
    interpret(&mut vm, &mut sys, &mut p, "2.5").unwrap();
    assert_eq!(vm.f_pop_bits(), Ok(2.5f64.to_bits()));
    interpret(&mut vm, &mut sys, &mut p, ": f 1.5 ;").unwrap();
    let n = sys.code.len();
    assert_eq!(sys.code.ops[n - 2], Op::PushF.to_u8());
    assert_eq!(sys.code.data[n - 2], 1.5f64.to_bits());
}

#[test]
fn test_case_insensitive_keywords() {
    let (mut vm, mut sys, mut p) = setup();
    interpret(&mut vm, &mut sys, &mut p, ": t if 1 else 2 then ; 0 t").unwrap();
    assert_eq!(stack(&vm), vec![2]);
}

#[test]
fn test_stop_inside_definition_ends_it() {
    let (mut vm, mut sys, mut p) = setup();
    interpret(&mut vm, &mut sys, &mut p, ": s 1 stop 2 ; s 3").unwrap();
    assert_eq!(stack(&vm), vec![1, 3]);
    assert!(vm.nested.is_empty());
}

#[test]
fn test_plus_loop_steps() {
    let (mut vm, mut sys, mut p) = setup();
    interpret(&mut vm, &mut sys, &mut p, ": evens 10 0 DO I 2 +LOOP ; evens").unwrap();
    assert_eq!(stack(&vm), vec![0, 2, 4, 6, 8]);
}

#[test]
fn test_basic_math_prints() {
    let (mut vm, mut sys, mut p) = setup();
    interpret(&mut vm, &mut sys, &mut p, "2 3 + .").unwrap();
    assert_eq!(sys.output, vec![Output::Number(5)]);
    interpret(&mut vm, &mut sys, &mut p, "10 5 / . cr").unwrap();
    assert_eq!(sys.output, vec![Output::Number(5), Output::Number(2), Output::Newline]);
}

#[test]
fn test_dictionary_insert_and_lookup() {
    let mut sys = System::new(64).unwrap();
    let a = sys.dict.insert("Alpha".to_string(), WordKind::Defined(3));
    let b = sys.dict.insert("beta".to_string(), WordKind::Defined(7));
    assert_eq!(sys.dict.lookup("ALPHA"), Some(a));
    assert_eq!(sys.dict.lookup("alpha"), Some(a));
    assert_eq!(sys.dict.lookup("Beta"), Some(b));
    assert_eq!(sys.dict.lookup("gamma"), None);
    // A later word of the same name shadows the earlier one.
    let a2 = sys.dict.insert("alpha".to_string(), WordKind::Defined(9));
    assert_eq!(sys.dict.lookup("Alpha"), Some(a2));
    assert_eq!(sys.dict.lookup("beta"), Some(b));
    assert_eq!(sys.dict.word(a).name, "Alpha");
    assert_eq!(sys.dict.latest_word, Some(a2));
}

#[test]
fn test_bindings_exist_detects_dangling_binding() {
    let mut sys = System::new(64).unwrap();
    sys.register_core();
    assert!(sys.dict.bindings_exist());
    let n = sys.dict.entries.len();
    sys.dict.wordlists[0].words.push(("ghost".to_string(), n));
    assert!(!sys.dict.bindings_exist());
}

#[test]
fn test_execute_keeps_call_stack() {
    let (mut vm, mut sys, mut p) = setup();
    interpret(&mut vm, &mut sys, &mut p, ": inner 1 ; : mid ['] inner execute 2 ; : top mid 3 ; top").unwrap();
    assert_eq!(stack(&vm), vec![1, 2, 3]);
    assert!(vm.c_stack.is_empty());
}

#[test]
fn test_hidden_word_not_found_in_own_body() {
    let (mut vm, mut sys, mut p) = setup();
    assert_eq!(
        interpret(&mut vm, &mut sys, &mut p, ": again again ;"),
        Err(ForthError::new(ForthErrorKind::UnknownToken, ForthPhase::Execution))
    );
}
