use nova::code::Code;
use nova::error::ErrorKind;
use nova::show::Piece;
use nova::value::VmData;
use nova::vm::{self, Step, StepResult, Vm};

fn render(pieces: &[Piece]) -> String {
    let mut out = String::new();
    for p in pieces {
        match p {
            Piece::Text(s) => out.push_str(s),
            Piece::Float(bits) => out.push_str(&f64::from_bits(*bits).to_string()),
        }
    }
    out
}

fn int_op(v: i64) -> Vec<u8> {
    let mut b = vec![Code::INTEGER];
    b.extend_from_slice(&v.to_le_bytes());
    b
}

fn float(v: f64) -> Vec<u8> {
    let mut b = vec![Code::FLOAT];
    b.extend_from_slice(&v.to_bits().to_le_bytes());
    b
}

fn with_u32(op: u8, v: u32) -> Vec<u8> {
    let mut b = vec![op];
    b.extend_from_slice(&v.to_le_bytes());
    b
}

fn with_u64(op: u8, v: u64) -> Vec<u8> {
    let mut b = vec![op];
    b.extend_from_slice(&v.to_le_bytes());
    b
}

fn string(s: &[u8]) -> Vec<u8> {
    let mut b = with_u64(Code::STRING, s.len() as u64);
    b.extend_from_slice(s);
    b
}

fn program(parts: Vec<Vec<u8>>) -> Vec<u8> {
    let mut code: Vec<u8> = parts.into_iter().flatten().collect();
    code.push(Code::RET);
    code.push(0);
    code
}

fn machine(code: Vec<u8>) -> Vm {
    let mut m = vm::new();
    m.state.program(code);
    m
}

/// Runs to the end, doing what each step asks; returns the printed lines
/// and the error kind the run stopped on, if any.
fn run(m: &mut Vm) -> (Vec<String>, Option<ErrorKind>) {
    let mut out = Vec::new();
    loop {
        match m.step() {
            Ok(Step::Continue) => {}
            Ok(Step::Print(p)) => out.push(render(&p)),
            Ok(Step::Finished) | Ok(Step::Exit) => return (out, None),
            Ok(Step::FloatArith { op, lhs, rhs }) => {
                let (a, b) = (f64::from_bits(lhs), f64::from_bits(rhs));
                let r = if op == Code::FADD {
                    a + b
                } else if op == Code::FSUB {
                    a - b
                } else if op == Code::FMUL {
                    a * b
                } else {
                    a / b
                };
                m.state.memory.stack.push(VmData::Float(r.to_bits()));
            }
            Ok(Step::Native { .. }) => panic!("no natives in these programs"),
            Err(e) => return (out, Some(e.kind)),
        }
    }
}

fn run_code(parts: Vec<Vec<u8>>) -> (Vec<String>, Option<ErrorKind>) {
    let mut m = machine(program(parts));
    run(&mut m)
}

#[test]
fn adds_and_prints() {
    let (out, err) = run_code(vec![int_op(2), int_op(3), vec![Code::IADD], vec![Code::PRINT]]);
    assert_eq!(out, vec!["5".to_string()]);
    assert_eq!(err, None);
}

#[test]
fn subtracts_second_minus_top() {
    let (out, _) = run_code(vec![int_op(10), int_op(3), vec![Code::ISUB], vec![Code::PRINT]]);
    assert_eq!(out, vec!["7".to_string()]);
}

#[test]
fn division_truncates_and_rejects_zero() {
    let (out, _) = run_code(vec![int_op(-7), int_op(2), vec![Code::IDIV], vec![Code::PRINT]]);
    assert_eq!(out, vec!["-3".to_string()]);
    let (_, err) = run_code(vec![int_op(1), int_op(0), vec![Code::IDIV]]);
    assert_eq!(err, Some(ErrorKind::DivisionByZero));
}

#[test]
fn addition_overflow_is_an_error() {
    let (_, err) = run_code(vec![int_op(i64::MAX), int_op(1), vec![Code::IADD]]);
    assert_eq!(err, Some(ErrorKind::Overflow(Code::IADD)));
}

#[test]
fn arithmetic_on_non_integers_is_an_error() {
    let (_, err) = run_code(vec![vec![Code::TRUE], int_op(1), vec![Code::IADD]]);
    assert_eq!(err, Some(ErrorKind::ExpectedInts(Code::IADD)));
}

#[test]
fn igtr_reports_the_values_found() {
    let (_, err) = run_code(vec![vec![Code::TRUE], int_op(1), vec![Code::IGTR]]);
    assert_eq!(err, Some(ErrorKind::IntCompareTypes(VmData::Int(1), VmData::Bool(true))));
}

#[test]
fn modulo_is_never_negative_for_a_positive_divisor() {
    let (out, _) = run_code(vec![int_op(-7), int_op(3), vec![Code::IMODULO], vec![Code::PRINT]]);
    assert_eq!(out, vec!["2".to_string()]);
    let (out, _) = run_code(vec![int_op(7), int_op(3), vec![Code::IMODULO], vec![Code::PRINT]]);
    assert_eq!(out, vec!["1".to_string()]);
}

#[test]
fn float_arithmetic_is_left_to_the_caller() {
    let (out, _) = run_code(vec![float(1.5), float(2.25), vec![Code::FADD], vec![Code::PRINT]]);
    assert_eq!(out, vec!["3.75".to_string()]);
    let (out, _) = run_code(vec![float(1.0), float(4.0), vec![Code::FDIV], vec![Code::PRINT]]);
    assert_eq!(out, vec!["0.25".to_string()]);
}

#[test]
fn float_comparison_follows_ieee() {
    let (out, _) = run_code(vec![float(-1.0), float(2.0), vec![Code::FLSS], vec![Code::PRINT]]);
    assert_eq!(out, vec!["true".to_string()]);
    let (out, _) = run_code(vec![float(f64::NAN), float(2.0), vec![Code::FGTR], vec![Code::PRINT]]);
    assert_eq!(out, vec!["false".to_string()]);
    let (out, _) = run_code(vec![float(-0.0), float(0.0), vec![Code::EQUALS], vec![Code::PRINT]]);
    assert_eq!(out, vec!["true".to_string()]);
}

#[test]
fn negation_of_ints_and_floats() {
    let (out, _) = run_code(vec![int_op(5), vec![Code::NEG], vec![Code::PRINT], float(2.5), vec![Code::NEG], vec![Code::PRINT]]);
    assert_eq!(out, vec!["-5".to_string(), "-2.5".to_string()]);
    let (_, err) = run_code(vec![vec![Code::TRUE], vec![Code::NEG]]);
    assert_eq!(err, Some(ErrorKind::NegOperand(VmData::Bool(true))));
}

#[test]
fn logic_and_comparison() {
    let (out, _) = run_code(vec![
        int_op(2), int_op(3), vec![Code::ILSS], vec![Code::PRINT],
        vec![Code::TRUE], vec![Code::FALSE], vec![Code::AND], vec![Code::PRINT],
        vec![Code::TRUE], vec![Code::FALSE], vec![Code::OR], vec![Code::PRINT],
        vec![Code::FALSE], vec![Code::NOT], vec![Code::PRINT],
    ]);
    assert_eq!(out, vec!["true", "false", "true", "true"]);
}

#[test]
fn jump_if_false_skips_the_branch() {
    // FALSE; JUMPIFFALSE over the first print
    let skipped = vec![int_op(1), vec![Code::PRINT]];
    let len: usize = skipped.iter().map(|p| p.len()).sum();
    let mut parts = vec![vec![Code::FALSE], with_u32(Code::JUMPIFFALSE, len as u32)];
    parts.extend(skipped);
    parts.push(int_op(2));
    parts.push(vec![Code::PRINT]);
    let (out, _) = run_code(parts);
    assert_eq!(out, vec!["2".to_string()]);
}

#[test]
fn issome_and_unwrap() {
    let (out, _) = run_code(vec![vec![Code::NONE], vec![Code::ISSOME], vec![Code::PRINT], int_op(1), vec![Code::ISSOME], vec![Code::PRINT]]);
    assert_eq!(out, vec!["false", "true"]);
    let (_, err) = run_code(vec![vec![Code::NONE], vec![Code::UNWRAP]]);
    assert_eq!(err, Some(ErrorKind::UnwrapNone));
}

#[test]
fn lists_print_and_index_from_either_end() {
    let list = vec![int_op(10), int_op(20), int_op(30), with_u64(Code::NEWLIST, 3)];
    let mut parts = vec![int_op(-1)];
    parts.extend(list.clone());
    parts.push(vec![Code::LINDEX]);
    parts.push(vec![Code::PRINT]);
    parts.push(int_op(0));
    parts.extend(list.clone());
    parts.push(vec![Code::LINDEX]);
    parts.push(vec![Code::PRINT]);
    parts.extend(list);
    parts.push(vec![Code::PRINT]);
    let (out, err) = run_code(parts);
    assert_eq!(out, vec!["30", "10", "[10, 20, 30]"]);
    assert_eq!(err, None);
}

#[test]
fn index_out_of_bounds_reports_index_and_length() {
    let (_, err) = run_code(vec![int_op(5), int_op(1), int_op(2), int_op(3), with_u64(Code::NEWLIST, 3), vec![Code::LINDEX]]);
    assert_eq!(err, Some(ErrorKind::IndexOutOfBounds(Code::LINDEX, 5, 3, 0)));
    let (_, err) = run_code(vec![int_op(-4), int_op(1), int_op(2), int_op(3), with_u64(Code::NEWLIST, 3), vec![Code::LINDEX]]);
    assert_eq!(err, Some(ErrorKind::IndexOutOfBounds(Code::LINDEX, -4, 3, 0)));
}

#[test]
fn pindex_stores_into_a_list_variable() {
    // local 0 holds [1, 2, 3]; list[-1] = 9; print list
    let (out, err) = run_code(vec![
        with_u32(Code::ALLOCATEGLOBAL, 1),
        int_op(1), int_op(2), int_op(3), with_u64(Code::NEWLIST, 3),
        with_u32(Code::STORE, 0),
        int_op(9), int_op(-1), with_u32(Code::GET, 0), vec![Code::PINDEX],
        with_u32(Code::GET, 0), vec![Code::PRINT],
    ]);
    assert_eq!(err, None);
    assert_eq!(out, vec!["[1, 2, 9]".to_string()]);
}

#[test]
fn strings_count_characters() {
    let (out, err) = run_code(vec![string("héllo".as_bytes()), vec![Code::LEN], vec![Code::PRINT]]);
    assert_eq!(err, None);
    assert_eq!(out, vec!["5".to_string()]);
}

#[test]
fn invalid_utf8_is_an_error() {
    let (_, err) = run_code(vec![string(&[0xff, 0x41])]);
    assert_eq!(err, Some(ErrorKind::InvalidUtf8));
}

#[test]
fn concat_joins_left_then_right() {
    let (out, err) = run_code(vec![string(b"ab"), string(b"cd"), vec![Code::CONCAT], vec![Code::PRINT]]);
    assert_eq!(err, None);
    assert_eq!(out, vec!["abcd".to_string()]);
    let (_, err) = run_code(vec![int_op(1), string(b"cd"), vec![Code::CONCAT]]);
    assert_eq!(err, Some(ErrorKind::ConcatOperands));
}

#[test]
fn equals_compares_deeply() {
    let (out, _) = run_code(vec![
        int_op(1), int_op(2), with_u64(Code::NEWLIST, 2),
        int_op(1), int_op(2), with_u64(Code::NEWLIST, 2),
        vec![Code::EQUALS], vec![Code::PRINT],
        int_op(1), int_op(2), with_u64(Code::NEWLIST, 2),
        int_op(1), int_op(3), with_u64(Code::NEWLIST, 2),
        vec![Code::EQUALS], vec![Code::PRINT],
        string(b"x"), string(b"x"), vec![Code::EQUALS], vec![Code::PRINT],
    ]);
    assert_eq!(out, vec!["true", "false", "true"]);
}

fn point() -> Vec<Vec<u8>> {
    vec![int_op(1), int_op(2), string(b"x"), string(b"y"), string(b"Point"), with_u64(Code::NEWSTRUCT, 2)]
}

#[test]
fn structs_print_with_their_type_field() {
    let mut parts = point();
    parts.push(vec![Code::PRINT]);
    let (out, err) = run_code(parts);
    assert_eq!(err, None);
    assert_eq!(out, vec!["Point: {x: 1, y: 2, type: Point}".to_string()]);
}

#[test]
fn getf_reads_fields() {
    let mut parts = point();
    parts.push(string(b"y"));
    parts.push(vec![Code::GETF]);
    parts.push(vec![Code::PRINT]);
    let mut p2 = point();
    p2.push(string(b"type"));
    p2.push(vec![Code::GETF]);
    p2.push(vec![Code::PRINT]);
    parts.extend(p2);
    let (out, err) = run_code(parts);
    assert_eq!(err, None);
    assert_eq!(out, vec!["2", "Point"]);
}

#[test]
fn getf_on_a_missing_field_names_it() {
    let mut parts = point();
    parts.push(string(b"z"));
    parts.push(vec![Code::GETF]);
    let mut m = machine(program(parts));
    let err = loop {
        match m.step() {
            Ok(Step::Continue) => {}
            Ok(other) => panic!("unexpected {:?}", other),
            Err(e) => break e,
        }
    };
    assert_eq!(err.kind, ErrorKind::FieldNotFound(Code::GETF));
    assert_eq!(err.name, Some("z".to_string()));
}

#[test]
fn pinf_sets_a_field() {
    let mut parts = vec![with_u32(Code::ALLOCATEGLOBAL, 1)];
    parts.extend(point());
    parts.push(with_u32(Code::STORE, 0));
    parts.push(int_op(7));
    parts.push(string(b"x"));
    parts.push(with_u32(Code::GET, 0));
    parts.push(vec![Code::PINF]);
    parts.push(with_u32(Code::GET, 0));
    parts.push(vec![Code::PRINT]);
    let (out, err) = run_code(parts);
    assert_eq!(err, None);
    assert_eq!(out, vec!["Point: {x: 7, y: 2, type: Point}".to_string()]);
}

#[test]
fn clone_of_a_variable_is_independent() {
    // local 0 = [1, 2]; local 1 = clone(local 0); local 1[0] = 5; print both
    let (out, err) = run_code(vec![
        with_u32(Code::ALLOCATEGLOBAL, 2),
        int_op(1), int_op(2), with_u64(Code::NEWLIST, 2), with_u32(Code::STORE, 0),
        with_u32(Code::GET, 0), vec![Code::CLONE], with_u32(Code::STORE, 1),
        int_op(5), int_op(0), with_u32(Code::GET, 1), vec![Code::PINDEX],
        with_u32(Code::GET, 0), vec![Code::PRINT],
        with_u32(Code::GET, 1), vec![Code::PRINT],
    ]);
    assert_eq!(err, None);
    assert_eq!(out, vec!["[1, 2]", "[5, 2]"]);
}

#[test]
fn function_call_returns_a_value() {
    // ALLOCATEGLOBAL 0 | FUNCTION +16 | body: ALLOCLOCALS 0; INTEGER 42; RET 1 | CALL | PRINT
    let mut body = with_u32(Code::ALLOCLOCALS, 0);
    body.extend(int_op(42));
    body.push(Code::RET);
    body.push(1);
    let (out, err) = run_code(vec![
        with_u32(Code::ALLOCATEGLOBAL, 0),
        with_u32(Code::FUNCTION, body.len() as u32),
        body,
        vec![Code::CALL],
        vec![Code::PRINT],
    ]);
    assert_eq!(err, None);
    assert_eq!(out, vec!["42".to_string()]);
}

#[test]
fn calling_a_non_function_is_an_error() {
    let (_, err) = run_code(vec![int_op(3), vec![Code::CALL]]);
    assert_eq!(err, Some(ErrorKind::NotCallable(Code::CALL, VmData::Int(3))));
}

#[test]
fn print_on_an_empty_stack_is_an_error() {
    let (_, err) = run_code(vec![vec![Code::PRINT]]);
    assert_eq!(err, Some(ErrorKind::StackEmpty(Code::PRINT)));
}

#[test]
fn unknown_opcode_is_an_error() {
    let (_, err) = run_code(vec![vec![200]]);
    assert_eq!(err, Some(ErrorKind::UnknownOpcode(200)));
}

#[test]
fn error_instruction_stops_the_run() {
    let (_, err) = run_code(vec![vec![Code::ERROR]]);
    assert_eq!(err, Some(ErrorKind::ErrorInstruction));
}

#[test]
fn exit_ends_the_run() {
    let mut m = machine(vec![Code::EXIT]);
    assert!(matches!(m.step(), Ok(Step::Exit)));
}

#[test]
fn native_call_is_handed_to_the_caller() {
    let mut m = machine(program(vec![with_u64(Code::NATIVE, 3)]));
    match m.step() {
        Ok(Step::Native { index, ip }) => {
            assert_eq!(index, 3);
            assert_eq!(ip, 1);
        }
        other => panic!("unexpected {:?}", other),
    }
}

#[test]
fn debugger_steps_and_prints() {
    let mut m = machine(program(vec![int_op(4), vec![Code::PRINT]]));
    match m.step_one_debug() {
        StepResult::Continue { opname, output, .. } => {
            assert_eq!(opname, "INTEGER");
            assert!(output.is_none());
        }
        other => panic!("unexpected {:?}", other),
    }
    match m.step_one_debug() {
        StepResult::Continue { opname, output: Some(p), .. } => {
            assert_eq!(opname, "PRINT");
            assert_eq!(render(&p), "4");
        }
        other => panic!("unexpected {:?}", other),
    }
    assert!(matches!(m.step_one_debug(), StepResult::Finished { output: None }));
    assert!(matches!(m.step_one_debug(), StepResult::Finished { output: None }));
}

#[test]
fn debugger_prints_an_empty_stack_and_functions() {
    let mut m = machine(program(vec![vec![Code::PRINT], with_u32(Code::FUNCTION, 0), vec![Code::PRINT]]));
    match m.step_one_debug() {
        StepResult::Continue { output: Some(p), .. } => assert_eq!(render(&p), "(empty)"),
        other => panic!("unexpected {:?}", other),
    }
    let _ = m.step_one_debug();
    match m.step_one_debug() {
        StepResult::Continue { output: Some(p), .. } => assert_eq!(render(&p), "<fn:6>"),
        other => panic!("unexpected {:?}", other),
    }
}

#[test]
fn function_values_print_with_their_target() {
    let (out, _) = run_code(vec![with_u32(Code::FUNCTION, 0), vec![Code::PRINT]]);
    assert_eq!(out, vec!["<function: 5>".to_string()]);
}

#[test]
fn peek_shows_operands() {
    let m = machine(int_op(-5));
    assert_eq!(render(&m.peek_operand(Code::INTEGER)), "-5");
    let mut code = with_u32(Code::OFFSET, 2);
    code.extend_from_slice(&3u32.to_le_bytes());
    let m = machine(code);
    assert_eq!(render(&m.peek_operand(Code::OFFSET)), "args=2, locals=3");
    let m = machine(with_u32(Code::BJMP, 12));
    assert_eq!(render(&m.peek_operand(Code::BJMP)), "-12");
    let m = machine(vec![Code::CHAR, b'q']);
    assert_eq!(render(&m.peek_operand(Code::CHAR)), "'q'");
    let m = machine(vec![Code::RET, 1]);
    assert_eq!(render(&m.peek_operand(Code::RET)), "(value)");
    let m = machine(vec![Code::INTEGER, 1, 2]);
    assert_eq!(render(&m.peek_operand(Code::INTEGER)), "");
}

#[test]
fn peek_cuts_long_strings() {
    let m = machine(string(b"short"));
    assert_eq!(render(&m.peek_operand(Code::STRING)), "\"short\"");
    let long = b"abcdefghijklmnopqrstuvwxyz0123456789";
    let m = machine(string(long));
    assert_eq!(render(&m.peek_operand(Code::STRING)), "\"abcdefghijklmnopqrstuvwxyz0...\"");
    // a two-byte character straddles byte 27
    let mut bytes = b"abcdefghijklmnopqrstuvwxyz".to_vec();
    bytes.extend_from_slice("éééé".as_bytes());
    let m = machine(string(&bytes));
    assert!(m.peek_operand_checked(Code::STRING).is_none());
}

#[test]
fn clone_of_a_temporary_list_keeps_its_elements() {
    let (out, err) = run_code(vec![
        int_op(3), int_op(4), with_u64(Code::NEWLIST, 2), vec![Code::CLONE], vec![Code::PRINT],
    ]);
    assert_eq!(err, None);
    assert_eq!(out, vec!["[3, 4]"]);
}

#[test]
fn fresh_machine_runs_integer_subtraction() {
    let mut m = vm::new();
    m.state.memory.stack = vec![VmData::Int(5), VmData::Int(3)];
    assert!(matches!(m.dispatch(Code::ISUB), Ok(Step::Continue)));
    assert_eq!(m.state.memory.stack, vec![VmData::Int(2)]);
}
