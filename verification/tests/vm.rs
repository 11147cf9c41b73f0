use stack_vm::decode::{decode, DecodeError};
use stack_vm::engine::{execute, ExecError};
use stack_vm::instr::{Instruction, Value};

fn canonical_listing() -> &'static str {
    "LOAD_CONST 1\n\
     STORE_FAST 0\n\
     LOAD_FAST 0\n\
     LOAD_CONST 2\n\
     BINARY_ADD\n\
     STORE_FAST 1\n\
     LOAD_FAST 1\n\
     RETURN_VALUE\n"
}

fn canonical_instructions() -> Vec<Instruction> {
    vec![
        Instruction::LoadConst(1),
        Instruction::StoreFast(0),
        Instruction::LoadFast(0),
        Instruction::LoadConst(2),
        Instruction::BinaryAdd,
        Instruction::StoreFast(1),
        Instruction::LoadFast(1),
        Instruction::ReturnValue,
    ]
}

#[test]
fn parse_to_instruction_list() {
    let instructions = decode(canonical_listing().as_bytes()).unwrap();
    let expected = canonical_instructions();
    assert_eq!(instructions, expected);
}

#[test]
fn decode_round_trip_with_blank_lines() {
    let listing = "\nLOAD_CONST 1\nSTORE_FAST 0\n\nLOAD_FAST 0\nLOAD_CONST 2\n\n\nBINARY_ADD\nSTORE_FAST 1\nLOAD_FAST 1\nRETURN_VALUE\n\n";
    let instructions = decode(listing.as_bytes()).unwrap();
    assert_eq!(instructions, canonical_instructions());
}

#[test]
fn end_to_end_execution() {
    let instructions = decode(canonical_listing().as_bytes()).unwrap();
    let result = execute(&instructions);
    assert_eq!(result, Ok(Value::Int(3)));
}

#[test]
fn stack_underflow_fault() {
    let result = execute(&vec![Instruction::BinaryAdd]);
    assert_eq!(result, Err(ExecError::StackUnderflow));
}

#[test]
fn unset_slot_fault() {
    let result = execute(&vec![Instruction::LoadFast(0)]);
    assert_eq!(result, Err(ExecError::UnsetLocalSlot(0)));
}

#[test]
fn fell_off_end_fault() {
    let result = execute(&vec![Instruction::LoadConst(1)]);
    assert_eq!(result, Err(ExecError::FellOffEnd));
}

#[test]
fn unknown_mnemonic_is_reported() {
    let result = decode("FOO 1".as_bytes());
    assert_eq!(
        result,
        Err(DecodeError::UnknownOpcode { mnemonic: "FOO".as_bytes().to_vec(), line: 1 })
    );
}

#[test]
fn missing_operand_is_reported() {
    let result = decode("LOAD_CONST".as_bytes());
    assert_eq!(result, Err(DecodeError::MissingOperand { line: 1 }));
}

#[test]
fn invalid_operand_is_reported() {
    let result = decode("LOAD_CONST abc".as_bytes());
    assert_eq!(
        result,
        Err(DecodeError::InvalidOperand { operand: "abc".as_bytes().to_vec(), line: 1 })
    );
}

#[test]
fn operand_overflow_is_invalid() {
    let result = decode("LOAD_FAST 99999999999999999999999999".as_bytes());
    assert_eq!(
        result,
        Err(DecodeError::InvalidOperand {
            operand: "99999999999999999999999999".as_bytes().to_vec(),
            line: 1,
        })
    );
}

#[test]
fn signed_operand_is_invalid() {
    let result = decode("STORE_FAST +5".as_bytes());
    assert_eq!(
        result,
        Err(DecodeError::InvalidOperand { operand: "+5".as_bytes().to_vec(), line: 1 })
    );
}

#[test]
fn blank_lines_count_for_line_numbers() {
    let result = decode("\n\nFOO 1".as_bytes());
    assert_eq!(
        result,
        Err(DecodeError::UnknownOpcode { mnemonic: "FOO".as_bytes().to_vec(), line: 3 })
    );
}

#[test]
fn whitespace_only_line_is_blank() {
    let instructions = decode("   \t \nRETURN_VALUE\n".as_bytes()).unwrap();
    assert_eq!(instructions, vec![Instruction::ReturnValue]);
}

#[test]
fn trailing_tokens_are_ignored() {
    let instructions = decode("BINARY_ADD one two\nLOAD_CONST 1 2\n".as_bytes()).unwrap();
    assert_eq!(
        instructions,
        vec![Instruction::BinaryAdd, Instruction::LoadConst(1)]
    );
}

#[test]
fn carriage_returns_are_whitespace() {
    let instructions = decode("LOAD_CONST 1\r\nRETURN_VALUE\r\n".as_bytes()).unwrap();
    assert_eq!(
        instructions,
        vec![Instruction::LoadConst(1), Instruction::ReturnValue]
    );
}

#[test]
fn mnemonics_are_case_sensitive() {
    let result = decode("load_const 1".as_bytes());
    assert_eq!(
        result,
        Err(DecodeError::UnknownOpcode { mnemonic: "load_const".as_bytes().to_vec(), line: 1 })
    );
}

#[test]
fn empty_program_fell_off_end() {
    let result = execute(&vec![]);
    assert_eq!(result, Err(ExecError::FellOffEnd));
}

#[test]
fn store_fast_on_empty_stack_underflows() {
    let result = execute(&vec![Instruction::StoreFast(0)]);
    assert_eq!(result, Err(ExecError::StackUnderflow));
}

#[test]
fn return_value_on_empty_stack_underflows() {
    let result = execute(&vec![Instruction::ReturnValue]);
    assert_eq!(result, Err(ExecError::StackUnderflow));
}

#[test]
fn binary_add_on_one_value_underflows() {
    let result = execute(&vec![Instruction::LoadConst(1), Instruction::BinaryAdd]);
    assert_eq!(result, Err(ExecError::StackUnderflow));
}

#[test]
fn store_grows_slots_on_demand() {
    let result = execute(&vec![
        Instruction::LoadConst(7),
        Instruction::StoreFast(5),
        Instruction::LoadFast(5),
        Instruction::ReturnValue,
    ]);
    assert_eq!(result, Ok(Value::Int(7)));
}

#[test]
fn skipped_slots_stay_unset() {
    let result = execute(&vec![
        Instruction::LoadConst(7),
        Instruction::StoreFast(5),
        Instruction::LoadFast(3),
    ]);
    assert_eq!(result, Err(ExecError::UnsetLocalSlot(3)));
}

#[test]
fn store_overwrites_slot() {
    let result = execute(&vec![
        Instruction::LoadConst(1),
        Instruction::StoreFast(0),
        Instruction::LoadConst(2),
        Instruction::StoreFast(0),
        Instruction::LoadFast(0),
        Instruction::ReturnValue,
    ]);
    assert_eq!(result, Ok(Value::Int(2)));
}

#[test]
fn addition_wraps_on_overflow() {
    let result = execute(&vec![
        Instruction::LoadConst(i64::MAX as usize),
        Instruction::LoadConst(1),
        Instruction::BinaryAdd,
        Instruction::ReturnValue,
    ]);
    assert_eq!(result, Ok(Value::Int(i64::MIN)));
}

#[test]
fn oversized_constant_faults() {
    let result = execute(&vec![Instruction::LoadConst(usize::MAX)]);
    assert_eq!(result, Err(ExecError::ConstantIndexOutOfRange(usize::MAX)));
}

#[test]
fn return_value_halts_execution() {
    // The faulting BinaryAdd after ReturnValue is never reached.
    let result = execute(&vec![
        Instruction::LoadConst(1),
        Instruction::ReturnValue,
        Instruction::BinaryAdd,
    ]);
    assert_eq!(result, Ok(Value::Int(1)));
}

#[test]
fn execution_is_idempotent() {
    let instructions = decode(canonical_listing().as_bytes()).unwrap();
    let first = execute(&instructions);
    let second = execute(&instructions);
    assert_eq!(first, second);
    let faulty = vec![Instruction::BinaryAdd];
    assert_eq!(execute(&faulty), execute(&faulty));
}
