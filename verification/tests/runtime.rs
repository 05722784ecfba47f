use oplang::runtime::stack::Stack;

#[test]
fn test_pop_from_stack_with_values() {
    let mut stack = Stack::<i32>::new();
    stack.push(1);
    assert_eq!(1, stack.pop());
}

use oplang::runtime::chunk::{decode_i32_le, decode_u24_le, Chunk};
use oplang::runtime::opcodes::OpCode;
use oplang::runtime::value::Value;
use oplang::runtime::vm::{Event, Fault, VirtualMachine};

#[test]
fn every_opcode_byte_reads_back() {
    for b in 0u8..=255 {
        match OpCode::try_from_byte(b) {
            Some(op) => assert_eq!(b, op.to_byte()),
            None => assert!(b >= 0x2C),
        }
    }
    assert_eq!(Some(OpCode::Dup), OpCode::try_from_byte(0x19));
}

#[test]
fn u24_and_i32_encodings_read_back() {
    let mut chunk = Chunk::new();
    chunk.write_u24(0x12_3456);
    chunk.write_i32(-2);
    assert_eq!(vec![0x56, 0x34, 0x12, 0xFE, 0xFF, 0xFF, 0xFF], chunk.bytecode);
    assert_eq!(0x12_3456, decode_u24_le([0x56, 0x34, 0x12]));
    assert_eq!(-2, decode_i32_le([0xFE, 0xFF, 0xFF, 0xFF]));
}

#[test]
fn patched_jump_lands_on_the_end() {
    let mut chunk = Chunk::new();
    let pos = chunk.write_jump(OpCode::Jmp);
    chunk.write(OpCode::Pop.to_byte());
    chunk.write(OpCode::Pop.to_byte());
    chunk.patch_jump(pos);
    assert_eq!(vec![0x16, 2, 0, 0, 0, 8, 8], chunk.bytecode);
}

#[test]
fn backward_jump_counts_from_its_end() {
    let mut chunk = Chunk::new();
    chunk.write(OpCode::Pop.to_byte());
    chunk.write_jump_back(OpCode::Jmp, 0);
    assert_eq!(vec![8, 0x16, 0xFA, 0xFF, 0xFF, 0xFF], chunk.bytecode);
}

#[test]
fn constants_are_numbered_in_order() {
    let mut chunk = Chunk::new();
    assert_eq!(0, chunk.write_constant(Value::new_int(7)));
    assert_eq!(1, chunk.write_constant(Value::new_bool(true)));
}

#[test]
fn integer_division_by_zero_faults() {
    let mut chunk = Chunk::new();
    let one = chunk.write_constant(Value::new_int(1));
    let zero = chunk.write_constant(Value::new_int(0));
    chunk.write(OpCode::LoadConst.to_byte());
    chunk.write_u24(one as u32);
    chunk.write(OpCode::LoadConst.to_byte());
    chunk.write_u24(zero as u32);
    chunk.write(OpCode::I32Div.to_byte());
    let mut vm = VirtualMachine::new();
    assert_eq!(Event::Continue, vm.step(&chunk));
    assert_eq!(Event::Continue, vm.step(&chunk));
    assert_eq!(Event::Fault(Fault::DivisionByZero), vm.step(&chunk));
}

#[test]
fn running_off_the_code_faults() {
    let chunk = Chunk::new();
    let mut vm = VirtualMachine::new();
    assert_eq!(Event::Fault(Fault::CodeOverrun), vm.step(&chunk));
}

#[test]
fn adding_past_i32_max_faults() {
    let mut chunk = Chunk::new();
    let big = chunk.write_constant(Value::new_int(i32::MAX));
    let one = chunk.write_constant(Value::new_int(1));
    chunk.write(OpCode::LoadConst.to_byte());
    chunk.write_u24(big as u32);
    chunk.write(OpCode::LoadConst.to_byte());
    chunk.write_u24(one as u32);
    chunk.write(OpCode::I32Add.to_byte());
    let mut vm = VirtualMachine::new();
    vm.step(&chunk);
    vm.step(&chunk);
    assert_eq!(Event::Fault(Fault::IntegerOverflow), vm.step(&chunk));
}

#[test]
fn values_compare_by_kind_and_content() {
    assert!(Value::new_int(3) == Value::new_int(3));
    assert!(Value::new_int(1) != Value::new_bool(true));
    assert!(Value::new_uninitialized() != Value::new_uninitialized());
    let nan = f64::NAN.to_bits();
    assert!(Value::new_double_bits(nan) != Value::new_double_bits(nan));
    assert!(Value::new_double_bits(0.0f64.to_bits()) == Value::new_double_bits((-0.0f64).to_bits()));
}

#[test]
fn stack_extend_adds_items_in_order() {
    let mut stack = Stack::<i32>::new();
    stack.push(1);
    stack.extend(vec![2, 3]);
    assert_eq!(3, stack.len());
    assert_eq!(3, *stack.get(2));
    assert_eq!(2, *stack.get(1));
    stack.truncate(1);
    assert_eq!(1, stack.len());
}
