use minichain::error::McError;
use minichain::state::{MemState, State};
use minichain::vm::{BytecodeVM, Instruction, Stack, StackItem};

#[test]
fn test_vm() {
    let mut vm: BytecodeVM<256> = BytecodeVM::new();
    let code = vec![0x02, 0xaa];
    let mut state = MemState::new();
    vm.execute(&mut state, &code).unwrap();
    let res = vm.pop();
    assert_eq!(res, StackItem::Int(2));
}

#[test]
fn test_vm_add() {
    let mut vm: BytecodeVM<256> = BytecodeVM::new();
    let code = vec![0x02, 0xaa, 0x03, 0xaa, 0xad];
    let mut state = MemState::new();
    vm.execute(&mut state, &code).unwrap();
    let res = vm.pop();
    assert_eq!(res, StackItem::Int(5));
}

#[test]
fn test_vm_sub() {
    let mut vm: BytecodeVM<256> = BytecodeVM::new();
    let code = vec![0x03, 0xaa, 0x02, 0xaa, 0xae];
    let mut state = MemState::new();
    vm.execute(&mut state, &code).unwrap();
    let res = vm.pop();
    assert_eq!(res, StackItem::Int(-1));
}

#[test]
fn test_vm_mul() {
    let mut vm: BytecodeVM<256> = BytecodeVM::new();
    let code = vec![0x03, 0xaa, 0x02, 0xaa, 0xba];
    let mut state = MemState::new();
    vm.execute(&mut state, &code).unwrap();
    let res = vm.pop();
    assert_eq!(res, StackItem::Int(6));
}

#[test]
fn test_vm_div() {
    let mut vm: BytecodeVM<256> = BytecodeVM::new();
    let code = vec![0x02, 0xaa, 0x02, 0xaa, 0xbb];
    let mut state = MemState::new();
    vm.execute(&mut state, &code).unwrap();
    let res = vm.pop();
    assert_eq!(res, StackItem::Int(1));
}

#[test]
fn test_vm_store() {
    let mut vm: BytecodeVM<256> = BytecodeVM::new();
    let code = vec![0x02, 0xaa, 0x04, 0xaa, 0xbc];
    let mut state = MemState::new();
    vm.execute(&mut state, &code).unwrap();
    let v = state.get(&[4, 0, 0, 0]).unwrap();
    assert_eq!(v, vec![2, 0, 0, 0]);

    vm.execute(&mut state, &[0x04, 0xaa, 0xaf]).unwrap();

    let res = vm.pop();
    assert_eq!(res, StackItem::Int(2));
}

#[test]
fn vm_faults_are_errors() {
    let mut state = MemState::new();
    let mut vm: BytecodeVM<256> = BytecodeVM::new();
    assert_eq!(vm.execute(&mut state, &[0x00, 0xaa, 0x05, 0xaa, 0xbb]), Err(McError::ArithmeticFault));
    let mut vm: BytecodeVM<256> = BytecodeVM::new();
    assert_eq!(vm.execute(&mut state, &[0x01, 0xab, 0x05, 0xaa, 0xad]), Err(McError::InvalidStackItems));
    let mut vm: BytecodeVM<256> = BytecodeVM::new();
    assert_eq!(vm.execute(&mut state, &[0x09, 0xaa, 0xaf]), Err(McError::MissingKey));
    let mut vm: BytecodeVM<256> = BytecodeVM::new();
    assert_eq!(vm.execute(&mut state, &[]), Ok(()));
}

#[test]
fn vm_pushes_booleans_and_bytes() {
    let mut state = MemState::new();
    let mut vm: BytecodeVM<256> = BytecodeVM::new();
    vm.execute(&mut state, &[0x07, 0xac, 0x00, 0xab]).unwrap();
    assert_eq!(vm.pop(), StackItem::Bool(false));
    assert_eq!(vm.pop(), StackItem::Byte(7));
}

#[test]
fn stack_shifts_on_push_and_pop() {
    let mut s: Stack<3> = Stack::new();
    s.push_front(StackItem::Int(1));
    s.push_front(StackItem::Int(2));
    assert_eq!(s.pop(), StackItem::Int(2));
    assert_eq!(s.pop(), StackItem::Int(1));
    assert_eq!(s.pop(), StackItem::Int(0));
    s.push_front(StackItem::Int(1));
    s.push_front(StackItem::Int(2));
    s.push_front(StackItem::Int(3));
    s.push_front(StackItem::Int(4));
    assert_eq!(s.pop(), StackItem::Int(4));
    assert_eq!(s.pop(), StackItem::Int(3));
    assert_eq!(s.pop(), StackItem::Int(2));
    assert_eq!(s.pop(), StackItem::Int(2));
}

#[test]
fn stack_items_to_bytes() {
    assert_eq!(StackItem::Int(-1).to_bytes(), vec![255, 255, 255, 255]);
    assert_eq!(StackItem::Int(258).to_bytes(), vec![2, 1, 0, 0]);
    assert_eq!(StackItem::Bool(true).to_bytes(), vec![1]);
    assert_eq!(StackItem::Byte(9).to_bytes(), vec![9]);
    assert_eq!(StackItem::Bytes([3u8; 64]).to_bytes(), vec![3u8; 64]);
}

#[test]
fn opcodes_decode() {
    assert_eq!(Instruction::from_byte(0xaa), Some(Instruction::PushInt));
    assert_eq!(Instruction::from_byte(0xbc), Some(Instruction::Store));
    assert_eq!(Instruction::from_byte(0x00), None);
}

#[test]
fn state_get_set_delete() {
    let mut s = MemState::new();
    assert_eq!(s.get(b"k"), Err(McError::MissingKey));
    s.set(b"k", b"v1").unwrap();
    s.set(b"k", b"v2").unwrap();
    assert_eq!(s.get(b"k"), Ok(b"v2".to_vec()));
    s.delete(b"k").unwrap();
    assert_eq!(s.get(b"k"), Err(McError::MissingKey));
    let d = s.duplicate();
    assert_eq!(d.get(b"k"), Err(McError::MissingKey));
}
