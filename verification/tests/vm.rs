use minievm::error::VmError;
use minievm::evm::Evm;
use minievm::stack::Stack;
use minievm::word::Word;

#[test]
fn evm_test_stop() {
    let code: Vec<u8> = vec![0x00];
    let mut evm = Evm::new(code);
    assert_eq!(evm.run(), Ok(()));
    assert_eq!(evm.stack, Stack::new());
}

#[test]
fn evm_test_add() {
    let code: Vec<u8> = vec![0x60, 0x01, 0x60, 0x02, 0x01, 0x00];
    let mut evm = Evm::new(code);
    assert_eq!(evm.run(), Ok(()));

    let mut expected = Stack::new();
    expected.push(Word::from_u64(3));

    assert_eq!(evm.stack, expected);
}

#[test]
fn evm_test_mul() {
    let code: Vec<u8> = vec![0x60, 0x02, 0x60, 0x03, 0x02, 0x00];
    let mut evm = Evm::new(code);
    assert_eq!(evm.run(), Ok(()));

    let mut expected = Stack::new();
    expected.push(Word::from_u64(6));
    assert_eq!(evm.stack, expected);
}

#[test]
fn test_sub() {
    let code: Vec<u8> = vec![0x60, 0x06, 0x60, 0x01, 0x03, 0x00];
    let mut evm = Evm::new(code);
    assert_eq!(evm.run(), Ok(()));

    let mut expected = Stack::new();
    expected.push(Word::from_u64(5));
    assert_eq!(evm.stack, expected);
}

#[test]
fn test_mstore_mload() {
    let code: Vec<u8> = vec![
        0x7f, // PUSH32
        // 0x000000...000001
        0x00, 0x00, 0x00, 0x00, 0x00, 0x00, 0x00, 0x00, 0x00, 0x00, 0x00, 0x00, 0x00, 0x00, 0x00,
        0x00, 0x00, 0x00, 0x00, 0x00, 0x00, 0x00, 0x00, 0x00, 0x00, 0x00, 0x00, 0x00, 0x00, 0x00,
        0x00, 0x01, // 32 bytes
        0x60, 0x00, // PUSH1 0x00 - offset
        0x52, // MSTORE
        0x60, 0x00, // PUSH1 0x00 - offset
        0x51, // MLOAD
        0x00, // STOP
    ];
    let mut evm = Evm::new(code);
    assert_eq!(evm.run(), Ok(()));

    let mut expected = Stack::new();
    expected.push(Word::from_u64(1));
    assert_eq!(evm.stack, expected);
}

#[test]
fn test_mload_uninitialized() {
    let code: Vec<u8> = vec![
        0x60, 0x40, // PUSH1 0x40
        0x51, // MLOAD (memory[64])
        0x00,
    ];
    let mut evm = Evm::new(code);
    assert_eq!(evm.run(), Ok(()));

    let mut expected = Stack::new();
    expected.push(Word::from_u64(0));
    assert_eq!(evm.stack, expected);
}

#[test]
fn evm_test_push() {
    let code: Vec<u8> = vec![0x60, 0x01, 0x61, 0x01, 0x00, 0x62, 0x01, 0x00, 0x00, 0x00];
    let mut evm = Evm::new(code);
    assert_eq!(evm.run(), Ok(()));

    let mut expected = Stack::new();
    expected.push(Word::from_u64(1));
    expected.push(Word::from_u64(256));
    expected.push(Word::from_u64(65536));
    assert_eq!(evm.stack, expected);
}

#[test]
fn evm_test_jump() {
    let code: Vec<u8> = vec![
        0x60, 0x01, // PUSH1 1
        0x60, 0x02, // PUSH1 2
        0x60, 0x09, // PUSH1 9 - JUMPDEST index
        0x56, // JUMP
        0x60, 0x09, // PUSH1 9 - passed
        0x5B, // JUMPDEST
        0x01, // ADD
        0x00, // STOP
    ];
    let mut evm = Evm::new(code);
    assert_eq!(evm.run(), Ok(()));

    let mut expected = Stack::new();
    expected.push(Word::from_u64(3));
    assert_eq!(evm.stack, expected);
}

#[test]
fn evm_test_jumpi_false() {
    let code: Vec<u8> = vec![
        0x60, 0x01, // PUSH1 1
        0x60, 0x02, // PUSH1 2
        0x60, 0x0B, // PUSH1 11 - JUMPDEST index
        0x60, 0x00, // PUSH1 0 - JUMPI condition
        0x57, // JUMPI
        0x60, 0x09, // PUSH1 9 - not passed as no jump
        0x5B, // JUMPDEST
        0x01, // ADD
        0x00, // STOP
    ];
    let mut evm = Evm::new(code);
    assert_eq!(evm.run(), Ok(()));

    let mut expected = Stack::new();
    expected.push(Word::from_u64(1));
    expected.push(Word::from_u64(11));
    assert_eq!(evm.stack, expected);
}

#[test]
fn evm_test_jumpi_true() {
    let code: Vec<u8> = vec![
        0x60, 0x01, // PUSH1 1
        0x60, 0x02, // PUSH1 2
        0x60, 0x0B, // PUSH1 11 - JUMPDEST index
        0x60, 0x01, // PUSH1 1 - JUMPI condition
        0x57, // JUMPI
        0x60, 0x09, // PUSH1 9 - passed as no jump
        0x5B, // JUMPDEST
        0x01, // ADD
        0x00, // STOP
    ];
    let mut evm = Evm::new(code);
    assert_eq!(evm.run(), Ok(()));

    let mut expected = Stack::new();
    expected.push(Word::from_u64(3));
    assert_eq!(evm.stack, expected);
}

#[test]
fn evm_test_dup() {
    let code: Vec<u8> = vec![0x60, 0x01, 0x60, 0x02, 0x60, 0x03, 0x81, 0x00];
    let mut evm = Evm::new(code);
    assert_eq!(evm.run(), Ok(()));

    let mut expected = Stack::new();
    expected.push(Word::from_u64(1));
    expected.push(Word::from_u64(2));
    expected.push(Word::from_u64(3));
    expected.push(Word::from_u64(2));
    assert_eq!(evm.stack, expected);
}

#[test]
fn evm_test_swap() {
    let code: Vec<u8> = vec![0x60, 0x01, 0x60, 0x02, 0x60, 0x03, 0x91, 0x00];
    let mut evm = Evm::new(code);
    assert_eq!(evm.run(), Ok(()));

    let mut expected = Stack::new();
    expected.push(Word::from_u64(3));
    expected.push(Word::from_u64(2));
    expected.push(Word::from_u64(1));
    assert_eq!(evm.stack, expected);
}

#[test]
#[should_panic(expected = "Stack underflow")]
fn evm_test_add_underwflow() {
    let code: Vec<u8> = vec![0x01];
    let mut evm = Evm::new(code);
    evm.run().expect("Stack underflow");
}

#[test]
fn main_test_stop() {
    let code: Vec<u8> = vec![0x00];
    let mut evm = Evm::new(code);
    assert_eq!(evm.run(), Ok(()));
    let expected: Vec<Word> = vec![];
    assert_eq!(evm.stack.dump(), expected.as_slice());
}

#[test]
fn main_test_add() {
    let code: Vec<u8> = vec![0x60, 0x01, 0x60, 0x02, 0x01, 0x00];
    let mut evm = Evm::new(code);
    assert_eq!(evm.run(), Ok(()));
    let expected: Vec<Word> = vec![Word::from_u64(3)];
    assert_eq!(evm.stack.dump(), expected.as_slice());
}

#[test]
fn main_test_mul() {
    let code: Vec<u8> = vec![0x60, 0x02, 0x60, 0x03, 0x02, 0x00];
    let mut evm = Evm::new(code);
    assert_eq!(evm.run(), Ok(()));
    let expected: Vec<Word> = vec![Word::from_u64(6)];
    assert_eq!(evm.stack.dump(), expected.as_slice());
}

#[test]
fn main_test_push() {
    let code: Vec<u8> = vec![0x60, 0x01, 0x61, 0x01, 0x00, 0x62, 0x01, 0x00, 0x00, 0x00];
    let mut evm = Evm::new(code);
    assert_eq!(evm.run(), Ok(()));
    let expected: Vec<Word> = vec![Word::from_u64(1), Word::from_u64(256), Word::from_u64(65536)];
    assert_eq!(evm.stack.dump(), expected.as_slice());
}

#[test]
fn main_test_jump() {
    let code: Vec<u8> = vec![
        0x60, 0x01, // PUSH1 1
        0x60, 0x02, // PUSH1 2
        0x60, 0x09, // PUSH1 9 - JUMPDEST index
        0x56, // JUMP
        0x60, 0x09, // PUSH1 9 - passed
        0x5B, // JUMPDEST
        0x01, // ADD
        0x00, // STOP
    ];
    let mut evm = Evm::new(code);
    assert_eq!(evm.run(), Ok(()));
    let expected: Vec<Word> = vec![Word::from_u64(3)];
    assert_eq!(evm.stack.dump(), expected.as_slice());
}

#[test]
fn main_test_jumpi_false() {
    let code: Vec<u8> = vec![
        0x60, 0x01, // PUSH1 1
        0x60, 0x02, // PUSH1 2
        0x60, 0x0B, // PUSH1 11 - JUMPDEST index
        0x60, 0x00, // PUSH1 0 - JUMPI condition
        0x57, // JUMPI
        0x60, 0x09, // PUSH1 9 - not passed as no jump
        0x5B, // JUMPDEST
        0x01, // ADD
        0x00, // STOP
    ];
    let mut evm = Evm::new(code);
    assert_eq!(evm.run(), Ok(()));
    let expected: Vec<Word> = vec![Word::from_u64(1), Word::from_u64(11)];
    assert_eq!(evm.stack.dump(), expected.as_slice());
}

#[test]
fn main_test_jumpi_true() {
    let code: Vec<u8> = vec![
        0x60, 0x01, // PUSH1 1
        0x60, 0x02, // PUSH1 2
        0x60, 0x0B, // PUSH1 11 - JUMPDEST index
        0x60, 0x01, // PUSH1 1 - JUMPI condition
        0x57, // JUMPI
        0x60, 0x09, // PUSH1 9 - passed as no jump
        0x5B, // JUMPDEST
        0x01, // ADD
        0x00, // STOP
    ];
    let mut evm = Evm::new(code);
    assert_eq!(evm.run(), Ok(()));
    let expected: Vec<Word> = vec![Word::from_u64(3)];
    assert_eq!(evm.stack.dump(), expected.as_slice());
}

#[test]
fn main_test_dup() {
    let code: Vec<u8> = vec![0x60, 0x01, 0x60, 0x02, 0x60, 0x03, 0x81, 0x00];
    let mut evm = Evm::new(code);
    assert_eq!(evm.run(), Ok(()));
    let expected: Vec<Word> = vec![
        Word::from_u64(1),
        Word::from_u64(2),
        Word::from_u64(3),
        Word::from_u64(2),
    ];
    assert_eq!(evm.stack.dump(), expected.as_slice());
}

#[test]
fn main_test_swap() {
    let code: Vec<u8> = vec![0x60, 0x01, 0x60, 0x02, 0x60, 0x03, 0x91, 0x00];
    let mut evm = Evm::new(code);
    assert_eq!(evm.run(), Ok(()));
    let expected: Vec<Word> = vec![Word::from_u64(3), Word::from_u64(2), Word::from_u64(1)];
    assert_eq!(evm.stack.dump(), expected.as_slice());
}

#[test]
#[should_panic(expected = "Stack underflow")]
fn main_test_add_underwflow() {
    let code: Vec<u8> = vec![0x01];
    let mut evm = Evm::new(code);
    evm.run().expect("Stack underflow");
}
