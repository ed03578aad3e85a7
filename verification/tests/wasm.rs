use bootstrap_rs::wasm::leb128::encode_u64;
use bootstrap_rs::wasm::types::{FunctionType, NumberType};
use bootstrap_rs::wasm::{Encode, Expression, InstructionSequence, Vector};

#[test]
fn test_encode_u64() {
    for (value, expected_buffer) in [
        (0, vec![0x00]),
        (1, vec![0x01]),
        (126, vec![0x7E]),
        (127, vec![0x7F]),
        (128, vec![0x80, 0x01]),
        (129, vec![0x81, 0x01]),
        (16382, vec![0xFE, 0x7F]),
        (16383, vec![0xFF, 0x7F]),
        (16384, vec![0x80, 0x80, 0x01]),
        (16385, vec![0x81, 0x80, 0x01]),
        (
            58985701577553908,
            vec![0xF4, 0xEF, 0xED, 0xEA, 0xED, 0xE5, 0xE3, 0x68],
        ),
        (
            u64::MAX,
            vec![0xFF, 0xFF, 0xFF, 0xFF, 0xFF, 0xFF, 0xFF, 0xFF, 0xFF, 0x01],
        ),
    ] {
        let mut actual_buffer = Vec::new();
        encode_u64(value, &mut actual_buffer);
        assert_eq!(expected_buffer, actual_buffer);
    }
}

#[test]
fn test_vector() {
    let mut vector = Vector::new();
    assert_eq!(0, vector.len());

    vector.push(NumberType::I32);
    assert_eq!(1, vector.len());
    assert_eq!(NumberType::I32, vector.values()[0]);

    vector.push(NumberType::I64);
    assert_eq!(2, vector.len());
    assert_eq!(NumberType::I32, vector.values()[0]);
    assert_eq!(NumberType::I64, vector.values()[1]);
}

#[test]
fn vector_encode_empty() {
    let vector: Vector<NumberType> = Vector::new();

    let mut actual_buffer = Vec::new();
    vector.encode(&mut actual_buffer);

    let expected_buffer = vec![
        0x00, // vector length
    ];

    assert_eq!(expected_buffer, actual_buffer);
}

#[test]
fn vector_encode_non_empty() {
    let mut vector = Vector::new();

    vector.push(NumberType::I32);
    vector.push(NumberType::I32);
    vector.push(NumberType::I64);

    let mut actual_buffer = Vec::new();
    vector.encode(&mut actual_buffer);

    let expected_buffer = vec![
        0x03, // vector length
        0x7F, // type i32
        0x7F, // type i32
        0x7E, // type i64
    ];

    assert_eq!(expected_buffer, actual_buffer);
}

#[test]
fn function_type_encode_empty() {
    let function_type = FunctionType::new();

    let mut actual_buffer = Vec::new();
    function_type.encode(&mut actual_buffer);

    let expected_buffer: Vec<u8> = vec![
        0x60, // function type
        0x00, // parameter types length
        0x00, // result types length
    ];

    assert_eq!(expected_buffer, actual_buffer);
}

#[test]
fn function_type_encode_non_empty() {
    let mut function_type = FunctionType::new();

    function_type.parameter_types.push(NumberType::I32.into());
    function_type.parameter_types.push(NumberType::I32.into());
    function_type.result_types.push(NumberType::I64.into());

    let mut actual_buffer = Vec::new();
    function_type.encode(&mut actual_buffer);

    let expected_buffer: Vec<u8> = vec![
        0x60, // function type
        0x02, // parameter types length
        0x7F, // type i32
        0x7F, // type i32
        0x01, // result types length
        0x7E, // type i64
    ];

    assert_eq!(expected_buffer, actual_buffer);
}

#[test]
fn instruction_sequence_encode_empty() {
    let instruction_sequence = InstructionSequence::new();

    let mut buffer = Vec::new();
    instruction_sequence.encode(&mut buffer);

    assert!(buffer.is_empty());
}

#[test]
fn expression_encode_empty() {
    let instruction_sequence = InstructionSequence::new();
    let expression = Expression::try_new(instruction_sequence).unwrap();

    let mut actual_buffer = Vec::new();
    expression.encode(&mut actual_buffer);

    let expected_buffer = vec![
        0x0B, // end expression
    ];

    assert_eq!(expected_buffer, actual_buffer);
}

#[test]
fn instruction_encode() {
    let mut buffer = Vec::new();
    bootstrap_rs::wasm::Instruction::Nop.encode(&mut buffer);
    assert_eq!(buffer, vec![0x01]);
}
