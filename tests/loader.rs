use uvm::{parse_program, Instruction, InstructionType, UVMError};

fn one(op: InstructionType, operand: Option<i64>) -> Vec<Instruction> {
    vec![Instruction::new(op, operand)]
}

#[test]
fn loads_every_opcode() {
    let p = parse_program("0 -3\n1\n2 0\n3 4\n4 1\n5\n6\n7\n8\n9\n10\n11").unwrap();
    let kinds: Vec<InstructionType> = p.iter().map(|i| i.instruction_type).collect();
    assert_eq!(
        kinds,
        vec![
            InstructionType::Push,
            InstructionType::Pop,
            InstructionType::Duplicate,
            InstructionType::Jump,
            InstructionType::JumpIf,
            InstructionType::Equal,
            InstructionType::Add,
            InstructionType::Subtract,
            InstructionType::Multiply,
            InstructionType::Divide,
            InstructionType::Dump,
            InstructionType::Halt,
        ]
    );
    assert_eq!(p[0].operand, Some(-3));
    assert_eq!(p[3].operand, Some(4));
    assert_eq!(p[1].operand, None);
}

#[test]
fn tags_and_arity() {
    for tag in 0u8..=11 {
        let op = InstructionType::from_tag(tag).unwrap();
        assert_eq!(op.tag(), tag);
        let expected = if tag <= 4 && tag != 1 { 1 } else { 0 };
        assert_eq!(op.arity(), expected);
    }
    assert_eq!(InstructionType::from_tag(12), None);
    assert_eq!(InstructionType::from_tag(255), None);
}

#[test]
fn trims_lines_and_fields() {
    assert_eq!(parse_program("  0 5\r\n 11 \n"), Ok(vec![
        Instruction::new(InstructionType::Push, Some(5)),
        Instruction::new(InstructionType::Halt, None),
    ]));
    assert_eq!(parse_program("+0 +5"), Ok(one(InstructionType::Push, Some(5))));
    assert_eq!(parse_program("0 -0"), Ok(one(InstructionType::Push, Some(0))));
}

#[test]
fn extreme_operands() {
    assert_eq!(parse_program("0 9223372036854775807"), Ok(one(InstructionType::Push, Some(i64::MAX))));
    assert_eq!(parse_program("0 -9223372036854775808"), Ok(one(InstructionType::Push, Some(i64::MIN))));
    assert_eq!(parse_program("0 9223372036854775808"), Err(UVMError::IllegalOperand));
    assert_eq!(parse_program("0 -9223372036854775809"), Err(UVMError::IllegalOperand));
}

#[test]
fn three_fields_is_illegal_operation() {
    assert_eq!(parse_program("0 1 2"), Err(UVMError::IllegalOperation));
    assert_eq!(parse_program("11\n6 1 2"), Err(UVMError::IllegalOperation));
    assert_eq!(parse_program("0  1"), Err(UVMError::IllegalOperation));
}

#[test]
fn bad_opcode_field_is_illegal_operation() {
    for source in ["x", "256", "-1", "1.5", "+", "0x1", "12", "x 5", "256 1", "-0 1"] {
        let text = format!("11\n{}", source);
        assert_eq!(parse_program(&text), Err(UVMError::IllegalOperation), "{:?}", source);
    }
}

#[test]
fn bad_operand_field_is_illegal_operand() {
    for source in ["0 x", "0 1.5", "2 -", "3 +", "4 -+1", "0 12a"] {
        assert_eq!(parse_program(source), Err(UVMError::IllegalOperand), "{:?}", source);
    }
}

#[test]
fn wrong_arity_is_illegal_operation() {
    assert_eq!(parse_program("0"), Err(UVMError::IllegalOperation));
    assert_eq!(parse_program("3"), Err(UVMError::IllegalOperation));
    assert_eq!(parse_program("6 1"), Err(UVMError::IllegalOperation));
    assert_eq!(parse_program("11 0"), Err(UVMError::IllegalOperation));
}

#[test]
fn blank_line_inside_program_is_rejected() {
    assert_eq!(parse_program("0 1\n\n11"), Err(UVMError::IllegalOperation));
}

#[test]
fn first_error_wins() {
    assert_eq!(parse_program("0 x\n1 2 3"), Err(UVMError::IllegalOperand));
    assert_eq!(parse_program("1 2 3\n0 x"), Err(UVMError::IllegalOperation));
}

#[test]
fn to_text_forms() {
    assert_eq!(Instruction::new(InstructionType::Push, Some(-42)).to_text(), "0 -42");
    assert_eq!(Instruction::new(InstructionType::Halt, None).to_text(), "11");
    assert_eq!(Instruction::new(InstructionType::JumpIf, Some(1234567)).to_text(), "4 1234567");
    assert_eq!(Instruction::new(InstructionType::Push, Some(i64::MIN)).to_text(), "0 -9223372036854775808");
}

#[test]
fn round_trip_through_text() {
    let source = "+0 -17\n1\n2 3\n3 0\n4 +99\n5\n6\n7\n8\n9\n10\n11\n0 9223372036854775807\n0 -9223372036854775808";
    let program = parse_program(source).unwrap();
    for ins in &program {
        let text = ins.to_text();
        assert_eq!(parse_program(&text), Ok(vec![*ins]), "{}", text);
    }
}
