use lamp::compiler::Compiler;
use lamp::lexer::{LexerError, TokenType, TokenizedLine};
use lamp::op::{decode_opcode, Opcode};
use lamp::vm::VM;

fn source(lines: &[&str]) -> Vec<String> {
    lines.iter().map(|l| l.to_string()).collect()
}

#[test]
fn compile_lays_instructions_end_to_end() {
    let mut compiler = Compiler::new(source(&[
        "; add two numbers",
        "LOAD $13, #15, #15",
        "LOAD $14, #16, #16",
        "ADD $13, $14, $15",
        "HLT ",
    ]));
    assert_eq!(compiler.compile(), Ok(13));
    assert_eq!(
        compiler.result_buffer,
        vec![15, 13, 15, 15, 15, 14, 16, 16, 1, 13, 14, 15, 13]
    );
}

#[test]
fn compile_of_nothing_is_an_empty_image() {
    let mut compiler = Compiler::new(source(&[]));
    assert_eq!(compiler.result_buffer, Vec::<u8>::new());
    assert_eq!(compiler.compile(), Ok(0));
    assert_eq!(compiler.result_buffer, Vec::<u8>::new());
}

#[test]
fn compile_reports_every_error_and_leaves_the_image() {
    let mut compiler = Compiler::new(source(&["INC $1", "ZIZI #1", "DEC", "ADD #1, #2, #x"]));
    compiler.result_buffer.push(42);
    assert_eq!(
        compiler.compile(),
        Err(vec![
            LexerError::InvalidMnemonic(1, "ZIZI".to_string()),
            LexerError::InvalidLine(2),
            LexerError::UnexpectedToken(3, "#x".to_string()),
        ])
    );
    assert_eq!(compiler.result_buffer, vec![42]);
}

#[test]
fn compile_appends_to_the_image() {
    let mut compiler = Compiler::new(source(&["INC $7"]));
    assert_eq!(compiler.compile(), Ok(2));
    assert_eq!(compiler.compile(), Ok(4));
    assert_eq!(compiler.result_buffer, vec![5, 7, 5, 7]);
}

#[test]
fn compile_token_drops_the_kind_of_operand() {
    let mut compiler = Compiler::new(source(&[]));
    let bytes = compiler.compile_token(TokenizedLine {
        opcode: Opcode::LOAD,
        operands: vec![TokenType::Ptr8(13), TokenType::Num8(15), TokenType::Num8(16)],
    });
    assert_eq!(bytes, vec![15, 13, 15, 16]);
    let bytes = compiler.compile_token(TokenizedLine {
        opcode: Opcode::MODR,
        operands: vec![],
    });
    assert_eq!(bytes, vec![17]);
    assert_eq!(compiler.result_buffer, Vec::<u8>::new());
}

/// Walks an image as the machine does: an opcode byte, then as many bytes
/// as the opcode takes.
fn walk(image: &[u8]) -> Option<Vec<(Opcode, Vec<u8>)>> {
    let mut instructions = Vec::new();
    let mut at = 0;
    while at < image.len() {
        let opcode = decode_opcode(image[at])?;
        let end = at + 1 + opcode.operands();
        if end > image.len() {
            return None;
        }
        instructions.push((opcode, image[at + 1..end].to_vec()));
        at = end;
    }
    Some(instructions)
}

#[test]
fn decoding_the_image_gives_back_opcodes_and_operand_bytes() {
    let mut compiler = Compiler::new(source(&[
        "LOAD $1, #0, #200",
        "LOAD $2, #1, #44",
        "MOD $1, $2, $3",
        "MODR $4",
        "EQ $3, $4",
        "INC $3",
        "NOP ",
        "HLT ",
        "JMP $9",
    ]));
    assert_eq!(compiler.compile(), Ok(23));
    assert_eq!(
        walk(&compiler.result_buffer),
        Some(vec![
            (Opcode::LOAD, vec![1, 0, 200]),
            (Opcode::LOAD, vec![2, 1, 44]),
            (Opcode::MOD, vec![1, 2, 3]),
            (Opcode::MODR, vec![4]),
            (Opcode::EQ, vec![3, 4]),
            (Opcode::INC, vec![3]),
            (Opcode::NOP, vec![]),
            (Opcode::HLT, vec![]),
            (Opcode::JMP, vec![9]),
        ])
    );
}

#[test]
fn running_the_image_applies_the_opcodes_to_the_operands() {
    let mut compiler = Compiler::new(source(&[
        "LOAD $13, #15, #15",
        "LOAD $14, #16, #16",
        "ADD $13, $14, $15",
        "SUB $13, $14, $16",
        "MUL $13, $14, $17",
        "MOD $13, $14, $18",
        "MODR $19",
    ]));
    assert_eq!(compiler.compile(), Ok(26));
    let mut vm = VM::new(compiler.result_buffer);
    assert_eq!(vm.run(), Ok(0));
    assert_eq!(*vm.get_register(13), 3855);
    assert_eq!(*vm.get_register(14), 4112);
    assert_eq!(*vm.get_register(15), 3855 + 4112);
    assert_eq!(*vm.get_register(16), 3855 - 4112);
    assert_eq!(*vm.get_register(17), 3855 * 4112);
    assert_eq!(*vm.get_register(18), 3855 / 4112);
    assert_eq!(*vm.get_register(19), 3855 % 4112);
}
