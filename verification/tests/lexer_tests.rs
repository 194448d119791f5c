use lamp::lexer::{Lexer, LexerError, TokenType, TokenizedLine};
use lamp::op::Opcode;

#[test]
fn test_parse() {
    let to_parse = "LOAD #30, #20, #16";
    let lexer = Lexer::new();

    let res = lexer.tokenize_line(to_parse, 1);

    assert_eq!(res.is_ok(), true);

    let expected = TokenizedLine {
        opcode: Opcode::LOAD,
        operands: vec![
            TokenType::Num8(30),
            TokenType::Num8(20),
            TokenType::Num8(16),
        ],
    };

    assert_eq!(res.unwrap(), expected);
}

#[test]
fn test_parse_error() {
    let to_parse = "ZIZI #30, '0, #caca";
    let lexer = Lexer::new();

    let res = lexer.tokenize_line(to_parse, 1);

    assert_eq!(res.is_err(), true);
}

fn line(opcode: Opcode, operands: Vec<TokenType>) -> TokenizedLine {
    TokenizedLine { opcode, operands }
}

#[test]
fn three_immediates_come_out_in_order_for_every_opcode_of_three_operands() {
    let lexer = Lexer::new();
    for (name, opcode) in [
        ("ADD", Opcode::ADD),
        ("SUB", Opcode::SUB),
        ("MUL", Opcode::MUL),
        ("MOD", Opcode::MOD),
        ("LOAD", Opcode::LOAD),
    ] {
        for (a, b, c) in [(0u8, 0u8, 0u8), (1, 2, 3), (255, 0, 128), (7, 7, 7), (30, 20, 16)] {
            let source = format!("{} #{}, #{}, #{}", name, a, b, c);
            let expected = line(
                opcode,
                vec![TokenType::Num8(a), TokenType::Num8(b), TokenType::Num8(c)],
            );
            assert_eq!(lexer.tokenize_line(&source, 0), Ok(expected));
        }
    }
}

#[test]
fn mnemonic_may_be_written_in_lower_case() {
    let lexer = Lexer::new();
    assert_eq!(
        lexer.tokenize_line("load #30, #20, #16", 0),
        Ok(line(
            Opcode::LOAD,
            vec![TokenType::Num8(30), TokenType::Num8(20), TokenType::Num8(16)]
        ))
    );
}

#[test]
fn register_operands_are_pointers() {
    let lexer = Lexer::new();
    assert_eq!(
        lexer.tokenize_line("ADD $13, $14, $15", 3),
        Ok(line(
            Opcode::ADD,
            vec![TokenType::Ptr8(13), TokenType::Ptr8(14), TokenType::Ptr8(15)]
        ))
    );
    assert_eq!(
        lexer.tokenize_line("LOAD $13, #15, #15", 3),
        Ok(line(
            Opcode::LOAD,
            vec![TokenType::Ptr8(13), TokenType::Num8(15), TokenType::Num8(15)]
        ))
    );
}

#[test]
fn line_without_space_is_invalid() {
    let lexer = Lexer::new();
    assert_eq!(lexer.tokenize_line("HLT", 4), Err(LexerError::InvalidLine(4)));
    assert_eq!(lexer.tokenize_line("", 0), Err(LexerError::InvalidLine(0)));
    assert_eq!(lexer.tokenize_line("ADD,#1", 2), Err(LexerError::InvalidLine(2)));
}

#[test]
fn zero_operand_instruction_takes_a_trailing_space() {
    let lexer = Lexer::new();
    assert_eq!(lexer.tokenize_line("HLT ", 0), Ok(line(Opcode::HLT, vec![])));
    assert_eq!(lexer.tokenize_line("NOP   ", 0), Ok(line(Opcode::NOP, vec![])));
}

#[test]
fn unknown_mnemonic_is_reported_with_its_text() {
    let lexer = Lexer::new();
    assert_eq!(
        lexer.tokenize_line("ZIZI #30, '0, #caca", 1),
        Err(LexerError::InvalidMnemonic(1, "ZIZI".to_string()))
    );
    assert_eq!(
        lexer.tokenize_line(" ADD #1, #2, #3", 8),
        Err(LexerError::InvalidMnemonic(8, "".to_string()))
    );
    assert_eq!(
        lexer.tokenize_line("XEQ $1, $2", 0),
        Err(LexerError::InvalidMnemonic(0, "XEQ".to_string()))
    );
}

#[test]
fn wrong_prefix_is_reported_with_the_prefix() {
    let lexer = Lexer::new();
    assert_eq!(
        lexer.tokenize_line("ADD #30, '0, #caca", 5),
        Err(LexerError::UnexpectedToken(5, "'".to_string()))
    );
    assert_eq!(
        lexer.from_number_to_token("x12".to_string(), 2),
        Err(LexerError::UnexpectedToken(2, "x".to_string()))
    );
    assert_eq!(
        lexer.from_number_to_token("\u{e9}12".to_string(), 2),
        Err(LexerError::UnexpectedToken(2, "\u{e9}".to_string()))
    );
}

#[test]
fn wrong_number_is_reported_with_the_whole_token() {
    let lexer = Lexer::new();
    assert_eq!(
        lexer.tokenize_line("ADD #30, #caca, #1", 5),
        Err(LexerError::UnexpectedToken(5, "#caca".to_string()))
    );
    for token in ["#256", "#", "$", "#-1", "#1 2", "#1.0", "# 1", "xab", "#999999999999999999999"] {
        assert_eq!(
            lexer.from_number_to_token(token.to_string(), 9),
            Err(LexerError::UnexpectedToken(9, token.to_string()))
        );
    }
    assert_eq!(
        lexer.from_number_to_token("".to_string(), 9),
        Err(LexerError::UnexpectedToken(9, "".to_string()))
    );
}

#[test]
fn numbers_of_one_byte_in_every_writing() {
    let lexer = Lexer::new();
    for value in 0..=255u8 {
        assert_eq!(
            lexer.from_number_to_token(format!("#{}", value), 0),
            Ok(TokenType::Num8(value))
        );
        assert_eq!(
            lexer.from_number_to_token(format!("${}", value), 0),
            Ok(TokenType::Ptr8(value))
        );
        assert_eq!(
            lexer.from_number_to_token(format!("#+{}", value), 0),
            Ok(TokenType::Num8(value))
        );
        assert_eq!(
            lexer.from_number_to_token(format!("#000{}", value), 0),
            Ok(TokenType::Num8(value))
        );
    }
    for value in 256..=1000u32 {
        assert_eq!(
            lexer.from_number_to_token(format!("#{}", value), 0),
            Err(LexerError::UnexpectedToken(0, format!("#{}", value)))
        );
    }
}

#[test]
fn whitespace_around_operands_is_taken_off() {
    let lexer = Lexer::new();
    assert_eq!(
        lexer.tokenize_line("LOAD   #1 ,\t#2,#3  ", 0),
        Ok(line(
            Opcode::LOAD,
            vec![TokenType::Num8(1), TokenType::Num8(2), TokenType::Num8(3)]
        ))
    );
    assert_eq!(
        lexer.tokenize_operands(" $4,\u{a0}#5\u{2003}".to_string(), 0),
        Ok(vec![TokenType::Ptr8(4), TokenType::Num8(5)])
    );
}

#[test]
fn operand_list_ends_at_the_first_blank_piece() {
    let lexer = Lexer::new();
    assert_eq!(lexer.tokenize_operands("".to_string(), 0), Ok(vec![]));
    assert_eq!(lexer.tokenize_operands("   ".to_string(), 0), Ok(vec![]));
    assert_eq!(
        lexer.tokenize_operands("#1, , #x".to_string(), 0),
        Ok(vec![TokenType::Num8(1)])
    );
    assert_eq!(
        lexer.tokenize_operands("#1, #2,".to_string(), 0),
        Ok(vec![TokenType::Num8(1), TokenType::Num8(2)])
    );
    assert_eq!(lexer.tokenize_operands(",#1".to_string(), 0), Ok(vec![]));
}

#[test]
fn operand_count_is_not_held_against_the_opcode() {
    let lexer = Lexer::new();
    assert_eq!(
        lexer.tokenize_line("HLT #1, #2", 0),
        Ok(line(Opcode::HLT, vec![TokenType::Num8(1), TokenType::Num8(2)]))
    );
    assert_eq!(
        lexer.tokenize_line("ADD #1", 0),
        Ok(line(Opcode::ADD, vec![TokenType::Num8(1)]))
    );
}

fn document(lines: &[&str]) -> Vec<String> {
    lines.iter().map(|l| l.to_string()).collect()
}

#[test]
fn valid_document_gives_every_instruction_in_order() {
    let lexer = Lexer::new();
    let content = document(&[
        "; loads two numbers and adds them",
        "LOAD $13, #15, #15",
        "LOAD $14, #16, #16",
        ";ADD $1, $2, $3",
        "ADD $13, $14, $15",
    ]);
    assert_eq!(
        lexer.tokenize(&content),
        Ok(vec![
            line(
                Opcode::LOAD,
                vec![TokenType::Ptr8(13), TokenType::Num8(15), TokenType::Num8(15)]
            ),
            line(
                Opcode::LOAD,
                vec![TokenType::Ptr8(14), TokenType::Num8(16), TokenType::Num8(16)]
            ),
            line(
                Opcode::ADD,
                vec![TokenType::Ptr8(13), TokenType::Ptr8(14), TokenType::Ptr8(15)]
            ),
        ])
    );
}

#[test]
fn empty_document_and_comments_alone_give_no_instruction() {
    let lexer = Lexer::new();
    assert_eq!(lexer.tokenize(&document(&[])), Ok(vec![]));
    assert_eq!(lexer.tokenize(&document(&[";", "; x", ";;"])), Ok(vec![]));
}

#[test]
fn document_with_invalid_lines_gives_one_error_for_each_and_no_instruction() {
    let lexer = Lexer::new();
    let content = document(&[
        "LOAD $13, #15, #15",
        "ZIZI #30",
        "; a comment",
        "ADD $13, $14, $15",
        "HLT",
        "INC $1",
        "DEC #300",
    ]);
    assert_eq!(
        lexer.tokenize(&content),
        Err(vec![
            LexerError::InvalidMnemonic(1, "ZIZI".to_string()),
            LexerError::InvalidLine(4),
            LexerError::UnexpectedToken(6, "#300".to_string()),
        ])
    );
}

#[test]
fn error_count_is_the_count_of_invalid_lines() {
    let lexer = Lexer::new();
    for invalid in 1..6usize {
        for valid in 0..4usize {
            let mut content: Vec<String> = Vec::new();
            for _ in 0..valid {
                content.push("INC $1".to_string());
            }
            for _ in 0..invalid {
                content.push("nothing".to_string());
            }
            for _ in 0..valid {
                content.push("NOP ".to_string());
            }
            match lexer.tokenize(&content) {
                Ok(_) => panic!("an invalid document gave instructions"),
                Err(errors) => assert_eq!(errors.len(), invalid),
            }
        }
    }
}

#[test]
fn empty_line_is_invalid() {
    let lexer = Lexer::new();
    assert_eq!(
        lexer.tokenize(&document(&["INC $1", ""])),
        Err(vec![LexerError::InvalidLine(1)])
    );
}

#[test]
fn messages_count_lines_from_one() {
    assert_eq!(
        LexerError::InvalidLine(0).message(),
        "Line 1 contains one or more invalid tokens"
    );
    assert_eq!(
        LexerError::UnexpectedToken(9, "#caca".to_string()).message(),
        "Unexpected token at line 10: '#caca'"
    );
    assert_eq!(
        LexerError::InvalidMnemonic(122, "ZIZI".to_string()).message(),
        "Invalid mnemonic at line 123: 'ZIZI'"
    );
    assert_eq!(
        LexerError::InvalidLine(usize::MAX).message(),
        format!(
            "Line {} contains one or more invalid tokens",
            usize::MAX as u128 + 1
        )
    );
}

#[test]
fn empty_tokenized_line_is_a_nop() {
    assert_eq!(TokenizedLine::empty(), line(Opcode::NOP, vec![]));
}

#[test]
fn operand_bytes() {
    assert_eq!(TokenType::Num8(200).byte(), 200);
    assert_eq!(TokenType::Ptr8(31).byte(), 31);
}
