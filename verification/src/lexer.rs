//! The lexer: from lines of assembly source to tokenized instructions.
//!
//! A line is `<MNEMONIC> <operand>[, <operand>...]`. The mnemonic is what
//! stands before the first space. What follows is cut at the commas; each
//! piece, once the whitespace around it is taken off, is an operand: `#` or
//! `$` followed by a number of one byte. The operand list ends at the first
//! piece that holds nothing but whitespace. The lexer does not hold the
//! number of operands against the opcode.
use crate::op::{get_op, lemma_get_op, lemma_mnemonic_letters, spec_get_op, Opcode};
use crate::text::{
    ascii_upper, ascii_upper_char, decimal, find_char, index_of, is_digit_char,
    is_whitespace_char, lemma_index_of, parse_bounded, parse_number, push_decimal, string_of,
    to_chars, trim, trim_range, trim_start, unsigned_digits,
};
use vstd::prelude::*;

verus! {

/// The character that opens a comment line.
pub const COMMENT_MARKER: char = ';';

/// An operand of an instruction.
#[derive(Debug, Copy, Clone, PartialEq, Eq, Structural)]
pub enum TokenType {
    /// An immediate byte, written `#15`.
    Num8(u8),
    /// The index of a register, written `$15`.
    Ptr8(u8),
}

impl TokenType {
    /// The byte that stands for this operand in a program image.
    pub open spec fn spec_byte(self) -> u8 {
        match self {
            TokenType::Num8(n) => n,
            TokenType::Ptr8(n) => n,
        }
    }

    /// The byte that stands for this operand in a program image.
    pub fn byte(self) -> (byte: u8)
        ensures
            byte == self.spec_byte(),
    {
        match self {
            TokenType::Num8(n) => n,
            TokenType::Ptr8(n) => n,
        }
    }
}

/// What is wrong with a line. Each variant starts with the index of the
/// line, the first line having the index 0.
#[derive(Debug, PartialEq, Eq)]
pub enum LexerError {
    /// An operand is not `#` or `$` followed by a number of one byte. The
    /// text is the operand, or only its first character where the number
    /// after it is well written.
    UnexpectedToken(usize, String),
    /// No opcode has the mnemonic of the line, which is the text.
    InvalidMnemonic(usize, String),
    /// The line holds no space, so no mnemonic ends in it.
    InvalidLine(usize),
}

/// A lexer error as mathematics.
pub enum LexerErrorView {
    UnexpectedToken(usize, Seq<char>),
    InvalidMnemonic(usize, Seq<char>),
    InvalidLine(usize),
}

impl View for LexerError {
    type V = LexerErrorView;

    open spec fn view(&self) -> LexerErrorView {
        match self {
            LexerError::UnexpectedToken(at, text) => LexerErrorView::UnexpectedToken(*at, text@),
            LexerError::InvalidMnemonic(at, text) => LexerErrorView::InvalidMnemonic(*at, text@),
            LexerError::InvalidLine(at) => LexerErrorView::InvalidLine(*at),
        }
    }
}

impl LexerErrorView {
    /// The message that reports the error. It counts lines from 1.
    pub open spec fn message(self) -> Seq<char> {
        match self {
            LexerErrorView::InvalidLine(at) => "Line "@ + decimal((at + 1) as nat)
                + " contains one or more invalid tokens"@,
            LexerErrorView::UnexpectedToken(at, text) => "Unexpected token at line "@ + decimal(
                (at + 1) as nat,
            ) + ": '"@ + text + "'"@,
            LexerErrorView::InvalidMnemonic(at, text) => "Invalid mnemonic at line "@ + decimal(
                (at + 1) as nat,
            ) + ": '"@ + text + "'"@,
        }
    }
}

impl LexerError {
    /// The message that reports the error. It counts lines from 1.
    pub fn message(&self) -> (message: String)
        ensures
            message@ == self@.message(),
    {
        let mut message = String::new();
        match self {
            LexerError::InvalidLine(at) => {
                message.append("Line ");
                push_decimal(&mut message, *at as u128 + 1);
                message.append(" contains one or more invalid tokens");
            },
            LexerError::UnexpectedToken(at, text) => {
                message.append("Unexpected token at line ");
                push_decimal(&mut message, *at as u128 + 1);
                message.append(": '");
                message.append(text.as_str());
                message.append("'");
            },
            LexerError::InvalidMnemonic(at, text) => {
                message.append("Invalid mnemonic at line ");
                push_decimal(&mut message, *at as u128 + 1);
                message.append(": '");
                message.append(text.as_str());
                message.append("'");
            },
        }
        message
    }
}

/// One instruction as the lexer hands it on: the opcode and the operands in
/// the order of the source.
#[derive(Debug, PartialEq)]
pub struct TokenizedLine {
    pub opcode: Opcode,
    pub operands: Vec<TokenType>,
}

/// A tokenized line as mathematics.
pub struct TokenizedLineView {
    pub opcode: Opcode,
    pub operands: Seq<TokenType>,
}

impl View for TokenizedLine {
    type V = TokenizedLineView;

    open spec fn view(&self) -> TokenizedLineView {
        TokenizedLineView { opcode: self.opcode, operands: self.operands@ }
    }
}

impl TokenizedLine {
    /// A `NOP` without operands.
    pub fn empty() -> (line: TokenizedLine)
        ensures
            line@ == (TokenizedLineView { opcode: Opcode::NOP, operands: Seq::empty() }),
    {
        TokenizedLine { opcode: Opcode::NOP, operands: Vec::new() }
    }
}

/// The views of tokenized lines, in order.
pub open spec fn line_views(lines: Seq<TokenizedLine>) -> Seq<TokenizedLineView> {
    lines.map_values(|line: TokenizedLine| line@)
}

/// The views of errors, in order.
pub open spec fn error_views(errors: Seq<LexerError>) -> Seq<LexerErrorView> {
    errors.map_values(|error: LexerError| error@)
}

/// The texts of source lines, in order.
pub open spec fn line_texts(content: Seq<String>) -> Seq<Seq<char>> {
    content.map_values(|line: String| line@)
}

/// The operand that `tkn` writes on line `line`, or what is wrong with it.
pub open spec fn spec_token(tkn: Seq<char>, line: usize) -> Result<TokenType, LexerErrorView> {
    if tkn.len() == 0 {
        Err(LexerErrorView::UnexpectedToken(line, tkn))
    } else {
        match parse_bounded(tkn.drop_first(), 255) {
            Some(number) => {
                if tkn[0] == '#' {
                    Ok(TokenType::Num8(number as u8))
                } else if tkn[0] == '$' {
                    Ok(TokenType::Ptr8(number as u8))
                } else {
                    Err(LexerErrorView::UnexpectedToken(line, tkn.take(1)))
                }
            },
            None => Err(LexerErrorView::UnexpectedToken(line, tkn)),
        }
    }
}

/// `first` put before the operands `rest`, where there are any.
pub open spec fn prepend(first: Seq<TokenType>, rest: Result<Seq<TokenType>, LexerErrorView>)
    -> Result<Seq<TokenType>, LexerErrorView> {
    match rest {
        Ok(tokens) => Ok(first + tokens),
        Err(error) => Err(error),
    }
}

/// The operands that the operand section `text` of line `line` writes, or
/// what is wrong with the first operand that is not well written.
pub open spec fn spec_operands(text: Seq<char>, line: usize) -> Result<
    Seq<TokenType>,
    LexerErrorView,
>
    decreases text.len(),
{
    let comma = index_of(text, ',');
    let token = trim(text.take(comma));
    if token.len() == 0 {
        Ok(Seq::empty())
    } else {
        match spec_token(token, line) {
            Err(error) => Err(error),
            Ok(operand) => {
                if 0 <= comma < text.len() {
                    prepend(seq![operand], spec_operands(text.skip(comma + 1), line))
                } else {
                    Ok(seq![operand])
                }
            },
        }
    }
}

/// The instruction that the source line `line` with index `line_num`
/// writes, or what is wrong with the line.
pub open spec fn spec_line(line: Seq<char>, line_num: usize) -> Result<
    TokenizedLineView,
    LexerErrorView,
> {
    let space = index_of(line, ' ');
    if !(0 <= space < line.len()) {
        Err(LexerErrorView::InvalidLine(line_num))
    } else {
        match spec_get_op(line.take(space)) {
            None => Err(LexerErrorView::InvalidMnemonic(line_num, line.take(space))),
            Some(opcode) => match spec_operands(line.skip(space), line_num) {
                Ok(operands) => Ok(TokenizedLineView { opcode, operands }),
                Err(error) => Err(error),
            },
        }
    }
}

/// Whether `line` is a comment: a line that starts with `;`.
pub open spec fn is_comment(line: Seq<char>) -> bool {
    line.len() > 0 && line[0] == COMMENT_MARKER
}

/// Whether the line `line` with index `line_num` is neither a comment nor
/// an instruction.
pub open spec fn is_invalid(line: Seq<char>, line_num: usize) -> bool {
    !is_comment(line) && spec_line(line, line_num) is Err
}

/// The instructions of the lines of `lines` that write one, in order.
pub open spec fn document_tokens(lines: Seq<Seq<char>>) -> Seq<TokenizedLineView>
    decreases lines.len(),
{
    if lines.len() == 0 {
        Seq::empty()
    } else {
        let before = document_tokens(lines.drop_last());
        if is_comment(lines.last()) {
            before
        } else {
            match spec_line(lines.last(), (lines.len() - 1) as usize) {
                Ok(tokens) => before.push(tokens),
                Err(_) => before,
            }
        }
    }
}

/// The errors of the invalid lines of `lines`, in order.
pub open spec fn document_errors(lines: Seq<Seq<char>>) -> Seq<LexerErrorView>
    decreases lines.len(),
{
    if lines.len() == 0 {
        Seq::empty()
    } else {
        let before = document_errors(lines.drop_last());
        if is_comment(lines.last()) {
            before
        } else {
            match spec_line(lines.last(), (lines.len() - 1) as usize) {
                Ok(_) => before,
                Err(error) => before.push(error),
            }
        }
    }
}

/// The number of invalid lines of `lines`.
pub open spec fn invalid_line_count(lines: Seq<Seq<char>>) -> nat
    decreases lines.len(),
{
    if lines.len() == 0 {
        0
    } else {
        invalid_line_count(lines.drop_last()) + (if is_invalid(
            lines.last(),
            (lines.len() - 1) as usize,
        ) {
            1nat
        } else {
            0nat
        })
    }
}

/// The number of lines of `lines` that write an instruction.
pub open spec fn valid_line_count(lines: Seq<Seq<char>>) -> nat
    decreases lines.len(),
{
    if lines.len() == 0 {
        0
    } else {
        valid_line_count(lines.drop_last()) + (if !is_comment(lines.last()) && spec_line(
            lines.last(),
            (lines.len() - 1) as usize,
        ) is Ok {
            1nat
        } else {
            0nat
        })
    }
}

/// A document has one error for each of its invalid lines and one
/// instruction for each of its valid lines.
pub proof fn lemma_document_counts(lines: Seq<Seq<char>>)
    ensures
        document_errors(lines).len() == invalid_line_count(lines),
        document_tokens(lines).len() == valid_line_count(lines),
    decreases lines.len(),
{
    if lines.len() > 0 {
        lemma_document_counts(lines.drop_last());
    }
}

/// What holds of every character of a well-written number: it is a digit
/// or the sign `+`, so neither whitespace nor a comma; and the last one is a
/// digit.
proof fn lemma_number_chars(number: Seq<char>, value: nat)
    requires
        parse_bounded(number, 255) == Some(value),
    ensures
        number.len() > 0,
        forall|i: int|
            0 <= i < number.len() ==> !is_whitespace_char(#[trigger] number[i]) && number[i]
                != ',',
        value <= 255,
{
    let digits = unsigned_digits(number);
    assert forall|i: int| 0 <= i < number.len() implies !is_whitespace_char(#[trigger] number[i])
        && number[i] != ',' by {
        if digits.len() == number.len() {
            assert(is_digit_char(digits[i]));
        } else if i > 0 {
            assert(digits[i - 1] == number[i]);
            assert(is_digit_char(digits[i - 1]));
        }
    }
}

/// Nothing is trimmed off a text that neither starts nor ends with
/// whitespace.
proof fn lemma_trim_nothing(text: Seq<char>)
    requires
        text.len() > 0,
        !is_whitespace_char(text[0]),
        !is_whitespace_char(text.last()),
    ensures
        trim(text) == text,
{
}

/// The operand section ` #<number>` writes the one immediate operand
/// `<number>`, and so it does before a comma and more operands.
proof fn lemma_immediate_operand(number: Seq<char>, value: u8, more: Seq<char>, line: usize)
    requires
        parse_bounded(number, 255) == Some(value as nat),
    ensures
        spec_operands(" #"@ + number, line) == Ok::<Seq<TokenType>, LexerErrorView>(
            seq![TokenType::Num8(value)],
        ),
        spec_operands(" #"@ + number + ","@ + more, line) == prepend(
            seq![TokenType::Num8(value)],
            spec_operands(more, line),
        ),
{
    reveal_strlit(" #");
    reveal_strlit(",");
    lemma_number_chars(number, value as nat);
    let piece = " #"@ + number;
    let token = seq!['#'] + number;
    assert(piece.len() == 2 + number.len());
    assert(piece[0] == ' ' && piece[1] == '#');
    assert forall|i: int| 0 <= i < piece.len() implies piece[i] != ',' by {
        if i >= 2 {
            assert(piece[i] == number[i - 2]);
        }
    }
    assert(trim(piece) == token) by {
        assert(is_whitespace_char(piece[0]));
        assert(piece.drop_first() == token);
        assert(trim_start(piece) == trim_start(token));
        assert(token.last() == number.last());
        lemma_trim_nothing(token);
    }
    assert(token.drop_first() == number);
    assert(spec_token(token, line) == Ok::<TokenType, LexerErrorView>(TokenType::Num8(value)));

    lemma_index_of(piece, ',', piece.len() as int);
    assert(piece.take(piece.len() as int) == piece);

    let longer = piece + ","@ + more;
    assert(longer.len() == piece.len() + 1 + more.len());
    assert forall|i: int| 0 <= i < piece.len() implies longer[i] != ',' by {
        assert(longer[i] == piece[i]);
    }
    assert(longer[piece.len() as int] == ',');
    lemma_index_of(longer, ',', piece.len() as int);
    assert(longer.take(piece.len() as int) == piece);
    assert(longer.skip(piece.len() as int + 1) == more);
}

/// A line made of a mnemonic, a space and three immediate operands, as in
/// `LOAD #30, #20, #16`, is the instruction of that opcode with exactly
/// those three operands, in the order of the source. So it is in whichever
/// letter case the mnemonic is written, and however each number is written.
pub proof fn lemma_line_of_three_immediates(
    name: Seq<char>,
    opcode: Opcode,
    first: Seq<char>,
    second: Seq<char>,
    third: Seq<char>,
    a: u8,
    b: u8,
    c: u8,
    line_num: usize,
)
    requires
        spec_get_op(name) == Some(opcode),
        parse_bounded(first, 255) == Some(a as nat),
        parse_bounded(second, 255) == Some(b as nat),
        parse_bounded(third, 255) == Some(c as nat),
    ensures
        spec_line(name + " #"@ + first + ", #"@ + second + ", #"@ + third, line_num) == Ok::<
            TokenizedLineView,
            LexerErrorView,
        >(
            TokenizedLineView {
                opcode,
                operands: seq![TokenType::Num8(a), TokenType::Num8(b), TokenType::Num8(c)],
            },
        ),
{
    reveal_strlit(" #");
    reveal_strlit(", #");
    reveal_strlit(",");
    let line = name + " #"@ + first + ", #"@ + second + ", #"@ + third;
    let section = " #"@ + first + ","@ + (" #"@ + second + ","@ + (" #"@ + third));
    assert(line == name + section);
    lemma_get_op(name, opcode);
    lemma_mnemonic_letters(opcode);
    assert(name.len() == ascii_upper(name).len());
    assert forall|i: int| 0 <= i < name.len() implies name[i] != ' ' by {
        assert(ascii_upper(name)[i] == opcode.spec_mnemonic()[i]);
        assert(ascii_upper(name)[i] == ascii_upper_char(name[i]));
    }
    assert forall|i: int| 0 <= i < name.len() implies line[i] != ' ' by {
        assert(line[i] == name[i]);
    }
    assert(line[name.len() as int] == section[0]);
    lemma_index_of(line, ' ', name.len() as int);
    assert(line.take(name.len() as int) == name);
    assert(line.skip(name.len() as int) == section);
    lemma_immediate_operand(first, a, " #"@ + second + ","@ + (" #"@ + third), line_num);
    lemma_immediate_operand(second, b, " #"@ + third, line_num);
    lemma_immediate_operand(third, c, Seq::empty(), line_num);
    assert(seq![TokenType::Num8(b)] + seq![TokenType::Num8(c)] == seq![
        TokenType::Num8(b),
        TokenType::Num8(c),
    ]);
    assert(seq![TokenType::Num8(a)] + seq![TokenType::Num8(b), TokenType::Num8(c)] == seq![
        TokenType::Num8(a),
        TokenType::Num8(b),
        TokenType::Num8(c),
    ]);
}

/// The lexer. It holds no state.
pub struct Lexer;

impl Lexer {
    pub fn new() -> Lexer {
        Lexer {  }
    }

    /// The operand that `chars[start..end]` writes.
    fn token_in(&self, chars: &Vec<char>, start: usize, end: usize, line: usize) -> (token: Result<
        TokenType,
        LexerError,
    >)
        requires
            start <= end <= chars.len(),
        ensures
            match token {
                Ok(operand) => spec_token(chars@.subrange(start as int, end as int), line) == Ok::<
                    TokenType,
                    LexerErrorView,
                >(operand),
                Err(error) => spec_token(chars@.subrange(start as int, end as int), line) == Err::<
                    TokenType,
                    LexerErrorView,
                >(error@),
            },
    {
        let ghost tkn = chars@.subrange(start as int, end as int);
        if start == end {
            return Err(LexerError::UnexpectedToken(line, string_of(chars, start, end)));
        }
        assert(tkn.drop_first() == chars@.subrange(start + 1, end as int));
        assert(tkn.take(1) == chars@.subrange(start as int, start + 1));
        match parse_number(chars, start + 1, end, 255) {
            Some(number) => {
                let prefix = chars[start];
                if prefix == '#' {
                    Ok(TokenType::Num8(number as u8))
                } else if prefix == '$' {
                    Ok(TokenType::Ptr8(number as u8))
                } else {
                    Err(LexerError::UnexpectedToken(line, string_of(chars, start, start + 1)))
                }
            },
            None => Err(LexerError::UnexpectedToken(line, string_of(chars, start, end))),
        }
    }

    /// The operands that `chars[start..end]` writes.
    fn operands_in(&self, chars: &Vec<char>, start: usize, end: usize, line: usize) -> (tokens:
        Result<Vec<TokenType>, LexerError>)
        requires
            start <= end <= chars.len(),
        ensures
            match tokens {
                Ok(operands) => spec_operands(chars@.subrange(start as int, end as int), line)
                    == Ok::<Seq<TokenType>, LexerErrorView>(operands@),
                Err(error) => spec_operands(chars@.subrange(start as int, end as int), line)
                    == Err::<Seq<TokenType>, LexerErrorView>(error@),
            },
    {
        let ghost whole = spec_operands(chars@.subrange(start as int, end as int), line);
        let mut tokens: Vec<TokenType> = Vec::new();
        let mut pos: usize = start;
        loop
            invariant
                start <= pos <= end <= chars.len(),
                whole == spec_operands(chars@.subrange(start as int, end as int), line),
                whole == prepend(
                    tokens@,
                    spec_operands(chars@.subrange(pos as int, end as int), line),
                ),
            decreases end - pos,
        {
            let ghost text = chars@.subrange(pos as int, end as int);
            let comma = find_char(chars, pos, end, ',');
            let (first, last) = trim_range(chars, pos, comma);
            assert(text.take(comma - pos) == chars@.subrange(pos as int, comma as int));
            if first == last {
                assert(tokens@ + Seq::<TokenType>::empty() == tokens@);
                return Ok(tokens);
            }
            match self.token_in(chars, first, last, line) {
                Err(error) => {
                    return Err(error);
                },
                Ok(operand) => {
                    let ghost before = tokens@;
                    tokens.push(operand);
                    assert(before + seq![operand] == tokens@);
                    if comma >= end {
                        return Ok(tokens);
                    }
                    assert(text.skip(comma - pos + 1) == chars@.subrange(
                        comma + 1,
                        end as int,
                    ));
                    proof {
                        let rest = spec_operands(chars@.subrange(comma + 1, end as int), line);
                        match rest {
                            Ok(more) => {
                                assert(before + (seq![operand] + more) == tokens@ + more);
                            },
                            Err(_) => {},
                        }
                    }
                    pos = comma + 1;
                },
            }
        }
    }

    /// The instruction that the characters `chars` of a line write.
    fn line_in(&self, chars: &Vec<char>, line_num: usize) -> (tokenized: Result<
        TokenizedLine,
        LexerError,
    >)
        ensures
            match tokenized {
                Ok(tokens) => spec_line(chars@, line_num) == Ok::<
                    TokenizedLineView,
                    LexerErrorView,
                >(tokens@),
                Err(error) => spec_line(chars@, line_num) == Err::<
                    TokenizedLineView,
                    LexerErrorView,
                >(error@),
            },
    {
        let end = chars.len();
        let space = find_char(chars, 0, end, ' ');
        assert(chars@.subrange(0, end as int) == chars@);
        if space >= end {
            return Err(LexerError::InvalidLine(line_num));
        }
        assert(chars@.take(space as int) == chars@.subrange(0, space as int));
        assert(chars@.skip(space as int) == chars@.subrange(space as int, end as int));
        let name = string_of(chars, 0, space);
        match get_op(name.clone()) {
            Err(_) => Err(LexerError::InvalidMnemonic(line_num, name)),
            Ok(opcode) => {
                match self.operands_in(chars, space, end, line_num) {
                    Ok(operands) => Ok(TokenizedLine { opcode, operands }),
                    Err(error) => Err(error),
                }
            },
        }
    }

    /// The instructions of a whole document, one line of source in each
    /// element of `content`: every line that is not a comment is
    /// tokenized. Where any line is invalid, no instruction is returned but
    /// the error of each invalid line, in the order of the lines.
    pub fn tokenize(&self, content: &Vec<String>) -> (tokenized: Result<
        Vec<TokenizedLine>,
        Vec<LexerError>,
    >)
        ensures
            match tokenized {
                Ok(lines) => document_errors(line_texts(content@)).len() == 0 && line_views(
                    lines@,
                ) == document_tokens(line_texts(content@)),
                Err(errors) => errors.len() > 0 && error_views(errors@) == document_errors(
                    line_texts(content@),
                ),
            },
    {
        let ghost texts = line_texts(content@);
        let mut tokenized: Vec<TokenizedLine> = Vec::new();
        let mut errors: Vec<LexerError> = Vec::new();
        let mut i: usize = 0;
        assert(texts.take(0) == Seq::<Seq<char>>::empty());
        while i < content.len()
            invariant
                i <= content.len(),
                texts == line_texts(content@),
                error_views(errors@) == document_errors(texts.take(i as int)),
                errors.len() == 0 ==> line_views(tokenized@) == document_tokens(
                    texts.take(i as int),
                ),
            decreases content.len() - i,
        {
            let chars = to_chars(content[i].as_str());
            proof {
                assert(texts.take(i + 1).drop_last() == texts.take(i as int));
                assert(texts.take(i + 1).last() == chars@);
            }
            if !(chars.len() > 0 && chars[0] == COMMENT_MARKER) {
                match self.line_in(&chars, i) {
                    Ok(line) => {
                        if errors.len() == 0 {
                            let ghost before = tokenized@;
                            tokenized.push(line);
                            assert(line_views(tokenized@) == line_views(before).push(line@));
                        }
                    },
                    Err(error) => {
                        let ghost before = errors@;
                        errors.push(error);
                        assert(error_views(errors@) == error_views(before).push(error@));
                    },
                }
            }
            i += 1;
        }
        assert(texts.take(content.len() as int) == texts);
        if errors.len() == 0 {
            Ok(tokenized)
        } else {
            Err(errors)
        }
    }

    /// The instruction that the source line `line` with index `line_num`
    /// writes.
    pub fn tokenize_line(&self, line: &str, line_num: usize) -> (tokenized: Result<
        TokenizedLine,
        LexerError,
    >)
        ensures
            match tokenized {
                Ok(tokens) => spec_line(line@, line_num) == Ok::<
                    TokenizedLineView,
                    LexerErrorView,
                >(tokens@),
                Err(error) => spec_line(line@, line_num) == Err::<
                    TokenizedLineView,
                    LexerErrorView,
                >(error@),
            },
    {
        let chars = to_chars(line);
        self.line_in(&chars, line_num)
    }

    /// The operands that the operand section `line` of the source line
    /// with index `line_num` writes.
    pub fn tokenize_operands(&self, line: String, line_num: usize) -> (tokens: Result<
        Vec<TokenType>,
        LexerError,
    >)
        ensures
            match tokens {
                Ok(operands) => spec_operands(line@, line_num) == Ok::<
                    Seq<TokenType>,
                    LexerErrorView,
                >(operands@),
                Err(error) => spec_operands(line@, line_num) == Err::<
                    Seq<TokenType>,
                    LexerErrorView,
                >(error@),
            },
    {
        let chars = to_chars(line.as_str());
        assert(chars@.subrange(0, chars.len() as int) == chars@);
        self.operands_in(&chars, 0, chars.len(), line_num)
    }

    /// The operand that `tkn`, on the source line with index `line`,
    /// writes.
    pub fn from_number_to_token(&self, tkn: String, line: usize) -> (token: Result<
        TokenType,
        LexerError,
    >)
        ensures
            match token {
                Ok(operand) => spec_token(tkn@, line) == Ok::<TokenType, LexerErrorView>(operand),
                Err(error) => spec_token(tkn@, line) == Err::<TokenType, LexerErrorView>(error@),
            },
    {
        let chars = to_chars(tkn.as_str());
        assert(chars@.subrange(0, chars.len() as int) == chars@);
        self.token_in(&chars, 0, chars.len(), line)
    }
}

} // verus!
