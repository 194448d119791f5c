//! The encoder: from assembly source to the program image that the virtual
//! machine runs.
use crate::image::{encode_line, encode_program, lemma_encode_program_push, operand_bytes};
use crate::lexer::{
    document_errors, document_tokens, error_views, line_texts, line_views, Lexer, LexerError,
    TokenizedLine, TokenizedLineView,
};
use vstd::prelude::*;

verus! {

/// Compiles one document: holds its lines and the image compiled so far.
pub struct Compiler {
    origin: Vec<String>,
    /// The image compiled so far.
    pub result_buffer: Vec<u8>,
}

/// Appends to `buffer` the bytes that stand for `line`.
fn push_line(buffer: &mut Vec<u8>, line: &TokenizedLine)
    ensures
        final(buffer)@ == old(buffer)@ + encode_line(line@),
{
    buffer.push(line.opcode.code());
    let mut i: usize = 0;
    while i < line.operands.len()
        invariant
            i <= line.operands.len(),
            buffer@ == old(buffer)@ + seq![line.opcode.spec_code()] + operand_bytes(line@).take(
                i as int,
            ),
        decreases line.operands.len() - i,
    {
        buffer.push(line.operands[i].byte());
        assert(operand_bytes(line@).take(i + 1) == operand_bytes(line@).take(i as int).push(
            line.operands[i as int].spec_byte(),
        ));
        i += 1;
    }
    assert(operand_bytes(line@).take(line.operands.len() as int) == operand_bytes(line@));
}

impl Compiler {
    /// The texts of the source lines that the compiler was made with.
    pub closed spec fn source(&self) -> Seq<Seq<char>> {
        line_texts(self.origin@)
    }

    /// The image compiled so far: what `result_buffer` holds.
    pub closed spec fn image(&self) -> Seq<u8> {
        self.result_buffer@
    }

    /// A compiler for the document whose lines are the elements of
    /// `origin`. Its image is empty.
    pub fn new(origin: Vec<String>) -> (compiler: Compiler)
        ensures
            compiler.source() == line_texts(origin@),
            compiler.image() == Seq::<u8>::empty(),
    {
        Compiler { origin, result_buffer: Vec::new() }
    }

    /// Compiles the document. Where every line that is not a comment is an
    /// instruction, the bytes of the instructions are appended to the image,
    /// in the order of the lines, and the length of the image is returned.
    /// Otherwise the image stays as it is and the error of each invalid
    /// line is returned, in the order of the lines.
    pub fn compile(&mut self) -> (compiled: Result<usize, Vec<LexerError>>)
        ensures
            final(self).source() == old(self).source(),
            match compiled {
                Ok(size) => {
                    &&& document_errors(old(self).source()).len() == 0
                    &&& final(self).image() == old(self).image() + encode_program(
                        document_tokens(old(self).source()),
                    )
                    &&& size == final(self).image().len()
                },
                Err(errors) => {
                    &&& errors.len() > 0
                    &&& error_views(errors@) == document_errors(old(self).source())
                    &&& final(self).image() == old(self).image()
                },
            },
    {
        match Lexer::new().tokenize(&self.origin) {
            Ok(lines) => {
                let ghost views = line_views(lines@);
                let mut i: usize = 0;
                assert(views.take(0) == Seq::<TokenizedLineView>::empty());
                assert(self.result_buffer@ == old(self).result_buffer@ + Seq::<u8>::empty());
                while i < lines.len()
                    invariant
                        i <= lines.len(),
                        views == line_views(lines@),
                        self.origin == old(self).origin,
                        self.result_buffer@ == old(self).result_buffer@ + encode_program(
                            views.take(i as int),
                        ),
                    decreases lines.len() - i,
                {
                    proof {
                        assert(views.take(i + 1) == views.take(i as int).push(lines[i as int]@));
                        lemma_encode_program_push(views.take(i as int), lines[i as int]@);
                    }
                    push_line(&mut self.result_buffer, &lines[i]);
                    i += 1;
                }
                assert(views.take(lines.len() as int) == views);
                Ok(self.result_buffer.len())
            },
            Err(errors) => Err(errors),
        }
    }

    /// The bytes that stand for the instruction `token`: the byte of the
    /// opcode, then one byte for each operand.
    pub fn compile_token(&mut self, token: TokenizedLine) -> (bytes: Vec<u8>)
        ensures
            bytes@ == encode_line(token@),
            *final(self) == *old(self),
    {
        let mut bytes: Vec<u8> = Vec::new();
        push_line(&mut bytes, &token);
        assert(Seq::<u8>::empty() + encode_line(token@) == encode_line(token@));
        bytes
    }
}

} // verus!
