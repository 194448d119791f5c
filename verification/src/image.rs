//! The program image: instructions laid end to end, each as the byte of its
//! opcode followed by one byte for each operand, with nothing between them.
use crate::lexer::{TokenType, TokenizedLineView};
use crate::op::{lemma_decode_inverts_code, spec_decode_opcode, Opcode};
use crate::vm::{VMError, VMState};
use vstd::prelude::*;

verus! {

/// The bytes that stand for the operands of `line`, in order. Whether an
/// operand was written as a number or as a register is not kept.
pub open spec fn operand_bytes(line: TokenizedLineView) -> Seq<u8> {
    line.operands.map_values(|operand: TokenType| operand.spec_byte())
}

/// The bytes that stand for the instruction `line`.
pub open spec fn encode_line(line: TokenizedLineView) -> Seq<u8> {
    seq![line.opcode.spec_code()] + operand_bytes(line)
}

/// The program image of the instructions `lines`.
pub open spec fn encode_program(lines: Seq<TokenizedLineView>) -> Seq<u8>
    decreases lines.len(),
{
    if lines.len() == 0 {
        Seq::empty()
    } else {
        encode_line(lines[0]) + encode_program(lines.drop_first())
    }
}

/// Whether `line` has as many operands as its opcode takes.
pub open spec fn has_arity(line: TokenizedLineView) -> bool {
    line.operands.len() == line.opcode.spec_operands()
}

/// Whether every instruction of `lines` has as many operands as its opcode
/// takes.
pub open spec fn all_have_arity(lines: Seq<TokenizedLineView>) -> bool {
    forall|i: int| 0 <= i < lines.len() ==> has_arity(#[trigger] lines[i])
}

/// An instruction as it is read back from a program image.
pub struct Instruction {
    pub opcode: Opcode,
    pub operands: Seq<u8>,
}

/// What is left of `line` in a program image.
pub open spec fn instruction_of(line: TokenizedLineView) -> Instruction {
    Instruction { opcode: line.opcode, operands: operand_bytes(line) }
}

/// The instructions that `image` holds, read from its first byte on: the
/// byte of an opcode, then as many operand bytes as the opcode takes, and
/// so on to the end. `None` where a byte that should be an opcode is none,
/// or the image ends within an instruction.
pub open spec fn decode_image(image: Seq<u8>) -> Option<Seq<Instruction>>
    decreases image.len(),
{
    if image.len() == 0 {
        Some(Seq::empty())
    } else {
        match spec_decode_opcode(image[0]) {
            None => None,
            Some(opcode) => {
                let end = 1 + opcode.spec_operands();
                if end > image.len() {
                    None
                } else {
                    match decode_image(image.skip(end as int)) {
                        None => None,
                        Some(rest) => Some(
                            seq![
                                Instruction { opcode, operands: image.subrange(1, end as int) },
                            ] + rest,
                        ),
                    }
                }
            },
        }
    }
}

/// The image of a program is the image of all its instructions but the
/// last, followed by the bytes of the last.
pub proof fn lemma_encode_program_push(lines: Seq<TokenizedLineView>, line: TokenizedLineView)
    ensures
        encode_program(lines.push(line)) == encode_program(lines) + encode_line(line),
    decreases lines.len(),
{
    if lines.len() == 0 {
        assert(lines.push(line).drop_first() == Seq::<TokenizedLineView>::empty());
        assert(encode_program(Seq::<TokenizedLineView>::empty()) == Seq::<u8>::empty());
        assert(encode_program(lines) == Seq::<u8>::empty());
        assert(encode_program(lines.push(line)) == encode_line(line) + Seq::<u8>::empty());
    } else {
        assert(lines.push(line).drop_first() == lines.drop_first().push(line));
        lemma_encode_program_push(lines.drop_first(), line);
        assert(encode_line(lines[0]) + (encode_program(lines.drop_first()) + encode_line(line))
            == (encode_line(lines[0]) + encode_program(lines.drop_first())) + encode_line(line));
    }
}

/// Decoding undoes encoding: read back from its image, a program whose
/// instructions all have as many operands as their opcodes take is the
/// same sequence of opcodes and operand bytes.
pub proof fn lemma_decode_encode(lines: Seq<TokenizedLineView>)
    requires
        all_have_arity(lines),
    ensures
        decode_image(encode_program(lines)) == Some(
            lines.map_values(|line: TokenizedLineView| instruction_of(line)),
        ),
    decreases lines.len(),
{
    let decoded = lines.map_values(|line: TokenizedLineView| instruction_of(line));
    if lines.len() == 0 {
        assert(decoded == Seq::<Instruction>::empty());
    } else {
        let first = lines[0];
        let rest = lines.drop_first();
        let image = encode_program(lines);
        let end = 1 + first.opcode.spec_operands() as int;
        assert(has_arity(first));
        assert(all_have_arity(rest)) by {
            assert forall|i: int| 0 <= i < rest.len() implies has_arity(#[trigger] rest[i]) by {
                assert(rest[i] == lines[i + 1]);
            }
        }
        lemma_decode_encode(rest);
        lemma_decode_inverts_code(image[0], first.opcode);
        assert(image[0] == first.opcode.spec_code());
        assert(image.subrange(1, end) == operand_bytes(first));
        assert(image.skip(end) == encode_program(rest));
        assert(decoded == seq![instruction_of(first)] + rest.map_values(
            |line: TokenizedLineView| instruction_of(line),
        ));
    }
}

/// The offset in the image of `lines` at which the instruction `index`
/// starts.
pub open spec fn offset_of(lines: Seq<TokenizedLineView>, index: int) -> int {
    encode_program(lines.take(index)).len() as int
}

/// The image of a program is what lies before an instruction, the bytes of
/// the instruction, and what lies after it.
pub proof fn lemma_encode_program_split(lines: Seq<TokenizedLineView>, index: int)
    requires
        0 <= index < lines.len(),
    ensures
        encode_program(lines) == encode_program(lines.take(index)) + encode_line(lines[index])
            + encode_program(lines.skip(index + 1)),
        offset_of(lines, index + 1) == offset_of(lines, index) + encode_line(lines[index]).len(),
    decreases lines.len() - index,
{
    assert(lines.take(index + 1) == lines.take(index).push(lines[index]));
    lemma_encode_program_push(lines.take(index), lines[index]);
    if index + 1 == lines.len() {
        assert(lines.take(index + 1) == lines);
        assert(lines.skip(index + 1) == Seq::<TokenizedLineView>::empty());
        assert(encode_program(lines) == encode_program(lines) + Seq::<u8>::empty());
    } else {
        lemma_encode_program_split(lines, index + 1);
        assert(lines.skip(index + 1).drop_first() == lines.skip(index + 2));
        assert(lines.skip(index + 1)[0] == lines[index + 1]);
        let a = encode_program(lines.take(index));
        let b = encode_line(lines[index]);
        let c = encode_line(lines[index + 1]);
        let d = encode_program(lines.skip(index + 2));
        assert((a + b) + c + d == a + b + (c + d));
    }
}

/// Running undoes encoding: a machine whose image is that of a program and
/// whose program counter stands at the start of one of its instructions
/// does, in one cycle, what the opcode of that instruction does when it is
/// applied to the operand bytes of that instruction, and leaves the program
/// counter at the start of the next instruction. This holds where the
/// instruction has as many operands as its opcode takes.
pub proof fn lemma_cycle_runs_encoded_line(
    state: VMState,
    lines: Seq<TokenizedLineView>,
    index: int,
)
    requires
        state.well_formed(),
        state.bin == encode_program(lines),
        0 <= index < lines.len(),
        has_arity(lines[index]),
        state.pc == offset_of(lines, index),
    ensures
        state.cycle() == state.with_pc(offset_of(lines, index + 1)).apply(
            lines[index].opcode,
            operand_bytes(lines[index]),
        ),
{
    let line = lines[index];
    let before = encode_program(lines.take(index));
    let count = line.opcode.spec_operands() as int;
    lemma_encode_program_split(lines, index);
    lemma_decode_inverts_code(state.bin[state.pc], line.opcode);
    assert(state.bin[state.pc] == encode_line(line)[0]);
    assert(state.bin.subrange(state.pc + 1, state.pc + 1 + count) == operand_bytes(line));
}

/// Whether `opcode` leaves the program counter at the start of the next
/// instruction: so do all opcodes but `JMP`, which moves it anywhere, and
/// `NOP`, which skips a byte.
pub open spec fn is_sequential(opcode: Opcode) -> bool {
    opcode != Opcode::JMP && opcode != Opcode::NOP
}

/// The state and the result in which a machine is left once the opcodes of
/// the instructions of `lines`, from the instruction `from` on, have been
/// applied to their operand bytes one after the other, up to the first
/// that faults.
pub open spec fn apply_lines(state: VMState, lines: Seq<TokenizedLineView>, from: int) -> (
    VMState,
    Result<i32, VMError>,
)
    decreases lines.len() - from,
{
    if from < 0 || from >= lines.len() {
        (state, Ok(0i32))
    } else {
        let done = state.with_pc(offset_of(lines, from + 1)).apply(
            lines[from].opcode,
            operand_bytes(lines[from]),
        );
        if done.1 is Err {
            done
        } else {
            apply_lines(done.0, lines, from + 1)
        }
    }
}

/// A sequential opcode that does not fault changes neither the image nor
/// the program counter, and leaves the state well formed.
proof fn lemma_apply_sequential(state: VMState, opcode: Opcode, args: Seq<u8>)
    requires
        state.well_formed(),
        is_sequential(opcode),
    ensures
        state.apply(opcode, args).0.well_formed(),
        state.apply(opcode, args).0.bin == state.bin,
        state.apply(opcode, args).0.pc == state.pc,
{
}

/// Running the image of a program is applying its opcodes to its operands:
/// a machine whose image is that of a program without `JMP` and `NOP`, and
/// whose program counter stands at the start of one of its instructions,
/// stops within as many cycles as there are instructions left, and where it
/// stops it is in the state, and has the result, that applying each opcode
/// to the operand bytes of its instruction gives. This holds where every
/// instruction has as many operands as its opcode takes.
pub proof fn lemma_run_applies_lines(state: VMState, lines: Seq<TokenizedLineView>, from: int)
    requires
        state.well_formed(),
        state.bin == encode_program(lines),
        all_have_arity(lines),
        forall|i: int| 0 <= i < lines.len() ==> is_sequential(#[trigger] lines[i].opcode),
        0 <= from <= lines.len(),
        state.pc == offset_of(lines, from),
    ensures
        state.stops_within((lines.len() - from) as nat),
        state.run((lines.len() - from) as nat) == apply_lines(state, lines, from),
    decreases lines.len() - from,
{
    if from == lines.len() {
        assert(lines.take(from) == lines);
    } else {
        let line = lines[from];
        assert(has_arity(line));
        assert(is_sequential(line.opcode));
        lemma_encode_program_split(lines, from);
        lemma_cycle_runs_encoded_line(state, lines, from);
        let moved = state.with_pc(offset_of(lines, from + 1));
        lemma_apply_sequential(moved, line.opcode, operand_bytes(line));
        let done = state.cycle();
        assert(!state.halted());
        if done.1 is Ok {
            lemma_run_applies_lines(done.0, lines, from + 1);
        }
    }
}

} // verus!
