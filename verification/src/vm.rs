//! The virtual machine: a program image, a program counter, thirty-two
//! signed registers and two side registers, driven by a fetch-decode-execute
//! cycle.
//!
//! Arithmetic wraps around in two's complement. Division by zero, a register
//! index of 32 or more, and an instruction that runs past the end of the
//! image are faults: the instruction changes no register and no flag, and
//! the cycle reports the fault as an error.
use crate::op::{spec_decode_opcode, Opcode};
use vstd::prelude::*;

verus! {

/// The number of general-purpose registers.
pub const REGISTER_COUNT: u8 = 32;

/// Why a cycle did not complete.
#[derive(Debug, Copy, Clone, PartialEq, Eq, Structural)]
pub enum VMError {
    /// The byte at the program counter is the code of no opcode.
    InvalidOpcodeError,
    /// Kept for callers that know it; the machine never reports it.
    UnexpectedTokenError,
    /// A byte was asked for at or past the end of the program image, or the
    /// program counter was to leave the range of `usize`.
    ProgramOutOfBoundsError,
    /// An operand names a register that does not exist.
    RegisterOutOfBoundsError,
    /// `MOD` was asked to divide by zero.
    DivisionByZeroError,
}

/// The result of a cycle: a result code, which is 0, or the error.
pub type VMResult = Result<i32, VMError>;

/// `x` reduced to the range of `i32` in two's complement.
pub open spec fn wrap_i32(x: int) -> i32 {
    let m = x % 0x1_0000_0000;
    if m >= 0x8000_0000 {
        (m - 0x1_0000_0000) as i32
    } else {
        m as i32
    }
}

/// The quotient of `a` by `b`, rounded toward zero.
pub open spec fn trunc_div(a: int, b: int) -> int
    recommends
        b != 0,
{
    if a >= 0 && b > 0 {
        a / b
    } else if a >= 0 {
        -(a / (-b))
    } else if b > 0 {
        -((-a) / b)
    } else {
        (-a) / (-b)
    }
}

/// What is left of `a` once `b` is taken away `trunc_div(a, b)` times.
pub open spec fn trunc_rem(a: int, b: int) -> int
    recommends
        b != 0,
{
    a - b * trunc_div(a, b)
}

/// The program counter that a jump to the register value `target` gives:
/// `target` itself, or, below zero, `target` counted back from one past
/// `usize::MAX`.
pub open spec fn jump_target(target: i32) -> int {
    if target >= 0 {
        target as int
    } else {
        usize::MAX + 1 + target
    }
}

/// What `ADD`, `SUB` and `MUL` store for the register values `x` and `y`.
pub open spec fn arithmetic_result(op: Opcode, x: i32, y: i32) -> i32 {
    match op {
        Opcode::ADD => wrap_i32(x + y),
        Opcode::SUB => wrap_i32(x - y),
        _ => wrap_i32(x * y),
    }
}

/// What a comparison opcode stores in the equality flag for the register
/// values `x` and `y`.
pub open spec fn comparison_result(op: Opcode, x: i32, y: i32) -> bool {
    match op {
        Opcode::EQ => x == y,
        Opcode::NEQ => x != y,
        Opcode::GT => x > y,
        Opcode::GTE => x >= y,
        Opcode::LT => x < y,
        _ => x <= y,
    }
}

/// The state of a machine.
pub struct VMState {
    /// The program image.
    pub bin: Seq<u8>,
    /// The offset in `bin` of the next byte to fetch.
    pub pc: int,
    /// The values of the registers, in the order of their indices.
    pub registers: Seq<i32>,
    /// The remainder left by the latest `MOD`.
    pub modulo_remainder: i32,
    /// The outcome of the latest comparison.
    pub eq_flag: bool,
}

impl VMState {
    /// The state in which a machine starts on the image `bin`.
    pub open spec fn initial(bin: Seq<u8>) -> VMState {
        VMState {
            bin,
            pc: 0,
            registers: Seq::new(REGISTER_COUNT as nat, |i: int| 0i32),
            modulo_remainder: 0,
            eq_flag: false,
        }
    }

    /// What holds of the state of every machine.
    pub open spec fn well_formed(self) -> bool {
        &&& 0 <= self.pc <= usize::MAX
        &&& self.bin.len() <= usize::MAX
        &&& self.registers.len() == REGISTER_COUNT
    }

    /// Whether the program counter has reached or passed the end of the
    /// image, so that there is nothing left to run.
    pub open spec fn halted(self) -> bool {
        self.pc >= self.bin.len()
    }

    /// This state with the program counter at `pc`.
    pub open spec fn with_pc(self, pc: int) -> VMState {
        VMState { pc, ..self }
    }

    /// This state with `value` in the register `index`.
    pub open spec fn with_register(self, index: int, value: i32) -> VMState {
        VMState { registers: self.registers.update(index, value), ..self }
    }

    /// This state with `value` as the remainder of the latest `MOD`.
    pub open spec fn with_modulo_remainder(self, value: i32) -> VMState {
        VMState { modulo_remainder: value, ..self }
    }

    /// This state with `value` as the outcome of the latest comparison.
    pub open spec fn with_eq_flag(self, value: bool) -> VMState {
        VMState { eq_flag: value, ..self }
    }

    /// The state and the result in which `opcode`, applied to the operand
    /// bytes `args`, leaves a machine whose program counter has already
    /// passed the instruction.
    pub open spec fn apply(self, opcode: Opcode, args: Seq<u8>) -> (VMState, VMResult)
        recommends
            args.len() == opcode.spec_operands(),
    {
        let regs = self.registers;
        match opcode {
            Opcode::ADD | Opcode::SUB | Opcode::MUL => {
                if args[0] < REGISTER_COUNT && args[1] < REGISTER_COUNT && args[2]
                    < REGISTER_COUNT {
                    let value = arithmetic_result(
                        opcode,
                        regs[args[0] as int],
                        regs[args[1] as int],
                    );
                    (self.with_register(args[2] as int, value), Ok(0i32))
                } else {
                    (self, Err(VMError::RegisterOutOfBoundsError))
                }
            },
            Opcode::MOD => {
                if !(args[0] < REGISTER_COUNT && args[1] < REGISTER_COUNT && args[2]
                    < REGISTER_COUNT) {
                    (self, Err(VMError::RegisterOutOfBoundsError))
                } else if regs[args[1] as int] == 0 {
                    (self, Err(VMError::DivisionByZeroError))
                } else {
                    let x = regs[args[0] as int];
                    let y = regs[args[1] as int];
                    (
                        self.with_register(
                            args[2] as int,
                            wrap_i32(trunc_div(x as int, y as int)),
                        ).with_modulo_remainder(trunc_rem(x as int, y as int) as i32),
                        Ok(0i32),
                    )
                }
            },
            Opcode::INC | Opcode::DEC => {
                if args[0] < REGISTER_COUNT {
                    let x = regs[args[0] as int];
                    let value = if opcode == Opcode::INC {
                        wrap_i32(x + 1)
                    } else {
                        wrap_i32(x - 1)
                    };
                    (self.with_register(args[0] as int, value), Ok(0i32))
                } else {
                    (self, Err(VMError::RegisterOutOfBoundsError))
                }
            },
            Opcode::EQ | Opcode::NEQ | Opcode::GT | Opcode::GTE | Opcode::LT | Opcode::LTE => {
                if args[0] < REGISTER_COUNT && args[1] < REGISTER_COUNT {
                    let value = comparison_result(
                        opcode,
                        regs[args[0] as int],
                        regs[args[1] as int],
                    );
                    (self.with_eq_flag(value), Ok(0i32))
                } else {
                    (self, Err(VMError::RegisterOutOfBoundsError))
                }
            },
            Opcode::HLT => (self, Ok(0i32)),
            Opcode::NOP => {
                if self.pc + 1 <= usize::MAX {
                    (self.with_pc(self.pc + 1), Ok(0i32))
                } else {
                    (self, Err(VMError::ProgramOutOfBoundsError))
                }
            },
            Opcode::LOAD => {
                if args[0] < REGISTER_COUNT {
                    let value = (args[1] * 256 + args[2]) as i32;
                    (self.with_register(args[0] as int, value), Ok(0i32))
                } else {
                    (self, Err(VMError::RegisterOutOfBoundsError))
                }
            },
            Opcode::JMP => {
                if args[0] < REGISTER_COUNT {
                    (self.with_pc(jump_target(regs[args[0] as int])), Ok(0i32))
                } else {
                    (self, Err(VMError::RegisterOutOfBoundsError))
                }
            },
            Opcode::MODR => {
                if args[0] < REGISTER_COUNT {
                    (self.with_register(args[0] as int, self.modulo_remainder), Ok(0i32))
                } else {
                    (self, Err(VMError::RegisterOutOfBoundsError))
                }
            },
        }
    }

    /// The state and the result in which executing `opcode` leaves a
    /// machine whose program counter stands at the first operand byte.
    ///
    /// Where the image ends before the last operand byte, the program
    /// counter stops at the end of the image and nothing else changes.
    pub open spec fn execute(self, opcode: Opcode) -> (VMState, VMResult) {
        let count = opcode.spec_operands() as int;
        if count == 0 || self.pc + count <= self.bin.len() {
            self.with_pc(self.pc + count).apply(
                opcode,
                self.bin.subrange(self.pc, self.pc + count),
            )
        } else if self.pc < self.bin.len() {
            (self.with_pc(self.bin.len() as int), Err(VMError::ProgramOutOfBoundsError))
        } else {
            (self, Err(VMError::ProgramOutOfBoundsError))
        }
    }

    /// The state and the result in which one fetch-decode-execute cycle
    /// leaves the machine.
    pub open spec fn cycle(self) -> (VMState, VMResult) {
        if 0 <= self.pc < self.bin.len() {
            match spec_decode_opcode(self.bin[self.pc]) {
                Some(opcode) => self.with_pc(self.pc + 1).execute(opcode),
                None => (self.with_pc(self.pc + 1), Err(VMError::InvalidOpcodeError)),
            }
        } else {
            (self, Err(VMError::ProgramOutOfBoundsError))
        }
    }

    /// Whether the machine halts or faults within `cycles` cycles.
    pub open spec fn stops_within(self, cycles: nat) -> bool
        decreases cycles,
    {
        self.halted() || (cycles > 0 && (self.cycle().1 is Err || self.cycle().0.stops_within(
            (cycles - 1) as nat,
        )))
    }

    /// Whether the machine ever halts or faults.
    pub open spec fn terminates(self) -> bool {
        exists|cycles: nat| self.stops_within(cycles)
    }

    /// The state and the result of running the machine for up to `cycles`
    /// cycles: it stops before that once it has halted, with the result
    /// `Ok(0)`, or once a cycle faults, with the error of that cycle.
    pub open spec fn run(self, cycles: nat) -> (VMState, VMResult)
        decreases cycles,
    {
        if self.halted() || cycles == 0 {
            (self, Ok(0i32))
        } else if self.cycle().1 is Err {
            self.cycle()
        } else {
            self.cycle().0.run((cycles - 1) as nat)
        }
    }

    /// How a run ends does not depend on the number of cycles that it is
    /// given, as long as the machine stops within them.
    pub proof fn lemma_run_is_determined(state: VMState, first: nat, second: nat)
        requires
            state.stops_within(first),
            state.stops_within(second),
        ensures
            state.run(first) == state.run(second),
        decreases first,
    {
        if !state.halted() && state.cycle().1 is Ok {
            VMState::lemma_run_is_determined(
                state.cycle().0,
                (first - 1) as nat,
                (second - 1) as nat,
            );
        }
    }

    /// A machine that has halted runs no cycle: a run leaves it as it is,
    /// with the result `Ok(0)`.
    pub proof fn lemma_run_of_halted(state: VMState, cycles: nat)
        requires
            state.halted(),
        ensures
            state.stops_within(cycles),
            state.run(cycles) == (state, Ok::<i32, VMError>(0i32)),
    {
    }

    /// Every cycle leaves a well-formed state well formed, and never
    /// changes the image.
    pub proof fn lemma_cycle_keeps_well_formed(state: VMState)
        requires
            state.well_formed(),
        ensures
            state.cycle().0.well_formed(),
            state.cycle().0.bin == state.bin,
    {
    }

    /// An instruction whose operand bytes run past the end of the image is
    /// not executed: the cycle reports that it left the image and changes
    /// neither a register nor a flag.
    pub proof fn lemma_truncated_instruction_faults(state: VMState, opcode: Opcode)
        requires
            state.well_formed(),
            state.pc < state.bin.len(),
            spec_decode_opcode(state.bin[state.pc]) == Some(opcode),
            state.pc + 1 + opcode.spec_operands() > state.bin.len(),
        ensures
            state.cycle().1 == Err::<i32, VMError>(VMError::ProgramOutOfBoundsError),
            state.cycle().0 == state.with_pc(state.bin.len() as int),
    {
    }
}

/// A machine.
pub struct VM {
    bin: Vec<u8>,
    pc: usize,
    registers: [i32; 32],
    modulo_remainder: i32,
    eq_flag: bool,
}

impl View for VM {
    type V = VMState;

    closed spec fn view(&self) -> VMState {
        VMState {
            bin: self.bin@,
            pc: self.pc as int,
            registers: self.registers@,
            modulo_remainder: self.modulo_remainder,
            eq_flag: self.eq_flag,
        }
    }
}

/// The opcode that the byte `val` stands for, or the error of a byte that
/// stands for none.
pub fn decode_opcode(val: u8) -> (decoded: Result<Opcode, VMError>)
    ensures
        match decoded {
            Ok(opcode) => spec_decode_opcode(val) == Some(opcode),
            Err(error) => spec_decode_opcode(val) is None && error
                == VMError::InvalidOpcodeError,
        },
{
    match crate::op::decode_opcode(val) {
        Some(opcode) => Ok(opcode),
        None => Err(VMError::InvalidOpcodeError),
    }
}

/// Division rounded toward zero, and its remainder, in terms of the
/// division and the remainder of integers with a remainder that is never
/// negative.
proof fn lemma_trunc_div_rem(a: int, b: int)
    requires
        b != 0,
    ensures
        trunc_div(a, b) == (if a >= 0 {
            a / b
        } else {
            -((-a) / b)
        }),
        trunc_rem(a, b) == (if a >= 0 {
            a % b
        } else {
            -((-a) % b)
        }),
        a >= 0 ==> -a <= trunc_div(a, b) <= a,
        a < 0 ==> a <= trunc_div(a, b) <= -a,
        a < 0 && b < -1 ==> trunc_div(a, b) < -a,
        a < 0 && b > 0 ==> trunc_div(a, b) <= 0,
{
    let x = if a >= 0 { a } else { -a };
    let y = if b > 0 { b } else { -b };
    assert(x / b == (if b > 0 { x / y } else { -(x / y) }) && x % b == x % y && x == y * (x / y)
        + x % y && 0 <= x / y <= x && (x > 0 && y > 1 ==> x / y < x)) by (nonlinear_arith)
        requires
            x >= 0,
            y > 0,
            y == b || y == -b,
            b != 0,
            b > 0 ==> y == b,
            b < 0 ==> y == -b,
    ;
    assert(b * (x / b) == y * (x / y)) by (nonlinear_arith)
        requires
            x / b == (if b > 0 { x / y } else { -(x / y) }),
            b > 0 ==> y == b,
            b < 0 ==> y == -b,
            b != 0,
    ;
    assert(b * -(x / b) == -(b * (x / b))) by (nonlinear_arith);
}

/// Wrapping leaves the numbers of `i32` as they are.
pub proof fn lemma_wrap_i32_in_range(x: int)
    requires
        i32::MIN <= x <= i32::MAX,
    ensures
        wrap_i32(x) == x,
{
    if x >= 0 {
        assert(x % 0x1_0000_0000 == x);
    } else {
        assert(x % 0x1_0000_0000 == x + 0x1_0000_0000);
    }
}

/// The quotient, wrapped into `i32`, and the remainder of `x` by `y`,
/// the quotient being rounded toward zero.
fn divide(x: i32, y: i32) -> (parts: (i32, i32))
    requires
        y != 0,
    ensures
        parts.0 == wrap_i32(trunc_div(x as int, y as int)),
        parts.1 == trunc_rem(x as int, y as int),
{
    let ghost quotient = trunc_div(x as int, y as int);
    proof {
        lemma_trunc_div_rem(x as int, y as int);
    }
    if x == i32::MIN && y == -1 {
        proof {
            assert(0x8000_0000int / 1 == 0x8000_0000int) by (nonlinear_arith);
            assert(-(x as int) == 0x8000_0000int && -(y as int) == 1int);
            assert(quotient == 0x8000_0000int / 1);
            assert(0x8000_0000int % 0x1_0000_0000 == 0x8000_0000);
        }
        (i32::MIN, 0)
    } else {
        proof {
            assert(i32::MIN <= quotient <= i32::MAX);
            lemma_wrap_i32_in_range(quotient);
        }
        (x / y, x % y)
    }
}

/// Wrapping as the integer operations of the standard library do it.
proof fn lemma_wrap_i32(x: int)
    ensures
        vstd::wrapping::i32_specs::signed_crop(x) == wrap_i32(x),
        i32::MIN <= x - 0x1_0000_0000 <= i32::MAX ==> wrap_i32(x) == x - 0x1_0000_0000,
        i32::MIN <= x + 0x1_0000_0000 <= i32::MAX ==> wrap_i32(x) == x + 0x1_0000_0000,
{
    if i32::MIN <= x - 0x1_0000_0000 <= i32::MAX {
        assert(x % 0x1_0000_0000 == if x >= 0x1_0000_0000 {
            x - 0x1_0000_0000
        } else {
            x
        });
    }
    if i32::MIN <= x + 0x1_0000_0000 <= i32::MAX {
        assert(x % 0x1_0000_0000 == if x < -0x1_0000_0000 {
            x + 0x2_0000_0000
        } else if x < 0 {
            x + 0x1_0000_0000
        } else {
            x
        });
    }
}

/// What `ADD`, `SUB` and `MUL` store for the register values `x` and `y`.
fn arithmetic(opcode: Opcode, x: i32, y: i32) -> (value: i32)
    requires
        opcode == Opcode::ADD || opcode == Opcode::SUB || opcode == Opcode::MUL,
    ensures
        value == arithmetic_result(opcode, x, y),
{
    match opcode {
        Opcode::ADD => {
            proof {
                lemma_wrap_i32(x + y);
                if i32::MIN <= x + y <= i32::MAX {
                    lemma_wrap_i32_in_range(x + y);
                }
            }
            x.wrapping_add(y)
        },
        Opcode::SUB => {
            proof {
                lemma_wrap_i32(x - y);
                if i32::MIN <= x - y <= i32::MAX {
                    lemma_wrap_i32_in_range(x - y);
                }
            }
            x.wrapping_sub(y)
        },
        _ => {
            proof {
                lemma_wrap_i32(x * y);
            }
            x.wrapping_mul(y)
        },
    }
}

/// What `INC` and `DEC` store for the register value `x`.
fn stepped(opcode: Opcode, x: i32) -> (value: i32)
    requires
        opcode == Opcode::INC || opcode == Opcode::DEC,
    ensures
        value == (if opcode == Opcode::INC {
            wrap_i32(x + 1)
        } else {
            wrap_i32(x - 1)
        }),
{
    match opcode {
        Opcode::INC => arithmetic(Opcode::ADD, x, 1),
        _ => arithmetic(Opcode::SUB, x, 1),
    }
}

/// What a comparison opcode stores in the equality flag for the register
/// values `x` and `y`.
fn comparison(opcode: Opcode, x: i32, y: i32) -> (value: bool)
    ensures
        value == comparison_result(opcode, x, y),
{
    match opcode {
        Opcode::EQ => x == y,
        Opcode::NEQ => x != y,
        Opcode::GT => x > y,
        Opcode::GTE => x >= y,
        Opcode::LT => x < y,
        _ => x <= y,
    }
}

/// The number that the bytes `high` and `low` write, `high` being the more
/// significant.
fn two_bytes(high: u8, low: u8) -> (value: i32)
    ensures
        value == high * 256 + low,
{
    let value: u16 = ((high as u16) << 8) | (low as u16);
    assert(((high as u16) << 8) | (low as u16) == high * 256 + low) by (bit_vector);
    value as i32
}

/// The program counter that a jump to the register value `target` gives.
fn jump_to(target: i32) -> (pc: usize)
    ensures
        pc == jump_target(target),
{
    if target >= 0 {
        target as usize
    } else {
        let back: i32 = -(target + 1);
        usize::MAX - (back as usize)
    }
}

impl VM {
    /// A machine that is about to run `binary` from its first byte, with
    /// every register at zero.
    pub fn new(binary: Vec<u8>) -> (vm: VM)
        ensures
            vm@ == VMState::initial(binary@),
    {
        let vm = VM { bin: binary, pc: 0, registers: [0;32], modulo_remainder: 0, eq_flag: false };
        assert(vm@.registers =~= VMState::initial(binary@).registers);
        vm
    }

    /// The state of every machine is well formed.
    pub proof fn lemma_well_formed(&self)
        ensures
            self@.well_formed(),
    {
        assert(self.bin@.len() == self.bin.len());
    }

    /// The offset of the next byte to fetch.
    pub fn pc(&self) -> (pc: usize)
        ensures
            pc == self@.pc,
    {
        self.pc
    }

    /// Whether there is nothing left to run.
    pub fn halted(&self) -> (halted: bool)
        ensures
            halted == self@.halted(),
    {
        self.pc >= self.bin.len()
    }

    /// The outcome of the latest comparison.
    pub fn eq_flag(&self) -> (flag: bool)
        ensures
            flag == self@.eq_flag,
    {
        self.eq_flag
    }

    /// The remainder left by the latest `MOD`.
    pub fn modulo_remainder(&self) -> (remainder: i32)
        ensures
            remainder == self@.modulo_remainder,
    {
        self.modulo_remainder
    }

    /// The register `index`.
    pub fn get_register(&self, index: u8) -> (register: &i32)
        requires
            index < REGISTER_COUNT,
        ensures
            *register == self@.registers[index as int],
    {
        &self.registers[index as usize]
    }

    /// The register `index`, to be written through.
    pub fn get_register_mut(&mut self, index: u8) -> (register: &mut i32)
        requires
            index < REGISTER_COUNT,
        ensures
            *register == old(self)@.registers[index as int],
            final(self)@ == old(self)@.with_register(index as int, *final(register)),
    {
        &mut self.registers[index as usize]
    }

    /// Stores `val` in the register `index`.
    pub fn set_register_value(&mut self, index: u8, val: i32)
        requires
            index < REGISTER_COUNT,
        ensures
            final(self)@ == old(self)@.with_register(index as int, val),
    {
        let register = self.get_register_mut(index);
        *register = val;
    }

    /// Fetches the byte at the program counter and moves the counter past
    /// it. At or past the end of the image there is no byte to fetch: the
    /// machine stays as it is and the fetch is an error.
    pub fn next_8_bits(&mut self) -> (fetched: Result<u8, VMError>)
        ensures
            match fetched {
                Ok(byte) => !old(self)@.halted() && byte == old(self)@.bin[old(self)@.pc]
                    && final(self)@ == old(self)@.with_pc(old(self)@.pc + 1),
                Err(error) => old(self)@.halted() && error == VMError::ProgramOutOfBoundsError
                    && final(self)@ == old(self)@,
            },
    {
        if self.pc < self.bin.len() {
            let byte = self.bin[self.pc];
            self.pc = self.pc + 1;
            Ok(byte)
        } else {
            Err(VMError::ProgramOutOfBoundsError)
        }
    }

    /// Fetches the `count` operand bytes of an instruction, one after the
    /// other. Where fewer are left, the program counter stops at the end of
    /// the image. Of the three bytes returned, the first `count` are those
    /// fetched.
    fn next_operands(&mut self, count: usize) -> (fetched: Result<(u8, u8, u8), VMError>)
        requires
            1 <= count <= 3,
        ensures
            match fetched {
                Ok(bytes) => {
                    &&& old(self)@.pc + count <= old(self)@.bin.len()
                    &&& final(self)@ == old(self)@.with_pc(old(self)@.pc + count)
                    &&& bytes.0 == old(self)@.bin[old(self)@.pc]
                    &&& count >= 2 ==> bytes.1 == old(self)@.bin[old(self)@.pc + 1]
                    &&& count >= 3 ==> bytes.2 == old(self)@.bin[old(self)@.pc + 2]
                },
                Err(error) => {
                    &&& old(self)@.pc + count > old(self)@.bin.len()
                    &&& error == VMError::ProgramOutOfBoundsError
                    &&& final(self)@ == old(self)@.with_pc(
                        if old(self)@.halted() {
                            old(self)@.pc
                        } else {
                            old(self)@.bin.len() as int
                        },
                    )
                },
            },
    {
        let first = self.next_8_bits()?;
        let second = if count >= 2 {
            self.next_8_bits()?
        } else {
            0
        };
        let third = if count >= 3 {
            self.next_8_bits()?
        } else {
            0
        };
        Ok((first, second, third))
    }

    /// `ADD`, `SUB` and `MUL`: two source registers and a target.
    fn apply_arithmetic(&mut self, opcode: Opcode, first: u8, second: u8, target: u8) -> (result:
        VMResult)
        requires
            opcode == Opcode::ADD || opcode == Opcode::SUB || opcode == Opcode::MUL,
        ensures
            (final(self)@, result) == old(self)@.apply(opcode, seq![first, second, target]),
    {
        if first >= REGISTER_COUNT || second >= REGISTER_COUNT || target >= REGISTER_COUNT {
            return Err(VMError::RegisterOutOfBoundsError);
        }
        let value = arithmetic(opcode, *self.get_register(first), *self.get_register(second));
        self.set_register_value(target, value);
        Ok(0)
    }

    /// `MOD`: a dividend, a divisor and a target for the quotient; the
    /// remainder goes to the side register.
    fn apply_mod(&mut self, first: u8, second: u8, target: u8) -> (result: VMResult)
        ensures
            (final(self)@, result) == old(self)@.apply(Opcode::MOD, seq![first, second, target]),
    {
        if first >= REGISTER_COUNT || second >= REGISTER_COUNT || target >= REGISTER_COUNT {
            return Err(VMError::RegisterOutOfBoundsError);
        }
        let x = *self.get_register(first);
        let y = *self.get_register(second);
        if y == 0 {
            return Err(VMError::DivisionByZeroError);
        }
        let (quotient, remainder) = divide(x, y);
        self.set_register_value(target, quotient);
        self.modulo_remainder = remainder;
        Ok(0)
    }

    /// `INC` and `DEC`: one register, changed in place.
    fn apply_step(&mut self, opcode: Opcode, target: u8) -> (result: VMResult)
        requires
            opcode == Opcode::INC || opcode == Opcode::DEC,
        ensures
            (final(self)@, result) == old(self)@.apply(opcode, seq![target]),
    {
        if target >= REGISTER_COUNT {
            return Err(VMError::RegisterOutOfBoundsError);
        }
        let value = stepped(opcode, *self.get_register(target));
        self.set_register_value(target, value);
        Ok(0)
    }

    /// The comparisons: two registers, and the equality flag as target.
    fn apply_comparison(&mut self, opcode: Opcode, first: u8, second: u8) -> (result: VMResult)
        requires
            opcode == Opcode::EQ || opcode == Opcode::NEQ || opcode == Opcode::GT || opcode
                == Opcode::GTE || opcode == Opcode::LT || opcode == Opcode::LTE,
        ensures
            (final(self)@, result) == old(self)@.apply(opcode, seq![first, second]),
    {
        if first >= REGISTER_COUNT || second >= REGISTER_COUNT {
            return Err(VMError::RegisterOutOfBoundsError);
        }
        self.eq_flag = comparison(opcode, *self.get_register(first), *self.get_register(second));
        Ok(0)
    }

    /// `LOAD`: a target register and a number of two bytes, the first byte
    /// being the more significant.
    fn apply_load(&mut self, target: u8, high: u8, low: u8) -> (result: VMResult)
        ensures
            (final(self)@, result) == old(self)@.apply(Opcode::LOAD, seq![target, high, low]),
    {
        if target >= REGISTER_COUNT {
            return Err(VMError::RegisterOutOfBoundsError);
        }
        self.set_register_value(target, two_bytes(high, low));
        Ok(0)
    }

    /// `JMP`: the program counter moves to the value of a register.
    fn apply_jmp(&mut self, register: u8) -> (result: VMResult)
        ensures
            (final(self)@, result) == old(self)@.apply(Opcode::JMP, seq![register]),
    {
        if register >= REGISTER_COUNT {
            return Err(VMError::RegisterOutOfBoundsError);
        }
        self.pc = jump_to(*self.get_register(register));
        Ok(0)
    }

    /// `MODR`: a register takes the remainder of the latest `MOD`.
    fn apply_modr(&mut self, register: u8) -> (result: VMResult)
        ensures
            (final(self)@, result) == old(self)@.apply(Opcode::MODR, seq![register]),
    {
        if register >= REGISTER_COUNT {
            return Err(VMError::RegisterOutOfBoundsError);
        }
        let remainder = self.modulo_remainder;
        self.set_register_value(register, remainder);
        Ok(0)
    }

    /// `NOP`: the program counter skips one byte.
    fn apply_nop(&mut self) -> (result: VMResult)
        ensures
            forall|args: Seq<u8>|
                (final(self)@, result) == #[trigger] old(self)@.apply(Opcode::NOP, args),
    {
        match self.pc.checked_add(1) {
            Some(next) => {
                self.pc = next;
                Ok(0)
            },
            None => Err(VMError::ProgramOutOfBoundsError),
        }
    }

    /// Executes `opcode`, whose operand bytes start at the program counter:
    /// fetches as many operand bytes as the instruction table gives the
    /// opcode, then applies the opcode to them.
    pub fn execute_instruction(&mut self, opcode: Opcode) -> (result: VMResult)
        ensures
            (final(self)@, result) == old(self)@.execute(opcode),
    {
        let count = opcode.operands();
        let (first, second, third) = if count > 0 {
            self.next_operands(count)?
        } else {
            (0, 0, 0)
        };
        let ghost args = old(self)@.bin.subrange(old(self)@.pc, old(self)@.pc + count);
        match opcode {
            Opcode::ADD | Opcode::SUB | Opcode::MUL => {
                assert(args =~= seq![first, second, third]);
                self.apply_arithmetic(opcode, first, second, third)
            },
            Opcode::MOD => {
                assert(args =~= seq![first, second, third]);
                self.apply_mod(first, second, third)
            },
            Opcode::INC | Opcode::DEC => {
                assert(args =~= seq![first]);
                self.apply_step(opcode, first)
            },
            Opcode::EQ | Opcode::NEQ | Opcode::GT | Opcode::GTE | Opcode::LT | Opcode::LTE => {
                assert(args =~= seq![first, second]);
                self.apply_comparison(opcode, first, second)
            },
            Opcode::HLT => Ok(0),
            Opcode::NOP => self.apply_nop(),
            Opcode::LOAD => {
                assert(args =~= seq![first, second, third]);
                self.apply_load(first, second, third)
            },
            Opcode::JMP => {
                assert(args =~= seq![first]);
                self.apply_jmp(first)
            },
            Opcode::MODR => {
                assert(args =~= seq![first]);
                self.apply_modr(first)
            },
        }
    }

    /// One cycle: fetches the byte at the program counter, decodes it and
    /// executes the instruction that it opens.
    pub fn cycle(&mut self) -> (result: VMResult)
        ensures
            (final(self)@, result) == old(self)@.cycle(),
    {
        let byte = self.next_8_bits()?;
        match decode_opcode(byte) {
            Ok(opcode) => self.execute_instruction(opcode),
            Err(error) => Err(error),
        }
    }

    /// Runs the machine until it halts or faults: cycle after cycle, for as
    /// long as the program counter lies within the image. Returns the error
    /// of the cycle that faulted, or `Ok(0)` once the machine has halted;
    /// a machine that has halted already is left as it is.
    ///
    /// A machine that neither halts nor faults is never left again, so the
    /// contract speaks of the machines that do.
    pub fn run(&mut self) -> (result: VMResult)
        requires
            old(self)@.terminates(),
        ensures
            forall|cycles: nat| #[trigger]
                old(self)@.stops_within(cycles) ==> (final(self)@, result) == old(self)@.run(
                    cycles,
                ),
            result is Ok ==> final(self)@.halted(),
    {
        let ghost start = self@;
        let ghost total: nat = choose|cycles: nat| start.stops_within(cycles);
        let ghost mut left: nat = total;
        while self.pc < self.bin.len()
            invariant
                start == old(self)@,
                self@.stops_within(left),
                left <= total,
                start.stops_within(total),
                start.run(total) == self@.run(left),
            decreases left,
        {
            let ghost before = self@;
            let result = self.cycle();
            if result.is_err() {
                proof {
                    assert(before.run(left) == before.cycle());
                    assert((self@, result) == start.run(total));
                    assert forall|cycles: nat| #[trigger]
                        start.stops_within(cycles) implies (self@, result) == start.run(
                        cycles,
                    ) by {
                        VMState::lemma_run_is_determined(start, total, cycles);
                    }
                }
                return result;
            }
            proof {
                assert(before.run(left) == self@.run((left - 1) as nat));
                left = (left - 1) as nat;
            }
        }
        proof {
            assert(self@.run(left) == (self@, Ok::<i32, VMError>(0i32)));
            assert forall|cycles: nat| #[trigger]
                start.stops_within(cycles) implies (self@, Ok::<i32, VMError>(0i32)) == start.run(
                cycles,
            ) by {
                VMState::lemma_run_is_determined(start, total, cycles);
            }
        }
        Ok(0)
    }

    /// Moves the program counter to `new_pc` and returns 0, where `new_pc`
    /// lies within the image or at its end; else leaves it and returns 1.
    pub fn set_pc(&mut self, new_pc: usize) -> (status: usize)
        ensures
            new_pc <= old(self)@.bin.len() ==> status == 0 && final(self)@ == old(self)@.with_pc(
                new_pc as int,
            ),
            new_pc > old(self)@.bin.len() ==> status == 1 && final(self)@ == old(self)@,
    {
        if new_pc <= self.bin.len() {
            self.pc = new_pc;
            0
        } else {
            1
        }
    }
}

} // verus!
