//! The instruction table: every opcode with its wire byte, the number of
//! operand bytes that follow it, and its mnemonic. The assembler and the
//! virtual machine both read the table through this module alone.
use crate::text::{ascii_upper, same_chars, to_ascii_upper, to_chars};
use vstd::prelude::*;

verus! {

/// The instructions of the machine, in the order of their wire bytes.
#[derive(Debug, Copy, Clone, PartialEq, Eq, Structural)]
pub enum Opcode {
    ADD,
    SUB,
    MUL,
    MOD,
    INC,
    DEC,
    EQ,
    NEQ,
    GT,
    GTE,
    LT,
    LTE,
    HLT,
    NOP,
    LOAD,
    JMP,
    MODR,
}

/// The number of opcodes; their wire bytes are `1..=OPCODE_COUNT`.
pub const OPCODE_COUNT: u8 = 17;

impl Opcode {
    /// The byte that stands for this opcode in a program image.
    pub open spec fn spec_code(self) -> u8 {
        match self {
            Opcode::ADD => 1,
            Opcode::SUB => 2,
            Opcode::MUL => 3,
            Opcode::MOD => 4,
            Opcode::INC => 5,
            Opcode::DEC => 6,
            Opcode::EQ => 7,
            Opcode::NEQ => 8,
            Opcode::GT => 9,
            Opcode::GTE => 10,
            Opcode::LT => 11,
            Opcode::LTE => 12,
            Opcode::HLT => 13,
            Opcode::NOP => 14,
            Opcode::LOAD => 15,
            Opcode::JMP => 16,
            Opcode::MODR => 17,
        }
    }

    /// The number of operand bytes that follow this opcode.
    pub open spec fn spec_operands(self) -> nat {
        match self {
            Opcode::ADD | Opcode::SUB | Opcode::MUL | Opcode::MOD | Opcode::LOAD => 3,
            Opcode::EQ | Opcode::NEQ | Opcode::GT | Opcode::GTE | Opcode::LT | Opcode::LTE => 2,
            Opcode::INC | Opcode::DEC | Opcode::JMP | Opcode::MODR => 1,
            Opcode::HLT | Opcode::NOP => 0,
        }
    }

    /// The name by which assembly source calls this opcode.
    pub open spec fn spec_mnemonic(self) -> Seq<char> {
        match self {
            Opcode::ADD => "ADD"@,
            Opcode::SUB => "SUB"@,
            Opcode::MUL => "MUL"@,
            Opcode::MOD => "MOD"@,
            Opcode::INC => "INC"@,
            Opcode::DEC => "DEC"@,
            Opcode::EQ => "EQ"@,
            Opcode::NEQ => "NEQ"@,
            Opcode::GT => "GT"@,
            Opcode::GTE => "GTE"@,
            Opcode::LT => "LT"@,
            Opcode::LTE => "LTE"@,
            Opcode::HLT => "HLT"@,
            Opcode::NOP => "NOP"@,
            Opcode::LOAD => "LOAD"@,
            Opcode::JMP => "JMP"@,
            Opcode::MODR => "MODR"@,
        }
    }

    /// The byte that stands for this opcode in a program image.
    pub fn code(self) -> (code: u8)
        ensures
            code == self.spec_code(),
    {
        match self {
            Opcode::ADD => 1,
            Opcode::SUB => 2,
            Opcode::MUL => 3,
            Opcode::MOD => 4,
            Opcode::INC => 5,
            Opcode::DEC => 6,
            Opcode::EQ => 7,
            Opcode::NEQ => 8,
            Opcode::GT => 9,
            Opcode::GTE => 10,
            Opcode::LT => 11,
            Opcode::LTE => 12,
            Opcode::HLT => 13,
            Opcode::NOP => 14,
            Opcode::LOAD => 15,
            Opcode::JMP => 16,
            Opcode::MODR => 17,
        }
    }

    /// The number of operand bytes that follow this opcode.
    pub fn operands(self) -> (count: usize)
        ensures
            count == self.spec_operands(),
    {
        match self {
            Opcode::ADD | Opcode::SUB | Opcode::MUL | Opcode::MOD | Opcode::LOAD => 3,
            Opcode::EQ | Opcode::NEQ | Opcode::GT | Opcode::GTE | Opcode::LT | Opcode::LTE => 2,
            Opcode::INC | Opcode::DEC | Opcode::JMP | Opcode::MODR => 1,
            Opcode::HLT | Opcode::NOP => 0,
        }
    }

    /// The name by which assembly source calls this opcode.
    pub fn mnemonic(self) -> (name: &'static str)
        ensures
            name@ == self.spec_mnemonic(),
    {
        match self {
            Opcode::ADD => "ADD",
            Opcode::SUB => "SUB",
            Opcode::MUL => "MUL",
            Opcode::MOD => "MOD",
            Opcode::INC => "INC",
            Opcode::DEC => "DEC",
            Opcode::EQ => "EQ",
            Opcode::NEQ => "NEQ",
            Opcode::GT => "GT",
            Opcode::GTE => "GTE",
            Opcode::LT => "LT",
            Opcode::LTE => "LTE",
            Opcode::HLT => "HLT",
            Opcode::NOP => "NOP",
            Opcode::LOAD => "LOAD",
            Opcode::JMP => "JMP",
            Opcode::MODR => "MODR",
        }
    }
}

/// The opcode whose wire byte is `val`, if there is one.
pub open spec fn spec_decode_opcode(val: u8) -> Option<Opcode> {
    if val == 1 {
        Some(Opcode::ADD)
    } else if val == 2 {
        Some(Opcode::SUB)
    } else if val == 3 {
        Some(Opcode::MUL)
    } else if val == 4 {
        Some(Opcode::MOD)
    } else if val == 5 {
        Some(Opcode::INC)
    } else if val == 6 {
        Some(Opcode::DEC)
    } else if val == 7 {
        Some(Opcode::EQ)
    } else if val == 8 {
        Some(Opcode::NEQ)
    } else if val == 9 {
        Some(Opcode::GT)
    } else if val == 10 {
        Some(Opcode::GTE)
    } else if val == 11 {
        Some(Opcode::LT)
    } else if val == 12 {
        Some(Opcode::LTE)
    } else if val == 13 {
        Some(Opcode::HLT)
    } else if val == 14 {
        Some(Opcode::NOP)
    } else if val == 15 {
        Some(Opcode::LOAD)
    } else if val == 16 {
        Some(Opcode::JMP)
    } else if val == 17 {
        Some(Opcode::MODR)
    } else {
        None
    }
}

/// The opcode whose mnemonic is `name`, letter case of `name` aside, if
/// there is one.
pub open spec fn spec_get_op(name: Seq<char>) -> Option<Opcode> {
    let upper = ascii_upper(name);
    if exists|op: Opcode| op.spec_mnemonic() == upper {
        Some(choose|op: Opcode| op.spec_mnemonic() == upper)
    } else {
        None
    }
}

/// Decoding is the inverse of `Opcode::code`: a byte decodes to the one
/// opcode that it is the code of, and the bytes that decode are `1..=17`.
pub proof fn lemma_decode_inverts_code(val: u8, op: Opcode)
    ensures
        spec_decode_opcode(op.spec_code()) == Some(op),
        spec_decode_opcode(val) == Some(op) <==> op.spec_code() == val,
        spec_decode_opcode(val) is Some <==> 1 <= val <= OPCODE_COUNT,
{
}

/// The characters of every mnemonic.
pub proof fn lemma_mnemonic_chars()
    ensures
        Opcode::ADD.spec_mnemonic() == seq!['A', 'D', 'D'],
        Opcode::SUB.spec_mnemonic() == seq!['S', 'U', 'B'],
        Opcode::MUL.spec_mnemonic() == seq!['M', 'U', 'L'],
        Opcode::MOD.spec_mnemonic() == seq!['M', 'O', 'D'],
        Opcode::INC.spec_mnemonic() == seq!['I', 'N', 'C'],
        Opcode::DEC.spec_mnemonic() == seq!['D', 'E', 'C'],
        Opcode::EQ.spec_mnemonic() == seq!['E', 'Q'],
        Opcode::NEQ.spec_mnemonic() == seq!['N', 'E', 'Q'],
        Opcode::GT.spec_mnemonic() == seq!['G', 'T'],
        Opcode::GTE.spec_mnemonic() == seq!['G', 'T', 'E'],
        Opcode::LT.spec_mnemonic() == seq!['L', 'T'],
        Opcode::LTE.spec_mnemonic() == seq!['L', 'T', 'E'],
        Opcode::HLT.spec_mnemonic() == seq!['H', 'L', 'T'],
        Opcode::NOP.spec_mnemonic() == seq!['N', 'O', 'P'],
        Opcode::LOAD.spec_mnemonic() == seq!['L', 'O', 'A', 'D'],
        Opcode::JMP.spec_mnemonic() == seq!['J', 'M', 'P'],
        Opcode::MODR.spec_mnemonic() == seq!['M', 'O', 'D', 'R'],
{
    reveal_strlit("ADD");
    reveal_strlit("SUB");
    reveal_strlit("MUL");
    reveal_strlit("MOD");
    reveal_strlit("INC");
    reveal_strlit("DEC");
    reveal_strlit("EQ");
    reveal_strlit("NEQ");
    reveal_strlit("GT");
    reveal_strlit("GTE");
    reveal_strlit("LT");
    reveal_strlit("LTE");
    reveal_strlit("HLT");
    reveal_strlit("NOP");
    reveal_strlit("LOAD");
    reveal_strlit("JMP");
    reveal_strlit("MODR");
    assert(Opcode::ADD.spec_mnemonic() =~= seq!['A', 'D', 'D']);
    assert(Opcode::SUB.spec_mnemonic() =~= seq!['S', 'U', 'B']);
    assert(Opcode::MUL.spec_mnemonic() =~= seq!['M', 'U', 'L']);
    assert(Opcode::MOD.spec_mnemonic() =~= seq!['M', 'O', 'D']);
    assert(Opcode::INC.spec_mnemonic() =~= seq!['I', 'N', 'C']);
    assert(Opcode::DEC.spec_mnemonic() =~= seq!['D', 'E', 'C']);
    assert(Opcode::EQ.spec_mnemonic() =~= seq!['E', 'Q']);
    assert(Opcode::NEQ.spec_mnemonic() =~= seq!['N', 'E', 'Q']);
    assert(Opcode::GT.spec_mnemonic() =~= seq!['G', 'T']);
    assert(Opcode::GTE.spec_mnemonic() =~= seq!['G', 'T', 'E']);
    assert(Opcode::LT.spec_mnemonic() =~= seq!['L', 'T']);
    assert(Opcode::LTE.spec_mnemonic() =~= seq!['L', 'T', 'E']);
    assert(Opcode::HLT.spec_mnemonic() =~= seq!['H', 'L', 'T']);
    assert(Opcode::NOP.spec_mnemonic() =~= seq!['N', 'O', 'P']);
    assert(Opcode::LOAD.spec_mnemonic() =~= seq!['L', 'O', 'A', 'D']);
    assert(Opcode::JMP.spec_mnemonic() =~= seq!['J', 'M', 'P']);
    assert(Opcode::MODR.spec_mnemonic() =~= seq!['M', 'O', 'D', 'R']);
}

/// Every mnemonic is made of two to four ASCII upper-case letters.
pub proof fn lemma_mnemonic_letters(op: Opcode)
    ensures
        2 <= op.spec_mnemonic().len() <= 4,
        forall|i: int|
            0 <= i < op.spec_mnemonic().len() ==> 'A' <= #[trigger] op.spec_mnemonic()[i] <= 'Z',
{
    lemma_mnemonic_chars();
}

/// No two opcodes share a mnemonic.
pub proof fn lemma_mnemonics_distinct(a: Opcode, b: Opcode)
    requires
        a.spec_mnemonic() == b.spec_mnemonic(),
    ensures
        a == b,
{
    lemma_mnemonic_chars();
    let m = a.spec_mnemonic();
    let n = b.spec_mnemonic();
    assert(m.len() == n.len());
    assert(m[0] == n[0]);
    assert(m[1] == n[1]);
    if m.len() > 2 {
        assert(m[2] == n[2]);
    }
}

/// A name resolves to `op` exactly when, letter case aside, it is the
/// mnemonic of `op`.
pub proof fn lemma_get_op(name: Seq<char>, op: Opcode)
    ensures
        spec_get_op(name) == Some(op) <==> ascii_upper(name) == op.spec_mnemonic(),
{
    let upper = ascii_upper(name);
    if exists|o: Opcode| o.spec_mnemonic() == upper {
        let chosen = choose|o: Opcode| o.spec_mnemonic() == upper;
        if upper == op.spec_mnemonic() {
            lemma_mnemonics_distinct(chosen, op);
        }
    }
}

/// The opcode that the byte `val` stands for.
pub fn decode_opcode(val: u8) -> (decoded: Option<Opcode>)
    ensures
        decoded == spec_decode_opcode(val),
{
    match val {
        1 => Some(Opcode::ADD),
        2 => Some(Opcode::SUB),
        3 => Some(Opcode::MUL),
        4 => Some(Opcode::MOD),
        5 => Some(Opcode::INC),
        6 => Some(Opcode::DEC),
        7 => Some(Opcode::EQ),
        8 => Some(Opcode::NEQ),
        9 => Some(Opcode::GT),
        10 => Some(Opcode::GTE),
        11 => Some(Opcode::LT),
        12 => Some(Opcode::LTE),
        13 => Some(Opcode::HLT),
        14 => Some(Opcode::NOP),
        15 => Some(Opcode::LOAD),
        16 => Some(Opcode::JMP),
        17 => Some(Opcode::MODR),
        _ => None,
    }
}

/// The characters of `name`, each ASCII lower-case letter folded to upper
/// case.
fn upper_chars(name: &str) -> (upper: Vec<char>)
    ensures
        upper@ == ascii_upper(name@),
{
    let chars = to_chars(name);
    let mut upper: Vec<char> = Vec::new();
    let mut i: usize = 0;
    while i < chars.len()
        invariant
            i <= chars.len(),
            chars@ == name@,
            upper@ == ascii_upper(name@).take(i as int),
        decreases chars.len() - i,
    {
        upper.push(to_ascii_upper(chars[i]));
        assert(ascii_upper(name@).take(i + 1) == ascii_upper(name@).take(i as int).push(
            ascii_upper(name@)[i as int],
        ));
        i += 1;
    }
    assert(ascii_upper(name@).take(chars.len() as int) == ascii_upper(name@));
    upper
}

/// The opcode that the mnemonic `base` names. The whole of `base` must be
/// the mnemonic; upper and lower case letters count as the same.
pub fn get_op<'a>(base: String) -> (found: Result<Opcode, &'a str>)
    ensures
        match found {
            Ok(op) => spec_get_op(base@) == Some(op),
            Err(message) => spec_get_op(base@) is None && message@ == "No opcode found."@,
        },
{
    let upper = upper_chars(base.as_str());
    let mut code: u8 = 1;
    while code <= OPCODE_COUNT
        invariant
            1 <= code <= OPCODE_COUNT + 1,
            upper@ == ascii_upper(base@),
            forall|op: Opcode| op.spec_code() < code ==> op.spec_mnemonic() != upper@,
        decreases OPCODE_COUNT + 1 - code,
    {
        if let Some(op) = decode_opcode(code) {
            let name = to_chars(op.mnemonic());
            if same_chars(&upper, &name) {
                proof {
                    lemma_get_op(base@, op);
                }
                return Ok(op);
            }
        }
        assert forall|op: Opcode| op.spec_code() < code + 1 implies op.spec_mnemonic()
            != upper@ by {
            lemma_decode_inverts_code(code, op);
        }
        code += 1;
    }
    Err("No opcode found.")
}

} // verus!
