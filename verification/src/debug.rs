//! The commands of the debug shell and the session that runs them against
//! a machine. A command line is the name of a command and its arguments,
//! with one space between each; what a command has to show it hands back
//! as a report, for the shell to print.
use crate::text::{
    find_char, index_of, parse_bounded, parse_number, range_is, slice_texts, split_spaces,
    split_words, string_of, to_chars, trim, trim_range,
};
use crate::vm::{VMError, VMState, REGISTER_COUNT, VM};
use vstd::prelude::*;

verus! {

/// What a command has to show.
#[derive(Debug, PartialEq, Eq)]
pub enum Report {
    Nothing,
    /// The index and the value of one register.
    Register(u8, i32),
    /// The values of all registers, in the order of their indices.
    AllRegisters(Vec<i32>),
    /// The command has too many or too few arguments.
    Usage,
    /// The argument is a number but the index of no register.
    RegisterOutOfRange,
    /// The argument, which is not what the command takes.
    WrongArgument(String),
    /// The cycle faulted.
    Fault(VMError),
}

/// A report as mathematics.
pub enum ReportView {
    Nothing,
    Register(u8, i32),
    AllRegisters(Seq<i32>),
    Usage,
    RegisterOutOfRange,
    WrongArgument(Seq<char>),
    Fault(VMError),
}

impl View for Report {
    type V = ReportView;

    open spec fn view(&self) -> ReportView {
        match self {
            Report::Nothing => ReportView::Nothing,
            Report::Register(index, value) => ReportView::Register(*index, *value),
            Report::AllRegisters(values) => ReportView::AllRegisters(values@),
            Report::Usage => ReportView::Usage,
            Report::RegisterOutOfRange => ReportView::RegisterOutOfRange,
            Report::WrongArgument(argument) => ReportView::WrongArgument(argument@),
            Report::Fault(error) => ReportView::Fault(*error),
        }
    }
}

/// How a command ended: its status, 0 for success and 1 for failure, and
/// what it has to show.
#[derive(Debug, PartialEq, Eq)]
pub struct Outcome {
    pub status: usize,
    pub report: Report,
}

/// An outcome as mathematics.
pub struct OutcomeView {
    pub status: usize,
    pub report: ReportView,
}

impl View for Outcome {
    type V = OutcomeView;

    open spec fn view(&self) -> OutcomeView {
        OutcomeView { status: self.status, report: self.report@ }
    }
}

/// What `regdump` does with the arguments `args`, the first of which is
/// the name of the command, on a machine in the state `vm`: it shows all
/// registers for `all` and one register for its index.
pub open spec fn regdump(vm: VMState, args: Seq<Seq<char>>) -> OutcomeView {
    if args.len() < 2 {
        OutcomeView { status: 1, report: ReportView::Usage }
    } else if args[1] == "all"@ {
        OutcomeView { status: 0, report: ReportView::AllRegisters(vm.registers) }
    } else {
        match parse_bounded(args[1], 255) {
            Some(index) => {
                if index < REGISTER_COUNT {
                    OutcomeView {
                        status: 0,
                        report: ReportView::Register(index as u8, vm.registers[index as int]),
                    }
                } else {
                    OutcomeView { status: 1, report: ReportView::RegisterOutOfRange }
                }
            },
            None => OutcomeView { status: 1, report: ReportView::WrongArgument(args[1]) },
        }
    }
}

/// The state in which `setpc` leaves a machine that was in the state `vm`:
/// the program counter moves to `new_pc` where that lies within the image
/// or at its end.
pub open spec fn set_pc(vm: VMState, new_pc: nat) -> VMState {
    if new_pc <= vm.bin.len() {
        vm.with_pc(new_pc as int)
    } else {
        vm
    }
}

/// What `setpc` does with the arguments `args`. It succeeds whenever its
/// argument is a number, also where the number lies outside the image and
/// the program counter stays.
pub open spec fn setpc(vm: VMState, args: Seq<Seq<char>>) -> (VMState, OutcomeView) {
    if args.len() < 2 {
        (vm, OutcomeView { status: 1, report: ReportView::Usage })
    } else {
        match parse_bounded(args[1], usize::MAX as nat) {
            Some(new_pc) => (
                set_pc(vm, new_pc),
                OutcomeView { status: 0, report: ReportView::Nothing },
            ),
            None => (vm, OutcomeView { status: 1, report: ReportView::Usage }),
        }
    }
}

/// What `step` does: one cycle of the machine.
pub open spec fn step(vm: VMState) -> (VMState, OutcomeView) {
    match vm.cycle().1 {
        Ok(_) => (vm.cycle().0, OutcomeView { status: 0, report: ReportView::Nothing }),
        Err(error) => (
            vm.cycle().0,
            OutcomeView { status: 1, report: ReportView::Fault(error) },
        ),
    }
}

/// A command of the debug shell.
pub trait DebugCommand {
    /// The name by which a command line calls the command.
    spec fn spec_name(&self) -> Seq<char>;

    /// The state in which the command leaves a machine that was in the
    /// state `vm`, and how it ends, for the arguments `args`, the first of
    /// which is the name of the command.
    spec fn spec_execute(&self, vm: VMState, args: Seq<Seq<char>>) -> (VMState, OutcomeView);

    fn execute(&self, vm: &mut VM, args: Vec<&str>) -> (outcome: Outcome)
        ensures
            (final(vm)@, outcome@) == self.spec_execute(old(vm)@, slice_texts(args@)),
    ;

    fn name(&self) -> (name: &str)
        ensures
            name@ == self.spec_name(),
    ;

    /// What the command does, in a sentence.
    spec fn spec_description(&self) -> Seq<char>;

    /// How a command line that calls the command is written.
    spec fn spec_syntax(&self) -> Seq<char>;

    fn description(&self) -> (description: &str)
        ensures
            description@ == self.spec_description(),
    ;

    fn syntax(&self) -> (syntax: &str)
        ensures
            syntax@ == self.spec_syntax(),
    ;
}

/// Shows one register or all of them.
#[derive(Debug, Copy, Clone, PartialEq, Eq, Structural)]
pub struct RegdumpCommand;

/// Moves the program counter.
#[derive(Debug, Copy, Clone, PartialEq, Eq, Structural)]
pub struct SetPcCommand;

/// Runs one cycle.
#[derive(Debug, Copy, Clone, PartialEq, Eq, Structural)]
pub struct StepCommand;

/// The values of all registers of `vm`.
fn all_registers(vm: &VM) -> (values: Vec<i32>)
    ensures
        values@ == vm@.registers,
{
    proof {
        vm.lemma_well_formed();
    }
    let mut values: Vec<i32> = Vec::new();
    let mut index: u8 = 0;
    while index < REGISTER_COUNT
        invariant
            index <= REGISTER_COUNT,
            vm@.registers.len() == REGISTER_COUNT,
            values@ == vm@.registers.take(index as int),
        decreases REGISTER_COUNT - index,
    {
        values.push(*vm.get_register(index));
        assert(vm@.registers.take(index + 1) == vm@.registers.take(index as int).push(
            vm@.registers[index as int],
        ));
        index += 1;
    }
    assert(vm@.registers.take(REGISTER_COUNT as int) == vm@.registers);
    values
}

impl DebugCommand for RegdumpCommand {
    open spec fn spec_name(&self) -> Seq<char> {
        "regdump"@
    }

    open spec fn spec_description(&self) -> Seq<char> {
        "Prints the value of the specified register, or all if specified"@
    }

    open spec fn spec_syntax(&self) -> Seq<char> {
        "regdump <0..31 | all>"@
    }

    open spec fn spec_execute(&self, vm: VMState, args: Seq<Seq<char>>) -> (VMState, OutcomeView) {
        (vm, regdump(vm, args))
    }

    fn execute(&self, vm: &mut VM, args: Vec<&str>) -> (outcome: Outcome) {
        if args.len() < 2 {
            return Outcome { status: 1, report: Report::Usage };
        }
        let argument = to_chars(args[1]);
        let all = to_chars("all");
        assert(argument@.subrange(0, argument.len() as int) == argument@);
        if range_is(&argument, 0, argument.len(), &all) {
            return Outcome { status: 0, report: Report::AllRegisters(all_registers(vm)) };
        }
        match parse_number(&argument, 0, argument.len(), 255) {
            Some(number) => {
                if number < REGISTER_COUNT as usize {
                    let index = number as u8;
                    let value = *vm.get_register(index);
                    Outcome { status: 0, report: Report::Register(index, value) }
                } else {
                    Outcome { status: 1, report: Report::RegisterOutOfRange }
                }
            },
            None => Outcome {
                status: 1,
                report: Report::WrongArgument(string_of(&argument, 0, argument.len())),
            },
        }
    }

    fn name(&self) -> (name: &str) {
        "regdump"
    }

    fn description(&self) -> (description: &str) {
        "Prints the value of the specified register, or all if specified"
    }

    fn syntax(&self) -> (syntax: &str) {
        "regdump <0..31 | all>"
    }
}

impl DebugCommand for SetPcCommand {
    open spec fn spec_name(&self) -> Seq<char> {
        "setpc"@
    }

    open spec fn spec_description(&self) -> Seq<char> {
        "Sets the program counter to the given index."@
    }

    open spec fn spec_syntax(&self) -> Seq<char> {
        "setpc <unsigned value>"@
    }

    open spec fn spec_execute(&self, vm: VMState, args: Seq<Seq<char>>) -> (VMState, OutcomeView) {
        setpc(vm, args)
    }

    fn execute(&self, vm: &mut VM, args: Vec<&str>) -> (outcome: Outcome) {
        if args.len() < 2 {
            return Outcome { status: 1, report: Report::Usage };
        }
        let argument = to_chars(args[1]);
        assert(argument@.subrange(0, argument.len() as int) == argument@);
        match parse_number(&argument, 0, argument.len(), usize::MAX) {
            Some(new_pc) => {
                vm.set_pc(new_pc);
                Outcome { status: 0, report: Report::Nothing }
            },
            None => Outcome { status: 1, report: Report::Usage },
        }
    }

    fn name(&self) -> (name: &str) {
        "setpc"
    }

    fn description(&self) -> (description: &str) {
        "Sets the program counter to the given index."
    }

    fn syntax(&self) -> (syntax: &str) {
        "setpc <unsigned value>"
    }
}

impl DebugCommand for StepCommand {
    open spec fn spec_name(&self) -> Seq<char> {
        "step"@
    }

    open spec fn spec_description(&self) -> Seq<char> {
        "Makes 1 VM's cycle."@
    }

    open spec fn spec_syntax(&self) -> Seq<char> {
        "step"@
    }

    open spec fn spec_execute(&self, vm: VMState, args: Seq<Seq<char>>) -> (VMState, OutcomeView) {
        step(vm)
    }

    fn execute(&self, vm: &mut VM, args: Vec<&str>) -> (outcome: Outcome) {
        match vm.cycle() {
            Ok(_) => Outcome { status: 0, report: Report::Nothing },
            Err(error) => Outcome { status: 1, report: Report::Fault(error) },
        }
    }

    fn name(&self) -> (name: &str) {
        "step"
    }

    fn description(&self) -> (description: &str) {
        "Makes 1 VM's cycle."
    }

    fn syntax(&self) -> (syntax: &str) {
        "step"
    }
}

/// One of the commands of the shell.
#[derive(Debug, Copy, Clone, PartialEq, Eq, Structural)]
pub enum Command {
    Regdump(RegdumpCommand),
    SetPc(SetPcCommand),
    Step(StepCommand),
}

impl DebugCommand for Command {
    open spec fn spec_name(&self) -> Seq<char> {
        match self {
            Command::Regdump(command) => command.spec_name(),
            Command::SetPc(command) => command.spec_name(),
            Command::Step(command) => command.spec_name(),
        }
    }

    open spec fn spec_description(&self) -> Seq<char> {
        match self {
            Command::Regdump(command) => command.spec_description(),
            Command::SetPc(command) => command.spec_description(),
            Command::Step(command) => command.spec_description(),
        }
    }

    open spec fn spec_syntax(&self) -> Seq<char> {
        match self {
            Command::Regdump(command) => command.spec_syntax(),
            Command::SetPc(command) => command.spec_syntax(),
            Command::Step(command) => command.spec_syntax(),
        }
    }

    open spec fn spec_execute(&self, vm: VMState, args: Seq<Seq<char>>) -> (VMState, OutcomeView) {
        match self {
            Command::Regdump(command) => command.spec_execute(vm, args),
            Command::SetPc(command) => command.spec_execute(vm, args),
            Command::Step(command) => command.spec_execute(vm, args),
        }
    }

    fn execute(&self, vm: &mut VM, args: Vec<&str>) -> (outcome: Outcome) {
        match self {
            Command::Regdump(command) => command.execute(vm, args),
            Command::SetPc(command) => command.execute(vm, args),
            Command::Step(command) => command.execute(vm, args),
        }
    }

    fn name(&self) -> (name: &str) {
        match self {
            Command::Regdump(command) => command.name(),
            Command::SetPc(command) => command.name(),
            Command::Step(command) => command.name(),
        }
    }

    fn description(&self) -> (description: &str) {
        match self {
            Command::Regdump(command) => command.description(),
            Command::SetPc(command) => command.description(),
            Command::Step(command) => command.description(),
        }
    }

    fn syntax(&self) -> (syntax: &str) {
        match self {
            Command::Regdump(command) => command.syntax(),
            Command::SetPc(command) => command.syntax(),
            Command::Step(command) => command.syntax(),
        }
    }
}

/// The commands of the shell, in the order in which a name is looked up.
pub open spec fn commands() -> Seq<Command> {
    seq![
        Command::Regdump(RegdumpCommand),
        Command::SetPc(SetPcCommand),
        Command::Step(StepCommand),
    ]
}

/// The command that the command line `line` calls: the one whose name is
/// what stands before the first space of `line`, or the whole of `line`
/// where it holds no space.
pub open spec fn spec_parse_cmd(line: Seq<char>) -> Option<Command> {
    let name = line.take(index_of(line, ' '));
    if name == "regdump"@ {
        Some(Command::Regdump(RegdumpCommand))
    } else if name == "setpc"@ {
        Some(Command::SetPc(SetPcCommand))
    } else if name == "step"@ {
        Some(Command::Step(StepCommand))
    } else {
        None
    }
}

/// The commands of the shell.
pub fn get_cmds() -> (cmds: Vec<Command>)
    ensures
        cmds@ == commands(),
{
    let mut cmds: Vec<Command> = Vec::new();
    cmds.push(Command::Regdump(RegdumpCommand));
    cmds.push(Command::SetPc(SetPcCommand));
    cmds.push(Command::Step(StepCommand));
    assert(cmds@ =~= commands());
    cmds
}

/// The command that the command line `string` calls.
pub fn parse_cmd(string: &str) -> (command: Option<Command>)
    ensures
        command == spec_parse_cmd(string@),
{
    let chars = to_chars(string);
    let end = find_char(&chars, 0, chars.len(), ' ');
    assert(chars@.subrange(0, chars.len() as int) == chars@);
    assert(chars@.take(end as int) == chars@.subrange(0, end as int));
    let cmds = get_cmds();
    let mut i: usize = 0;
    while i < cmds.len()
        invariant
            i <= cmds.len(),
            end <= chars.len(),
            chars@ == string@,
            end == index_of(string@, ' '),
            chars@.take(end as int) == chars@.subrange(0, end as int),
            cmds@ == commands(),
            forall|j: int| 0 <= j < i ==> cmds@[j].spec_name() != chars@.subrange(0, end as int),
        decreases cmds.len() - i,
    {
        let name = to_chars(cmds[i].name());
        if range_is(&chars, 0, end, &name) {
            proof {
                lemma_names_differ();
            }
            return Some(cmds[i]);
        }
        i += 1;
    }
    assert(cmds@[0].spec_name() != chars@.subrange(0, end as int));
    assert(cmds@[1].spec_name() != chars@.subrange(0, end as int));
    assert(cmds@[2].spec_name() != chars@.subrange(0, end as int));
    None
}

/// No two commands share a name.
proof fn lemma_names_differ()
    ensures
        "regdump"@ != "setpc"@,
        "regdump"@ != "step"@,
        "setpc"@ != "step"@,
{
    reveal_strlit("regdump");
    reveal_strlit("setpc");
    reveal_strlit("step");
    assert("regdump"@.len() == 7);
    assert("setpc"@.len() == 5);
    assert("step"@.len() == 4);
}

/// What one turn of the shell does with the command line `line` on a
/// machine in the state `vm`: once the whitespace around the line is taken
/// off, the command that the line calls is executed with the pieces into
/// which the spaces cut the line. A line that calls no command does
/// nothing and has no outcome.
pub open spec fn spec_turn(vm: VMState, line: Seq<char>) -> (VMState, Option<OutcomeView>) {
    let trimmed = trim(line);
    match spec_parse_cmd(trimmed) {
        Some(command) => {
            let done = command.spec_execute(vm, split_words(trimmed));
            (done.0, Some(done.1))
        },
        None => (vm, None),
    }
}

/// A debug session: the shell's hold on one machine.
pub struct DebugSession {
    vm: VM,
}

impl DebugSession {
    /// The state of the machine of the session.
    pub closed spec fn machine(&self) -> VMState {
        self.vm@
    }

    /// A session on the machine `vm`.
    pub fn new(vm: VM) -> (session: DebugSession)
        ensures
            session.machine() == vm@,
    {
        DebugSession { vm }
    }

    /// The machine of the session.
    pub fn vm(&self) -> (vm: &VM)
        ensures
            vm@ == self.machine(),
    {
        &self.vm
    }

    /// One turn of the shell: runs the command line `command_line`
    /// against the machine of the session.
    pub fn turn(&mut self, command_line: &str) -> (outcome: Option<Outcome>)
        ensures
            final(self).machine() == spec_turn(old(self).machine(), command_line@).0,
            match outcome {
                Some(done) => spec_turn(old(self).machine(), command_line@).1 == Some(done@),
                None => spec_turn(old(self).machine(), command_line@).1 is None,
            },
    {
        let chars = to_chars(command_line);
        assert(chars@.subrange(0, chars.len() as int) == chars@);
        let (start, end) = trim_range(&chars, 0, chars.len());
        let trimmed = command_line.substring_char(start, end);
        match parse_cmd(trimmed) {
            Some(command) => {
                let args = split_spaces(command_line, &chars, start, end);
                Some(command.execute(&mut self.vm, args))
            },
            None => None,
        }
    }
}

} // verus!
