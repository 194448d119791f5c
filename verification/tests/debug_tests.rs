use lamp::debug::{
    get_cmds, parse_cmd, Command, DebugCommand, DebugSession, Outcome, RegdumpCommand, Report,
    SetPcCommand, StepCommand,
};
use lamp::vm::{VMError, VM};

fn outcome(status: usize, report: Report) -> Outcome {
    Outcome { status, report }
}

#[test]
fn commands_and_their_names() {
    let cmds = get_cmds();
    assert_eq!(
        cmds,
        vec![
            Command::Regdump(RegdumpCommand),
            Command::SetPc(SetPcCommand),
            Command::Step(StepCommand),
        ]
    );
    let names: Vec<&str> = cmds.iter().map(|c| c.name()).collect();
    assert_eq!(names, vec!["regdump", "setpc", "step"]);
    assert_eq!(RegdumpCommand.syntax(), "regdump <0..31 | all>");
    assert_eq!(SetPcCommand.syntax(), "setpc <unsigned value>");
    assert_eq!(StepCommand.syntax(), "step");
    assert_eq!(StepCommand.description(), "Makes 1 VM's cycle.");
    assert_eq!(cmds[1].description(), "Sets the program counter to the given index.");
}

#[test]
fn command_is_found_by_its_whole_name() {
    assert_eq!(parse_cmd("regdump all"), Some(Command::Regdump(RegdumpCommand)));
    assert_eq!(parse_cmd("regdump"), Some(Command::Regdump(RegdumpCommand)));
    assert_eq!(parse_cmd("setpc 4"), Some(Command::SetPc(SetPcCommand)));
    assert_eq!(parse_cmd("step"), Some(Command::Step(StepCommand)));
    assert_eq!(parse_cmd("step now"), Some(Command::Step(StepCommand)));
    assert_eq!(parse_cmd("xstep"), None);
    assert_eq!(parse_cmd("stepx"), None);
    assert_eq!(parse_cmd("STEP"), None);
    assert_eq!(parse_cmd(" step"), None);
    assert_eq!(parse_cmd("help"), None);
    assert_eq!(parse_cmd(""), None);
    assert_eq!(parse_cmd("do step"), None);
}

#[test]
fn regdump_shows_one_register_or_all() {
    let mut vm = VM::new(vec![]);
    vm.set_register_value(7, -3);
    assert_eq!(
        RegdumpCommand.execute(&mut vm, vec!["regdump", "7"]),
        outcome(0, Report::Register(7, -3))
    );
    assert_eq!(
        RegdumpCommand.execute(&mut vm, vec!["regdump", "31", "more"]),
        outcome(0, Report::Register(31, 0))
    );
    let mut all = vec![0; 32];
    all[7] = -3;
    assert_eq!(
        RegdumpCommand.execute(&mut vm, vec!["regdump", "all"]),
        outcome(0, Report::AllRegisters(all))
    );
}

#[test]
fn regdump_rejects_what_is_no_register() {
    let mut vm = VM::new(vec![]);
    assert_eq!(
        RegdumpCommand.execute(&mut vm, vec!["regdump"]),
        outcome(1, Report::Usage)
    );
    assert_eq!(RegdumpCommand.execute(&mut vm, vec![]), outcome(1, Report::Usage));
    assert_eq!(
        RegdumpCommand.execute(&mut vm, vec!["regdump", "32"]),
        outcome(1, Report::RegisterOutOfRange)
    );
    assert_eq!(
        RegdumpCommand.execute(&mut vm, vec!["regdump", "255"]),
        outcome(1, Report::RegisterOutOfRange)
    );
    for argument in ["256", "ALL", "", "-1", "x"] {
        assert_eq!(
            RegdumpCommand.execute(&mut vm, vec!["regdump", argument]),
            outcome(1, Report::WrongArgument(argument.to_string()))
        );
    }
}

#[test]
fn setpc_moves_the_counter_within_the_image() {
    let mut vm = VM::new(vec![5, 0, 5, 1]);
    assert_eq!(
        SetPcCommand.execute(&mut vm, vec!["setpc", "2"]),
        outcome(0, Report::Nothing)
    );
    assert_eq!(vm.pc(), 2);
    assert_eq!(
        SetPcCommand.execute(&mut vm, vec!["setpc", "9"]),
        outcome(0, Report::Nothing)
    );
    assert_eq!(vm.pc(), 2);
    assert_eq!(
        SetPcCommand.execute(&mut vm, vec!["setpc", "four"]),
        outcome(1, Report::Usage)
    );
    assert_eq!(
        SetPcCommand.execute(&mut vm, vec!["setpc"]),
        outcome(1, Report::Usage)
    );
    assert_eq!(
        SetPcCommand.execute(&mut vm, vec!["setpc", "99999999999999999999999999"]),
        outcome(1, Report::Usage)
    );
    assert_eq!(vm.pc(), 2);
}

#[test]
fn step_runs_one_cycle() {
    let mut vm = VM::new(vec![5, 0, 99]);
    assert_eq!(
        StepCommand.execute(&mut vm, vec!["step"]),
        outcome(0, Report::Nothing)
    );
    assert_eq!(*vm.get_register(0), 1);
    assert_eq!(vm.pc(), 2);
    assert_eq!(
        StepCommand.execute(&mut vm, vec![]),
        outcome(1, Report::Fault(VMError::InvalidOpcodeError))
    );
    assert_eq!(
        Command::Step(StepCommand).execute(&mut vm, vec!["step"]),
        outcome(1, Report::Fault(VMError::ProgramOutOfBoundsError))
    );
}

#[test]
fn session_runs_command_lines() {
    let mut session = DebugSession::new(VM::new(vec![15, 3, 1, 2, 5, 3]));
    assert_eq!(session.turn("step\n"), Some(outcome(0, Report::Nothing)));
    assert_eq!(
        session.turn("  regdump 3  "),
        Some(outcome(0, Report::Register(3, 258)))
    );
    assert_eq!(session.turn("step"), Some(outcome(0, Report::Nothing)));
    assert_eq!(
        session.turn("regdump 3"),
        Some(outcome(0, Report::Register(3, 259)))
    );
    assert_eq!(session.turn("setpc 4"), Some(outcome(0, Report::Nothing)));
    assert_eq!(session.vm().pc(), 4);
    assert_eq!(session.turn("step"), Some(outcome(0, Report::Nothing)));
    assert_eq!(*session.vm().get_register(3), 260);
}

#[test]
fn session_cuts_the_line_at_every_space() {
    let mut session = DebugSession::new(VM::new(vec![]));
    // Two spaces: the first argument is empty.
    assert_eq!(
        session.turn("regdump  3"),
        Some(outcome(1, Report::WrongArgument("".to_string())))
    );
    assert_eq!(session.turn("regdump"), Some(outcome(1, Report::Usage)));
}

#[test]
fn session_knows_no_other_command() {
    let mut session = DebugSession::new(VM::new(vec![5, 0]));
    assert_eq!(session.turn("help"), None);
    assert_eq!(session.turn(""), None);
    assert_eq!(session.turn("stepp"), None);
    assert_eq!(session.vm().pc(), 0);
    assert_eq!(*session.vm().get_register(0), 0);
}
