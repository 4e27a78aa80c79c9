use byzer_shell::shell::{CmdKind, Command, Shell, ShellError, ShellHandler};

/// A handler that records every call and succeeds or fails on demand.
struct RecHandler {
    commands: Vec<(u64, Vec<String>)>,
    defaults: Vec<String>,
    fail_defaults: bool,
}

impl RecHandler {
    fn new() -> RecHandler {
        RecHandler { commands: Vec::new(), defaults: Vec::new(), fail_defaults: false }
    }
}

impl ShellHandler for RecHandler {
    fn run_command(
        &mut self,
        _out: &mut Vec<String>,
        tag: u64,
        args: &Vec<String>,
    ) -> Result<(), ShellError> {
        self.commands.push((tag, args.clone()));
        Ok(())
    }

    fn run_default(&mut self, _out: &mut Vec<String>, statement: &str) -> Result<(), ShellError> {
        self.defaults.push(String::from(statement));
        if self.fail_defaults {
            Err(ShellError::Other(String::from("engine unreachable")))
        } else {
            Ok(())
        }
    }
}

fn fresh(capacity: usize) -> Shell<RecHandler> {
    Shell::new(RecHandler::new(), capacity, String::from(">> "), String::from(".. "))
}

#[test]
fn scenario_builtins_only() {
    // registry has only builtins, capacity 2
    let mut shell = fresh(2);
    let mut out: Vec<String> = Vec::new();

    let r = shell.eval(&mut out, "help;");
    assert!(r.is_ok());
    assert_eq!(
        out,
        vec![
            String::from("help - list the registered commands"),
            String::from("history - print past statements, or replay one by index"),
            String::from("quit - leave the shell"),
        ]
    );
    assert_eq!(shell.history().len(), 1);
    assert_eq!(shell.history().get(0).unwrap(), "help;");

    let mut out2: Vec<String> = Vec::new();
    let r2 = shell.eval(&mut out2, "quit;");
    assert!(matches!(r2, Err(ShellError::Quit)));
    assert!(out2.is_empty());
    // quit is error-shaped, so it is not recorded
    assert_eq!(shell.history().len(), 1);
}

#[test]
fn scenario_history_fifo_capacity_two() {
    let mut shell = fresh(2);
    let mut out: Vec<String> = Vec::new();
    assert!(shell.eval(&mut out, "a;").is_ok());
    assert!(shell.eval(&mut out, "b;").is_ok());
    assert!(shell.eval(&mut out, "c;").is_ok());
    assert_eq!(shell.history().len(), 2);
    assert_eq!(shell.history().get(0).unwrap(), "b;");
    assert_eq!(shell.history().get(1).unwrap(), "c;");
}

#[test]
fn scenario_multi_line_statement() {
    let mut shell = fresh(10);
    assert_eq!(shell.prompt_for_next_line(), ">> ");
    let first = shell.feed_line("select *");
    assert!(first.is_none());
    assert_eq!(shell.prompt_for_next_line(), ".. ");
    let second = shell.feed_line("from t;");
    assert_eq!(second.unwrap(), "select *\nfrom t;");
    assert_eq!(shell.prompt_for_next_line(), ">> ");
}

#[test]
fn unregistered_line_goes_to_default_handler_verbatim() {
    let mut shell = fresh(10);
    let mut out: Vec<String> = Vec::new();
    assert!(shell.eval(&mut out, "foo bar;").is_ok());
    let handler = shell.into_handler();
    assert_eq!(handler.defaults, vec![String::from("foo bar;")]);
}

#[test]
fn empty_and_whitespace_lines_yield_empty_and_no_history() {
    let mut shell = fresh(10);
    let mut out: Vec<String> = Vec::new();
    assert!(matches!(shell.eval(&mut out, ""), Err(ShellError::Empty)));
    assert!(matches!(shell.eval(&mut out, " \t  "), Err(ShellError::Empty)));
    assert!(matches!(shell.eval(&mut out, " ; "), Err(ShellError::Empty)));
    assert!(out.is_empty());
    assert_eq!(shell.history().len(), 0);
}

#[test]
fn failing_statement_not_recorded() {
    let mut shell = Shell::new(
        RecHandler { commands: Vec::new(), defaults: Vec::new(), fail_defaults: true },
        10,
        String::from(">> "),
        String::from(".. "),
    );
    let mut out: Vec<String> = Vec::new();
    let r = shell.eval(&mut out, "boom;");
    match r {
        Err(ShellError::Other(msg)) => assert_eq!(msg, "engine unreachable"),
        _ => panic!("expected the handler's failure"),
    }
    assert_eq!(shell.history().len(), 0);
}

#[test]
fn replay_dispatches_stored_line() {
    let mut shell = fresh(10);
    let mut out: Vec<String> = Vec::new();
    assert!(shell.eval(&mut out, "x;").is_ok());
    let r = shell.eval(&mut out, "history 0;");
    assert!(r.is_ok());
    assert_eq!(shell.history().len(), 2);
    assert_eq!(shell.history().get(1).unwrap(), "history 0;");
    let handler = shell.into_handler();
    assert_eq!(handler.defaults, vec![String::from("x;"), String::from("x;")]);
}

#[test]
fn replay_out_of_range_and_unparsable() {
    let mut shell = fresh(10);
    let mut out: Vec<String> = Vec::new();
    assert!(shell.eval(&mut out, "x;").is_ok());
    match shell.eval(&mut out, "history 5;") {
        Err(ShellError::InvalidHistory(tok)) => assert_eq!(tok, "5"),
        _ => panic!("expected InvalidHistory"),
    }
    match shell.eval(&mut out, "history abc;") {
        Err(ShellError::InvalidHistory(tok)) => assert_eq!(tok, "abc"),
        _ => panic!("expected InvalidHistory"),
    }
    // failures are not recorded
    assert_eq!(shell.history().len(), 1);
}

#[test]
fn replay_cycle_is_reported() {
    let mut shell = fresh(2);
    let mut out: Vec<String> = Vec::new();
    assert!(shell.eval(&mut out, "a;").is_ok());
    assert!(shell.eval(&mut out, "b;").is_ok());
    // history is [a; b;]; replaying index 0 succeeds and evicts a;
    assert!(shell.eval(&mut out, "history 0;").is_ok());
    // history is [b; history 0;]; replaying index 1 succeeds too
    assert!(shell.eval(&mut out, "history 1;").is_ok());
    // history is [history 0; history 1;]: index 1 now replays itself
    match shell.eval(&mut out, "history 1;") {
        Err(ShellError::Other(msg)) => assert_eq!(msg, "history replay cannot terminate"),
        _ => panic!("expected the replay-cycle error"),
    }
}

#[test]
fn history_builtin_prints_entries() {
    let mut shell = fresh(10);
    let mut out: Vec<String> = Vec::new();
    assert!(shell.eval(&mut out, "a;").is_ok());
    assert!(shell.eval(&mut out, "b b;").is_ok());
    let mut listing: Vec<String> = Vec::new();
    assert!(shell.dispatch(&mut listing, "history;").is_ok());
    assert_eq!(listing, vec![String::from("0: a;"), String::from("1: b b;")]);
}

#[test]
fn registered_command_args_and_minimum() {
    let mut shell = fresh(10);
    shell.register(Command {
        name: String::from("go"),
        description: String::from("run the engine"),
        min_args: 2,
        kind: CmdKind::Custom(7),
    });
    let mut out: Vec<String> = Vec::new();
    assert!(matches!(shell.eval(&mut out, "go a;"), Err(ShellError::MissingArgs)));
    assert!(shell.eval(&mut out, "go a b;").is_ok());
    let handler = shell.into_handler();
    assert_eq!(handler.commands, vec![(7, vec![String::from("a"), String::from("b")])]);
    assert!(handler.defaults.is_empty());
}

#[test]
fn help_lists_caller_commands_sorted() {
    let mut shell = fresh(10);
    shell.register(Command {
        name: String::from("zz"),
        description: String::from("last"),
        min_args: 0,
        kind: CmdKind::Custom(1),
    });
    shell.register(Command {
        name: String::from("aa"),
        description: String::from("first"),
        min_args: 0,
        kind: CmdKind::Custom(2),
    });
    let mut out: Vec<String> = Vec::new();
    assert!(shell.dispatch(&mut out, "help;").is_ok());
    assert_eq!(
        out,
        vec![
            String::from("aa - first"),
            String::from("help - list the registered commands"),
            String::from("history - print past statements, or replay one by index"),
            String::from("quit - leave the shell"),
            String::from("zz - last"),
        ]
    );
}
