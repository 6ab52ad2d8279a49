use tax_shell::decimal::Decimal;
use tax_shell::dispatch::{CommandError, Input, Reply, Shell};
use tax_shell::reader::ParsedCommand;
use tax_shell::session::{GameState, TAX_BRACKETS};
use tax_shell::validate::{ArgumentError, ArityError, ParseError};
use tax_shell::registry::ParamKind;

fn shell_at(rate: &str) -> Shell {
    Shell::new(GameState::new(Decimal::parse(rate).unwrap()))
}

fn line(shell: &mut Shell, text: &str) -> Reply {
    shell.step(&Input::Line(text.to_string()))
}

fn rate_of(shell: &Shell) -> String {
    shell.state().tax_rate().to_text()
}

fn strings(words: &[&str]) -> Vec<String> {
    words.iter().map(|w| w.to_string()).collect()
}

#[test]
fn a_fresh_session_starts_at_a_bracket() {
    for _ in 0..200 {
        let state = GameState::default();
        let rate = state.tax_rate().to_text();
        assert!(["10", "12", "22", "24", "32", "35", "37"].contains(&rate.as_str()), "{}", rate);
    }
}

#[test]
fn a_fresh_session_reaches_every_bracket() {
    let mut seen = std::collections::BTreeSet::new();
    for _ in 0..2000 {
        seen.insert(GameState::default().tax_rate().to_text());
    }
    assert_eq!(seen.len(), 7);
}

#[test]
fn each_bracket_can_be_chosen() {
    assert_eq!(TAX_BRACKETS, [10, 12, 22, 24, 32, 35, 37]);
    let texts = ["10", "12", "22", "24", "32", "35", "37"];
    for index in 0..7 {
        assert_eq!(GameState::with_bracket(index).tax_rate().to_text(), texts[index]);
    }
}

#[test]
fn the_rate_of_a_state_can_be_replaced() {
    let mut state = GameState::with_bracket(0);
    state.set_tax_rate(Decimal::parse("3.5").unwrap());
    assert_eq!(state.tax_rate().to_text(), "3.5");
    assert_eq!(state, GameState::new(Decimal::parse("03.50").unwrap()));
}

#[test]
fn taxset_then_tax_prints_the_percentage() {
    for p in ["18.5", "0", "100", "-2.25", "0.001", "99999999999999999999999999"] {
        let mut shell = shell_at("10");
        assert_eq!(line(&mut shell, &format!("taxset {}", p)), Reply::Done);
        assert_eq!(line(&mut shell, "tax"), Reply::Output(strings(&[p])));
    }
}

#[test]
fn taxset_prints_the_canonical_form_of_what_was_typed() {
    let mut shell = shell_at("10");
    assert_eq!(line(&mut shell, "taxset 18.50"), Reply::Done);
    assert_eq!(line(&mut shell, "tax"), Reply::Output(strings(&["18.5"])));
    assert_eq!(line(&mut shell, "taxset +007"), Reply::Done);
    assert_eq!(line(&mut shell, "tax"), Reply::Output(strings(&["7"])));
}

#[test]
fn taxset_without_argument_reports_the_missing_percentage() {
    let mut shell = shell_at("22");
    let reply = line(&mut shell, "taxset");
    assert_eq!(
        reply,
        Reply::Failed(CommandError::Arguments(ArgumentError::Arity(ArityError::Missing(strings(&[
            "percentage"
        ])))))
    );
    assert_eq!(reply.lines(), strings(&["Invalid arguments, missing: percentage."]));
    assert_eq!(rate_of(&shell), "22");
    assert!(shell.is_running());
}

#[test]
fn taxset_with_too_many_arguments_changes_nothing() {
    let mut shell = shell_at("22");
    let reply = line(&mut shell, "taxset 1 2");
    assert_eq!(
        reply,
        Reply::Failed(CommandError::Arguments(ArgumentError::Arity(ArityError::Extra(strings(&["2"])))))
    );
    assert_eq!(reply.lines(), strings(&["Invalid arguments, unexpected: 2."]));
    assert_eq!(rate_of(&shell), "22");
}

#[test]
fn taxset_with_a_word_reports_a_parse_error() {
    let mut shell = shell_at("22");
    let reply = line(&mut shell, "taxset abc");
    assert_eq!(
        reply,
        Reply::Failed(CommandError::Arguments(ArgumentError::Parse(ParseError {
            argument: "abc".to_string(),
            parameter: "percentage".to_string(),
            expected: ParamKind::Number,
        })))
    );
    assert_eq!(reply.lines(), strings(&["Invalid percentage 'abc': expected a number."]));
    assert_eq!(rate_of(&shell), "22");
    assert!(shell.is_running());
}

#[test]
fn an_unknown_command_is_reported_and_changes_nothing() {
    for word in ["frobnicate", "taxes", "quit", "18.5", "?", "hel"] {
        let mut shell = shell_at("24");
        let reply = line(&mut shell, &format!("{} 1 2", word));
        assert_eq!(reply, Reply::Failed(CommandError::Unknown(word.to_string())));
        assert_eq!(reply.lines(), vec![format!("unknown command: {}", word)]);
        assert_eq!(rate_of(&shell), "24");
        assert!(shell.is_running());
    }
}

#[test]
fn commands_are_read_without_regard_to_case() {
    let mut shell = shell_at("24");
    assert_eq!(line(&mut shell, "TAX"), Reply::Output(strings(&["24"])));
    assert_eq!(line(&mut shell, "TaxSet 5"), Reply::Done);
    assert_eq!(line(&mut shell, "Tax"), Reply::Output(strings(&["5"])));
    assert_eq!(line(&mut shell, "EXIT"), Reply::Exit);
}

#[test]
fn help_prints_the_listing() {
    let mut shell = shell_at("24");
    let reply = line(&mut shell, "help");
    let expected = strings(&[
        "General:",
        "  help - Display help menu.",
        "  exit - Exit the program.",
        "Taxes:",
        "  tax - Get the current tax %.",
        "  taxset <percentage> - Set the tax %.",
    ]);
    assert_eq!(reply.lines(), expected);
    assert_eq!(reply, Reply::Output(expected));
    assert_eq!(rate_of(&shell), "24");
    assert!(shell.is_running());
}

#[test]
fn commands_without_parameters_refuse_arguments() {
    for word in ["help", "exit", "tax"] {
        let mut shell = shell_at("24");
        let reply = line(&mut shell, &format!("{} now", word));
        assert_eq!(
            reply,
            Reply::Failed(CommandError::Arguments(ArgumentError::Arity(ArityError::Extra(strings(&[
                "now"
            ])))))
        );
        assert!(shell.is_running());
    }
}

#[test]
fn tax_prints_the_same_value_every_time() {
    let mut shell = Shell::new(GameState::default());
    let first = line(&mut shell, "tax");
    for _ in 0..5 {
        assert_eq!(line(&mut shell, "tax"), first);
    }
    assert_eq!(line(&mut shell, "taxset 3.25"), Reply::Done);
    for _ in 0..5 {
        assert_eq!(line(&mut shell, "tax"), Reply::Output(strings(&["3.25"])));
    }
}

#[test]
fn an_empty_line_is_no_command_and_changes_nothing() {
    let mut shell = shell_at("35");
    assert_eq!(line(&mut shell, ""), Reply::NoCommand);
    assert_eq!(line(&mut shell, "   \n"), Reply::NoCommand);
    assert_eq!(Reply::NoCommand.lines(), Vec::<String>::new());
    assert_eq!(rate_of(&shell), "35");
    assert!(shell.is_running());
}

#[test]
fn exit_ends_the_session() {
    let mut shell = shell_at("35");
    assert!(shell.is_running());
    assert_eq!(line(&mut shell, "exit\n"), Reply::Exit);
    assert!(!shell.is_running());
    assert_eq!(Reply::Exit.lines(), Vec::<String>::new());
}

#[test]
fn the_end_of_the_input_ends_the_session() {
    let mut shell = shell_at("35");
    assert_eq!(shell.step(&Input::Closed), Reply::Exit);
    assert!(!shell.is_running());
    assert_eq!(rate_of(&shell), "35");
}

#[test]
fn a_session_that_is_over_stays_over() {
    let mut shell = shell_at("35");
    assert_eq!(line(&mut shell, "exit"), Reply::Exit);
    assert_eq!(line(&mut shell, "taxset 1"), Reply::Exit);
    assert_eq!(line(&mut shell, "tax"), Reply::Exit);
    assert_eq!(shell.step(&Input::Closed), Reply::Exit);
    let command = ParsedCommand { name: "taxset".to_string(), raw_args: strings(&["2"]) };
    assert_eq!(shell.execute(&command), Reply::Exit);
    assert_eq!(rate_of(&shell), "35");
    assert!(!shell.is_running());
}

#[test]
fn a_whole_session_from_start_to_exit() {
    let mut shell = Shell::new(GameState::default());
    let first = line(&mut shell, "tax\n").lines();
    assert_eq!(first.len(), 1);
    assert!(["10", "12", "22", "24", "32", "35", "37"].contains(&first[0].as_str()));
    assert_eq!(line(&mut shell, "taxset 18.5\n"), Reply::Done);
    assert_eq!(line(&mut shell, "tax\n").lines(), strings(&["18.5"]));
    assert_eq!(line(&mut shell, "exit\n"), Reply::Exit);
    assert!(!shell.is_running());
}

#[test]
fn a_parsed_command_can_be_run_directly() {
    let mut shell = shell_at("12");
    let set = ParsedCommand { name: "taxset".to_string(), raw_args: strings(&["4.5"]) };
    assert_eq!(shell.execute(&set), Reply::Done);
    let show = ParsedCommand { name: "tax".to_string(), raw_args: vec![] };
    assert_eq!(shell.execute(&show), Reply::Output(strings(&["4.5"])));
    let upper = ParsedCommand { name: "TAX".to_string(), raw_args: vec![] };
    assert_eq!(shell.execute(&upper), Reply::Failed(CommandError::Unknown("TAX".to_string())));
    assert_eq!(shell.registry().all_commands().len(), 4);
}
