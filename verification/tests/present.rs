use foundry_cli::arena::{DebugArena, DebugNode};
use foundry_cli::artifact::Abi;
use foundry_cli::decimal::to_decimal;
use foundry_cli::present::{
    choose_traces, effective_verbosity, present, select_mode, summary_lines, ExecutionResult, Mode, PresentError, Presentation, TraceChoice,
};

fn result_of(success: bool) -> ExecutionResult {
    ExecutionResult {
        success,
        gas_used: 21000,
        logs: vec!["hello".to_string()],
        traces: None,
        identified_contracts: false,
        debug_calls: None,
    }
}

fn arena_with(children: Vec<Vec<usize>>) -> DebugArena {
    DebugArena { arena: children.into_iter().map(|children| DebugNode { children }).collect() }
}

fn lines_of(shown: Presentation) -> Vec<String> {
    match shown {
        Presentation::Summary { lines } => lines,
        _ => panic!("expected a summary"),
    }
}

fn shown_of(shown: Presentation) -> Vec<usize> {
    match shown {
        Presentation::Traces { shown } => shown,
        _ => panic!("expected traces"),
    }
}

#[test]
fn summary_holds_gas_and_logs_and_no_traces() {
    let lines = lines_of(present(false, 0, false, &result_of(true)).ok().unwrap());
    assert_eq!(
        lines,
        vec![
            "\u{1b}[32mScript ran successfully.\u{1b}[0m".to_string(),
            "Gas Used: 21000".to_string(),
            "== Logs == ".to_string(),
            "hello".to_string(),
        ]
    );
    let text = lines.join("\n");
    assert!(text.contains("21000"));
    assert!(text.contains("hello"));
    assert!(!text.to_lowercase().contains("trace"));
}

#[test]
fn failed_script_is_painted_red() {
    let lines = summary_lines(false, 0, &vec![]);
    assert_eq!(
        lines,
        vec![
            "\u{1b}[31mScript failed.\u{1b}[0m".to_string(),
            "Gas Used: 0".to_string(),
            "== Logs == ".to_string(),
        ]
    );
    assert_eq!(lines[0], format!("{}", ansi_term::Colour::Red.paint("Script failed.")));
}

#[test]
fn logs_keep_their_order() {
    let logs = vec!["one".to_string(), "two".to_string(), "".to_string(), "three".to_string()];
    let lines = summary_lines(true, 7, &logs);
    assert_eq!(&lines[3..], &logs[..]);
    assert_eq!(lines[1], "Gas Used: 7");
}

#[test]
fn decimal_digits() {
    assert_eq!(to_decimal(0), "0");
    assert_eq!(to_decimal(9), "9");
    assert_eq!(to_decimal(10), "10");
    assert_eq!(to_decimal(21000), "21000");
    assert_eq!(to_decimal(1234567890), "1234567890");
    assert_eq!(to_decimal(u64::MAX), "18446744073709551615");
}

#[test]
fn mode_follows_the_flags() {
    assert_eq!(select_mode(true, 0), Mode::Debug);
    assert_eq!(select_mode(true, 5), Mode::Debug);
    assert_eq!(select_mode(false, 0), Mode::Summary);
    assert_eq!(select_mode(false, 2), Mode::Summary);
    assert_eq!(select_mode(false, 3), Mode::Traces);
    assert_eq!(select_mode(false, 255), Mode::Traces);
    assert_eq!(effective_verbosity(true, 0), 3);
    assert_eq!(effective_verbosity(true, 5), 3);
    assert_eq!(effective_verbosity(false, 4), 4);
}

#[test]
fn trace_choice_follows_outcome_and_verbosity() {
    assert_eq!(choose_traces(true, 3), TraceChoice::Nothing);
    assert_eq!(choose_traces(true, 4), TraceChoice::Last);
    assert_eq!(choose_traces(true, 5), TraceChoice::All);
    assert_eq!(choose_traces(false, 3), TraceChoice::All);
    assert_eq!(choose_traces(false, 4), TraceChoice::All);
    assert_eq!(choose_traces(false, 5), TraceChoice::All);
}

#[test]
fn traces_need_traces_and_identified_contracts() {
    let mut result = result_of(true);
    assert_eq!(present(false, 3, false, &result).err(), Some(PresentError::NoTraces));
    result.identified_contracts = true;
    assert_eq!(present(false, 3, false, &result).err(), Some(PresentError::NoTraces));
    result.identified_contracts = false;
    result.traces = Some(2);
    assert_eq!(present(false, 3, false, &result).err(), Some(PresentError::NoIdentifiedContracts));
    assert!(present(false, 2, false, &result).is_ok());
}

#[test]
fn traces_shown_at_each_verbosity() {
    let mut result = result_of(true);
    result.traces = Some(3);
    result.identified_contracts = true;
    let at_three = lines_of(present(false, 3, false, &result).ok().unwrap());
    assert_eq!(at_three.len(), 5);
    assert_eq!(at_three[1], "Gas Used: 21000");
    assert_eq!(at_three[4], "");
    assert_eq!(shown_of(present(false, 4, false, &result).ok().unwrap()), vec![2]);
    assert_eq!(shown_of(present(false, 5, false, &result).ok().unwrap()), vec![0, 1, 2]);
    result.success = false;
    assert_eq!(shown_of(present(false, 3, false, &result).ok().unwrap()), vec![0, 1, 2]);
    assert_eq!(shown_of(present(false, 4, false, &result).ok().unwrap()), vec![0, 1, 2]);
    result.success = true;
    result.traces = Some(0);
    assert_eq!(shown_of(present(false, 4, false, &result).ok().unwrap()), Vec::<usize>::new());
    assert_eq!(shown_of(present(false, 5, false, &result).ok().unwrap()), Vec::<usize>::new());
}

#[test]
fn debugger_gets_the_frames_of_the_script_arena() {
    let mut result = result_of(true);
    result.identified_contracts = true;
    result.debug_calls = Some(vec![
        arena_with(vec![vec![1], vec![]]),
        arena_with(vec![vec![1, 2], vec![3], vec![4], vec![], vec![]]),
    ]);
    match present(true, 0, true, &result).ok().unwrap() {
        Presentation::Debugger { arena, frames } => {
            assert_eq!(arena, 1);
            assert_eq!(frames, vec![1, 3, 2, 4]);
        }
        _ => panic!("expected the debugger"),
    }
    match present(true, 0, false, &result).ok().unwrap() {
        Presentation::Debugger { arena, frames } => {
            assert_eq!(arena, 0);
            assert_eq!(frames, vec![1]);
        }
        _ => panic!("expected the debugger"),
    }
    result.debug_calls = Some(vec![arena_with(vec![vec![1], vec![]])]);
    match present(true, 0, true, &result).ok().unwrap() {
        Presentation::Debugger { arena, frames } => {
            assert_eq!(arena, 0);
            assert_eq!(frames, vec![1]);
        }
        _ => panic!("expected the debugger"),
    }
}

#[test]
fn debugger_needs_its_data() {
    let mut result = result_of(true);
    result.identified_contracts = true;
    assert_eq!(present(true, 5, false, &result).err(), Some(PresentError::NoDebugCalls));
    result.debug_calls = Some(vec![]);
    assert_eq!(present(true, 5, false, &result).err(), Some(PresentError::NoDebugCalls));
    result.debug_calls = Some(vec![arena_with(vec![])]);
    assert_eq!(present(true, 5, false, &result).err(), Some(PresentError::MalformedArena));
    result.debug_calls = Some(vec![arena_with(vec![vec![0]])]);
    assert_eq!(present(true, 5, false, &result).err(), Some(PresentError::MalformedArena));
    result.debug_calls = Some(vec![arena_with(vec![vec![]])]);
    result.identified_contracts = false;
    assert_eq!(present(true, 5, false, &result).err(), Some(PresentError::NoIdentifiedContracts));
}

#[test]
fn set_up_is_found_by_name() {
    let with = Abi { functions: vec!["run".to_string(), "setUp".to_string()], json: String::new() };
    let without = Abi {
        functions: vec!["run".to_string(), "setup".to_string(), "setUp2".to_string()],
        json: "setUp".to_string(),
    };
    assert!(with.needs_setup());
    assert!(!without.needs_setup());
    assert!(!Abi { functions: vec![], json: "[]".to_string() }.needs_setup());
}

#[test]
fn presentation_errors_have_their_messages() {
    assert_eq!(
        PresentError::NoTraces.message(),
        "Unexpected error: No traces despite verbosity level. Please report this as a bug"
    );
    assert_eq!(
        PresentError::NoIdentifiedContracts.message(),
        "Unexpected error: No identified contracts. Please report this as a bug"
    );
    assert_eq!(PresentError::NoDebugCalls.message(), "Debug must be enabled by now");
    assert_eq!(
        PresentError::MalformedArena.message(),
        "Unexpected error: Malformed debug arena. Please report this as a bug"
    );
}
