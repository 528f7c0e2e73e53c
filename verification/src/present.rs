use crate::arena::{arena_to_debug, frames, select_arena, well_formed, DebugArena};
use crate::artifact::{string_views, Abi};
use crate::decimal::{decimal, to_decimal};
use vstd::prelude::*;
use vstd::string::*;

verus! {

/// The colour of a line of the summary.
#[derive(Debug, Clone, Copy, PartialEq, Eq, Structural)]
pub enum Tint {
    Green,
    Red,
}

/// The escape sequence that ends a painted text.
pub open spec fn reset_code() -> Seq<char> {
    seq!['\x1B', '[', '0', 'm']
}

/// The escape sequence that starts a text painted in `tint`.
pub open spec fn tint_code(tint: Tint) -> Seq<char> {
    match tint {
        Tint::Green => seq!['\x1B', '[', '3', '2', 'm'],
        Tint::Red => seq!['\x1B', '[', '3', '1', 'm'],
    }
}

/// `text` between the escape sequences that paint it in `tint` on a
/// terminal.
pub open spec fn painted(tint: Tint, text: Seq<char>) -> Seq<char> {
    tint_code(tint) + text + reset_code()
}

/// Calls `ansi_term::Colour::paint` on `Colour::Green` or `Colour::Red` and
/// formats what it gives. For a plain foreground colour `ansi_term` writes
/// `ESC [ 3 n m` before the text, with `n` 2 for green and 1 for red, and
/// `ESC [ 0 m` behind it; the contract says so.
#[verifier::external_body]
fn paint(tint: Tint, text: &str) -> (out: String)
    ensures
        out@ == painted(tint, text@),
{
    let colour = match tint {
        Tint::Green => ansi_term::Colour::Green,
        Tint::Red => ansi_term::Colour::Red,
    };
    format!("{}", colour.paint(text))
}

/// The lines of the summary of an execution: whether the script passed, in
/// green, or failed, in red; the gas it used; and its logs, in order, under
/// their heading.
pub open spec fn summary(success: bool, gas_used: u64, logs: Seq<Seq<char>>) -> Seq<Seq<char>> {
    seq![
        if success {
            painted(Tint::Green, "Script ran successfully."@)
        } else {
            painted(Tint::Red, "Script failed."@)
        },
        "Gas Used: "@ + decimal(gas_used as nat),
        "== Logs == "@,
    ] + logs
}

/// The lines of the summary of an execution.
pub fn summary_lines(success: bool, gas_used: u64, logs: &Vec<String>) -> (lines: Vec<String>)
    ensures
        string_views(lines@) == summary(success, gas_used, string_views(logs@)),
{
    let mut lines: Vec<String> = Vec::new();
    let headline = if success {
        paint(Tint::Green, "Script ran successfully.")
    } else {
        paint(Tint::Red, "Script failed.")
    };
    lines.push(headline);
    let mut gas = String::from_str("Gas Used: ");
    gas.append(to_decimal(gas_used).as_str());
    lines.push(gas);
    lines.push(String::from_str("== Logs == "));
    let ghost head = string_views(lines@);
    assert(head =~= summary(success, gas_used, Seq::empty()));
    let mut i: usize = 0;
    while i < logs.len()
        invariant
            i <= logs.len(),
            head == summary(success, gas_used, Seq::empty()),
            string_views(lines@) == head + string_views(logs@).subrange(0, i as int),
        decreases logs.len() - i,
    {
        let log = logs[i].clone();
        let ghost earlier = string_views(lines@);
        lines.push(log);
        assert(string_views(lines@) =~= earlier.push(log@));
        assert(string_views(logs@)[i as int] == log@);
        assert(string_views(lines@) =~= head + string_views(logs@).subrange(0, i + 1));
        i += 1;
    }
    assert(string_views(logs@).subrange(0, i as int) =~= string_views(logs@));
    assert(string_views(lines@) =~= summary(success, gas_used, string_views(logs@)));
    lines
}

/// Whether the contract has a function `setUp`, to be called before the
/// script.
pub open spec fn has_set_up(functions: Seq<Seq<char>>) -> bool {
    exists|i: int| 0 <= i < functions.len() && functions[i] == "setUp"@
}

impl Abi {
    /// Whether the contract has a function `setUp`, to be called before the
    /// script.
    pub fn needs_setup(&self) -> (yes: bool)
        ensures
            yes == has_set_up(self@.functions),
    {
        let wanted = String::from_str("setUp");
        let mut i: usize = 0;
        while i < self.functions.len()
            invariant
                i <= self.functions.len(),
                wanted@ == "setUp"@,
                forall|j: int| 0 <= j < i ==> self@.functions[j] != "setUp"@,
            decreases self.functions.len() - i,
        {
            if self.functions[i] == wanted {
                assert(self@.functions[i as int] == "setUp"@);
                return true;
            }
            i += 1;
        }
        false
    }
}

/// The three ways to show an execution.
#[derive(Debug, Clone, Copy, PartialEq, Eq, Structural)]
pub enum Mode {
    /// Step through the execution in the debugger.
    Debug,
    /// Print the recorded traces.
    Traces,
    /// Print whether the script passed, the gas and the logs.
    Summary,
}

/// The verbosity above which traces are shown.
pub const TRACE_VERBOSITY: u8 = 2;

/// The verbosity with which an execution is traced: that of the arguments,
/// or 3 where the debugger is asked for.
pub fn effective_verbosity(debug: bool, verbosity: u8) -> (effective: u8)
    ensures
        effective == if debug {
            3
        } else {
            verbosity
        },
{
    if debug {
        3
    } else {
        verbosity
    }
}

/// The way to show an execution: the debugger where it is asked for;
/// else the traces where the verbosity is above `TRACE_VERBOSITY`; else the
/// summary.
pub fn select_mode(debug: bool, verbosity: u8) -> (mode: Mode)
    ensures
        mode == if debug {
            Mode::Debug
        } else if verbosity > TRACE_VERBOSITY {
            Mode::Traces
        } else {
            Mode::Summary
        },
{
    if debug {
        Mode::Debug
    } else if verbosity > TRACE_VERBOSITY {
        Mode::Traces
    } else {
        Mode::Summary
    }
}

/// Which of the recorded traces to print.
#[derive(Debug, Clone, Copy, PartialEq, Eq, Structural)]
pub enum TraceChoice {
    /// Every trace, those of the set-up too.
    All,
    /// The last trace only.
    Last,
    /// None: the summary is printed in their place.
    Nothing,
}

/// Which traces to print at a verbosity above `TRACE_VERBOSITY`: all of
/// them where the script failed or the verbosity is above 4; the last where
/// the script passed at verbosity 4; none where it passed at verbosity 3.
pub fn choose_traces(success: bool, verbosity: u8) -> (choice: TraceChoice)
    ensures
        choice == if !success || verbosity > 4 {
            TraceChoice::All
        } else if verbosity > 3 {
            TraceChoice::Last
        } else {
            TraceChoice::Nothing
        },
{
    if !success || verbosity > 4 {
        TraceChoice::All
    } else if verbosity > 3 {
        TraceChoice::Last
    } else {
        TraceChoice::Nothing
    }
}

/// What the execution of a script gave, as far as showing it reads it.
pub struct ExecutionResult {
    pub success: bool,
    pub gas_used: u64,
    pub logs: Vec<String>,
    /// The number of traces, where traces were recorded.
    pub traces: Option<usize>,
    /// Whether the contracts that the execution met were identified.
    pub identified_contracts: bool,
    /// The calls of each phase of the execution, where they were recorded.
    pub debug_calls: Option<Vec<DebugArena>>,
}

pub struct ExecutionView {
    pub success: bool,
    pub gas_used: u64,
    pub logs: Seq<Seq<char>>,
    pub traces: Option<usize>,
    pub identified_contracts: bool,
    pub debug_calls: Option<Seq<Seq<Seq<usize>>>>,
}

/// The views of a list of arenas, in order.
pub open spec fn arena_views(arenas: Seq<DebugArena>) -> Seq<Seq<Seq<usize>>> {
    arenas.map_values(|a: DebugArena| a@)
}

impl View for ExecutionResult {
    type V = ExecutionView;

    open spec fn view(&self) -> ExecutionView {
        ExecutionView {
            success: self.success,
            gas_used: self.gas_used,
            logs: string_views(self.logs@),
            traces: self.traces,
            identified_contracts: self.identified_contracts,
            debug_calls: match self.debug_calls {
                Some(arenas) => Some(arena_views(arenas@)),
                None => None,
            },
        }
    }
}

/// What is to be shown of an execution.
pub enum Presentation {
    /// The debugger, on the frames of one arena: each frame is the place of
    /// a call in the arena at place `arena`.
    Debugger { arena: usize, frames: Vec<usize> },
    /// The traces at the given places, in order, then an empty line.
    Traces { shown: Vec<usize> },
    /// The given lines.
    Summary { lines: Vec<String> },
}

pub enum PresentationView {
    Debugger { arena: usize, frames: Seq<usize> },
    Traces { shown: Seq<usize> },
    Summary { lines: Seq<Seq<char>> },
}

impl View for Presentation {
    type V = PresentationView;

    open spec fn view(&self) -> PresentationView {
        match self {
            Presentation::Debugger { arena, frames } => PresentationView::Debugger {
                arena: *arena,
                frames: frames@,
            },
            Presentation::Traces { shown } => PresentationView::Traces { shown: shown@ },
            Presentation::Summary { lines } => PresentationView::Summary {
                lines: string_views(lines@),
            },
        }
    }
}

/// Why an execution cannot be shown as asked.
#[derive(Debug, Clone, Copy, PartialEq, Eq, Structural)]
pub enum PresentError {
    /// The debugger is asked for, and no calls were recorded.
    NoDebugCalls,
    /// The arena to debug has no root, or a call in it that stands before
    /// the call that made it.
    MalformedArena,
    /// Traces, or the debugger, are asked for, and the contracts were not
    /// identified. This is a fault of the program, not of its user.
    NoIdentifiedContracts,
    /// Traces are asked for, and none were recorded. This is a fault of the
    /// program, not of its user.
    NoTraces,
}

/// What a presentation error says to the user.
pub open spec fn present_error_text(error: PresentError) -> Seq<char> {
    match error {
        PresentError::NoDebugCalls => "Debug must be enabled by now"@,
        PresentError::MalformedArena => "Unexpected error: Malformed debug arena. Please report this as a bug"@,
        PresentError::NoIdentifiedContracts => "Unexpected error: No identified contracts. Please report this as a bug"@,
        PresentError::NoTraces => "Unexpected error: No traces despite verbosity level. Please report this as a bug"@,
    }
}

impl PresentError {
    /// What the error says to the user.
    pub fn message(&self) -> (text: String)
        ensures
            text@ == present_error_text(*self),
    {
        match self {
            PresentError::NoDebugCalls => String::from_str("Debug must be enabled by now"),
            PresentError::MalformedArena => String::from_str(
                "Unexpected error: Malformed debug arena. Please report this as a bug",
            ),
            PresentError::NoIdentifiedContracts => String::from_str(
                "Unexpected error: No identified contracts. Please report this as a bug",
            ),
            PresentError::NoTraces => String::from_str(
                "Unexpected error: No traces despite verbosity level. Please report this as a bug",
            ),
        }
    }
}

/// The places `0 .. n`, in order.
pub open spec fn places(n: int) -> Seq<usize> {
    Seq::new(
        if n >= 0 {
            n as nat
        } else {
            0
        },
        |i: int| i as usize,
    )
}

/// What the debugger is to show: the frames of the arena to debug.
pub open spec fn debugger_view(needs_setup: bool, result: ExecutionView) -> Result<
    PresentationView,
    PresentError,
> {
    match result.debug_calls {
        None => Err(PresentError::NoDebugCalls),
        Some(arenas) => if arenas.len() == 0 {
            Err(PresentError::NoDebugCalls)
        } else {
            let place = arena_to_debug(needs_setup, arenas.len() as int);
            if !well_formed(arenas[place]) {
                Err(PresentError::MalformedArena)
            } else if !result.identified_contracts {
                Err(PresentError::NoIdentifiedContracts)
            } else {
                Ok(PresentationView::Debugger { arena: place as usize, frames: frames(arenas[place]) })
            }
        },
    }
}

/// What is printed at a verbosity above `TRACE_VERBOSITY`.
pub open spec fn traces_view(verbosity: u8, result: ExecutionView) -> Result<
    PresentationView,
    PresentError,
> {
    match result.traces {
        None => Err(PresentError::NoTraces),
        Some(count) => if !result.identified_contracts {
            Err(PresentError::NoIdentifiedContracts)
        } else if !result.success || verbosity > 4 {
            Ok(PresentationView::Traces { shown: places(count as int) })
        } else if verbosity > 3 {
            Ok(
                PresentationView::Traces {
                    shown: if count > 0 {
                        seq![(count - 1) as usize]
                    } else {
                        Seq::empty()
                    },
                },
            )
        } else {
            Ok(
                PresentationView::Summary {
                    lines: summary(result.success, result.gas_used, result.logs).push(
                        Seq::empty(),
                    ),
                },
            )
        },
    }
}

/// What is to be shown of an execution, in the mode that the flags select.
pub open spec fn presentation(
    debug: bool,
    verbosity: u8,
    needs_setup: bool,
    result: ExecutionView,
) -> Result<PresentationView, PresentError> {
    if debug {
        debugger_view(needs_setup, result)
    } else if verbosity > TRACE_VERBOSITY {
        traces_view(verbosity, result)
    } else {
        Ok(
            PresentationView::Summary {
                lines: summary(result.success, result.gas_used, result.logs),
            },
        )
    }
}

/// What the outcome of `present` stands for.
pub open spec fn presented(outcome: Result<Presentation, PresentError>) -> Result<
    PresentationView,
    PresentError,
> {
    match outcome {
        Ok(shown) => Ok(shown@),
        Err(e) => Err(e),
    }
}

/// The places `0 .. n`, in order.
fn all_places(n: usize) -> (all: Vec<usize>)
    ensures
        all@ == places(n as int),
{
    let mut all: Vec<usize> = Vec::new();
    let mut i: usize = 0;
    while i < n
        invariant
            i <= n,
            all@ == places(i as int),
        decreases n - i,
    {
        all.push(i);
        assert(all@ =~= places(i + 1));
        i += 1;
    }
    all
}

/// Decides what to show of an execution. With `debug`, the frames of the
/// arena to debug; else, at a verbosity above `TRACE_VERBOSITY`, the traces
/// to print, or the summary where the script passed at verbosity 3; else the
/// summary. `needs_setup` says whether a set-up call ran before the script.
pub fn present(debug: bool, verbosity: u8, needs_setup: bool, result: &ExecutionResult) -> (outcome:
    Result<Presentation, PresentError>)
    ensures
        presented(outcome) == presentation(debug, verbosity, needs_setup, result@),
{
    match select_mode(debug, verbosity) {
        Mode::Debug => match &result.debug_calls {
            None => Err(PresentError::NoDebugCalls),
            Some(arenas) => {
                if arenas.len() == 0 {
                    return Err(PresentError::NoDebugCalls);
                }
                let place = select_arena(needs_setup, arenas.len());
                assert(arena_views(arenas@)[place as int] == arenas@[place as int]@);
                match arenas[place].frames() {
                    None => Err(PresentError::MalformedArena),
                    Some(frames) => if !result.identified_contracts {
                        Err(PresentError::NoIdentifiedContracts)
                    } else {
                        Ok(Presentation::Debugger { arena: place, frames })
                    },
                }
            },
        },
        Mode::Traces => match result.traces {
            None => Err(PresentError::NoTraces),
            Some(count) => if !result.identified_contracts {
                Err(PresentError::NoIdentifiedContracts)
            } else {
                match choose_traces(result.success, verbosity) {
                    TraceChoice::All => Ok(Presentation::Traces { shown: all_places(count) }),
                    TraceChoice::Last => {
                        let mut shown: Vec<usize> = Vec::new();
                        if count > 0 {
                            shown.push(count - 1);
                            assert(shown@ =~= seq![(count - 1) as usize]);
                        }
                        Ok(Presentation::Traces { shown })
                    },
                    TraceChoice::Nothing => {
                        let mut lines = summary_lines(
                            result.success,
                            result.gas_used,
                            &result.logs,
                        );
                        let ghost before = string_views(lines@);
                        lines.push(String::new());
                        assert(string_views(lines@) =~= before.push(Seq::<char>::empty()));
                        Ok(Presentation::Summary { lines })
                    },
                }
            },
        },
        Mode::Summary => Ok(
            Presentation::Summary {
                lines: summary_lines(result.success, result.gas_used, &result.logs),
            },
        ),
    }
}

} // verus!
