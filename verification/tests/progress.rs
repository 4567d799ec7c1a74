use sqllogictest_bin::progress::{begin_line, finish_line, header, since, Progress};
use sqllogictest_bin::run::{context_line, finish_run, run_context, run_record, RunAction};
use sqllogictest_bin::script::ScriptEvent;
use sqllogictest_bin::text::{
    comes_before, pad_right, repeat, replace_all, to_chars, to_decimal, to_lower,
};

const MS: u64 = 1_000_000;

fn plain() {
    console::set_colors_enabled(false);
}

fn coloured() {
    console::set_colors_enabled(true);
}

#[test]
fn text_helpers() {
    assert_eq!(to_chars("aé"), vec!['a', 'é']);
    assert_eq!(to_decimal(0), "0");
    assert_eq!(to_decimal(9), "9");
    assert_eq!(to_decimal(10), "10");
    assert_eq!(to_decimal(5432), "5432");
    assert_eq!(to_decimal(u64::MAX), "18446744073709551615");
    assert_eq!(pad_right("ab", 4), "ab  ");
    assert_eq!(pad_right("abcd", 4), "abcd");
    assert_eq!(pad_right("abcdef", 4), "abcdef");
    assert_eq!(pad_right("é", 3), "é  ");
    assert_eq!(repeat("| ", 0), "");
    assert_eq!(repeat("| ", 3), "| | | ");
    assert_eq!(to_lower("Ab9Z"), "ab9z");
}

#[test]
fn replacing_finds_occurrences_from_left_to_right() {
    assert_eq!(replace_all("aaa", "aa", "b"), "ba");
    assert_eq!(replace_all("xaxax", "a", ""), "xxx");
    assert_eq!(replace_all("", "a", "b"), "");
    assert_eq!(replace_all("aé", "é", "éé"), "aéé");
    assert_eq!(replace_all("{d{db}b}", "{db}", "-"), "{d-b}");
}

#[test]
fn text_order_is_lexicographic() {
    assert!(comes_before("a", "b"));
    assert!(comes_before("a", "aa"));
    assert!(comes_before("", "a"));
    assert!(comes_before("B", "a"));
    assert!(!comes_before("a", "a"));
    assert!(!comes_before("b", "aa"));
    assert!(!comes_before("a", ""));
}

#[test]
fn header_is_padded_to_sixty_columns() {
    let line = header("a.slt");
    assert_eq!(line, format!("{: <60} .. ", "a.slt"));
    assert_eq!(line.len(), 64);
    let long = "x".repeat(70);
    assert_eq!(header(&long), format!("{long} .. "));
}

#[test]
fn begin_and_finish_lines() {
    assert_eq!(
        begin_line("<B>", false, 2, "b.slt"),
        format!("<B>\n| | {: <60} .. ", "b.slt")
    );
    assert_eq!(
        begin_line("<B>", true, 1, "b.slt"),
        format!("\n| {: <60} .. ", "b.slt")
    );
    assert_eq!(finish_line("<E>", "<O>", false, 1, "b.slt", 12), "<O> in 12 ms");
    assert_eq!(
        finish_line("<E>", "<O>", true, 1, "b.slt", 0),
        format!("\n| <E> {: <54} .. <O> in 0 ms", "b.slt")
    );
}

#[test]
fn time_never_runs_backwards() {
    assert_eq!(since(3, 10), 7);
    assert_eq!(since(10, 3), 0);
}

fn running_a_file_without_includes() {
    plain();
    let mut progress = Progress::start(5 * MS);
    match run_record(&mut progress, &ScriptEvent::Record, 6 * MS) {
        RunAction::Execute { output, flush } => {
            assert_eq!(output, "");
            assert!(!flush);
        }
        RunAction::Stop => panic!(),
    }
    assert_eq!(progress.total_time(17 * MS), 12 * MS);
    assert_eq!(finish_run(&mut progress, "a.slt", 17 * MS), "[OK] in 12 ms\n");
    assert!(progress.begin_times.is_empty());
    assert!(progress.did_pop);
}

#[test]
fn halt_stops_the_run() {
    let mut progress = Progress::start(1);
    assert!(matches!(
        run_record(&mut progress, &ScriptEvent::Halt, 2),
        RunAction::Stop
    ));
    assert_eq!(progress.begin_times, vec![1]);
    assert!(!progress.did_pop);
}

fn executed(action: RunAction) -> (String, bool) {
    match action {
        RunAction::Execute { output, flush } => (output, flush),
        RunAction::Stop => panic!(),
    }
}

fn includes_leave_the_begin_times() {
    plain();
    let mut out = header("a.slt");
    let mut progress = Progress::start(0);
    let b = || "b.slt".to_string();
    let (text, flush) = executed(run_record(
        &mut progress,
        &ScriptEvent::BeginInclude(b()),
        2 * MS,
    ));
    assert!(flush);
    out += &text;
    assert_eq!(progress.begin_times, vec![0, 2 * MS]);
    let (text, flush) = executed(run_record(
        &mut progress,
        &ScriptEvent::EndInclude(b()),
        5 * MS,
    ));
    assert!(!flush);
    out += &text;
    assert_eq!(progress.begin_times, vec![0]);
    let (text, _) = executed(run_record(
        &mut progress,
        &ScriptEvent::BeginInclude("c.slt".to_string()),
        5 * MS,
    ));
    out += &text;
    let (text, _) = executed(run_record(
        &mut progress,
        &ScriptEvent::EndInclude("c.slt".to_string()),
        6 * MS,
    ));
    out += &text;
    out += &finish_run(&mut progress, "a.slt", 9 * MS);
    assert_eq!(
        out,
        format!(
            "{: <60} .. [BEGIN]\n| {: <60} .. [OK] in 3 ms\n| {: <60} .. [OK] in 1 ms\n[END] {: <54} .. [OK] in 9 ms\n",
            "a.slt", "b.slt", "c.slt", "a.slt"
        )
    );
}

fn tags_are_coloured_where_colours_are_on() {
    coloured();
    let mut progress = Progress::start(0);
    assert_eq!(
        progress.begin_include("b.slt", 0),
        format!("\x1b[34m\x1b[1m[BEGIN]\x1b[0m\n| {: <60} .. ", "b.slt")
    );
    assert_eq!(
        progress.finish_test_file("b.slt", MS),
        "\x1b[32m\x1b[1m[OK]\x1b[0m in 1 ms"
    );
    assert_eq!(
        progress.finish_test_file("a.slt", MS),
        format!(
            "\n\x1b[34m\x1b[1m[END]\x1b[0m {: <54} .. \x1b[32m\x1b[1m[OK]\x1b[0m in 1 ms",
            "a.slt"
        )
    );
}

fn context_names_the_file() {
    assert_eq!(context_line("x"), "failed to run `x`");
    plain();
    assert_eq!(run_context("a.slt"), "failed to run `a.slt`");
    coloured();
    assert_eq!(run_context("a.slt"), "failed to run `\x1b[1ma.slt\x1b[0m`");
}

fn halt_ends_what_is_printed() {
    plain();
    let begin = ScriptEvent::BeginInclude("b.slt".to_string());
    let end = ScriptEvent::EndInclude("b.slt".to_string());
    let script = vec![
        ScriptEvent::Record,
        begin,
        ScriptEvent::Record,
        end,
        ScriptEvent::Halt,
        ScriptEvent::Record,
        ScriptEvent::BeginInclude("c.slt".to_string()),
        ScriptEvent::EndInclude("c.slt".to_string()),
    ];
    let mut progress = Progress::start(0);
    let mut executed = vec![];
    let mut out = String::new();
    for (i, event) in script.iter().enumerate() {
        match run_record(&mut progress, event, 0) {
            RunAction::Stop => break,
            RunAction::Execute { output, .. } => {
                executed.push(i);
                out += &output;
            }
        }
    }
    assert_eq!(executed, vec![0, 1, 2, 3]);
    assert_eq!(out.matches("[OK]").count(), 1);
    assert_eq!(progress.begin_times, vec![0]);
}

// The colour setting belongs to the whole process, so what depends on it is run in sequence.
#[test]
fn output_in_both_states_of_the_colour_setting() {
    running_a_file_without_includes();
    includes_leave_the_begin_times();
    halt_ends_what_is_printed();
    tags_are_coloured_where_colours_are_on();
    context_names_the_file();
}
