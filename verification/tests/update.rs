use sqllogictest_bin::script::ScriptEvent;
use sqllogictest_bin::update::{
    temp_file_name, trim_step, update_record, updated_record, UpdateAction, Updater, TAIL_LEN,
};

const MS: u64 = 1_000_000;

fn trim(mut bytes: Vec<u8>) -> Vec<u8> {
    loop {
        assert!(bytes.len() >= TAIL_LEN);
        let step = trim_step(&bytes[bytes.len() - TAIL_LEN..], bytes.len() as u64);
        if let Some(len) = step.cut_to {
            bytes.truncate(len as usize);
        }
        if step.done {
            return bytes;
        }
    }
}

#[test]
fn one_trailing_newline_stays() {
    for newlines in 1..40usize {
        let text = "statement ok";
        let bytes = format!("{text}{}", "\n".repeat(newlines)).into_bytes();
        assert_eq!(trim(bytes), format!("{text}\n").into_bytes());
    }
}

#[test]
fn trim_steps_follow_the_tail() {
    let step = trim_step(b"abcdefg\n", 100);
    assert_eq!(step.cut_to, None);
    assert!(step.done);
    let step = trim_step(b"abcde\n\n\n", 100);
    assert_eq!(step.cut_to, Some(98));
    assert!(step.done);
    let step = trim_step(b"\n\n\n\n\n\n\n\n", 100);
    assert_eq!(step.cut_to, Some(93));
    assert!(!step.done);
    let step = trim_step(b"\n\na\n\n\n\n\n", 8);
    assert_eq!(step.cut_to, Some(4));
    assert!(step.done);
}

#[test]
fn temp_file_stands_next_to_the_file() {
    assert_eq!(temp_file_name("a.slt"), "a.slt.temp");
}

#[test]
fn records_are_written_with_a_newline() {
    assert_eq!(update_record("halt", true), Some("halt\n".to_string()));
    assert_eq!(update_record("halt", false), None);
    assert_eq!(updated_record("old", &None), "old\n");
    assert_eq!(updated_record("old", &Some("new".to_string())), "new\n");
}

/// Deals with a record and gives the action and what is printed.
fn deal(updater: &mut Updater, event: &ScriptEvent, now: u64) -> (UpdateAction, String, bool) {
    let action = updater.action(event);
    let shown = updater.step(event, now);
    (action, shown.output, shown.flush)
}

fn begin(name: &str) -> ScriptEvent {
    ScriptEvent::BeginInclude(name.to_string())
}

fn end(name: &str) -> ScriptEvent {
    ScriptEvent::EndInclude(name.to_string())
}

#[test]
fn updating_follows_includes_and_halts() {
    console::set_colors_enabled(false);
    let mut updater = Updater::start("a.slt", 0);
    match deal(&mut updater, &ScriptEvent::Record, 0) {
        (UpdateAction::UpdateRecord { file, context }, output, false) => {
            assert_eq!(file, "a.slt");
            assert_eq!(context, "failed to run `a.slt`");
            assert_eq!(output, "");
        }
        _ => panic!(),
    }
    match deal(&mut updater, &begin("b.slt"), MS) {
        (UpdateAction::BeginFile { file }, output, true) => {
            assert_eq!(file, "b.slt");
            assert_eq!(output, format!("[BEGIN]\n| {: <60} .. ", "b.slt"));
        }
        _ => panic!(),
    }
    match deal(&mut updater, &ScriptEvent::Record, MS) {
        (UpdateAction::UpdateRecord { file, context }, _, false) => {
            assert_eq!(file, "b.slt");
            assert_eq!(context, "failed to run `b.slt`");
        }
        _ => panic!(),
    }
    match deal(&mut updater, &ScriptEvent::Halt, MS) {
        (UpdateAction::WriteRecord { file }, _, false) => assert_eq!(file, "b.slt"),
        _ => panic!(),
    }
    // The rest of the included file is written as it is.
    match deal(&mut updater, &ScriptEvent::Record, MS) {
        (UpdateAction::WriteRecord { file }, output, false) => {
            assert_eq!(file, "b.slt");
            assert_eq!(output, "");
        }
        _ => panic!(),
    }
    match deal(&mut updater, &end("b.slt"), 3 * MS) {
        (UpdateAction::EndFile { file }, output, false) => {
            assert_eq!(file, "b.slt");
            assert_eq!(output, "[OK] in 2 ms");
        }
        _ => panic!(),
    }
    // The file that includes it goes on.
    match deal(&mut updater, &ScriptEvent::Record, 3 * MS) {
        (UpdateAction::UpdateRecord { file, .. }, _, false) => assert_eq!(file, "a.slt"),
        _ => panic!(),
    }
    let (output, file) = updater.finish_update("a.slt", 4 * MS);
    assert_eq!(output, format!("\n[END] {: <54} .. [OK] in 4 ms", "a.slt"));
    assert_eq!(file, "a.slt");
    assert_eq!(updater.items.len(), 1);
}

#[test]
fn opened_files_are_replaced_once() {
    let mut updater = Updater::start("a.slt", 0);
    let mut opened = vec![];
    let mut replaced = vec![];
    let events = vec![
        begin("b.slt"),
        begin("c.slt"),
        end("c.slt"),
        ScriptEvent::Halt,
        begin("d.slt"),
        end("d.slt"),
        end("b.slt"),
    ];
    for event in events {
        match deal(&mut updater, &event, 0).0 {
            UpdateAction::BeginFile { file } => opened.push(file),
            UpdateAction::EndFile { file } => replaced.push(file),
            _ => {}
        }
    }
    assert_eq!(replaced, vec!["c.slt", "d.slt", "b.slt"]);
    opened.sort();
    replaced.sort();
    assert_eq!(opened, replaced);
    assert_eq!(updater.items.len(), 1);
    assert!(!updater.items[0].halt);
}

/// Rewrites a script and gives the files that are put in place, in order, with their texts.
fn rewritten(records: Vec<(ScriptEvent, &str, Option<&str>)>, format: bool) -> Vec<(String, String)> {
    let mut updater = Updater::start("a.slt", 0);
    let mut texts = vec![("a.slt".to_string(), String::new())];
    let mut placed = vec![];
    for (event, record, new_record) in records {
        match updater.action(&event) {
            UpdateAction::BeginFile { file } => texts.push((file, String::new())),
            UpdateAction::EndFile { file } => {
                let text = texts.pop().unwrap();
                assert_eq!(text.0, file);
                placed.push(text);
            }
            UpdateAction::WriteRecord { file } => {
                let text = texts.last_mut().unwrap();
                assert_eq!(text.0, file);
                text.1 += &updated_record(record, &None);
            }
            UpdateAction::UpdateRecord { file, .. } => {
                let text = texts.last_mut().unwrap();
                assert_eq!(text.0, file);
                text.1 += &match update_record(record, format) {
                    Some(line) => line,
                    None => updated_record(record, &new_record.map(str::to_string)),
                };
            }
        }
        updater.step(&event, 0);
    }
    let (_, file) = updater.finish_update("a.slt", 0);
    let text = texts.pop().unwrap();
    assert_eq!(text.0, file);
    placed.push(text);
    placed
}

fn script() -> Vec<(ScriptEvent, &'static str, Option<&'static str>)> {
    vec![
        (ScriptEvent::Record, "a1", Some("A1")),
        (ScriptEvent::Record, "include [bc].slt", None),
        (begin("b.slt"), "", None),
        (ScriptEvent::Record, "b1", Some("B1")),
        (begin("d.slt"), "", None),
        (ScriptEvent::Record, "d1", None),
        (end("d.slt"), "", None),
        (ScriptEvent::Halt, "halt", None),
        (ScriptEvent::Record, "b2", Some("B2")),
        (end("b.slt"), "", None),
        (begin("c.slt"), "", None),
        (ScriptEvent::Record, "c1", Some("C1")),
        (end("c.slt"), "", None),
        (ScriptEvent::Record, "a2", Some("A2")),
    ]
}

fn pairs(expected: &[(&str, &str)]) -> Vec<(String, String)> {
    expected
        .iter()
        .map(|(file, text)| (file.to_string(), text.to_string()))
        .collect()
}

#[test]
fn every_file_is_rewritten_with_its_own_records() {
    assert_eq!(
        rewritten(script(), false),
        pairs(&[
            ("d.slt", "d1\n"),
            ("b.slt", "B1\nhalt\nb2\n"),
            ("c.slt", "C1\n"),
            ("a.slt", "A1\ninclude [bc].slt\nA2\n"),
        ])
    );
}

#[test]
fn formatting_takes_no_new_records() {
    assert_eq!(
        rewritten(script(), true),
        pairs(&[
            ("d.slt", "d1\n"),
            ("b.slt", "b1\nhalt\nb2\n"),
            ("c.slt", "c1\n"),
            ("a.slt", "a1\ninclude [bc].slt\na2\n"),
        ])
    );
}

#[test]
fn written_records_end_with_a_newline() {
    let mut content = String::from("é");
    content += &updated_record("statement ok\nselect 1\n", &None);
    assert_eq!(content.as_bytes().last(), Some(&b'\n'));
    assert_eq!(trim(content.into_bytes()), "éstatement ok\nselect 1\n".as_bytes());
}
