use quick_junit::{NonSuccessKind, TestCaseStatus};
use sqllogictest_bin::names::sanitize;
use sqllogictest_bin::report::{
    failure_line, failure_output, finish_report, make_case, outcome_output, record_case,
    report_file, start_report, start_suite, CaseOutcome,
};
use sqllogictest_bin::verdict::{failed_message, verdict, RunError};
use std::time::Duration;

fn failed(message: &str) -> CaseOutcome {
    CaseOutcome::Failed {
        message: message.to_string(),
        details: format!("{message}!"),
    }
}

#[test]
fn names_are_clean() {
    assert_eq!(sanitize("./a b/c-d.slt"), "__a_b_c_d_slt");
    assert_eq!(sanitize("é_1"), "é_1");
    assert_eq!(sanitize(&sanitize("a.b")), sanitize("a.b"));
}

#[test]
fn case_of_a_file_that_passed() {
    let case = make_case("a/b.slt", &CaseOutcome::Passed { nanos: 1_500_000 }, &None);
    assert_eq!(case.name.as_str(), "a_b_slt");
    assert_eq!(case.status, TestCaseStatus::success());
    assert_eq!(case.time, Some(Duration::from_nanos(1_500_000)));
    assert!(case.timestamp.is_some());
    assert_eq!(case.classname.unwrap().as_str(), "");
    assert!(case.system_out.is_none());
    assert!(case.system_err.is_none());
}

#[test]
fn case_of_a_file_that_failed() {
    let case = make_case(
        "b.slt",
        &failed("\x1b[31mboom\x1b[0m"),
        &Some("ci".to_string()),
    );
    assert_eq!(case.name.as_str(), "b_slt");
    match &case.status {
        TestCaseStatus::NonSuccess {
            kind, ty, message, ..
        } => {
            assert_eq!(*kind, NonSuccessKind::Failure);
            assert_eq!(ty.as_ref().unwrap().as_str(), "test failure");
            assert!(message.is_none());
        }
        _ => panic!(),
    }
    assert_eq!(case.time, Some(Duration::from_millis(0)));
    assert!(case.timestamp.is_some());
    assert_eq!(case.classname.unwrap().as_str(), "ci");
    assert_eq!(case.system_out.unwrap().as_str(), "");
    assert_eq!(case.system_err.unwrap().as_str(), "boom");
}

#[test]
fn report_counts_what_was_run() {
    let junit = Some("ci".to_string());
    let mut report = start_report(&junit);
    assert_eq!(report.name.as_str(), "ci");
    assert!(report.timestamp.is_some());
    let mut suite = start_suite();
    assert_eq!(suite.name.as_str(), "sqllogictest");
    assert!(suite.timestamp.is_some());
    let mut failed_case = vec![];
    let passed = CaseOutcome::Passed { nanos: 7 };
    record_case(&mut suite, &mut failed_case, "a.slt", &passed, &junit);
    record_case(&mut suite, &mut failed_case, "b.slt", &failed("x"), &junit);
    record_case(&mut suite, &mut failed_case, "c.slt", &failed("y"), &junit);
    assert_eq!(failed_case, vec!["b.slt", "c.slt"]);
    assert_eq!(suite.tests, 3);
    assert_eq!(suite.failures, 2);
    assert_eq!(suite.errors, 0);
    assert_eq!(suite.disabled, 0);
    assert_eq!(suite.test_cases[0].name.as_str(), "a_slt");
    assert_eq!(suite.test_cases[2].name.as_str(), "c_slt");
    finish_report(&mut report, suite);
    assert_eq!(report.tests, 3);
    assert_eq!(report.failures, 2);
    assert_eq!(report.errors, 0);
    assert_eq!(report.test_suites.len(), 1);
    match report_file("out/ci", &report) {
        Ok(file) => {
            assert_eq!(file.path, "out/ci-junit.xml");
            assert!(file.content.starts_with("<?xml"));
            assert!(file.content.contains("name=\"b_slt\""));
            assert!(file.content.contains("type=\"test failure\""));
        }
        Err(_) => panic!(),
    }
}

#[test]
fn report_without_a_name() {
    assert_eq!(start_report(&None).name.as_str(), "sqllogictest");
}

#[test]
fn failures_are_printed() {
    assert_eq!(failure_line("<F>", "why"), "<F>\n\nwhy\n\n");
    console::set_colors_enabled(false);
    assert_eq!(failure_output("why"), "[FAILED]\n\nwhy\n\n");
    assert_eq!(outcome_output(&failed("why")), "[FAILED]\n\nwhy!\n\n");
    assert_eq!(outcome_output(&CaseOutcome::Passed { nanos: 1 }), "");
    console::set_colors_enabled(true);
    assert_eq!(
        failure_output("why"),
        "\x1b[31m\x1b[1m[FAILED]\x1b[0m\n\nwhy\n\n"
    );
}

#[test]
fn verdict_names_the_files_that_failed() {
    assert!(verdict(vec![]).is_ok());
    match verdict(vec!["a.slt".to_string(), "b \"q\".slt".to_string()]) {
        Err(error) => assert_eq!(
            error.message(),
            "some test case failed:\n[\n    \"a.slt\",\n    \"b \\\"q\\\".slt\",\n]"
        ),
        Ok(()) => panic!(),
    }
    assert_eq!(failed_message("<list>"), "some test case failed:\n<list>");
}

#[test]
fn errors_of_a_plan_have_their_messages() {
    assert_eq!(RunError::NotUtf8.message(), "not a UTF-8 filename");
    assert_eq!(
        RunError::DuplicateName("a_slt".to_string()).message(),
        "duplicated file name found: a_slt"
    );
}

#[test]
fn serial_failures_are_noted_in_order() {
    let run = |outcomes: &[bool]| {
        let mut suite = start_suite();
        let mut failed_case = vec![];
        for (i, &passed) in outcomes.iter().enumerate() {
            let outcome = if passed {
                CaseOutcome::Passed { nanos: 1 }
            } else {
                failed("x")
            };
            record_case(&mut suite, &mut failed_case, &format!("{i}.slt"), &outcome, &None);
        }
        failed_case
    };
    assert_eq!(run(&[false, true, false]), vec!["0.slt", "2.slt"]);
    assert!(run(&[true, true]).is_empty());
    assert!(verdict(run(&[true, true])).is_ok());
    assert!(verdict(run(&[true, false])).is_err());
}

#[test]
fn suites_with_other_outcomes_are_taken() {
    let mut suite = start_suite();
    let mut failed_case = vec![];
    suite.add_test_case(quick_junit::TestCase::new(
        "e",
        TestCaseStatus::non_success(NonSuccessKind::Error),
    ));
    suite.add_test_case(quick_junit::TestCase::new("s", TestCaseStatus::skipped()));
    record_case(&mut suite, &mut failed_case, "a", &failed("x"), &None);
    assert_eq!(suite.tests, 3);
    assert_eq!(suite.failures, 1);
    assert_eq!(suite.errors, 1);
    assert_eq!(suite.disabled, 1);
    let mut report = start_report(&None);
    finish_report(&mut report, suite);
    assert_eq!((report.tests, report.failures, report.errors), (3, 1, 1));
}
