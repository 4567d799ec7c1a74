use sqllogictest_bin::parallel::{
    create_query, drop_query, finished_line, ignored_line, in_progress_line, plan_databases,
    plan_databases_with, query_line, random_id, Cleanup, Database, Failures, ID_LEN,
};
use sqllogictest_bin::report::{start_suite, CaseOutcome};
use sqllogictest_bin::verdict::{verdict, RunError};

fn files(names: &[&str]) -> Vec<Option<String>> {
    names.iter().map(|name| Some(name.to_string())).collect()
}

fn ids(ids: &[&str]) -> Vec<String> {
    ids.iter().map(|id| id.to_string()).collect()
}

fn failed() -> CaseOutcome {
    CaseOutcome::Failed {
        message: "boom".to_string(),
        details: "boom at length".to_string(),
    }
}

#[test]
fn random_ids_are_lower_case() {
    let mut distinct = vec![];
    for _ in 0..100 {
        let id = random_id();
        assert_eq!(id.len(), ID_LEN);
        assert!(id
            .chars()
            .all(|c| c.is_ascii_lowercase() || c.is_ascii_digit()));
        if !distinct.contains(&id) {
            distinct.push(id);
        }
    }
    assert!(distinct.len() > 1);
}

#[test]
fn databases_are_planned_in_the_order_of_their_names() {
    let discovery = plan_databases_with(
        &files(&["t/b.slt", "t/a.slt", "t/a-1.slt"]),
        &ids(&["aaaaaaaa", "zzzzzzzz", "00000000"]),
    );
    assert_eq!(
        discovery.lines,
        vec![
            "+ Discovered Test: t_b_slt",
            "+ Discovered Test: t_a_slt",
            "+ Discovered Test: t_a_1_slt",
        ]
    );
    let plan: Vec<(String, usize)> = match discovery.plan {
        Ok(plan) => plan.into_iter().map(|db| (db.name, db.file)).collect(),
        Err(_) => panic!(),
    };
    assert_eq!(
        plan,
        vec![
            ("t_a_1_slt_00000000".to_string(), 2),
            ("t_a_slt_zzzzzzzz".to_string(), 1),
            ("t_b_slt_aaaaaaaa".to_string(), 0),
        ]
    );
}

#[test]
fn names_that_coincide_are_refused() {
    let discovery = plan_databases_with(
        &files(&["a.slt", "b.slt", "a-slt", "c.slt"]),
        &ids(&["00000000", "00000001", "00000002", "00000003"]),
    );
    assert_eq!(
        discovery.lines,
        vec![
            "+ Discovered Test: a_slt",
            "+ Discovered Test: b_slt",
            "+ Discovered Test: a_slt",
        ]
    );
    match discovery.plan {
        Err(RunError::DuplicateName(name)) => assert_eq!(name, "a_slt"),
        _ => panic!(),
    }
}

#[test]
fn names_that_are_not_utf8_are_refused() {
    let discovery = plan_databases(&vec![Some("a.slt".to_string()), None]);
    assert_eq!(discovery.lines, vec!["+ Discovered Test: a_slt"]);
    assert!(matches!(discovery.plan, Err(RunError::NotUtf8)));
}

#[test]
fn every_file_has_a_database() {
    let names: Vec<String> = (0..20).map(|i| format!("t/{i}.slt")).collect();
    let files: Vec<Option<String>> = names.iter().cloned().map(Some).collect();
    let plan = match plan_databases(&files).plan {
        Ok(plan) => plan,
        Err(_) => panic!(),
    };
    assert_eq!(plan.len(), 20);
    for pair in plan.windows(2) {
        assert!(pair[0].name < pair[1].name);
    }
    for (i, _) in names.iter().enumerate() {
        let of_file: Vec<&Database> = plan.iter().filter(|db| db.file == i).collect();
        assert_eq!(of_file.len(), 1);
        assert!(of_file[0].name.starts_with(&format!("t_{i}_slt_")));
        assert_eq!(of_file[0].name.len(), format!("t_{i}_slt_").len() + 8);
    }
}

fn statements_and_lines() {
    assert_eq!(create_query("x_1"), "CREATE DATABASE x_1;");
    assert_eq!(drop_query("x_1"), "DROP DATABASE x_1;");
    assert_eq!(query_line("DROP DATABASE x_1;"), "+ DROP DATABASE x_1;");
    assert_eq!(ignored_line("no"), "  ignore error: no");
    assert_eq!(
        finished_line(1_000_000, 43_999_999),
        "\n All test cases finished in 42 ms"
    );
    console::set_colors_enabled(false);
    assert_eq!(in_progress_line(), "[TEST IN PROGRESS]");
    console::set_colors_enabled(true);
    assert_eq!(
        in_progress_line(),
        "\x1b[34m\x1b[1m[TEST IN PROGRESS]\x1b[0m"
    );
}

fn plan(names: &[&str]) -> Vec<Database> {
    names
        .iter()
        .enumerate()
        .map(|(file, name)| Database {
            name: name.to_string(),
            file,
        })
        .collect()
}

fn steps(failures: &Failures, keep: bool, plan: &Vec<Database>) -> Vec<String> {
    failures
        .cleanup(keep, plan)
        .into_iter()
        .map(|step| match step {
            Cleanup::KeepDatabase { notice } => notice,
            Cleanup::DropDatabase { query } => query,
        })
        .collect()
}

fn only_databases_of_failed_files_are_kept() {
    console::set_colors_enabled(false);
    let plan = plan(&["a_0", "b_1"]);
    let mut suite = start_suite();
    let mut failures = Failures::none();
    let passed = CaseOutcome::Passed { nanos: 5 };
    let out = failures.record_result(&mut suite, &plan[0].name, "a", &passed, &None);
    assert_eq!(out, "");
    let out = failures.record_result(&mut suite, &plan[1].name, "b", &failed(), &None);
    assert_eq!(out, "[FAILED]\n\nboom at length\n\n");
    assert_eq!(failures.files, vec!["b"]);
    assert_eq!(failures.databases, vec!["b_1"]);
    assert_eq!(suite.tests, 2);
    assert_eq!(suite.failures, 1);
    assert_eq!(
        steps(&failures, true, &plan),
        vec![
            "DROP DATABASE a_0;",
            "+ DATABASE b_1 contains failed cases, kept for debugging",
        ]
    );
    assert_eq!(
        steps(&failures, false, &plan),
        vec!["DROP DATABASE a_0;", "DROP DATABASE b_1;"]
    );
    console::set_colors_enabled(true);
    assert_eq!(
        steps(&failures, true, &plan)[1],
        "+ \x1b[31m\x1b[1mDATABASE b_1 contains failed cases, kept for debugging\x1b[0m"
    );
    assert!(verdict(failures.files).is_err());
}

#[test]
fn a_database_is_noted_once() {
    let mut suite = start_suite();
    let mut failures = Failures::none();
    let name = "d".to_string();
    failures.record_result(&mut suite, &name, "a", &failed(), &None);
    failures.record_result(&mut suite, &name, "b", &failed(), &None);
    assert_eq!(failures.files, vec!["a", "b"]);
    assert_eq!(failures.databases, vec!["d"]);
    assert_eq!(suite.failures, failures.files.len());
}

#[test]
fn the_order_of_ends_does_not_matter() {
    let runs = ["a", "b", "c"];
    let record = |order: &[usize]| {
        let mut suite = start_suite();
        let mut failures = Failures::none();
        for &i in order {
            let outcome = if i == 1 {
                CaseOutcome::Passed { nanos: 1 }
            } else {
                failed()
            };
            failures.record_result(&mut suite, &format!("{}_0", runs[i]), runs[i], &outcome, &None);
        }
        failures.files.sort();
        failures.databases.sort();
        (failures.files, failures.databases, suite.tests, suite.failures)
    };
    let expected = (
        vec!["a".to_string(), "c".to_string()],
        vec!["a_0".to_string(), "c_0".to_string()],
        3,
        2,
    );
    assert_eq!(record(&[0, 1, 2]), expected);
    assert_eq!(record(&[2, 1, 0]), expected);
}

#[test]
fn the_plan_is_fixed_by_files_and_ids() {
    let files = files(&["b", "a", "B"]);
    let ids = ids(&["11111111", "22222222", "33333333"]);
    let names = || -> Vec<String> {
        match plan_databases_with(&files, &ids).plan {
            Ok(plan) => plan.into_iter().map(|db| db.name).collect(),
            Err(_) => panic!(),
        }
    };
    assert_eq!(names(), vec!["B_33333333", "a_22222222", "b_11111111"]);
    assert_eq!(names(), names());
}

// The colour setting belongs to the whole process, so what depends on it is run in sequence.
#[test]
fn output_of_parallel_runs_in_both_states_of_the_colour_setting() {
    statements_and_lines();
    only_databases_of_failed_files_are_kept();
}
