//! The JUnit report of a run.

use chrono::Local;
use quick_junit::{NonSuccessKind, Report, SerializeError, TestCase, TestCaseStatus, TestSuite};
use std::time::Duration;
use vstd::prelude::*;

use crate::names::sanitize;
use crate::style::red_bold;

verus! {

/// `quick_junit::Report`, a report of test suites.
#[verifier::external_type_specification]
#[verifier::external_body]
pub struct ExReport(quick_junit::Report);

/// `quick_junit::TestSuite`, a collection of test cases.
#[verifier::external_type_specification]
#[verifier::external_body]
pub struct ExTestSuite(quick_junit::TestSuite);

/// `quick_junit::TestCase`, what a report says of one test.
#[verifier::external_type_specification]
#[verifier::external_body]
pub struct ExTestCase(quick_junit::TestCase);

/// `quick_junit::TestCaseStatus`, the outcome of one test.
#[verifier::external_type_specification]
#[verifier::external_body]
pub struct ExTestCaseStatus(quick_junit::TestCaseStatus);

/// `quick_junit::SerializeError`, why a report cannot be written out.
#[verifier::external_type_specification]
#[verifier::external_body]
pub struct ExSerializeError(quick_junit::SerializeError);

/// The outcome of a test case, with its type where it has one.
pub enum StatusContents {
    Success,
    Failure { ty: Option<Seq<char>> },
    Error { ty: Option<Seq<char>> },
    Skipped { ty: Option<Seq<char>> },
}

/// What a test case says.
pub struct CaseContents {
    pub name: Seq<char>,
    pub status: StatusContents,
    pub classname: Option<Seq<char>>,
    /// The time that it took, in nanoseconds.
    pub time: Option<nat>,
    /// Whether it says when it was made.
    pub stamped: bool,
    pub system_out: Option<Seq<char>>,
    pub system_err: Option<Seq<char>>,
}

/// What a test suite holds, with the counts that it keeps of its cases.
pub struct SuiteContents {
    pub name: Seq<char>,
    /// Whether it says when it was begun.
    pub stamped: bool,
    pub tests: nat,
    pub failures: nat,
    pub errors: nat,
    pub disabled: nat,
    pub cases: Seq<CaseContents>,
}

/// What a report holds, with the counts that it keeps over all of its suites.
pub struct ReportContents {
    pub name: Seq<char>,
    /// Whether it says when it was begun.
    pub stamped: bool,
    pub tests: nat,
    pub failures: nat,
    pub errors: nat,
    pub suites: Seq<SuiteContents>,
}

/// The text that `quick_junit::XmlString::new` keeps of `text`: all but ANSI escapes and
/// characters that are not printable.
pub uninterp spec fn xml_text(text: Seq<char>) -> Seq<char>;

/// The outcome that `status` stands for.
pub uninterp spec fn status_contents(status: TestCaseStatus) -> StatusContents;

/// What `case` says.
pub uninterp spec fn case_contents(case: TestCase) -> CaseContents;

/// What `suite` holds.
pub uninterp spec fn suite_contents(suite: TestSuite) -> SuiteContents;

/// What `report` holds.
pub uninterp spec fn report_contents(report: Report) -> ReportContents;

/// What `quick_junit::Report::to_string` writes for `report`; nothing where it fails.
pub uninterp spec fn report_xml(report: Report) -> Option<Seq<char>>;

/// `TestCaseStatus::success` is the outcome of a test that passed.
pub assume_specification[ TestCaseStatus::success ]() -> (r: TestCaseStatus)
    ensures
        status_contents(r) == StatusContents::Success,
;

/// `TestCaseStatus::non_success` of `NonSuccessKind::Failure` is the outcome of a test that
/// failed, without a type.
#[verifier::external_body]
fn failure_status() -> (r: TestCaseStatus)
    ensures
        status_contents(r) == (StatusContents::Failure { ty: None }),
{
    TestCaseStatus::non_success(NonSuccessKind::Failure)
}

/// `TestCaseStatus::set_type` sets the type of the outcome, but for a test that passed.
#[verifier::external_body]
fn status_set_type(status: &mut TestCaseStatus, ty: &str)
    ensures
        status_contents(*final(status)) == match status_contents(*old(status)) {
            StatusContents::Success => StatusContents::Success,
            StatusContents::Failure { .. } => StatusContents::Failure { ty: Some(xml_text(ty@)) },
            StatusContents::Error { .. } => StatusContents::Error { ty: Some(xml_text(ty@)) },
            StatusContents::Skipped { .. } => StatusContents::Skipped { ty: Some(xml_text(ty@)) },
        },
{
    status.set_type(ty);
}

/// `TestCase::new` makes a case with a name and an outcome and nothing else.
#[verifier::external_body]
fn case_new(name: &str, status: TestCaseStatus) -> (r: TestCase)
    ensures
        case_contents(r) == (CaseContents {
            name: xml_text(name@),
            status: status_contents(status),
            classname: None,
            time: None,
            stamped: false,
            system_out: None,
            system_err: None,
        }),
{
    TestCase::new(name, status)
}

/// `TestCase::set_time` sets the time that the case took.
#[verifier::external_body]
fn case_set_time(case: &mut TestCase, nanos: u64)
    ensures
        case_contents(*final(case)) == (CaseContents {
            time: Some(nanos as nat),
            ..case_contents(*old(case))
        }),
{
    case.set_time(Duration::from_nanos(nanos));
}

/// `TestCase::set_timestamp` with the time that `chrono::Local::now` reads. Which time that is
/// is left open.
#[verifier::external_body]
fn case_stamp(case: &mut TestCase)
    ensures
        case_contents(*final(case)) == (CaseContents {
            stamped: true,
            ..case_contents(*old(case))
        }),
{
    case.set_timestamp(Local::now());
}

/// `TestCase::set_classname` sets the class of the case.
#[verifier::external_body]
fn case_set_classname(case: &mut TestCase, classname: &str)
    ensures
        case_contents(*final(case)) == (CaseContents {
            classname: Some(xml_text(classname@)),
            ..case_contents(*old(case))
        }),
{
    case.set_classname(classname);
}

/// `TestCase::set_system_err` sets what the case wrote to standard error.
#[verifier::external_body]
fn case_set_system_err(case: &mut TestCase, system_err: &str)
    ensures
        case_contents(*final(case)) == (CaseContents {
            system_err: Some(xml_text(system_err@)),
            ..case_contents(*old(case))
        }),
{
    case.set_system_err(system_err);
}

/// `TestCase::set_system_out` sets what the case wrote to standard output.
#[verifier::external_body]
fn case_set_system_out(case: &mut TestCase, system_out: &str)
    ensures
        case_contents(*final(case)) == (CaseContents {
            system_out: Some(xml_text(system_out@)),
            ..case_contents(*old(case))
        }),
{
    case.set_system_out(system_out);
}

/// `TestSuite::new` makes a suite without cases.
#[verifier::external_body]
fn suite_new(name: &str) -> (r: TestSuite)
    ensures
        suite_contents(r) == (SuiteContents {
            name: xml_text(name@),
            stamped: false,
            tests: 0,
            failures: 0,
            errors: 0,
            disabled: 0,
            cases: Seq::empty(),
        }),
{
    TestSuite::new(name)
}

/// `TestSuite::set_timestamp` with the time that `chrono::Local::now` reads. Which time that
/// is is left open.
#[verifier::external_body]
fn suite_stamp(suite: &mut TestSuite)
    ensures
        suite_contents(*final(suite)) == (SuiteContents {
            stamped: true,
            ..suite_contents(*old(suite))
        }),
{
    suite.set_timestamp(Local::now());
}

/// The suite with one case more, and its counts with it.
pub open spec fn with_case(suite: SuiteContents, case: CaseContents) -> SuiteContents {
    SuiteContents {
        tests: suite.tests + 1,
        failures: suite.failures + (if case.status is Failure {
            1nat
        } else {
            0
        }),
        errors: suite.errors + (if case.status is Error {
            1nat
        } else {
            0
        }),
        disabled: suite.disabled + (if case.status is Skipped {
            1nat
        } else {
            0
        }),
        cases: suite.cases.push(case),
        ..suite
    }
}

/// `TestSuite::add_test_case` adds a case behind those that are there and counts it, as a
/// test and by its outcome. The counts must not run over.
#[verifier::external_body]
fn suite_add_case(suite: &mut TestSuite, case: TestCase)
    requires
        suite_contents(*old(suite)).tests < usize::MAX,
        suite_contents(*old(suite)).failures < usize::MAX,
        suite_contents(*old(suite)).errors < usize::MAX,
        suite_contents(*old(suite)).disabled < usize::MAX,
    ensures
        suite_contents(*final(suite)) == with_case(
            suite_contents(*old(suite)),
            case_contents(case),
        ),
{
    suite.add_test_case(case);
}

/// `Report::new` makes a report without suites.
#[verifier::external_body]
fn report_new(name: &str) -> (r: Report)
    ensures
        report_contents(r) == (ReportContents {
            name: xml_text(name@),
            stamped: false,
            tests: 0,
            failures: 0,
            errors: 0,
            suites: Seq::empty(),
        }),
{
    Report::new(name)
}

/// `Report::set_timestamp` with the time that `chrono::Local::now` reads. Which time that is
/// is left open.
#[verifier::external_body]
fn report_stamp(report: &mut Report)
    ensures
        report_contents(*final(report)) == (ReportContents {
            stamped: true,
            ..report_contents(*old(report))
        }),
{
    report.set_timestamp(Local::now());
}

/// The report with one suite more, whose counts are added to its own.
pub open spec fn with_suite(report: ReportContents, suite: SuiteContents) -> ReportContents {
    ReportContents {
        tests: report.tests + suite.tests,
        failures: report.failures + suite.failures,
        errors: report.errors + suite.errors,
        suites: report.suites.push(suite),
        ..report
    }
}

/// `Report::add_test_suite` adds a suite behind those that are there, and its counts to those
/// of the report. The counts must not run over.
#[verifier::external_body]
fn report_add_suite(report: &mut Report, suite: TestSuite)
    requires
        report_contents(*old(report)).tests + suite_contents(suite).tests <= usize::MAX,
        report_contents(*old(report)).failures + suite_contents(suite).failures <= usize::MAX,
        report_contents(*old(report)).errors + suite_contents(suite).errors <= usize::MAX,
    ensures
        report_contents(*final(report)) == with_suite(
            report_contents(*old(report)),
            suite_contents(suite),
        ),
{
    report.add_test_suite(suite);
}

/// `Report::to_string` writes a report as XML.
#[verifier::external_body]
fn report_to_string(report: &Report) -> (r: Result<String, SerializeError>)
    ensures
        r is Ok <==> report_xml(*report) is Some,
        r matches Ok(xml) ==> report_xml(*report) == Some(xml@),
{
    report.to_string()
}

/// How a test file fared.
pub enum CaseOutcome {
    /// All of its records passed, in this time in nanoseconds.
    Passed { nanos: u64 },
    /// It failed, with this message; `details` is the error at length.
    Failed { message: String, details: String },
}

/// The class of all cases of a run: the name of the report, where one was asked for.
pub open spec fn class_name(junit: Option<String>) -> Seq<char> {
    match junit {
        Some(name) => name@,
        None => Seq::empty(),
    }
}

/// What the case of `file` says.
pub open spec fn case_for(file: Seq<char>, outcome: CaseOutcome, junit: Option<String>) ->
    CaseContents {
    let name = xml_text(crate::names::sanitized(file));
    let classname = Some(xml_text(class_name(junit)));
    match outcome {
        CaseOutcome::Passed { nanos } => CaseContents {
            name,
            status: StatusContents::Success,
            classname,
            time: Some(nanos as nat),
            stamped: true,
            system_out: None,
            system_err: None,
        },
        CaseOutcome::Failed { message, .. } => CaseContents {
            name,
            status: StatusContents::Failure { ty: Some(xml_text("test failure"@)) },
            classname,
            time: Some(0),
            stamped: true,
            system_out: Some(xml_text(Seq::empty())),
            system_err: Some(xml_text(message@)),
        },
    }
}

/// Makes the case of `file`.
pub fn make_case(file: &str, outcome: &CaseOutcome, junit: &Option<String>) -> (r: TestCase)
    ensures
        case_contents(r) == case_for(file@, *outcome, *junit),
        *outcome matches CaseOutcome::Passed { nanos } ==> case_contents(r).time == Some(
            nanos as nat,
        ) && case_contents(r).status is Success,
        *outcome is Failed ==> case_contents(r).status is Failure,
{
    proof {
        reveal_strlit("");
        assert(""@ =~= Seq::<char>::empty());
    }
    let name = sanitize(file);
    let classname = match junit {
        Some(name) => name.as_str(),
        None => "",
    };
    match outcome {
        CaseOutcome::Passed { nanos } => {
            let mut case = case_new(name.as_str(), TestCaseStatus::success());
            case_set_time(&mut case, *nanos);
            case_stamp(&mut case);
            case_set_classname(&mut case, classname);
            case
        },
        CaseOutcome::Failed { message, .. } => {
            let mut status = failure_status();
            status_set_type(&mut status, "test failure");
            let mut case = case_new(name.as_str(), status);
            case_stamp(&mut case);
            case_set_classname(&mut case, classname);
            case_set_system_err(&mut case, message.as_str());
            case_set_time(&mut case, 0);
            case_set_system_out(&mut case, "");
            case
        },
    }
}

/// How many of the cases failed.
pub open spec fn count_failures(cases: Seq<CaseContents>) -> nat
    decreases cases.len(),
{
    if cases.len() == 0 {
        0
    } else {
        count_failures(cases.drop_last()) + (if cases.last().status is Failure {
            1nat
        } else {
            0
        })
    }
}

impl SuiteContents {
    /// The suite counts every case as a test, and as a failure if it is one; it holds neither
    /// errors nor skipped tests.
    pub open spec fn counts_match(self) -> bool {
        &&& self.tests == self.cases.len()
        &&& self.failures == count_failures(self.cases)
        &&& self.errors == 0
        &&& self.disabled == 0
    }
}

/// The suite that the cases of a run go to.
pub fn start_suite() -> (r: TestSuite)
    ensures
        suite_contents(r).counts_match(),
        suite_contents(r) == (SuiteContents {
            name: xml_text("sqllogictest"@),
            stamped: true,
            tests: 0,
            failures: 0,
            errors: 0,
            disabled: 0,
            cases: Seq::empty(),
        }),
{
    let mut suite = suite_new("sqllogictest");
    suite_stamp(&mut suite);
    suite
}

/// The name of the report of a run.
pub open spec fn report_name(junit: Option<String>) -> Seq<char> {
    match junit {
        Some(name) => name@,
        None => "sqllogictest"@,
    }
}

/// The report of a run, before its suite.
pub fn start_report(junit: &Option<String>) -> (r: Report)
    ensures
        report_contents(r) == (ReportContents {
            name: xml_text(report_name(*junit)),
            stamped: true,
            tests: 0,
            failures: 0,
            errors: 0,
            suites: Seq::empty(),
        }),
{
    let name = match junit {
        Some(name) => name.as_str(),
        None => "sqllogictest",
    };
    let mut report = report_new(name);
    report_stamp(&mut report);
    report
}

impl SuiteContents {
    /// One case more can be counted, whatever its outcome.
    pub open spec fn has_room(self) -> bool {
        &&& self.tests < usize::MAX
        &&& self.failures < usize::MAX
        &&& self.errors < usize::MAX
        &&& self.disabled < usize::MAX
    }
}

/// The files that failed, once `file` has been run.
pub open spec fn failed_with(failed: Seq<Seq<char>>, file: Seq<char>, outcome: CaseOutcome) -> Seq<
    Seq<char>,
> {
    match outcome {
        CaseOutcome::Passed { .. } => failed,
        CaseOutcome::Failed { .. } => failed.push(file),
    }
}

/// Notes in `suite` how `file` fared, and in `failed_case` that it failed if it did.
pub fn record_case(
    suite: &mut TestSuite,
    failed_case: &mut Vec<String>,
    file: &str,
    outcome: &CaseOutcome,
    junit: &Option<String>,
)
    requires
        suite_contents(*old(suite)).has_room(),
    ensures
        suite_contents(*final(suite)) == with_case(
            suite_contents(*old(suite)),
            case_for(file@, *outcome, *junit),
        ),
        suite_contents(*old(suite)).counts_match() ==> suite_contents(
            *final(suite),
        ).counts_match(),
        crate::verdict::texts(final(failed_case)@) == failed_with(
            crate::verdict::texts(old(failed_case)@),
            file@,
            *outcome,
        ),
{
    let ghost before = suite_contents(*suite);
    if let CaseOutcome::Failed { .. } = outcome {
        let ghost failed = crate::verdict::texts(failed_case@);
        failed_case.push(file.to_owned());
        assert(crate::verdict::texts(failed_case@) =~= failed.push(file@));
    }
    let case = make_case(file, outcome, junit);
    let ghost case_view = case_contents(case);
    suite_add_case(suite, case);
    assert(before.cases.push(case_view).drop_last() =~= before.cases);
}

/// Completes the report of a run with its suite.
pub fn finish_report(report: &mut Report, suite: TestSuite)
    requires
        report_contents(*old(report)).tests + suite_contents(suite).tests <= usize::MAX,
        report_contents(*old(report)).failures + suite_contents(suite).failures <= usize::MAX,
        report_contents(*old(report)).errors + suite_contents(suite).errors <= usize::MAX,
    ensures
        report_contents(*final(report)) == with_suite(
            report_contents(*old(report)),
            suite_contents(suite),
        ),
{
    report_add_suite(report, suite);
}

/// Why a report cannot be stored.
pub enum ReportError {
    /// It could not be written as XML.
    Serialize(SerializeError),
}

/// A file to store.
pub struct ReportFile {
    pub path: String,
    pub content: String,
}

/// Where the report of the run `junit` is stored.
pub open spec fn report_path(junit: Seq<char>) -> Seq<char> {
    junit + "-junit.xml"@
}

/// The file that the report of a run is stored in.
pub fn report_file(junit: &str, report: &Report) -> (r: Result<ReportFile, ReportError>)
    ensures
        r is Ok <==> report_xml(*report) is Some,
        r matches Ok(file) ==> file.path@ == junit@ + "-junit.xml"@ && file.path@ == report_path(
            junit@,
        ) && Some(file.content@) == report_xml(*report),
{
    match report_to_string(report) {
        Ok(content) => {
            let mut path = junit.to_owned();
            path.append("-junit.xml");
            Ok(ReportFile { path, content })
        },
        Err(error) => Err(ReportError::Serialize(error)),
    }
}

/// What is printed of a test file that failed, with the tag as it is to be shown and the
/// error at length.
pub open spec fn failure_text(tag: Seq<char>, error: Seq<char>) -> Seq<char> {
    tag + "\n\n"@ + error + "\n\n"@
}

/// Whether `out` says that a test file failed with `error`, in either state of the colour
/// setting.
pub open spec fn is_failure_output(out: Seq<char>, error: Seq<char>) -> bool {
    exists|tag: Seq<char>|
        crate::style::styled(tag, crate::style::red_bold_codes(), "[FAILED]"@) && out
            == #[trigger] failure_text(tag, error)
}

/// What is printed of a test file that failed, with the tag as it is to be shown.
pub fn failure_line(tag: &str, error: &str) -> (r: String)
    ensures
        r@ == failure_text(tag@, error@),
{
    let mut r = tag.to_owned();
    r.append("\n\n");
    r.append(error);
    r.append("\n\n");
    r
}

/// What is printed of a test file that failed with `error`.
pub fn failure_output(error: &str) -> (r: String)
    ensures
        is_failure_output(r@, error@),
{
    let tag = red_bold("[FAILED]");
    let r = failure_line(tag.as_str(), error);
    assert(r@ == failure_text(tag@, error@));
    r
}

/// What is printed of a test file once it has been run, besides its progress output.
pub fn outcome_output(outcome: &CaseOutcome) -> (r: String)
    ensures
        match *outcome {
            CaseOutcome::Passed { .. } => r@.len() == 0,
            CaseOutcome::Failed { details, .. } => is_failure_output(r@, details@),
        },
{
    match outcome {
        CaseOutcome::Passed { .. } => String::new(),
        CaseOutcome::Failed { details, .. } => failure_output(details.as_str()),
    }
}

/// A test file that has been run.
pub struct FileRun {
    pub file: Seq<char>,
    pub outcome: CaseOutcome,
}

/// The suite once the cases of `runs` have been added to it, in order.
pub open spec fn with_runs(suite: SuiteContents, runs: Seq<FileRun>, junit: Option<String>) ->
    SuiteContents
    decreases runs.len(),
{
    if runs.len() == 0 {
        suite
    } else {
        with_case(
            with_runs(suite, runs.drop_last(), junit),
            case_for(runs.last().file, runs.last().outcome, junit),
        )
    }
}

/// The files among `runs` that failed, in order.
pub open spec fn failed_files(runs: Seq<FileRun>) -> Seq<Seq<char>>
    decreases runs.len(),
{
    if runs.len() == 0 {
        Seq::empty()
    } else {
        let before = failed_files(runs.drop_last());
        if runs.last().outcome is Failed {
            before.push(runs.last().file)
        } else {
            before
        }
    }
}

/// The files noted as failed once `runs` have been recorded one after the other.
pub open spec fn failed_after(failed: Seq<Seq<char>>, runs: Seq<FileRun>) -> Seq<Seq<char>>
    decreases runs.len(),
{
    if runs.len() == 0 {
        failed
    } else {
        failed_with(
            failed_after(failed, runs.drop_last()),
            runs.last().file,
            runs.last().outcome,
        )
    }
}

/// The files that a run one by one ends with as failed are those that failed, in the order in
/// which they were run; there is none exactly where every file passed.
pub proof fn law_serial_failures_are_noted(runs: Seq<FileRun>)
    ensures
        failed_after(Seq::empty(), runs) == failed_files(runs),
        failed_files(runs).len() == 0 <==> forall|i: int|
            0 <= i < runs.len() ==> (#[trigger] runs[i]).outcome is Passed,
    decreases runs.len(),
{
    if runs.len() > 0 {
        let front = runs.drop_last();
        law_serial_failures_are_noted(front);
        assert(forall|i: int| 0 <= i < front.len() ==> front[i] == runs[i]);
        assert(runs[runs.len() - 1] == runs.last());
        if failed_files(runs).len() == 0 {
            assert forall|i: int| 0 <= i < runs.len() implies (#[trigger] runs[i]).outcome is Passed by {
                if i < front.len() {
                    assert(front[i].outcome is Passed);
                }
            }
        }
    }
}

/// A suite keeps its counts right, gains one case for every test file that is run, and one
/// failure for every file that fails.
pub proof fn law_suite_counts_runs(
    suite: SuiteContents,
    runs: Seq<FileRun>,
    junit: Option<String>,
)
    requires
        suite.counts_match(),
    ensures
        with_runs(suite, runs, junit).counts_match(),
        with_runs(suite, runs, junit).tests == suite.tests + runs.len(),
        with_runs(suite, runs, junit).failures == suite.failures + failed_files(runs).len(),
        with_runs(suite, runs, junit).cases == suite.cases + Seq::new(
            runs.len(),
            |i: int| case_for(runs[i].file, runs[i].outcome, junit),
        ),
    decreases runs.len(),
{
    let cases = Seq::new(
        runs.len(),
        |i: int| case_for(runs[i].file, runs[i].outcome, junit),
    );
    if runs.len() > 0 {
        let front = runs.drop_last();
        law_suite_counts_runs(suite, front, junit);
        let case = case_for(runs.last().file, runs.last().outcome, junit);
        let before = with_runs(suite, front, junit);
        let after = with_runs(suite, runs, junit);
        assert(after.cases.drop_last() =~= before.cases);
        assert(after.cases =~= suite.cases + cases);
    } else {
        assert(suite.cases + cases =~= suite.cases);
    }
}

/// The report of a run counts what its suite counts, and says that a test failed exactly
/// where a file failed.
pub proof fn law_report_counts_runs(
    report: ReportContents,
    suite: SuiteContents,
    runs: Seq<FileRun>,
    junit: Option<String>,
)
    requires
        report.tests == 0,
        report.failures == 0,
        report.errors == 0,
        suite.counts_match(),
        suite.cases.len() == 0,
    ensures
        ({
            let done = with_suite(report, with_runs(suite, runs, junit));
            &&& done.tests == runs.len()
            &&& done.failures == failed_files(runs).len()
            &&& done.errors == 0
        }),
{
    law_suite_counts_runs(suite, runs, junit);
}

/// A case says how its file fared: one that passed has the time that its run took and nothing
/// more, one that failed is a failure with the message of its error and no time.
pub proof fn law_case_says_how_the_file_fared(
    file: Seq<char>,
    outcome: CaseOutcome,
    junit: Option<String>,
)
    ensures
        ({
            let case = case_for(file, outcome, junit);
            &&& case.name == xml_text(crate::names::sanitized(file))
            &&& case.stamped
            &&& outcome matches CaseOutcome::Passed { nanos } ==> case.status is Success && case.time
                == Some(nanos as nat) && case.system_out is None && case.system_err is None
            &&& outcome matches CaseOutcome::Failed { message, .. } ==> case.status is Failure
                && case.time == Some(0nat) && case.system_err == Some(xml_text(message@))
                && case.system_out == Some(xml_text(Seq::empty()))
                && case.status->Failure_ty == Some(xml_text("test failure"@))
        }),
{
}

/// What has a bearing on what in a case: the name of the report on the class alone, the file on
/// the name alone, and the details of a failure on nothing. The class is the name of the report.
pub proof fn law_parts_of_a_case_are_independent(
    file: Seq<char>,
    other_file: Seq<char>,
    outcome: CaseOutcome,
    junit: Option<String>,
    other_junit: Option<String>,
)
    ensures
        ({
            let case = case_for(file, outcome, junit);
            &&& (CaseContents {
                classname: case_for(file, outcome, other_junit).classname,
                ..case
            }) == case_for(file, outcome, other_junit)
            &&& (CaseContents { name: case_for(other_file, outcome, junit).name, ..case })
                == case_for(other_file, outcome, junit)
            &&& junit matches Some(name) ==> case.classname == Some(xml_text(name@))
            &&& junit is None ==> case.classname == Some(xml_text(Seq::empty()))
        }),
        outcome matches CaseOutcome::Failed { message, details } ==> forall|other: String|
            case_for(file, outcome, junit) == #[trigger] case_for(
                file,
                (CaseOutcome::Failed { message, details: other }),
                junit,
            ),
        junit is Some ==> report_name(junit) == class_name(junit) && report_name(junit)
            == junit->0@,
        junit is None ==> report_name(junit) == "sqllogictest"@ && class_name(junit).len() == 0,
{
}

/// The file of a report stands under the name of the report with an ending, so that reports
/// with different names go to different files.
pub proof fn law_reports_go_to_files_of_their_own(a: Seq<char>, b: Seq<char>)
    ensures
        report_path(a).take(a.len() as int) == a,
        report_path(a).skip(a.len() as int) == "-junit.xml"@,
        report_path(a) == report_path(b) ==> a == b,
{
    assert(report_path(a).take(a.len() as int) =~= a);
    assert(report_path(a).skip(a.len() as int) =~= "-junit.xml"@);
    if report_path(a) == report_path(b) {
        assert(a.len() == b.len());
        assert(report_path(b).take(b.len() as int) =~= b);
    }
}

/// What is printed of a file that failed is the tag, an empty line, the error in full and an
/// empty line.
pub proof fn law_failures_show_the_error(tag: Seq<char>, error: Seq<char>)
    ensures
        ({
            let out = failure_text(tag, error);
            let n = tag.len() as int;
            &&& out.len() == n + error.len() + 4
            &&& out.take(n) == tag
            &&& out.subrange(n, n + 2) == seq!['\n', '\n']
            &&& out.subrange(n + 2, n + 2 + error.len()) == error
            &&& out.skip(n + 2 + error.len()) == seq!['\n', '\n']
        }),
{
    reveal_strlit("\n\n");
    let out = failure_text(tag, error);
    let n = tag.len() as int;
    assert(out.take(n) =~= tag);
    assert(out.subrange(n, n + 2) =~= seq!['\n', '\n']);
    assert(out.subrange(n + 2, n + 2 + error.len()) =~= error);
    assert(out.skip(n + 2 + error.len()) =~= seq!['\n', '\n']);
}

/// What is printed of a file that failed begins with the tag, plain or in bold red, and shows
/// the error in full behind it.
pub proof fn law_failure_output_shows_the_error(out: Seq<char>, error: Seq<char>) -> (tag: Seq<
    char,
>)
    requires
        is_failure_output(out, error),
    ensures
        crate::style::styled(tag, crate::style::red_bold_codes(), "[FAILED]"@),
        out == tag + seq!['\n', '\n'] + error + seq!['\n', '\n'],
{
    reveal_strlit("\n\n");
    assert("\n\n"@ =~= seq!['\n', '\n']);
    choose|tag: Seq<char>|
        crate::style::styled(tag, crate::style::red_bold_codes(), "[FAILED]"@) && out
            == #[trigger] failure_text(tag, error)
}

/// A file is listed as failed exactly once for each of its runs that failed, in order: the list
/// for runs one after the other is the one list behind the other, and one run gives its file
/// where it failed, else nothing.
pub proof fn law_failed_files_are_listed_in_order(
    a: Seq<FileRun>,
    b: Seq<FileRun>,
    run: FileRun,
    failed: Seq<Seq<char>>,
)
    ensures
        failed_files(a + b) == failed_files(a) + failed_files(b),
        run.outcome is Failed ==> failed_files(seq![run]) == seq![run.file] && failed_with(
            failed,
            run.file,
            run.outcome,
        ) == failed + seq![run.file],
        run.outcome is Passed ==> failed_files(seq![run]).len() == 0 && failed_with(
            failed,
            run.file,
            run.outcome,
        ) == failed,
    decreases b.len(),
{
    reveal_with_fuel(failed_files, 2);
    assert(seq![run].drop_last() =~= Seq::<FileRun>::empty());
    if run.outcome is Failed {
        assert(failed_files(seq![run]) =~= seq![run.file]);
        assert(failed.push(run.file) =~= failed + seq![run.file]);
    }
    if b.len() == 0 {
        assert(a + b =~= a);
        assert(failed_files(a) + failed_files(b) =~= failed_files(a));
    } else {
        law_failed_files_are_listed_in_order(a, b.drop_last(), run, failed);
        assert((a + b).drop_last() =~= a + b.drop_last());
        assert((a + b).last() == b.last());
        assert(failed_files(a + b) =~= failed_files(a) + failed_files(b));
    }
}

/// A case or a suite that is added stands last and changes nothing that was there.
pub proof fn law_added_last(
    suite: SuiteContents,
    case: CaseContents,
    report: ReportContents,
)
    ensures
        with_case(suite, case).cases == suite.cases + seq![case],
        with_case(suite, case).name == suite.name,
        with_case(suite, case).stamped == suite.stamped,
        with_case(suite, case).tests == suite.tests + 1,
        with_case(suite, case).failures + with_case(suite, case).errors + with_case(
            suite,
            case,
        ).disabled == suite.failures + suite.errors + suite.disabled + (if case.status is Success {
            0nat
        } else {
            1
        }),
        with_suite(report, suite).suites == report.suites + seq![suite],
        with_suite(report, suite).name == report.name,
        with_suite(report, suite).stamped == report.stamped,
        with_suite(report, suite).tests == report.tests + suite.tests,
        with_suite(report, suite).failures == report.failures + suite.failures,
        with_suite(report, suite).errors == report.errors + suite.errors,
{
    assert(with_case(suite, case).cases =~= suite.cases + seq![case]);
    assert(with_suite(report, suite).suites =~= report.suites + seq![suite]);
}

}
