//! How a run ends.

use vstd::prelude::*;

verus! {

/// Why a run fails.
pub enum RunError {
    /// The name of a test file is not UTF-8.
    NotUtf8,
    /// Two test files give the same name to their databases: this one.
    DuplicateName(String),
    /// These test files failed.
    TestsFailed(Vec<String>),
}

/// The texts of `items`.
pub open spec fn texts(items: Seq<String>) -> Seq<Seq<char>> {
    items.map_values(|item: String| item@)
}

/// What std's `{:#?}` writes for a vector of the strings `items`.
pub uninterp spec fn pretty_list(items: Seq<Seq<char>>) -> Seq<char>;

/// `format!` of std with `{:#?}` lists the strings, one to a line, quoted and escaped. How they
/// are escaped is left to the name of the result.
#[verifier::external_body]
fn show_list(items: &Vec<String>) -> (r: String)
    ensures
        r@ == pretty_list(texts(items@)),
{
    format!("{:#?}", items)
}

/// What is said of files that failed, with their list as it is to be shown.
pub open spec fn failed_text(list: Seq<char>) -> Seq<char> {
    "some test case failed:\n"@ + list
}

/// What is said of the error.
pub open spec fn run_error_text(error: RunError) -> Seq<char> {
    match error {
        RunError::NotUtf8 => "not a UTF-8 filename"@,
        RunError::DuplicateName(name) => "duplicated file name found: "@ + name@,
        RunError::TestsFailed(files) => failed_text(pretty_list(texts(files@))),
    }
}

/// What is said of files that failed, with their list as it is to be shown.
pub fn failed_message(list: &str) -> (r: String)
    ensures
        r@ == failed_text(list@),
{
    let mut r = "some test case failed:\n".to_owned();
    r.append(list);
    r
}

impl RunError {
    /// What is said of the error.
    pub fn message(&self) -> (r: String)
        ensures
            r@ == run_error_text(*self),
    {
        match self {
            RunError::NotUtf8 => "not a UTF-8 filename".to_owned(),
            RunError::DuplicateName(name) => {
                let mut r = "duplicated file name found: ".to_owned();
                r.append(name.as_str());
                r
            },
            RunError::TestsFailed(files) => failed_message(show_list(files).as_str()),
        }
    }
}

/// How a run ends in which the files `failed_case` failed.
pub open spec fn verdict_for(failed_case: Vec<String>) -> Result<(), RunError> {
    if failed_case@.len() == 0 {
        Ok(())
    } else {
        Err(RunError::TestsFailed(failed_case))
    }
}

/// A run succeeds if no test file failed; else the error names all that did.
pub fn verdict(failed_case: Vec<String>) -> (r: Result<(), RunError>)
    ensures
        r == verdict_for(failed_case),
        r == (if failed_case@.len() == 0 {
            Ok::<(), RunError>(())
        } else {
            Err(RunError::TestsFailed(failed_case))
        }),
{
    if failed_case.len() == 0 {
        Ok(())
    } else {
        Err(RunError::TestsFailed(failed_case))
    }
}

/// The texts of strings are theirs, one for one.
pub proof fn law_texts_are_one_for_one(items: Seq<String>, i: int)
    requires
        0 <= i < items.len(),
    ensures
        texts(items).len() == items.len(),
        texts(items)[i] == items[i]@,
{
}

/// What is said of files that failed ends with their list in full; no two lists are told in the
/// same words.
pub proof fn law_failures_end_with_their_list(a: Seq<char>, b: Seq<char>)
    ensures
        failed_text(a).take(23) == "some test case failed:\n"@,
        failed_text(a).skip(23) == a,
        failed_text(a) == failed_text(b) ==> a == b,
{
    reveal_strlit("some test case failed:\n");
    assert(failed_text(a).take(23) =~= "some test case failed:\n"@);
    assert(failed_text(a).skip(23) =~= a);
    assert(failed_text(b).skip(23) =~= b);
}

/// An error of a run names what it is about: the name that two files share, or the files that
/// failed, all of them in their order.
pub proof fn law_errors_name_what_they_are_about(error: RunError)
    ensures
        error is NotUtf8 ==> run_error_text(error) == "not a UTF-8 filename"@,
        error matches RunError::DuplicateName(name) ==> run_error_text(error).take(28)
            == "duplicated file name found: "@ && run_error_text(error).skip(28) == name@,
        error matches RunError::TestsFailed(files) ==> run_error_text(error).skip(23)
            == pretty_list(files@.map_values(|file: String| file@)),
{
    reveal_strlit("duplicated file name found: ");
    match error {
        RunError::NotUtf8 => {},
        RunError::DuplicateName(name) => {
            assert(run_error_text(error).take(28) =~= "duplicated file name found: "@);
            assert(run_error_text(error).skip(28) =~= name@);
        },
        RunError::TestsFailed(files) => {
            let list = files@.map_values(|file: String| file@);
            assert(texts(files@) =~= list);
            law_failures_end_with_their_list(pretty_list(list), pretty_list(list));
        },
    }
}

/// A run fails exactly where a file failed, and the error then lists all of the files that did,
/// in order.
pub proof fn law_verdict_lists_all_failures(failed_case: Vec<String>)
    ensures
        verdict_for(failed_case) is Ok <==> failed_case@.len() == 0,
        verdict_for(failed_case) matches Err(error) ==> error is TestsFailed
            && error->TestsFailed_0@.map_values(|file: String| file@) == failed_case@.map_values(
            |file: String| file@,
        ),
{
}

}
