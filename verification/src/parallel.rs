//! Running test files in parallel, each in a database of its own.

use quick_junit::TestSuite;
use rand::distributions::DistString;
use vstd::multiset::Multiset;
use vstd::prelude::*;

use crate::names::sanitize;
use crate::progress::since;
use crate::report::{outcome_output, record_case, CaseOutcome};
use crate::style::{blue_bold, red_bold};
use crate::text::{comes_before, to_decimal, to_lower};
use crate::verdict::RunError;

verus! {

/// How many characters the random part of a database name has.
pub const ID_LEN: usize = 8;

/// `sample_string` of `rand::distributions::Alphanumeric` with the generator of the thread
/// gives `len` ASCII letters and digits. Which ones is left to chance.
#[verifier::external_body]
fn random_text(len: usize) -> (r: String)
    ensures
        r@.len() == len,
        forall|i: int| 0 <= i < len ==> crate::text::is_alphanumeric(#[trigger] r@[i]),
{
    rand::distributions::Alphanumeric.sample_string(&mut rand::thread_rng(), len)
}

/// Whether `id` can be the random part of a database name.
pub open spec fn is_id(id: Seq<char>) -> bool {
    id.len() == ID_LEN && forall|i: int|
        0 <= i < id.len() ==> 'a' <= #[trigger] id[i] <= 'z' || '0' <= id[i] <= '9'
}

/// The random part of a database name.
pub fn random_id() -> (r: String)
    ensures
        is_id(r@),
{
    let sample = random_text(ID_LEN);
    let r = to_lower(sample.as_str());
    assert forall|i: int| 0 <= i < r@.len() implies 'a' <= #[trigger] r@[i] <= 'z' || '0' <= r@[i]
        <= '9' by {
        assert(crate::text::is_alphanumeric(sample@[i]));
        assert(r@[i] == crate::text::lower(sample@[i]));
    }
    r
}

/// The name of the database for `file`, with the random part `id`.
pub open spec fn database_name(file: Seq<char>, id: Seq<char>) -> Seq<char> {
    crate::names::sanitized(file) + "_"@ + id
}

/// The line that announces `file`.
pub open spec fn discovered_text(file: Seq<char>) -> Seq<char> {
    "+ Discovered Test: "@ + crate::names::sanitized(file)
}

/// Whether the file at `i` cannot have a database: its name is not UTF-8, or gives the same
/// name as that of a file before it.
pub open spec fn clashes(files: Seq<Option<String>>, i: int) -> bool {
    match files[i] {
        None => true,
        Some(file) => exists|j: int|
            0 <= j < i && (#[trigger] files[j] matches Some(other) && crate::names::sanitized(
                other@,
            ) == crate::names::sanitized(file@)),
    }
}

/// Whether none of the first `n` files clashes.
pub open spec fn clash_free(files: Seq<Option<String>>, n: int) -> bool {
    forall|i: int| 0 <= i < n ==> !#[trigger] clashes(files, i)
}

/// A database to create, and the file that is run in it, by its place in the list of files.
pub struct Database {
    pub name: String,
    pub file: usize,
}

/// Whether the databases stand in the strict order of their names.
pub open spec fn in_order(plan: Seq<Database>) -> bool {
    forall|k: int, l: int|
        0 <= k < l < plan.len() ==> crate::text::precedes(
            (#[trigger] plan[k]).name@,
            (#[trigger] plan[l]).name@,
        )
}

/// Whether the file at `i` has a database.
pub open spec fn has_database(plan: Seq<Database>, i: int) -> bool {
    exists|k: int| 0 <= k < plan.len() && (#[trigger] plan[k]).file == i
}

/// Whether `plan` gives every one of `files` its database, and lists the databases in the order
/// of their names.
pub open spec fn is_plan(plan: Seq<Database>, files: Seq<Option<String>>, ids: Seq<String>) -> bool {
    &&& plan.len() == files.len()
    &&& in_order(plan)
    &&& forall|k: int|
        0 <= k < plan.len() ==> {
            let file = (#[trigger] plan[k]).file as int;
            file < files.len() && plan[k].name@ == database_name(files[file]->0@, ids[file]@)
        }
    &&& forall|i: int| 0 <= i < files.len() ==> #[trigger] has_database(plan, i)
}

/// The databases for a run, or why there are none, and the lines that announce the files that
/// were looked at.
pub struct Discovery {
    pub lines: Vec<String>,
    pub plan: Result<Vec<Database>, RunError>,
}

/// Whether `lines` announce the first `n` files.
pub open spec fn announce(lines: Seq<String>, files: Seq<Option<String>>, n: int) -> bool {
    lines.len() == n && forall|i: int|
        0 <= i < n ==> (#[trigger] lines[i])@ == discovered_text(files[i]->0@)
}

/// Whether `discovery` is what a look at `files` gives where the databases get the random parts
/// `ids`: the plan, where no file clashes, else the error for the first file that does. A file
/// is announced before its name is compared with those before it.
pub open spec fn is_discovery(
    discovery: Discovery,
    files: Seq<Option<String>>,
    ids: Seq<String>,
) -> bool {
    match discovery.plan {
        Ok(plan) => {
            &&& clash_free(files, files.len() as int)
            &&& is_plan(plan@, files, ids)
            &&& announce(discovery.lines@, files, files.len() as int)
        },
        Err(error) => exists|i: int|
            0 <= i < files.len() && clash_free(files, i) && #[trigger] clashes(files, i)
                && match files[i] {
                None => error is NotUtf8 && announce(discovery.lines@, files, i),
                Some(file) => (error matches RunError::DuplicateName(name) && name@
                    == crate::names::sanitized(file@)) && announce(
                    discovery.lines@,
                    files,
                    i + 1,
                ),
            },
    }
}

/// Files that give different names have databases with different names, whatever the random
/// parts.
proof fn lemma_database_names_differ(a: Seq<char>, x: Seq<char>, b: Seq<char>, y: Seq<char>)
    requires
        x.len() == y.len(),
        crate::names::sanitized(a) != crate::names::sanitized(b),
    ensures
        database_name(a, x) != database_name(b, y),
{
    let na = crate::names::sanitized(a);
    let nb = crate::names::sanitized(b);
    if database_name(a, x) == database_name(b, y) {
        assert(database_name(a, x).len() == na.len() + "_"@.len() + x.len());
        assert(database_name(b, y).len() == nb.len() + "_"@.len() + y.len());
        assert(database_name(a, x).take(na.len() as int) =~= na);
        assert(database_name(b, y).take(nb.len() as int) =~= nb);
    }
}

/// Puts `db` where it belongs among databases with other names.
fn insert_database(plan: &mut Vec<Database>, db: Database) -> (r: usize)
    requires
        in_order(old(plan)@),
        forall|k: int|
            0 <= k < old(plan)@.len() ==> (#[trigger] old(plan)@[k]).name@ != db.name@,
    ensures
        in_order(final(plan)@),
        r <= old(plan)@.len(),
        final(plan)@ == old(plan)@.insert(r as int, db),
{
    let mut at: usize = 0;
    while at < plan.len() && comes_before(plan[at].name.as_str(), db.name.as_str())
        invariant
            at <= plan@.len(),
            forall|k: int|
                0 <= k < at ==> crate::text::precedes((#[trigger] plan@[k]).name@, db.name@),
        decreases plan@.len() - at,
    {
        at += 1;
    }
    let ghost before = plan@;
    plan.insert(at, db);
    proof {
        assert forall|k: int| at <= k < before.len() implies crate::text::precedes(
            db.name@,
            (#[trigger] before[k]).name@,
        ) by {
            crate::text::lemma_precedes_total(db.name@, before[at as int].name@);
            if k > at {
                crate::text::lemma_precedes_transitive(
                    db.name@,
                    before[at as int].name@,
                    before[k].name@,
                );
            }
        }
    }
    at
}

/// A plan with the database for one file more is the plan for the files with that file.
proof fn lemma_plan_extends(
    plan: Seq<Database>,
    files: Seq<Option<String>>,
    ids: Seq<String>,
    file: Option<String>,
    at: int,
    db: Database,
)
    requires
        is_plan(plan, files, ids),
        0 <= at <= plan.len(),
        db.file == files.len(),
        db.name@ == database_name(file->0@, ids[files.len() as int]@),
        in_order(plan.insert(at, db)),
    ensures
        is_plan(plan.insert(at, db), files.push(file), ids),
{
    let longer = plan.insert(at, db);
    assert forall|i: int| 0 <= i < files.push(file).len() implies #[trigger] has_database(
        longer,
        i,
    ) by {
        if i == files.len() {
            assert(longer[at].file == i);
        } else {
            assert(has_database(plan, i));
            let k = choose|k: int| 0 <= k < plan.len() && (#[trigger] plan[k]).file == i;
            if k < at {
                assert(longer[k].file == i);
            } else {
                assert(longer[k + 1].file == i);
            }
        }
    }
}

/// Whether one of `names` is `name`.
fn contains_name(names: &Vec<String>, name: &String) -> (r: bool)
    ensures
        r == crate::verdict::texts(names@).contains(name@),
{
    let mut i: usize = 0;
    while i < names.len()
        invariant
            i <= names@.len(),
            forall|j: int| 0 <= j < i ==> (#[trigger] names@[j])@ != name@,
        decreases names@.len() - i,
    {
        if names[i] == *name {
            assert(crate::verdict::texts(names@)[i as int] == name@);
            return true;
        }
        i += 1;
    }
    assert forall|j: int| 0 <= j < names@.len() implies #[trigger] crate::verdict::texts(names@)[j]
        != name@ by {
        assert(names@[j]@ != name@);
    }
    false
}

/// Looks at `files`, each with its name where that is UTF-8, and plans their databases, with
/// the random parts `ids`.
pub fn plan_databases_with(files: &Vec<Option<String>>, ids: &Vec<String>) -> (r: Discovery)
    requires
        ids@.len() == files@.len(),
        forall|i: int| 0 <= i < ids@.len() ==> (#[trigger] ids@[i])@.len() == ID_LEN,
    ensures
        is_discovery(r, files@, ids@),
{
    let mut lines: Vec<String> = Vec::new();
    let mut names: Vec<String> = Vec::new();
    let mut plan: Vec<Database> = Vec::new();
    let mut i: usize = 0;
    while i < files.len()
        invariant
            ids@.len() == files@.len(),
            forall|i: int| 0 <= i < ids@.len() ==> (#[trigger] ids@[i])@.len() == ID_LEN,
            i <= files@.len(),
            clash_free(files@, i as int),
            names@.len() == i,
            forall|j: int|
                0 <= j < i ==> files@[j] is Some && (#[trigger] names@[j])@
                    == crate::names::sanitized(files@[j]->0@),
            announce(lines@, files@, i as int),
            is_plan(plan@, files@.take(i as int), ids@),
        decreases files@.len() - i,
    {
        match &files[i] {
            None => {
                assert(clashes(files@, i as int));
                return Discovery { lines, plan: Err(RunError::NotUtf8) };
            },
            Some(file) => {
                let name = sanitize(file.as_str());
                let mut line = "+ Discovered Test: ".to_owned();
                line.append(name.as_str());
                lines.push(line);
                if contains_name(&names, &name) {
                    proof {
                        let j = choose|j: int|
                            0 <= j < crate::verdict::texts(names@).len() && crate::verdict::texts(
                                names@,
                            )[j] == name@;
                        assert(names@[j]@ == name@);
                        assert(files@[j] is Some);
                        assert(clashes(files@, i as int));
                    }
                    return Discovery { lines, plan: Err(RunError::DuplicateName(name)) };
                }
                let mut db_name = name.clone();
                db_name.append("_");
                db_name.append(ids[i].as_str());
                proof {
                    assert forall|j: int| 0 <= j < i implies (#[trigger] files@[j] is Some)
                        && crate::names::sanitized(files@[j]->0@) != crate::names::sanitized(
                        file@,
                    ) by {
                        assert(names@[j]@ == crate::names::sanitized(files@[j]->0@));
                        assert(crate::verdict::texts(names@)[j] == names@[j]@);
                    }
                    assert(!clashes(files@, i as int));
                    assert forall|k: int| 0 <= k < plan@.len() implies (#[trigger] plan@[k]).name@
                        != db_name@ by {
                        let j = plan@[k].file as int;
                        assert(files@.take(i as int)[j] == files@[j]);
                        lemma_database_names_differ(
                            files@[j]->0@,
                            ids@[j]@,
                            file@,
                            ids@[i as int]@,
                        );
                    }
                }
                names.push(name);
                let ghost before = plan@;
                let db = Database { name: db_name, file: i };
                let at = insert_database(&mut plan, db);
                proof {
                    lemma_plan_extends(
                        before,
                        files@.take(i as int),
                        ids@,
                        files@[i as int],
                        at as int,
                        db,
                    );
                    assert(files@.take(i as int).push(files@[i as int]) =~= files@.take(i + 1));
                }
            },
        }
        i += 1;
    }
    assert(files@.take(i as int) =~= files@);
    Discovery { lines, plan: Ok(plan) }
}

/// Looks at `files`, each with its name where that is UTF-8, and plans their databases.
pub fn plan_databases(files: &Vec<Option<String>>) -> (r: Discovery)
    ensures
        exists|ids: Seq<String>|
            ids.len() == files@.len() && (forall|i: int|
                0 <= i < ids.len() ==> is_id((#[trigger] ids[i])@)) && #[trigger] is_discovery(
                r,
                files@,
                ids,
            ),
{
    let mut ids: Vec<String> = Vec::new();
    let mut i: usize = 0;
    while i < files.len()
        invariant
            i <= files@.len(),
            ids@.len() == i,
            forall|j: int| 0 <= j < i ==> is_id((#[trigger] ids@[j])@),
        decreases files@.len() - i,
    {
        ids.push(random_id());
        i += 1;
    }
    plan_databases_with(files, &ids)
}

/// Every file has one database, and no two files share one: two places in the list are the
/// same where they have the same file or the same name.
pub proof fn law_each_file_has_its_own_database(
    plan: Seq<Database>,
    files: Seq<Option<String>>,
    ids: Seq<String>,
    k: int,
    l: int,
)
    requires
        is_plan(plan, files, ids),
        0 <= k < plan.len(),
        0 <= l < plan.len(),
        plan[k].file == plan[l].file || plan[k].name@ == plan[l].name@,
    ensures
        k == l,
{
    assert(plan[k].name@ == plan[l].name@);
    crate::text::lemma_precedes_irreflexive(plan[k].name@);
    if k < l {
        assert(crate::text::precedes(plan[k].name@, plan[l].name@));
    } else if l < k {
        assert(crate::text::precedes(plan[l].name@, plan[k].name@));
    }
}

/// The plan for given files and random parts is fixed: there are not two of them.
pub proof fn law_plan_is_unique(
    a: Seq<Database>,
    b: Seq<Database>,
    files: Seq<Option<String>>,
    ids: Seq<String>,
)
    requires
        is_plan(a, files, ids),
        is_plan(b, files, ids),
    ensures
        a.len() == b.len(),
        forall|k: int|
            0 <= k < a.len() ==> (#[trigger] a[k]).file == b[k].file && a[k].name@ == b[k].name@,
{
    assert forall|k: int| 0 <= k < a.len() implies (#[trigger] a[k]).file == b[k].file && a[k].name@
        == b[k].name@ by {
        lemma_plans_agree(a, b, files, ids, k);
    }
}

/// Two plans for the same files agree at `k`.
proof fn lemma_plans_agree(
    a: Seq<Database>,
    b: Seq<Database>,
    files: Seq<Option<String>>,
    ids: Seq<String>,
    k: int,
)
    requires
        is_plan(a, files, ids),
        is_plan(b, files, ids),
        0 <= k < a.len(),
    ensures
        a[k].file == b[k].file,
        a[k].name@ == b[k].name@,
    decreases k,
{
    assert forall|j: int| 0 <= j < k implies (#[trigger] a[j]).file == b[j].file && a[j].name@
        == b[j].name@ by {
        lemma_plans_agree(a, b, files, ids, j);
    }
    // The file of `a[k]` stands at or behind `k` in `b`, and the other way round.
    assert(has_database(b, a[k].file as int));
    let m = choose|m: int| 0 <= m < b.len() && (#[trigger] b[m]).file == a[k].file;
    assert(has_database(a, b[k].file as int));
    let n = choose|n: int| 0 <= n < a.len() && (#[trigger] a[n]).file == b[k].file;
    if m < k {
        assert(a[m].file == a[k].file);
        law_each_file_has_its_own_database(a, files, ids, m, k);
    }
    if n < k {
        assert(b[n].file == b[k].file);
        law_each_file_has_its_own_database(b, files, ids, n, k);
    }
    assert(a[k].name@ == b[m].name@);
    assert(a[n].name@ == b[k].name@);
    if m > k {
        assert(crate::text::precedes(b[k].name@, b[m].name@));
        if n > k {
            assert(crate::text::precedes(a[k].name@, a[n].name@));
            crate::text::lemma_precedes_transitive(a[k].name@, b[k].name@, a[k].name@);
        }
        crate::text::lemma_precedes_irreflexive(a[k].name@);
    }
}

/// The statement that creates the database `name`.
pub open spec fn create_text(name: Seq<char>) -> Seq<char> {
    "CREATE DATABASE "@ + name + ";"@
}

/// The statement that creates the database `name`.
pub fn create_query(name: &str) -> (r: String)
    ensures
        r@ == "CREATE DATABASE "@ + name@ + ";"@,
        r@ == create_text(name@),
{
    let mut r = "CREATE DATABASE ".to_owned();
    r.append(name);
    r.append(";");
    r
}

/// The statement that drops the database `name`.
pub open spec fn drop_text(name: Seq<char>) -> Seq<char> {
    "DROP DATABASE "@ + name + ";"@
}

/// The statement that drops the database `name`.
pub fn drop_query(name: &str) -> (r: String)
    ensures
        r@ == drop_text(name@),
        r@ == "DROP DATABASE "@ + name@ + ";"@,
{
    let mut r = "DROP DATABASE ".to_owned();
    r.append(name);
    r.append(";");
    r
}

/// The line that announces a statement.
pub open spec fn query_text(query: Seq<char>) -> Seq<char> {
    "+ "@ + query
}

/// The line for the error of a statement, which is ignored.
pub open spec fn ignored_text(error: Seq<char>) -> Seq<char> {
    "  ignore error: "@ + error
}

/// The line that says how long the tests took that were begun at `start` and over at `now`.
pub open spec fn finished_text(start: u64, now: u64) -> Seq<char> {
    "\n All test cases finished in "@ + crate::text::decimal(
        crate::progress::elapsed(start, now) / 1_000_000,
    ) + " ms"@
}

/// The line that announces a statement.
pub fn query_line(query: &str) -> (r: String)
    ensures
        r@ == "+ "@ + query@,
        r@ == query_text(query@),
{
    let mut r = "+ ".to_owned();
    r.append(query);
    r
}

/// The line for the error of a statement, which is ignored.
pub fn ignored_line(error: &str) -> (r: String)
    ensures
        r@ == "  ignore error: "@ + error@,
        r@ == ignored_text(error@),
{
    let mut r = "  ignore error: ".to_owned();
    r.append(error);
    r
}

/// The line that says that the tests are being run.
pub fn in_progress_line() -> (r: String)
    ensures
        crate::style::styled(r@, crate::style::blue_bold_codes(), "[TEST IN PROGRESS]"@),
{
    blue_bold("[TEST IN PROGRESS]")
}

/// The line that says how long the tests took that were begun at `start` and over at `now`.
pub fn finished_line(start: u64, now: u64) -> (r: String)
    ensures
        r@ == "\n All test cases finished in "@ + crate::text::decimal(
            crate::progress::elapsed(start, now) / 1_000_000,
        ) + " ms"@,
        r@ == finished_text(start, now),
{
    let mut r = "\n All test cases finished in ".to_owned();
    r.append(to_decimal(since(start, now) / 1_000_000).as_str());
    r.append(" ms");
    r
}

/// What has failed so far.
pub struct Failures {
    /// The files, in the order in which they ended.
    pub files: Vec<String>,
    /// The databases, each once.
    pub databases: Vec<String>,
}

/// The content of [`Failures`].
pub struct FailuresState {
    pub files: Seq<Seq<char>>,
    pub databases: Set<Seq<char>>,
}

impl View for Failures {
    type V = FailuresState;

    open spec fn view(&self) -> FailuresState {
        FailuresState {
            files: crate::verdict::texts(self.files@),
            databases: crate::verdict::texts(self.databases@).to_set(),
        }
    }
}

/// What has failed once `file` has been run in `database`.
pub open spec fn failures_with(
    s: FailuresState,
    database: Seq<char>,
    file: Seq<char>,
    outcome: CaseOutcome,
) -> FailuresState {
    match outcome {
        CaseOutcome::Passed { .. } => s,
        CaseOutcome::Failed { .. } => FailuresState {
            files: s.files.push(file),
            databases: s.databases.insert(database),
        },
    }
}

impl Failures {
    /// No database is noted twice.
    pub open spec fn well_formed(&self) -> bool {
        crate::verdict::texts(self.databases@).no_duplicates()
    }

    /// Before the first file has been run.
    pub fn none() -> (r: Failures)
        ensures
            r.well_formed(),
            r@ == no_failures(),
    {
        let r = Failures { files: Vec::new(), databases: Vec::new() };
        assert(r@.files =~= Seq::<Seq<char>>::empty());
        assert(r@.databases =~= Set::<Seq<char>>::empty());
        r
    }

    /// Notes that `database` holds a file that failed.
    fn add_database(&mut self, database: &String)
        requires
            old(self).well_formed(),
        ensures
            final(self).well_formed(),
            final(self).files == old(self).files,
            final(self)@.databases == old(self)@.databases.insert(database@),
    {
        let ghost before = crate::verdict::texts(self.databases@);
        if !contains_name(&self.databases, database) {
            self.databases.push(database.clone());
            let ghost after = crate::verdict::texts(self.databases@);
            assert(after =~= before.push(database@));
            assert(self@.databases =~= old(self)@.databases.insert(database@)) by {
                assert forall|x: Seq<char>| after.contains(x) implies before.contains(x) || x
                    == database@ by {}
                assert forall|x: Seq<char>| before.contains(x) implies after.contains(x) by {
                    let i = choose|i: int| 0 <= i < before.len() && before[i] == x;
                    assert(after[i] == x);
                }
                assert(after[before.len() as int] == database@);
            }
        } else {
            assert(self@.databases =~= old(self)@.databases.insert(database@));
        }
    }

    /// Takes in how `file` fared in `database`: adds its case to `suite`, and gives what to
    /// print behind the progress output of the file.
    pub fn record_result(
        &mut self,
        suite: &mut TestSuite,
        database: &String,
        file: &str,
        outcome: &CaseOutcome,
        junit: &Option<String>,
    ) -> (r: String)
        requires
            old(self).well_formed(),
            crate::report::suite_contents(*old(suite)).has_room(),
        ensures
            final(self).well_formed(),
            final(self)@ == failures_with(old(self)@, database@, file@, *outcome),
            crate::report::suite_contents(*final(suite)) == crate::report::with_case(
                crate::report::suite_contents(*old(suite)),
                crate::report::case_for(file@, *outcome, *junit),
            ),
            crate::report::suite_contents(*old(suite)).counts_match()
                ==> crate::report::suite_contents(*final(suite)).counts_match(),
            match *outcome {
                CaseOutcome::Passed { .. } => r@.len() == 0,
                CaseOutcome::Failed { details, .. } => crate::report::is_failure_output(
                    r@,
                    details@,
                ),
            },
    {
        record_case(suite, &mut self.files, file, outcome, junit);
        if let CaseOutcome::Failed { .. } = outcome {
            self.add_database(database);
        }
        outcome_output(outcome)
    }

    /// What to do with each database of `plan` once all files have been run. Databases of files
    /// that failed are kept where `keep_db_on_failure` asks for it; all others are dropped.
    pub fn cleanup(&self, keep_db_on_failure: bool, plan: &Vec<Database>) -> (r: Vec<Cleanup>)
        ensures
            r@.len() == plan@.len(),
            forall|k: int|
                0 <= k < plan@.len() ==> is_cleanup(
                    #[trigger] r@[k],
                    keep_db_on_failure,
                    self@.databases,
                    plan@[k].name@,
                ),
    {
        let mut r: Vec<Cleanup> = Vec::new();
        let mut i: usize = 0;
        while i < plan.len()
            invariant
                i <= plan@.len(),
                r@.len() == i,
                forall|k: int|
                    0 <= k < i ==> is_cleanup(
                        #[trigger] r@[k],
                        keep_db_on_failure,
                        self@.databases,
                        plan@[k].name@,
                    ),
            decreases plan@.len() - i,
        {
            let name = &plan[i].name;
            if keep_db_on_failure && contains_name(&self.databases, name) {
                r.push(Cleanup::KeepDatabase { notice: kept_notice(name.as_str()) });
            } else {
                r.push(Cleanup::DropDatabase { query: drop_query(name.as_str()) });
            }
            i += 1;
        }
        r
    }
}

/// What to do with a database at the end of a run.
pub enum Cleanup {
    /// Keep it, and print `notice`.
    KeepDatabase { notice: String },
    /// Run `query`, which drops it.
    DropDatabase { query: String },
}

/// What is said of the database `name` where it is kept, before it is styled.
pub open spec fn kept_text(name: Seq<char>) -> Seq<char> {
    "DATABASE "@ + name + " contains failed cases, kept for debugging"@
}

/// Whether `out` says that the database `name` is kept, in either state of the colour setting.
pub open spec fn is_kept_notice(out: Seq<char>, name: Seq<char>) -> bool {
    exists|shown: Seq<char>|
        #[trigger] crate::style::styled(shown, crate::style::red_bold_codes(), kept_text(name))
            && out == "+ "@ + shown
}

/// Whether `step` is what to do with the database `name` where those in `failed` hold files
/// that failed.
pub open spec fn is_cleanup(
    step: Cleanup,
    keep_db_on_failure: bool,
    failed: Set<Seq<char>>,
    name: Seq<char>,
) -> bool {
    if keep_db_on_failure && failed.contains(name) {
        step matches Cleanup::KeepDatabase { notice } && is_kept_notice(notice@, name)
    } else {
        step matches Cleanup::DropDatabase { query } && query@ == drop_text(name)
    }
}

/// What is said of the database `name` where it is kept.
fn kept_notice(name: &str) -> (r: String)
    ensures
        is_kept_notice(r@, name@),
{
    let mut text = "DATABASE ".to_owned();
    text.append(name);
    text.append(" contains failed cases, kept for debugging");
    let shown = red_bold(text.as_str());
    let r = query_line(shown.as_str());
    assert(crate::style::styled(shown@, crate::style::red_bold_codes(), kept_text(name@)));
    r
}

/// A test file that has been run in a database.
pub struct DatabaseRun {
    pub database: Seq<char>,
    pub run: crate::report::FileRun,
}

/// What has failed after `runs`, in the order in which they ended.
pub open spec fn failures_after(s: FailuresState, runs: Seq<DatabaseRun>) -> FailuresState
    decreases runs.len(),
{
    if runs.len() == 0 {
        s
    } else {
        let last = runs.last();
        failures_with(
            failures_after(s, runs.drop_last()),
            last.database,
            last.run.file,
            last.run.outcome,
        )
    }
}

/// Nothing has failed.
pub open spec fn no_failures() -> FailuresState {
    FailuresState { files: Seq::empty(), databases: Set::empty() }
}

/// The test files of `runs`.
pub open spec fn file_runs(runs: Seq<DatabaseRun>) -> Seq<crate::report::FileRun> {
    runs.map_values(|r: DatabaseRun| r.run)
}

/// Whether a file of `runs` that was run in `database` failed.
pub open spec fn failed_in(runs: Seq<DatabaseRun>, database: Seq<char>) -> bool {
    exists|i: int|
        0 <= i < runs.len() && (#[trigger] runs[i]).database == database
            && runs[i].run.outcome is Failed
}

/// What is noted as failed is what failed, whatever the order in which the files end: the
/// files, in that order, and the databases that they were run in.
pub proof fn law_failures_are_noted(runs: Seq<DatabaseRun>)
    ensures
        failures_after(no_failures(), runs).files == crate::report::failed_files(file_runs(runs)),
        forall|d: Seq<char>|
            #[trigger] failures_after(no_failures(), runs).databases.contains(d) <==> failed_in(
                runs,
                d,
            ),
    decreases runs.len(),
{
    if runs.len() > 0 {
        let front = runs.drop_last();
        law_failures_are_noted(front);
        assert(file_runs(runs).drop_last() =~= file_runs(front));
        assert forall|d: Seq<char>|
            #[trigger] failures_after(no_failures(), runs).databases.contains(d) <==> failed_in(
                runs,
                d,
            ) by {
            if failed_in(front, d) {
                let i = choose|i: int|
                    0 <= i < front.len() && (#[trigger] front[i]).database == d
                        && front[i].run.outcome is Failed;
                assert(runs[i].database == d);
            }
            if failed_in(runs, d) {
                let i = choose|i: int|
                    0 <= i < runs.len() && (#[trigger] runs[i]).database == d
                        && runs[i].run.outcome is Failed;
                if i < front.len() {
                    assert(front[i].database == d);
                }
            }
            assert(runs[runs.len() - 1] == runs.last());
            assert(failures_after(no_failures(), front).databases.contains(d) <==> failed_in(
                front,
                d,
            ));
        }
    } else {
        assert(file_runs(runs) =~= Seq::empty());
    }
}

/// How often each file is noted as failed after `runs`.
pub open spec fn failed_counts(runs: Seq<DatabaseRun>) -> Multiset<Seq<char>> {
    failures_after(no_failures(), runs).files.to_multiset()
}

/// What is noted as failed without the run at `i`.
proof fn lemma_failed_without(runs: Seq<DatabaseRun>, i: int)
    requires
        0 <= i < runs.len(),
    ensures
        failed_counts(runs) == (if runs[i].run.outcome is Failed {
            failed_counts(runs.remove(i)).insert(runs[i].run.file)
        } else {
            failed_counts(runs.remove(i))
        }),
    decreases runs.len(),
{
    broadcast use vstd::seq_lib::group_to_multiset_ensures;

    let front = runs.drop_last();
    let last = runs.last();
    if i == runs.len() - 1 {
        assert(runs.remove(i) =~= front);
    } else {
        lemma_failed_without(front, i);
        assert(runs.remove(i).drop_last() =~= front.remove(i));
        assert(runs.remove(i).last() == last);
        let rest = failed_counts(front.remove(i));
        assert(rest.insert(runs[i].run.file).insert(last.run.file) =~= rest.insert(
            last.run.file,
        ).insert(runs[i].run.file));
    }
}

/// The order in which the files end has no bearing on what a run leaves behind: the same
/// databases hold failed files, and the same files are named as failed.
pub proof fn law_order_of_ends_does_not_matter(a: Seq<DatabaseRun>, b: Seq<DatabaseRun>)
    requires
        a.to_multiset() == b.to_multiset(),
    ensures
        failures_after(no_failures(), a).databases == failures_after(no_failures(), b).databases,
        failed_counts(a) == failed_counts(b),
    decreases a.len(),
{
    broadcast use vstd::seq_lib::group_to_multiset_ensures;

    assert(a.len() == a.to_multiset().len());
    assert(b.len() == b.to_multiset().len());
    law_failures_are_noted(a);
    law_failures_are_noted(b);
    assert forall|d: Seq<char>| failed_in(a, d) <==> failed_in(b, d) by {
        if failed_in(a, d) {
            let i = choose|i: int|
                0 <= i < a.len() && (#[trigger] a[i]).database == d && a[i].run.outcome is Failed;
            assert(a.to_multiset().contains(a[i]));
            assert(b.contains(a[i]));
        }
        if failed_in(b, d) {
            let i = choose|i: int|
                0 <= i < b.len() && (#[trigger] b[i]).database == d && b[i].run.outcome is Failed;
            assert(b.to_multiset().contains(b[i]));
            assert(a.contains(b[i]));
        }
    }
    assert forall|d: Seq<char>|
        #[trigger] failures_after(no_failures(), a).databases.contains(d) == failures_after(
            no_failures(),
            b,
        ).databases.contains(d) by {
        assert(failed_in(a, d) <==> failed_in(b, d));
        assert(failures_after(no_failures(), b).databases.contains(d) <==> failed_in(b, d));
    }
    assert(failures_after(no_failures(), a).databases =~= failures_after(
        no_failures(),
        b,
    ).databases);
    if a.len() > 0 {
        let last = a.last();
        assert(a.to_multiset().contains(last));
        let i = choose|i: int| 0 <= i < b.len() && b[i] == last;
        assert(a.remove(a.len() - 1) =~= a.drop_last());
        assert(a.drop_last().to_multiset() =~= a.to_multiset().remove(last));
        assert(b.remove(i).to_multiset() =~= b.to_multiset().remove(last));
        law_order_of_ends_does_not_matter(a.drop_last(), b.remove(i));
        lemma_failed_without(a, a.len() - 1);
        lemma_failed_without(b, i);
    } else {
        assert(a =~= b);
    }
}

/// At the end of a run, a database is kept exactly where keeping is asked for and a file failed
/// in it; every other database is dropped.
pub proof fn law_only_failed_databases_are_kept(
    step: Cleanup,
    keep_db_on_failure: bool,
    runs: Seq<DatabaseRun>,
    name: Seq<char>,
)
    requires
        is_cleanup(
            step,
            keep_db_on_failure,
            failures_after(no_failures(), runs).databases,
            name,
        ),
    ensures
        step is KeepDatabase <==> keep_db_on_failure && failed_in(runs, name),
        step is DropDatabase <==> !(keep_db_on_failure && failed_in(runs, name)),
{
    law_failures_are_noted(runs);
    assert(failures_after(no_failures(), runs).databases.contains(name) <==> failed_in(runs, name));
}

/// A run succeeds exactly where its report counts no failure.
pub proof fn law_verdict_agrees_with_report(
    report: crate::report::ReportContents,
    suite: crate::report::SuiteContents,
    runs: Seq<DatabaseRun>,
    junit: Option<String>,
)
    requires
        report.tests == 0,
        report.failures == 0,
        report.errors == 0,
        suite.counts_match(),
        suite.cases.len() == 0,
    ensures
        failures_after(no_failures(), runs).files.len() == crate::report::with_suite(
            report,
            crate::report::with_runs(suite, file_runs(runs), junit),
        ).failures,
{
    law_failures_are_noted(runs);
    crate::report::law_report_counts_runs(report, suite, file_runs(runs), junit);
}

/// The statements that create and drop a database differ in their leading word alone, and both
/// hold the name of the database in full and nothing behind it but a semicolon.
pub proof fn law_create_and_drop_name_the_same_database(name: Seq<char>)
    ensures
        create_text(name).len() == name.len() + 17,
        drop_text(name).len() == name.len() + 15,
        create_text(name).take(6) == "CREATE"@,
        drop_text(name).take(4) == "DROP"@,
        create_text(name).skip(6) == drop_text(name).skip(4),
        drop_text(name).subrange(4, 14) == " DATABASE "@,
        drop_text(name).subrange(14, 14int + name.len()) == name,
        drop_text(name).skip(14int + name.len()) == seq![';'],
{
    reveal_strlit("CREATE DATABASE ");
    reveal_strlit("DROP DATABASE ");
    reveal_strlit("CREATE");
    reveal_strlit("DROP");
    reveal_strlit(" DATABASE ");
    reveal_strlit(";");
    assert(create_text(name).take(6) =~= "CREATE"@);
    assert(drop_text(name).take(4) =~= "DROP"@);
    assert(create_text(name).skip(6) =~= drop_text(name).skip(4));
    assert(drop_text(name).subrange(4, 14) =~= " DATABASE "@);
    assert(drop_text(name).subrange(14, 14int + name.len()) =~= name);
    assert(drop_text(name).skip(14int + name.len()) =~= seq![';']);
}

/// No two databases are created or dropped by the same statement.
pub proof fn law_statements_tell_databases_apart(a: Seq<char>, b: Seq<char>)
    requires
        a != b,
    ensures
        create_text(a) != create_text(b),
        drop_text(a) != drop_text(b),
{
    law_create_and_drop_name_the_same_database(a);
    law_create_and_drop_name_the_same_database(b);
    if drop_text(a) == drop_text(b) || create_text(a) == create_text(b) {
        assert(drop_text(a).skip(4) == drop_text(b).skip(4));
        let rest = drop_text(a).skip(4);
        assert(rest.subrange(10, 10int + a.len()) =~= drop_text(a).subrange(14, 14int + a.len()));
        assert(rest.subrange(10, 10int + b.len()) =~= drop_text(b).subrange(14, 14int + b.len()));
    }
}

/// At the end of a run, each database is dropped by the statement that names it as the one that
/// created it did, or is kept and named in the notice; it is kept exactly where that is asked
/// for and a file failed in it.
pub proof fn law_cleanup_is_about_the_created_database(
    step: Cleanup,
    keep_db_on_failure: bool,
    failed: Set<Seq<char>>,
    name: Seq<char>,
)
    requires
        is_cleanup(step, keep_db_on_failure, failed, name),
    ensures
        step is KeepDatabase <==> keep_db_on_failure && failed.contains(name),
        step matches Cleanup::DropDatabase { query } ==> query@ == "DROP"@ + create_text(name).skip(
            6,
        ),
        step matches Cleanup::KeepDatabase { notice } ==> {
            &&& notice@.take(2) == seq!['+', ' ']
            &&& crate::style::styled(
                notice@.skip(2),
                crate::style::red_bold_codes(),
                "DATABASE "@ + name + " contains failed cases, kept for debugging"@,
            )
        },
{
    law_create_and_drop_name_the_same_database(name);
    match step {
        Cleanup::DropDatabase { query } => {
            assert(query@ =~= query@.take(4) + query@.skip(4));
        },
        Cleanup::KeepDatabase { notice } => {
            reveal_strlit("+ ");
            let shown = choose|shown: Seq<char>|
                #[trigger] crate::style::styled(
                    shown,
                    crate::style::red_bold_codes(),
                    kept_text(name),
                ) && notice@ == "+ "@ + shown;
            assert(notice@.take(2) =~= seq!['+', ' ']);
            assert(notice@.skip(2) =~= shown);
        },
    }
}

/// The name of a database is the name that its file gives, an underscore and the random part in
/// full, so that both can be read off it.
pub proof fn law_database_names_hold_file_and_id(file: Seq<char>, id: Seq<char>)
    ensures
        ({
            let name = database_name(file, id);
            let n = file.len() as int;
            &&& name.len() == n + 1 + id.len()
            &&& name.take(n) == crate::names::sanitized(file)
            &&& name[n] == '_'
            &&& name.skip(n + 1) == id
        }),
{
    reveal_strlit("_");
    let name = database_name(file, id);
    let n = file.len() as int;
    assert(name.take(n) =~= crate::names::sanitized(file));
    assert(name.skip(n + 1) =~= id);
}

/// The random part of a name has eight characters, each a small letter or a digit, and any such
/// characters will do.
pub proof fn law_ids_are_eight_small_letters_or_digits(id: Seq<char>)
    ensures
        is_id(id) <==> id.len() == 8 && forall|i: int|
            0 <= i < id.len() ==> ('a' <= #[trigger] id[i] && id[i] <= 'z') || ('0' <= id[i] && id[i]
                <= '9'),
{
}

/// The line that announces a file ends with the name that the file gives.
pub proof fn law_announcements_name_the_file(file: Seq<char>)
    ensures
        discovered_text(file).take(19) == "+ Discovered Test: "@,
        discovered_text(file).skip(19) == crate::names::sanitized(file),
{
    reveal_strlit("+ Discovered Test: ");
    assert(discovered_text(file).take(19) =~= "+ Discovered Test: "@);
    assert(discovered_text(file).skip(19) =~= crate::names::sanitized(file));
}

/// The first `n` files are free of clashes exactly where their names are UTF-8 and give
/// different names, two by two.
pub proof fn law_clashes_are_equal_names(files: Seq<Option<String>>, n: int)
    requires
        0 <= n <= files.len(),
    ensures
        clash_free(files, n) <==> (forall|i: int| 0 <= i < n ==> (#[trigger] files[i]) is Some) && (
        forall|i: int, j: int|
            0 <= i < j < n ==> crate::names::sanitized((#[trigger] files[i])->0@)
                != crate::names::sanitized((#[trigger] files[j])->0@)),
{
    if clash_free(files, n) {
        assert forall|i: int| 0 <= i < n implies (#[trigger] files[i]) is Some by {
            assert(!clashes(files, i));
        }
        assert forall|i: int, j: int| 0 <= i < j < n implies crate::names::sanitized(
            (#[trigger] files[i])->0@,
        ) != crate::names::sanitized((#[trigger] files[j])->0@) by {
            assert(!clashes(files, j));
            assert(files[i] is Some);
        }
    }
}

/// A plan exists exactly where all names are UTF-8 and give different names; every file is then
/// announced under its name, in order. Else the files up to the first that clashes are, that one
/// too where it has a name, and the error is about it.
pub proof fn law_discovery_succeeds_on_different_names(
    discovery: Discovery,
    files: Seq<Option<String>>,
    ids: Seq<String>,
)
    requires
        is_discovery(discovery, files, ids),
    ensures
        discovery.plan is Ok <==> (forall|i: int|
            0 <= i < files.len() ==> (#[trigger] files[i]) is Some) && (forall|i: int, j: int|
            0 <= i < j < files.len() ==> crate::names::sanitized((#[trigger] files[i])->0@)
                != crate::names::sanitized((#[trigger] files[j])->0@)),
        discovery.plan is Ok ==> discovery.lines@.len() == files.len(),
        discovery.lines@.len() <= files.len(),
        forall|i: int|
            0 <= i < discovery.lines@.len() ==> (#[trigger] discovery.lines@[i])@
                == "+ Discovered Test: "@ + crate::names::sanitized(files[i]->0@),
        discovery.plan matches Err(RunError::DuplicateName(name)) ==> {
            let last = discovery.lines@.len() - 1;
            &&& 0 <= last
            &&& name@ == crate::names::sanitized(files[last]->0@)
            &&& exists|j: int|
                0 <= j < last && (#[trigger] files[j]) is Some && crate::names::sanitized(
                    files[j]->0@,
                ) == name@
        },
        discovery.plan matches Err(RunError::NotUtf8) ==> discovery.lines@.len() < files.len()
            && files[discovery.lines@.len() as int] is None,
        discovery.plan matches Err(error) ==> !(error is TestsFailed),
{
    law_clashes_are_equal_names(files, files.len() as int);
    if discovery.plan is Err {
        let error = discovery.plan->Err_0;
        let i = choose|i: int|
            0 <= i < files.len() && clash_free(files, i) && #[trigger] clashes(files, i)
                && match files[i] {
                None => error is NotUtf8 && announce(discovery.lines@, files, i),
                Some(file) => (error matches RunError::DuplicateName(name) && name@
                    == crate::names::sanitized(file@)) && announce(discovery.lines@, files, i + 1),
            };
        assert(!clash_free(files, files.len() as int));
        if files[i] is Some {
            let file = files[i]->0;
            let j = choose|j: int|
                0 <= j < i && (#[trigger] files[j] matches Some(other) && crate::names::sanitized(
                    other@,
                ) == crate::names::sanitized(file@));
            assert(files[j] is Some);
        }
    }
}

/// In a plan every file has its database, whose name begins with the name that the file gives
/// and ends with its random part, and the names ascend: at the first character in which two
/// differ, the one that stands later in the plan has the greater one.
pub proof fn law_plan_names_its_files(
    plan: Seq<Database>,
    files: Seq<Option<String>>,
    ids: Seq<String>,
    i: int,
) -> (k: int)
    requires
        is_plan(plan, files, ids),
        0 <= i < files.len(),
    ensures
        0 <= k < plan.len(),
        plan[k].file == i,
        plan[k].name@ == crate::names::sanitized(files[i]->0@) + seq!['_'] + ids[i]@,
        plan.len() == files.len(),
        forall|a: int, b: int|
            0 <= a < b < plan.len() ==> #[trigger] crate::text::precedes(
                plan[a].name@,
                plan[b].name@,
            ),
{
    reveal_strlit("_");
    assert("_"@ =~= seq!['_']);
    assert(has_database(plan, i));
    let k = choose|k: int| 0 <= k < plan.len() && (#[trigger] plan[k]).file == i;
    assert(plan[k].name@ == database_name(files[i]->0@, ids[i]@));
    k
}

/// The lines for statements and their errors hold these in full behind their mark.
pub proof fn law_lines_show_what_they_announce(text: Seq<char>)
    ensures
        query_text(text).take(2) == seq!['+', ' '],
        query_text(text).skip(2) == text,
        ignored_text(text).take(16) == "  ignore error: "@,
        ignored_text(text).skip(16) == text,
{
    reveal_strlit("+ ");
    reveal_strlit("  ignore error: ");
    assert(query_text(text).take(2) =~= seq!['+', ' ']);
    assert(query_text(text).skip(2) =~= text);
    assert(ignored_text(text).take(16) =~= "  ignore error: "@);
    assert(ignored_text(text).skip(16) =~= text);
}

/// The line at the end of the tests names the full milliseconds that they took: that many have
/// passed, and no more.
pub proof fn law_finish_tells_the_time(start: u64, now: u64) -> (millis: nat)
    requires
        start <= now,
    ensures
        start + millis * 1_000_000 <= now,
        now < start + (millis + 1) * 1_000_000,
        finished_text(start, now) == "\n All test cases finished in "@ + crate::text::decimal(millis)
            + seq![' ', 'm', 's'],
{
    reveal_strlit(" ms");
    assert(" ms"@ =~= seq![' ', 'm', 's']);
    crate::progress::elapsed(start, now) / 1_000_000
}

/// A run that failed adds its file to the end of the list and its database to the set; one that
/// passed changes nothing.
pub proof fn law_one_result_changes_what_failed(
    s: FailuresState,
    database: Seq<char>,
    file: Seq<char>,
    outcome: CaseOutcome,
)
    ensures
        ({
            let after = failures_with(s, database, file, outcome);
            &&& outcome is Passed ==> after == s
            &&& outcome is Failed ==> after.files == s.files + seq![file] && forall|d: Seq<char>|
                #[trigger] after.databases.contains(d) <==> s.databases.contains(d) || d == database
        }),
{
    if outcome is Failed {
        assert(s.files.push(file) =~= s.files + seq![file]);
    }
}

/// What failures stand for: the files in their order, and the databases that are noted.
pub proof fn law_failures_stand_for_their_lists(failures: Failures)
    ensures
        failures@.files == failures.files@.map_values(|file: String| file@),
        forall|d: Seq<char>| #[trigger]
            failures@.databases.contains(d) <==> failures.databases@.map_values(
                |database: String| database@,
            ).contains(d),
{
    assert(crate::verdict::texts(failures.files@) =~= failures.files@.map_values(
        |file: String| file@,
    ));
    assert(crate::verdict::texts(failures.databases@) =~= failures.databases@.map_values(
        |database: String| database@,
    ));
}

}
