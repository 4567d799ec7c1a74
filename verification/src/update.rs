//! Rewriting a test file and the files that it includes, record by record.
//!
//! Each file is written anew next to itself, and takes the place of the old one when its
//! last record has been written.

use vstd::prelude::*;

use crate::progress::Progress;
use crate::run::run_context;
use crate::script::ScriptEvent;

verus! {

/// A file that is being rewritten.
pub struct UpdateItem {
    pub filename: String,
    /// Whether a halt has been seen in the file itself.
    pub halt: bool,
}

/// The files that are being rewritten, outermost first, and their progress output.
pub struct Updater {
    pub items: Vec<UpdateItem>,
    pub progress: Progress,
}

/// The content of an [`Updater`]: the name of each file, and whether it has been halted.
pub struct UpdaterState {
    pub files: Seq<(Seq<char>, bool)>,
    pub progress: crate::progress::ProgressState,
}

impl View for Updater {
    type V = UpdaterState;

    open spec fn view(&self) -> UpdaterState {
        UpdaterState {
            files: self.items@.map_values(|item: UpdateItem| (item.filename@, item.halt)),
            progress: self.progress@,
        }
    }
}

impl UpdaterState {
    /// Every file that is being rewritten has its begin time.
    pub open spec fn well_formed(self) -> bool {
        self.files.len() == self.progress.begin_times.len()
    }
}

/// What to do with the record at hand, before [`Updater::step`].
pub enum UpdateAction {
    /// Open the new version of `file`.
    BeginFile { file: String },
    /// Put the new version of `file`, the innermost one, in its place.
    EndFile { file: String },
    /// Write the record as it is to the new version of `file`, the innermost one.
    WriteRecord { file: String },
    /// Write the record as [`update_record`] says to the new version of `file`, the innermost
    /// one; `context` goes with an error.
    UpdateRecord { file: String, context: String },
}

/// Whether `action` is what to do with a record in the state `s`.
pub open spec fn is_update_action(
    action: UpdateAction,
    s: UpdaterState,
    event: ScriptEvent,
) -> bool {
    match event {
        ScriptEvent::BeginInclude(name) => action matches UpdateAction::BeginFile { file } && file@
            == name@,
        ScriptEvent::EndInclude(_) => action matches UpdateAction::EndFile { file } && file@
            == s.files.last().0,
        ScriptEvent::Halt => action matches UpdateAction::WriteRecord { file } && file@
            == s.files.last().0,
        ScriptEvent::Record => if s.files.last().1 {
            action matches UpdateAction::WriteRecord { file } && file@ == s.files.last().0
        } else {
            action matches UpdateAction::UpdateRecord { file, context } && file@
                == s.files.last().0 && crate::run::is_context(context@, s.files.last().0)
        },
    }
}

/// What to print once a record has been dealt with.
pub struct StepOutput {
    pub output: String,
    /// Whether the output is to be flushed.
    pub flush: bool,
}

/// Whether `shown` is what to print once a record has been dealt with at `now` in the state `s`.
pub open spec fn is_step_output(
    shown: StepOutput,
    s: UpdaterState,
    event: ScriptEvent,
    now: u64,
) -> bool {
    &&& shown.flush <==> event is BeginInclude
    &&& match event {
        ScriptEvent::BeginInclude(name) => crate::progress::is_begin_output(
            shown.output@,
            s.progress,
            name@,
        ),
        ScriptEvent::EndInclude(name) => crate::progress::is_finish_output(
            shown.output@,
            s.progress,
            name@,
            now,
        ),
        _ => shown.output@.len() == 0,
    }
}

/// The state once the outermost file `file` has been begun at `now`.
pub open spec fn update_started(file: Seq<char>, now: u64) -> UpdaterState {
    UpdaterState { files: seq![(file, false)], progress: crate::progress::started(now) }
}

/// The state after one record, read at `now`.
pub open spec fn update_step(s: UpdaterState, event: ScriptEvent, now: u64) -> UpdaterState {
    match event {
        ScriptEvent::BeginInclude(file) => UpdaterState {
            files: s.files.push((file@, false)),
            progress: crate::progress::begun(s.progress, now),
        },
        ScriptEvent::EndInclude(_) => UpdaterState {
            files: s.files.drop_last(),
            progress: crate::progress::finished(s.progress),
        },
        ScriptEvent::Halt => UpdaterState {
            files: s.files.drop_last().push((s.files.last().0, true)),
            progress: s.progress,
        },
        ScriptEvent::Record => s,
    }
}

/// The state after the records `events`, each with the time at which it was read.
pub open spec fn update_steps(s: UpdaterState, events: Seq<(ScriptEvent, u64)>) -> UpdaterState
    decreases events.len(),
{
    if events.len() == 0 {
        s
    } else {
        update_step(update_steps(s, events.drop_last()), events.last().0, events.last().1)
    }
}

/// The files whose new versions `events` open, in order.
pub open spec fn opened(events: Seq<(ScriptEvent, u64)>) -> Seq<Seq<char>>
    decreases events.len(),
{
    if events.len() == 0 {
        Seq::empty()
    } else {
        let before = opened(events.drop_last());
        match events.last().0 {
            ScriptEvent::BeginInclude(file) => before.push(file@),
            _ => before,
        }
    }
}

/// The files whose new versions take their place during `events`, in order, from the
/// state `s` on.
pub open spec fn replaced_files(s: UpdaterState, events: Seq<(ScriptEvent, u64)>) -> Seq<Seq<char>>
    decreases events.len(),
{
    if events.len() == 0 {
        Seq::empty()
    } else {
        let before = replaced_files(s, events.drop_last());
        match events.last().0 {
            ScriptEvent::EndInclude(_) => before.push(
                update_steps(s, events.drop_last()).files.last().0,
            ),
            _ => before,
        }
    }
}

impl Updater {
    /// The state once the outermost file `file` has been begun at `now`.
    pub fn start(file: &str, now: u64) -> (r: Updater)
        ensures
            r@ == update_started(file@, now),
            r@.well_formed(),
    {
        let mut items: Vec<UpdateItem> = Vec::new();
        items.push(UpdateItem { filename: file.to_owned(), halt: false });
        let r = Updater { items, progress: Progress::start(now) };
        assert(r@.files =~= seq![(file@, false)]);
        r
    }

    /// Decides what to do with a record of the innermost file.
    pub fn action(&self, event: &ScriptEvent) -> (r: UpdateAction)
        requires
            self@.files.len() > 0,
        ensures
            is_update_action(r, self@, *event),
            match *event {
                ScriptEvent::BeginInclude(name) => r matches UpdateAction::BeginFile { file }
                    && file@ == name@,
                ScriptEvent::EndInclude(_) => r matches UpdateAction::EndFile { file } && file@
                    == self@.files.last().0,
                ScriptEvent::Halt => r matches UpdateAction::WriteRecord { file } && file@
                    == self@.files.last().0,
                ScriptEvent::Record => if self@.files.last().1 {
                    r matches UpdateAction::WriteRecord { file } && file@ == self@.files.last().0
                } else {
                    r matches UpdateAction::UpdateRecord { file, context } && file@
                        == self@.files.last().0 && crate::run::is_context(
                        context@,
                        self@.files.last().0,
                    )
                },
            },
    {
        let top: usize = self.items.len() - 1;
        let file = self.items[top].filename.clone();
        match event {
            ScriptEvent::BeginInclude(name) => UpdateAction::BeginFile { file: name.clone() },
            ScriptEvent::EndInclude(_) => UpdateAction::EndFile { file },
            ScriptEvent::Halt => UpdateAction::WriteRecord { file },
            ScriptEvent::Record => {
                if self.items[top].halt {
                    UpdateAction::WriteRecord { file }
                } else {
                    let context = run_context(file.as_str());
                    UpdateAction::UpdateRecord { file, context }
                }
            },
        }
    }

    /// Notes that a record has been dealt with at `now`, as [`Updater::action`] asked, and
    /// gives what to print.
    pub fn step(&mut self, event: &ScriptEvent, now: u64) -> (r: StepOutput)
        requires
            old(self)@.well_formed(),
            old(self)@.files.len() > 0,
        ensures
            final(self)@ == update_step(old(self)@, *event, now),
            final(self)@.well_formed(),
            is_step_output(r, old(self)@, *event, now),
            r.flush <==> event is BeginInclude,
            match *event {
                ScriptEvent::BeginInclude(name) => crate::progress::is_begin_output(
                    r.output@,
                    old(self)@.progress,
                    name@,
                ),
                ScriptEvent::EndInclude(name) => crate::progress::is_finish_output(
                    r.output@,
                    old(self)@.progress,
                    name@,
                    now,
                ),
                _ => r.output@.len() == 0,
            },
    {
        let ghost s = self@;
        match event {
            ScriptEvent::BeginInclude(file) => {
                self.items.push(UpdateItem { filename: file.clone(), halt: false });
                let output = self.progress.begin_include(file.as_str(), now);
                assert(self@.files =~= s.files.push((file@, false)));
                StepOutput { output, flush: true }
            },
            ScriptEvent::EndInclude(file) => {
                self.items.pop();
                let output = self.progress.finish_test_file(file.as_str(), now);
                assert(self@.files =~= s.files.drop_last());
                StepOutput { output, flush: false }
            },
            ScriptEvent::Halt => {
                let item = self.items.pop().unwrap();
                self.items.push(UpdateItem { filename: item.filename, halt: true });
                assert(self@.files =~= s.files.drop_last().push((s.files.last().0, true)));
                StepOutput { output: String::new(), flush: false }
            },
            ScriptEvent::Record => StepOutput { output: String::new(), flush: false },
        }
    }

    /// Ends the rewriting of `file`, the outermost file, at `now`: gives what to print, and
    /// the file whose new version is then to be put in its place.
    pub fn finish_update(&mut self, file: &str, now: u64) -> (r: (String, String))
        requires
            old(self)@.well_formed(),
            old(self)@.files.len() > 0,
        ensures
            final(self)@.files == old(self)@.files,
            final(self)@.progress == crate::progress::finished(old(self)@.progress),
            crate::progress::is_finish_output(r.0@, old(self)@.progress, file@, now),
            r.1@ == old(self)@.files.last().0,
    {
        let top: usize = self.items.len() - 1;
        let output = self.progress.finish_test_file(file, now);
        (output, self.items[top].filename.clone())
    }
}

/// The name of the file, next to the one called `file_name`, that its new version is
/// written to.
pub open spec fn temp_name(file_name: Seq<char>) -> Seq<char> {
    file_name + ".temp"@
}

/// The name of the file, next to the one called `file_name`, that its new version is
/// written to.
pub fn temp_file_name(file_name: &str) -> (r: String)
    ensures
        r@ == file_name@ + ".temp"@,
        r@ == temp_name(file_name@),
{
    let mut r = file_name.to_owned();
    r.append(".temp");
    r
}

/// The line to write for `record` where files are only reformatted; nothing where the record
/// has to be run first.
pub fn update_record(record: &str, format: bool) -> (r: Option<String>)
    ensures
        r is Some <==> format,
        r matches Some(line) ==> line@ == record_line(record@, None) && line@ == record@.push('\n'),
{
    if format {
        Some(updated_record(record, &None))
    } else {
        None
    }
}

/// The line to write for `record` after its run: `updated`, where the run has given a new
/// record, else itself.
pub open spec fn record_line(record: Seq<char>, updated: Option<String>) -> Seq<char> {
    (match updated {
        Some(new_record) => new_record@,
        None => record,
    }).push('\n')
}

/// The line to write for `record` after its run, as [`record_line`] says.
pub fn updated_record(record: &str, updated: &Option<String>) -> (r: String)
    ensures
        r@ == record_line(record@, *updated),
        *updated matches Some(new_record) ==> r@ == new_record@.push('\n'),
        *updated is None ==> r@ == record@.push('\n'),
{
    let mut r = match updated {
        Some(new_record) => new_record.clone(),
        None => record.to_owned(),
    };
    r.push('\n');
    r
}

/// How many newlines `bytes` ends with.
pub open spec fn trailing_newlines(bytes: Seq<u8>) -> nat
    decreases bytes.len(),
{
    if bytes.len() == 0 || bytes.last() != 10 {
        0
    } else {
        1 + trailing_newlines(bytes.drop_last())
    }
}

/// How many bytes at the end of a new version are looked at in one go.
pub const TAIL_LEN: usize = 8;

/// What to do after a look at the end of a new version.
pub struct TrimStep {
    /// The length to cut the file to, where it ends with more newlines than one.
    pub cut_to: Option<u64>,
    /// Whether the file then ends with one newline; else it has to be looked at again.
    pub done: bool,
}

/// The length to cut a file of `len` bytes to that is seen to end with `newlines` newlines.
pub open spec fn cut_length(len: int, newlines: int) -> int {
    if newlines > 1 {
        len - newlines + 1
    } else {
        len
    }
}

/// Whether `step` is what to do after a look at the last bytes `tail` of a file of `len` bytes.
pub open spec fn is_trim_step(step: TrimStep, tail: Seq<u8>, len: int) -> bool {
    &&& step.cut_to == (if trailing_newlines(tail) > 1 {
        Some(cut_length(len, trailing_newlines(tail) as int) as u64)
    } else {
        None::<u64>
    })
    &&& step.done <==> trailing_newlines(tail) < TAIL_LEN
}

/// Decides, from the last [`TAIL_LEN`] bytes of a file of `len` bytes, how many of the
/// newlines at its end go.
pub fn trim_step(tail: &[u8], len: u64) -> (r: TrimStep)
    requires
        tail@.len() == TAIL_LEN,
        tail@.last() == 10,
        len >= TAIL_LEN,
    ensures
        is_trim_step(r, tail@, len as int),
        r.cut_to == (if trailing_newlines(tail@) > 1 {
            Some(cut_length(len as int, trailing_newlines(tail@) as int) as u64)
        } else {
            None::<u64>
        }),
        r.done <==> trailing_newlines(tail@) < TAIL_LEN,
{
    let mut newlines: usize = 0;
    assert(tail@.take(TAIL_LEN as int) =~= tail@);
    while newlines < TAIL_LEN && tail[TAIL_LEN - 1 - newlines] == 10
        invariant
            tail@.len() == TAIL_LEN,
            newlines <= TAIL_LEN,
            trailing_newlines(tail@) == newlines + trailing_newlines(
                tail@.take(TAIL_LEN - newlines),
            ),
        decreases TAIL_LEN - newlines,
    {
        assert(tail@.take(TAIL_LEN - newlines).drop_last() =~= tail@.take(
            TAIL_LEN - (newlines + 1),
        ));
        newlines += 1;
    }
    let cut_to: Option<u64> = if newlines > 1 {
        Some(len - newlines as u64 + 1)
    } else {
        None
    };
    TrimStep { cut_to, done: newlines < TAIL_LEN }
}

/// Whether every look at the end of a new version with the content `bytes` finds enough bytes
/// and a newline, as [`trim_step`] needs it.
pub open spec fn trim_safe(bytes: Seq<u8>) -> bool
    decreases bytes.len(),
{
    if bytes.len() < TAIL_LEN || bytes.last() != 10 {
        false
    } else {
        let tail = bytes.skip(bytes.len() - TAIL_LEN);
        let newlines = trailing_newlines(tail) as int;
        proof {
            lemma_trailing_bound(tail);
        }
        newlines < TAIL_LEN || trim_safe(bytes.take(cut_length(bytes.len() as int, newlines)))
    }
}

/// The content of a new version once [`trim_step`] has been followed until it is done.
pub open spec fn trimmed(bytes: Seq<u8>) -> Seq<u8>
    decreases bytes.len(),
{
    if bytes.len() < TAIL_LEN {
        bytes
    } else {
        let tail = bytes.skip(bytes.len() - TAIL_LEN);
        let newlines = trailing_newlines(tail) as int;
        let cut = bytes.take(cut_length(bytes.len() as int, newlines));
        proof {
            lemma_trailing_bound(tail);
        }
        if newlines < TAIL_LEN {
            cut
        } else {
            trimmed(cut)
        }
    }
}

/// A sequence ends with no more newlines than it has bytes.
pub proof fn lemma_trailing_bound(bytes: Seq<u8>)
    ensures
        trailing_newlines(bytes) <= bytes.len(),
    decreases bytes.len(),
{
    if bytes.len() > 0 {
        lemma_trailing_bound(bytes.drop_last());
    }
}

/// The last `m` bytes end with as many newlines as the whole does, up to `m`.
proof fn lemma_trailing_tail(bytes: Seq<u8>, m: int)
    requires
        0 <= m <= bytes.len(),
    ensures
        trailing_newlines(bytes.skip(bytes.len() - m)) == (if trailing_newlines(bytes) < m {
            trailing_newlines(bytes) as int
        } else {
            m
        }),
    decreases m,
{
    let tail = bytes.skip(bytes.len() - m);
    if m > 0 {
        assert(tail.last() == bytes.last());
        assert(tail.drop_last() =~= bytes.drop_last().skip(bytes.drop_last().len() - (m - 1)));
        lemma_trailing_tail(bytes.drop_last(), m - 1);
    }
}

/// Without its last `j` bytes, all of them newlines, a sequence ends with `j` newlines less.
proof fn lemma_trailing_cut(bytes: Seq<u8>, j: int)
    requires
        0 <= j <= trailing_newlines(bytes),
    ensures
        j <= bytes.len(),
        trailing_newlines(bytes.take(bytes.len() - j)) == trailing_newlines(bytes) - j,
    decreases j,
{
    lemma_trailing_bound(bytes);
    if j == 0 {
        assert(bytes.take(bytes.len() as int) =~= bytes);
    } else {
        lemma_trailing_cut(bytes.drop_last(), j - 1);
        assert(bytes.drop_last().take(bytes.drop_last().len() - (j - 1)) =~= bytes.take(
            bytes.len() - j,
        ));
    }
}

/// A rewritten file keeps all of its content but the surplus newlines at its end, of which
/// one stays. Every look at its end succeeds where the file ends with a newline and the
/// looks, which take seven newlines away while they see nothing else, never find the file
/// shorter than one look.
pub proof fn law_one_trailing_newline_stays(bytes: Seq<u8>)
    requires
        trailing_newlines(bytes) >= 1,
        bytes.len() - trailing_newlines(bytes) + (trailing_newlines(bytes) - 1) % 7 + 1
            >= TAIL_LEN,
    ensures
        trim_safe(bytes),
        trimmed(bytes) == bytes.take(bytes.len() - trailing_newlines(bytes) + 1),
    decreases bytes.len(),
{
    let n = trailing_newlines(bytes) as int;
    let len = bytes.len() as int;
    lemma_trailing_bound(bytes);
    lemma_trailing_tail(bytes, TAIL_LEN as int);
    let seen = trailing_newlines(bytes.skip(len - TAIL_LEN)) as int;
    if n >= TAIL_LEN {
        let cut = bytes.take(len - 7);
        lemma_trailing_cut(bytes, 7);
        assert((n - 8) % 7 == (n - 1) % 7);
        law_one_trailing_newline_stays(cut);
        assert(cut.take(cut.len() - (n - 7) + 1) =~= bytes.take(len - n + 1));
    } else if n == 1 {
        assert(bytes.take(len) =~= bytes);
    }
}

/// A file that ends with no newline, or that the looks find too short, cannot be trimmed:
/// the condition of [`law_one_trailing_newline_stays`] leaves out nothing else.
pub proof fn law_trim_condition_is_exact(bytes: Seq<u8>)
    requires
        trim_safe(bytes),
    ensures
        trailing_newlines(bytes) >= 1,
        bytes.len() - trailing_newlines(bytes) + (trailing_newlines(bytes) - 1) % 7 + 1
            >= TAIL_LEN,
    decreases bytes.len(),
{
    let n = trailing_newlines(bytes) as int;
    let len = bytes.len() as int;
    lemma_trailing_bound(bytes);
    lemma_trailing_tail(bytes, TAIL_LEN as int);
    if n >= TAIL_LEN {
        let cut = bytes.take(len - 7);
        lemma_trailing_cut(bytes, 7);
        assert((n - 8) % 7 == (n - 1) % 7);
        law_trim_condition_is_exact(cut);
    }
}

/// The bytes of a text that ends with a newline end with one.
proof fn lemma_encoded_newline(chars: Seq<char>)
    requires
        chars.len() > 0,
        chars.last() == '\n',
    ensures
        vstd::utf8::encode_utf8(chars).len() > 0,
        vstd::utf8::encode_utf8(chars).last() == 10,
    decreases chars.len(),
{
    let rest = vstd::utf8::encode_utf8(chars.drop_first());
    if chars.len() > 1 {
        lemma_encoded_newline(chars.drop_first());
        assert((vstd::utf8::encode_scalar(chars[0] as u32) + rest).last() == rest.last());
    } else {
        assert(vstd::utf8::leading_byte_width_1(10u32) == 10) by (bit_vector);
        assert(vstd::utf8::has_width_1_encoding(10u32));
        assert(vstd::utf8::encode_scalar(10u32) + rest =~= seq![10u8]);
    }
}

/// A file to which a record has been written ends with a newline, whatever was written before:
/// the first look at its end finds one.
pub proof fn law_written_records_end_with_a_newline(
    before: Seq<char>,
    record: Seq<char>,
    updated: Option<String>,
)
    ensures
        trailing_newlines(vstd::utf8::encode_utf8(before + record_line(record, updated))) >= 1,
{
    let content = before + record_line(record, updated);
    assert(content.last() == '\n');
    lemma_encoded_newline(content);
}

/// Where nothing ends that has not begun, the files below the innermost one stay as they
/// were, the innermost keeps its name and stays halted once it is, and as many stand on top
/// of them as more includes began than ended.
proof fn lemma_nested_update(s: UpdaterState, events: Seq<(ScriptEvent, u64)>)
    requires
        s.well_formed(),
        s.files.len() > 0,
        crate::script::nested(events),
    ensures
        crate::script::nesting(events) >= 0,
        ({
            let after = update_steps(s, events);
            let top = s.files.len() - 1;
            &&& after.well_formed()
            &&& after.files.len() == s.files.len() + crate::script::nesting(events)
            &&& forall|i: int| 0 <= i < top ==> after.files[i] == s.files[i]
            &&& after.files[top].0 == s.files[top].0
            &&& s.files[top].1 ==> after.files[top].1
        }),
    decreases events.len(),
{
    if events.len() > 0 {
        lemma_nested_update(s, events.drop_last());
    }
}

/// Includes that come in pairs leave the files that were being rewritten as they were: a halt
/// in an included file does not halt the file that includes it, and a file that has been
/// halted stays halted to its end.
pub proof fn law_includes_keep_files(s: UpdaterState, events: Seq<(ScriptEvent, u64)>)
    requires
        s.well_formed(),
        s.files.len() > 0,
        crate::script::balanced(events),
    ensures
        update_steps(s, events).files.drop_last() == s.files.drop_last(),
        update_steps(s, events).files.last().0 == s.files.last().0,
        s.files.last().1 ==> update_steps(s, events).files == s.files,
{
    lemma_nested_update(s, events);
    let after = update_steps(s, events).files;
    assert(after.drop_last() =~= s.files.drop_last());
    if s.files.last().1 {
        assert(after.last() == s.files.last());
        assert(after =~= s.files);
    }
}

/// What an included file holds has no bearing on whether the file that includes it is halted:
/// the records of an include as a whole leave the files exactly as they were.
pub proof fn law_include_is_self_contained(
    s: UpdaterState,
    file: String,
    begin: u64,
    events: Seq<(ScriptEvent, u64)>,
    name: String,
    end: u64,
)
    requires
        s.well_formed(),
        s.files.len() > 0,
        crate::script::balanced(events),
    ensures
        ({
            let inner = update_steps(
                update_step(s, ScriptEvent::BeginInclude(file), begin),
                events,
            );
            &&& inner.files.last().0 == file@
            &&& update_step(inner, ScriptEvent::EndInclude(name), end).files == s.files
        }),
{
    let begun = update_step(s, ScriptEvent::BeginInclude(file), begin);
    law_includes_keep_files(begun, events);
    let inner = update_steps(begun, events);
    assert(begun.files.drop_last() =~= s.files);
}

/// The names of the files that are being rewritten.
pub open spec fn names(files: Seq<(Seq<char>, bool)>) -> Seq<Seq<char>> {
    files.map_values(|f: (Seq<char>, bool)| f.0)
}

/// What has been opened and what was being rewritten before is what has been put in its place
/// and what is being rewritten still.
proof fn lemma_opened_accounted_for(s: UpdaterState, events: Seq<(ScriptEvent, u64)>)
    requires
        s.well_formed(),
        s.files.len() > 0,
        crate::script::nested(events),
    ensures
        opened(events).to_multiset().add(names(s.files).to_multiset()) == replaced_files(
            s,
            events,
        ).to_multiset().add(names(update_steps(s, events).files).to_multiset()),
    decreases events.len(),
{
    broadcast use vstd::seq_lib::group_to_multiset_ensures;

    if events.len() > 0 {
        let front = events.drop_last();
        lemma_opened_accounted_for(s, front);
        lemma_nested_update(s, front);
        let before = update_steps(s, front).files;
        let after = update_steps(s, events).files;
        let o = opened(front).to_multiset();
        let n = names(s.files).to_multiset();
        let r = replaced_files(s, front).to_multiset();
        assert(o.add(n) == r.add(names(before).to_multiset()));
        match events.last().0 {
            ScriptEvent::BeginInclude(file) => {
                assert(names(after) =~= names(before).push(file@));
                assert(opened(events) == opened(front).push(file@));
                assert(o.insert(file@).add(n) =~= o.add(n).insert(file@));
                assert(r.add(names(before).to_multiset().insert(file@)) =~= r.add(
                    names(before).to_multiset(),
                ).insert(file@));
            },
            ScriptEvent::EndInclude(_) => {
                let file = before.last().0;
                assert(names(before) =~= names(after).push(file));
                assert(replaced_files(s, events) == replaced_files(s, front).push(file));
                assert(r.insert(file).add(names(after).to_multiset()) =~= r.add(
                    names(after).to_multiset().insert(file),
                ));
            },
            ScriptEvent::Halt => {
                assert(names(after) =~= names(before));
            },
            ScriptEvent::Record => {},
        }
    }
}

/// Every new version that is opened for an include takes the place of its file, once, and no
/// other file is touched.
pub proof fn law_opened_files_are_replaced(s: UpdaterState, events: Seq<(ScriptEvent, u64)>)
    requires
        s.well_formed(),
        s.files.len() > 0,
        crate::script::balanced(events),
    ensures
        replaced_files(s, events).to_multiset() == opened(events).to_multiset(),
{
    lemma_opened_accounted_for(s, events);
    law_includes_keep_files(s, events);
    lemma_nested_update(s, events);
    let after = update_steps(s, events).files;
    assert forall|i: int| 0 <= i < after.len() implies after[i].0 == s.files[i].0 by {
        if i < after.len() - 1 {
            assert(after.drop_last()[i] == s.files.drop_last()[i]);
        }
    }
    assert(names(after) =~= names(s.files));
    let a = replaced_files(s, events).to_multiset();
    let b = opened(events).to_multiset();
    let c = names(s.files).to_multiset();
    assert forall|f: Seq<char>| #[trigger] a.count(f) == b.count(f) by {
        assert(a.add(c).count(f) == b.add(c).count(f));
    }
    assert(a =~= b);
}

/// A record of a script that has been dealt with: when, how it reads, and the record that its
/// run has given in its place, where it was run and has given one.
pub struct ScriptRecord {
    pub event: ScriptEvent,
    pub now: u64,
    pub record: Seq<char>,
    pub updated: Option<String>,
}

/// What the drivers see of the records.
pub open spec fn events_of(records: Seq<ScriptRecord>) -> Seq<(ScriptEvent, u64)> {
    records.map_values(|r: ScriptRecord| (r.event, r.now))
}

/// The state after the records.
pub open spec fn state_after(s: UpdaterState, records: Seq<ScriptRecord>) -> UpdaterState {
    update_steps(s, events_of(records))
}

/// What is written for the record in the state `s`: nothing for the marks of an include, the
/// record as it is where the file has been halted or is only reformatted, else what its run
/// has given. A halt itself is written as it is.
pub open spec fn written_text(s: UpdaterState, r: ScriptRecord, format: bool) -> Seq<char> {
    match r.event {
        ScriptEvent::BeginInclude(_) => Seq::empty(),
        ScriptEvent::EndInclude(_) => Seq::empty(),
        ScriptEvent::Halt => record_line(r.record, None),
        ScriptEvent::Record => if s.files.last().1 || format {
            record_line(r.record, None)
        } else {
            record_line(r.record, r.updated)
        },
    }
}

/// The texts of the new versions that are open, outermost first, after one record: a begin
/// opens an empty one, an end closes the innermost one, and any other record is written to the
/// innermost one.
pub open spec fn texts_step(
    texts: Seq<Seq<char>>,
    s: UpdaterState,
    r: ScriptRecord,
    format: bool,
) -> Seq<Seq<char>> {
    match r.event {
        ScriptEvent::BeginInclude(_) => texts.push(Seq::empty()),
        ScriptEvent::EndInclude(_) => texts.drop_last(),
        _ => texts.drop_last().push(texts.last() + written_text(s, r, format)),
    }
}

/// The texts of the new versions that are open after the records.
pub open spec fn texts_after(
    texts: Seq<Seq<char>>,
    s: UpdaterState,
    records: Seq<ScriptRecord>,
    format: bool,
) -> Seq<Seq<char>>
    decreases records.len(),
{
    if records.len() == 0 {
        texts
    } else {
        let front = records.drop_last();
        texts_step(
            texts_after(texts, s, front, format),
            state_after(s, front),
            records.last(),
            format,
        )
    }
}

/// What is written for those of the records that lie in no include, in order.
pub open spec fn own_text(s: UpdaterState, records: Seq<ScriptRecord>, format: bool) -> Seq<char>
    decreases records.len(),
{
    if records.len() == 0 {
        Seq::empty()
    } else {
        let front = records.drop_last();
        own_text(s, front, format) + if crate::script::nesting(events_of(front)) == 0 {
            written_text(state_after(s, front), records.last(), format)
        } else {
            Seq::empty()
        }
    }
}

/// Where nothing ends that has not begun, the innermost text has grown by what the records
/// that lie in no include give, the texts below are as they were, and as many stand on top as
/// more includes began than ended.
proof fn lemma_nested_texts(
    texts: Seq<Seq<char>>,
    s: UpdaterState,
    records: Seq<ScriptRecord>,
    format: bool,
)
    requires
        texts.len() > 0,
        crate::script::nested(events_of(records)),
    ensures
        crate::script::nesting(events_of(records)) >= 0,
        ({
            let after = texts_after(texts, s, records, format);
            let top = texts.len() - 1;
            &&& after.len() == texts.len() + crate::script::nesting(events_of(records))
            &&& forall|i: int| 0 <= i < top ==> after[i] == texts[i]
            &&& after[top] == texts[top] + own_text(s, records, format)
        }),
    decreases records.len(),
{
    let top = texts.len() - 1;
    if records.len() > 0 {
        let front = records.drop_last();
        assert(events_of(records).drop_last() =~= events_of(front));
        lemma_nested_texts(texts, s, front, format);
        let before = texts_after(texts, s, front, format);
        let after = texts_after(texts, s, records, format);
        let line = written_text(state_after(s, front), records.last(), format);
        assert(events_of(records).last().0 == records.last().event);
        if crate::script::nesting(events_of(front)) == 0 {
            assert(texts[top] + own_text(s, front, format) + line =~= texts[top] + (own_text(
                s,
                front,
                format,
            ) + line));
            assert(before[top] + Seq::<char>::empty() =~= before[top]);
        } else {
            assert(own_text(s, front, format) + Seq::<char>::empty() =~= own_text(
                s,
                front,
                format,
            ));
        }
    } else {
        assert(texts[top] + Seq::<char>::empty() =~= texts[top]);
    }
}

/// Records whose includes come in pairs are written to the innermost file, those that lie in no
/// include, in order and nothing else; the new versions below stay as they were.
pub proof fn law_records_go_to_their_own_file(
    texts: Seq<Seq<char>>,
    s: UpdaterState,
    records: Seq<ScriptRecord>,
    format: bool,
)
    requires
        texts.len() > 0,
        crate::script::balanced(events_of(records)),
    ensures
        texts_after(texts, s, records, format) == texts.drop_last().push(
            texts.last() + own_text(s, records, format),
        ),
{
    lemma_nested_texts(texts, s, records, format);
    assert(texts_after(texts, s, records, format) =~= texts.drop_last().push(
        texts.last() + own_text(s, records, format),
    ));
}

/// A rewritten test file holds its own records, in order and nothing else, when its new version
/// is put in its place.
pub proof fn law_test_file_holds_its_own_records(
    file: Seq<char>,
    now: u64,
    records: Seq<ScriptRecord>,
    format: bool,
)
    requires
        crate::script::balanced(events_of(records)),
    ensures
        ({
            let s = update_started(file, now);
            let texts = texts_after(seq![Seq::empty()], s, records, format);
            &&& names(state_after(s, records).files) == seq![file]
            &&& texts == seq![own_text(s, records, format)]
        }),
{
    let s = update_started(file, now);
    let none: Seq<Seq<char>> = seq![Seq::empty()];
    law_includes_keep_files(s, events_of(records));
    lemma_nested_update(s, events_of(records));
    assert(names(state_after(s, records).files) =~= seq![file]);
    law_records_go_to_their_own_file(none, s, records, format);
    assert(Seq::<char>::empty() + own_text(s, records, format) =~= own_text(s, records, format));
    assert(none.drop_last().push(own_text(s, records, format)) =~= seq![
        own_text(s, records, format),
    ]);
}

/// The state after two runs of records is the state after the second from that after the first
/// on.
proof fn lemma_states_compose(s: UpdaterState, a: Seq<ScriptRecord>, b: Seq<ScriptRecord>)
    ensures
        state_after(s, a + b) == state_after(state_after(s, a), b),
    decreases b.len(),
{
    if b.len() == 0 {
        assert(a + b =~= a);
    } else {
        lemma_states_compose(s, a, b.drop_last());
        assert((a + b).drop_last() =~= a + b.drop_last());
        assert(events_of(a + b).drop_last() =~= events_of(a + b.drop_last()));
        assert(events_of(b).drop_last() =~= events_of(b.drop_last()));
        assert((a + b).last() == b.last());
        assert(events_of(a + b).last() == events_of(b).last());
    }
}

/// The texts after two runs of records are those after the second from those after the first
/// on.
proof fn lemma_texts_compose(
    texts: Seq<Seq<char>>,
    s: UpdaterState,
    a: Seq<ScriptRecord>,
    b: Seq<ScriptRecord>,
    format: bool,
)
    ensures
        texts_after(texts, s, a + b, format) == texts_after(
            texts_after(texts, s, a, format),
            state_after(s, a),
            b,
            format,
        ),
    decreases b.len(),
{
    if b.len() == 0 {
        assert(a + b =~= a);
    } else {
        lemma_texts_compose(texts, s, a, b.drop_last(), format);
        lemma_states_compose(s, a, b.drop_last());
        assert((a + b).drop_last() =~= a + b.drop_last());
        assert((a + b).last() == b.last());
    }
}

/// A rewritten file that a script includes holds its own records, in order and nothing else,
/// when its new version is put in its place, wherever in the script it is included; its end
/// leaves the texts of the files around it as its begin found them.
pub proof fn law_included_file_holds_its_own_records(
    texts: Seq<Seq<char>>,
    s: UpdaterState,
    before: Seq<ScriptRecord>,
    begin: ScriptRecord,
    inner: Seq<ScriptRecord>,
    end: ScriptRecord,
    format: bool,
)
    requires
        s.well_formed(),
        s.files.len() > 0,
        texts.len() == s.files.len(),
        crate::script::nested(events_of(before)),
        begin.event is BeginInclude,
        crate::script::balanced(events_of(inner)),
        end.event is EndInclude,
    ensures
        ({
            let begun = state_after(s, before.push(begin));
            let all = before.push(begin) + inner;
            let around = texts_after(texts, s, before, format);
            &&& state_after(s, all).files.last().0 == begin.event->BeginInclude_0@
            &&& texts_after(texts, s, all, format) == around.push(own_text(begun, inner, format))
            &&& texts_after(texts, s, all.push(end), format) == around
        }),
{
    let opened = before.push(begin);
    let all = opened + inner;
    let around = texts_after(texts, s, before, format);
    assert(opened.drop_last() =~= before);
    assert(events_of(opened).drop_last() =~= events_of(before));
    assert(events_of(opened).last() == (begin.event, begin.now));
    let begun = state_after(s, opened);
    assert(texts_after(texts, s, opened, format) == around.push(Seq::empty()));
    lemma_texts_compose(texts, s, opened, inner, format);
    lemma_states_compose(s, opened, inner);
    law_records_go_to_their_own_file(around.push(Seq::empty()), begun, inner, format);
    let own = own_text(begun, inner, format);
    assert(Seq::<char>::empty() + own =~= own);
    assert(around.push(Seq::empty()).drop_last() =~= around);
    lemma_nested_update(s, events_of(before));
    law_includes_keep_files(begun, events_of(inner));
    assert(all.push(end).drop_last() =~= all);
    assert(around.push(own).drop_last() =~= around);
}

/// Whether a record's run has given a new record alone decides what is written for it: the new
/// record and a newline, whatever the record was; only without one the record itself.
pub proof fn law_new_record_takes_the_place_of_the_old(
    record: Seq<char>,
    other: Seq<char>,
    new_record: String,
)
    ensures
        record_line(record, Some(new_record)) == new_record@.push('\n'),
        record_line(record, Some(new_record)) == record_line(other, Some(new_record)),
        record_line(record, None) == record.push('\n'),
        record_line(record, None) == record_line(other, None) ==> record == other,
{
    if record_line(record, None) == record_line(other, None) {
        assert(record.push('\n').drop_last() =~= record);
        assert(other.push('\n').drop_last() =~= other);
    }
}

/// What is written in a rewritten file for one record: the run of a record has a bearing on it
/// only where the file has not been halted and is not merely reformatted, and then decides it;
/// the marks of an include are not written.
pub proof fn law_when_a_run_decides_what_is_written(s: UpdaterState, r: ScriptRecord, format: bool)
    ensures
        r.event is Record && !s.files.last().1 && !format && r.updated is Some ==> written_text(
            s,
            r,
            format,
        ) == r.updated->0@.push('\n'),
        r.event is Record && !s.files.last().1 && !format && r.updated is None ==> written_text(
            s,
            r,
            format,
        ) == r.record.push('\n'),
        r.event is Record && (s.files.last().1 || format) ==> written_text(s, r, format)
            == r.record.push('\n'),
        r.event is Halt ==> written_text(s, r, format) == r.record.push('\n'),
        r.event is BeginInclude || r.event is EndInclude ==> written_text(s, r, format).len() == 0,
{
}

/// One record changes what it is about and nothing else: a begin puts its file, not halted, on
/// top; an end takes the innermost file away; a halt halts the innermost file; any other record
/// changes nothing.
pub proof fn law_one_record_changes_one_file(s: UpdaterState, event: ScriptEvent, now: u64)
    requires
        s.well_formed(),
        s.files.len() > 0,
    ensures
        ({
            let after = update_step(s, event, now);
            let top = s.files.len() - 1;
            &&& after.well_formed()
            &&& event matches ScriptEvent::BeginInclude(file) ==> after.files == s.files.push(
                (file@, false),
            ) && after.progress.begin_times == s.progress.begin_times.push(now)
            &&& event is EndInclude ==> after.files.push(s.files.last()) == s.files
                && after.progress.begin_times.push(s.progress.begin_times.last())
                == s.progress.begin_times
            &&& event is Halt ==> after.files == s.files.update(top, (s.files[top].0, true))
                && after.progress == s.progress
            &&& event is Record ==> after == s
        }),
{
    let after = update_step(s, event, now);
    let top = s.files.len() - 1;
    match event {
        ScriptEvent::BeginInclude(_) => {},
        ScriptEvent::EndInclude(_) => {
            assert(after.files.push(s.files.last()) =~= s.files);
            assert(after.progress.begin_times.push(s.progress.begin_times.last())
                =~= s.progress.begin_times);
        },
        ScriptEvent::Halt => {
            assert(after.files =~= s.files.update(top, (s.files[top].0, true)));
        },
        ScriptEvent::Record => {},
    }
}

/// Every record but the begin of an include is dealt with in the innermost file, a begin in the
/// file that it names; records are run exactly while the file has not been halted, and an error
/// of theirs names that file.
pub proof fn law_actions_go_to_the_innermost_file(
    action: UpdateAction,
    s: UpdaterState,
    event: ScriptEvent,
)
    requires
        is_update_action(action, s, event),
    ensures
        (action matches UpdateAction::BeginFile { file } && file@
            == event->BeginInclude_0@) <==> event is BeginInclude,
        (action matches UpdateAction::EndFile { file } && file@ == s.files.last().0) <==> event
            is EndInclude,
        (action matches UpdateAction::WriteRecord { file } && file@ == s.files.last().0) <==> (event
            is Halt || (event is Record && s.files.last().1)),
        (action matches UpdateAction::UpdateRecord { file, context } && file@ == s.files.last().0
            && crate::run::is_context(context@, s.files.last().0)) <==> (event is Record
            && !s.files.last().1),
{
}

/// A new version is written next to its file, under a name that tells it from every other: the
/// file's own name with an ending.
pub proof fn law_temp_names_tell_files_apart(a: Seq<char>, b: Seq<char>)
    ensures
        temp_name(a).take(a.len() as int) == a,
        temp_name(a).skip(a.len() as int) == ".temp"@,
        temp_name(a) != a,
        temp_name(a) == temp_name(b) ==> a == b,
{
    reveal_strlit(".temp");
    assert(temp_name(a).take(a.len() as int) =~= a);
    assert(temp_name(a).skip(a.len() as int) =~= ".temp"@);
    if temp_name(a) == temp_name(b) {
        assert(a.len() == b.len());
        assert(temp_name(b).take(b.len() as int) =~= b);
    }
}

/// The newlines counted at the end are the longest row of newlines there: so many bytes at the
/// end are newlines, and the byte before them is none.
pub proof fn law_trailing_newlines_are_counted(bytes: Seq<u8>)
    ensures
        trailing_newlines(bytes) <= bytes.len(),
        forall|i: int|
            bytes.len() - trailing_newlines(bytes) <= i < bytes.len() ==> #[trigger] bytes[i]
                == 10,
        trailing_newlines(bytes) < bytes.len() ==> bytes[bytes.len() - trailing_newlines(bytes) - 1]
            != 10,
    decreases bytes.len(),
{
    if bytes.len() > 0 && bytes.last() == 10 {
        let front = bytes.drop_last();
        law_trailing_newlines_are_counted(front);
        assert forall|i: int|
            bytes.len() - trailing_newlines(bytes) <= i < bytes.len() implies #[trigger] bytes[i]
            == 10 by {
            if i < front.len() {
                assert(front[i] == 10);
            }
        }
        if trailing_newlines(bytes) < bytes.len() {
            assert(front[front.len() - trailing_newlines(front) - 1] != 10);
        }
    }
}

/// A cut takes away all of the newlines that are seen but one, and nothing where only one is
/// seen.
pub proof fn law_cut_leaves_one_newline(len: int, newlines: int)
    requires
        1 <= newlines <= len,
    ensures
        len - cut_length(len, newlines) == newlines - 1,
        TAIL_LEN == 8,
{
}

/// What an updater stands for is what it holds: the name of each file and whether it has been
/// halted, in order, and the progress.
pub proof fn law_updater_stands_for_its_fields(updater: Updater, i: int)
    requires
        0 <= i < updater.items@.len(),
    ensures
        updater@.files.len() == updater.items@.len(),
        updater@.files[i].0 == updater.items@[i].filename@,
        updater@.files[i].1 == updater.items@[i].halt,
        updater@.progress == updater.progress@,
{
}

/// A rewriting starts with the file alone, not halted, begun at the time given.
pub proof fn law_rewriting_starts_with_the_file(file: Seq<char>, now: u64)
    ensures
        update_started(file, now).files == seq![(file, false)],
        update_started(file, now).progress.begin_times == seq![now],
        !update_started(file, now).progress.did_pop,
        update_started(file, now).well_formed(),
{
    crate::progress::law_end_undoes_begin(update_started(file, now).progress, now);
}

/// One look at the end of a file that ends with a newline takes away newlines only and leaves at
/// least one. After the last look just one is left; a look that is not the last makes the file
/// shorter.
pub proof fn law_one_look_takes_newlines_only(bytes: Seq<u8>, step: TrimStep)
    requires
        TAIL_LEN <= bytes.len() <= u64::MAX,
        bytes.last() == 10,
        is_trim_step(step, bytes.skip(bytes.len() - TAIL_LEN), bytes.len() as int),
    ensures
        ({
            let len = match step.cut_to {
                Some(len) => len as int,
                None => bytes.len() as int,
            };
            &&& 0 < len <= bytes.len()
            &&& forall|i: int| len <= i < bytes.len() ==> #[trigger] bytes[i] == 10
            &&& bytes[len - 1] == 10
            &&& step.done ==> len == 1 || bytes[len - 2] != 10
            &&& !step.done ==> len < bytes.len()
            &&& step.cut_to is None ==> step.done
        }),
{
    let n = trailing_newlines(bytes) as int;
    law_trailing_newlines_are_counted(bytes);
    lemma_trailing_tail(bytes, TAIL_LEN as int);
    let tail = bytes.skip(bytes.len() - TAIL_LEN);
    let seen = trailing_newlines(tail) as int;
    assert(n >= 1);
    let len = match step.cut_to {
        Some(len) => len as int,
        None => bytes.len() as int,
    };
    assert(len == bytes.len() - seen + 1);
    assert(bytes[len - 1] == 10);
    if step.done {
        assert(seen == n);
    }
}

/// What is printed for one record: for the begin and the end of an include what belongs there,
/// of which only the begin is shown at once; for any other record nothing.
pub proof fn law_only_includes_are_shown(
    shown: StepOutput,
    s: UpdaterState,
    event: ScriptEvent,
    now: u64,
)
    requires
        is_step_output(shown, s, event, now),
    ensures
        shown.flush <==> event is BeginInclude,
        event is Halt || event is Record ==> shown.output@.len() == 0,
        event matches ScriptEvent::BeginInclude(file) ==> crate::progress::is_begin_output(
            shown.output@,
            s.progress,
            file@,
        ),
        event matches ScriptEvent::EndInclude(file) ==> crate::progress::is_finish_output(
            shown.output@,
            s.progress,
            file@,
            now,
        ),
{
}

}
