//! Running a test file, record by record.

use vstd::prelude::*;

use crate::progress::Progress;
use crate::script::ScriptEvent;
use crate::style::bold;

verus! {

/// What to do with the record at hand.
pub enum RunAction {
    /// Run neither this record nor any that follows.
    Stop,
    /// Print `output`, flush the output where `flush` says so, then run the record.
    Execute { output: String, flush: bool },
}

/// The progress after one record, read at `now`.
pub open spec fn run_step(
    s: crate::progress::ProgressState,
    event: ScriptEvent,
    now: u64,
) -> crate::progress::ProgressState {
    match event {
        ScriptEvent::BeginInclude(_) => crate::progress::begun(s, now),
        ScriptEvent::EndInclude(_) => crate::progress::finished(s),
        _ => s,
    }
}

/// The progress after the records `events`, each with the time at which it was read.
pub open spec fn run_steps(
    s: crate::progress::ProgressState,
    events: Seq<(ScriptEvent, u64)>,
) -> crate::progress::ProgressState
    decreases events.len(),
{
    if events.len() == 0 {
        s
    } else {
        run_step(run_steps(s, events.drop_last()), events.last().0, events.last().1)
    }
}

/// Whether `action` is what to do with a record that is read at `now` in the state `s`.
pub open spec fn is_run_action(
    action: RunAction,
    s: crate::progress::ProgressState,
    event: ScriptEvent,
    now: u64,
) -> bool {
    match event {
        ScriptEvent::Halt => action is Stop,
        ScriptEvent::BeginInclude(file) => action matches RunAction::Execute { output, flush }
            && flush && crate::progress::is_begin_output(output@, s, file@),
        ScriptEvent::EndInclude(file) => action matches RunAction::Execute { output, flush }
            && !flush && crate::progress::is_finish_output(output@, s, file@, now),
        ScriptEvent::Record => action matches RunAction::Execute { output, flush } && !flush
            && output@.len() == 0,
    }
}

/// Decides what to do with a record of the test file that is being run.
pub fn run_record(progress: &mut Progress, event: &ScriptEvent, now: u64) -> (r: RunAction)
    requires
        event is EndInclude ==> old(progress)@.begin_times.len() > 0,
    ensures
        final(progress)@ == run_step(old(progress)@, *event, now),
        is_run_action(r, old(progress)@, *event, now),
{
    match event {
        ScriptEvent::Halt => RunAction::Stop,
        ScriptEvent::BeginInclude(file) => {
            let output = progress.begin_include(file.as_str(), now);
            RunAction::Execute { output, flush: true }
        },
        ScriptEvent::EndInclude(file) => {
            let output = progress.finish_test_file(file.as_str(), now);
            RunAction::Execute { output, flush: false }
        },
        ScriptEvent::Record => RunAction::Execute { output: String::new(), flush: false },
    }
}

/// Whether `out` is what to print once the last record of `file` has been run in the state `s`.
pub open spec fn is_run_end(
    out: Seq<char>,
    s: crate::progress::ProgressState,
    file: Seq<char>,
    now: u64,
) -> bool {
    &&& out.len() > 0
    &&& out.last() == '\n'
    &&& crate::progress::is_finish_output(out.drop_last(), s, file, now)
}

/// Gives what to print once the last record of the test file `file` has been run.
pub fn finish_run(progress: &mut Progress, file: &str, now: u64) -> (r: String)
    requires
        old(progress)@.begin_times.len() > 0,
    ensures
        final(progress)@ == crate::progress::finished(old(progress)@),
        is_run_end(r@, old(progress)@, file@, now),
        r@.len() > 0,
        r@.last() == '\n',
        crate::progress::is_finish_output(r@.drop_last(), old(progress)@, file@, now),
{
    let mut r = progress.finish_test_file(file, now);
    let ghost line = r@;
    r.push('\n');
    assert(r@.drop_last() =~= line);
    r
}

/// What is said of a record that failed, with the file's name as it is to be shown.
pub open spec fn context_text(shown: Seq<char>) -> Seq<char> {
    "failed to run `"@ + shown + "`"@
}

/// Whether `out` says that running `file` failed, in either state of the colour setting.
pub open spec fn is_context(out: Seq<char>, file: Seq<char>) -> bool {
    exists|shown: Seq<char>|
        crate::style::styled(shown, crate::style::bold_codes(), file) && out
            == #[trigger] context_text(shown)
}

/// What is said of a record that failed, with the file's name as it is to be shown.
pub fn context_line(shown: &str) -> (r: String)
    ensures
        r@ == context_text(shown@),
{
    let mut r = "failed to run `".to_owned();
    r.append(shown);
    r.append("`");
    r
}

/// What is said of a record of `file` that failed.
pub fn run_context(file: &str) -> (r: String)
    ensures
        is_context(r@, file@),
{
    let shown = bold(file);
    let r = context_line(shown.as_str());
    assert(r@ == context_text(shown@));
    r
}

/// Where nothing ends that has not begun, the files that were being run stay as they were,
/// and as many stand on top of them as more includes began than ended.
proof fn lemma_nested_run(s: crate::progress::ProgressState, events: Seq<(ScriptEvent, u64)>)
    requires
        crate::script::nested(events),
    ensures
        run_steps(s, events).begin_times.len() == s.begin_times.len() + crate::script::nesting(
            events,
        ),
        run_steps(s, events).begin_times.take(s.begin_times.len() as int) == s.begin_times,
        crate::script::nesting(events) >= 0,
    decreases events.len(),
{
    let n = s.begin_times.len() as int;
    if events.len() > 0 {
        lemma_nested_run(s, events.drop_last());
        let before = run_steps(s, events.drop_last()).begin_times;
        let after = run_steps(s, events).begin_times;
        assert(before.len() == n + crate::script::nesting(events.drop_last()));
        match events.last().0 {
            ScriptEvent::BeginInclude(_) => {
                assert(after == before.push(events.last().1));
                assert(after.take(n) =~= before.take(n));
            },
            ScriptEvent::EndInclude(_) => {
                assert(after == before.drop_last());
                assert(after.take(n) =~= before.take(n));
            },
            _ => {},
        }
    } else {
        assert(s.begin_times.take(n) =~= s.begin_times);
    }
}

/// Whatever a file includes, its own end finds the time at which it was begun: includes that
/// come in pairs leave the begin times as they were.
pub proof fn law_includes_keep_begin_times(
    s: crate::progress::ProgressState,
    events: Seq<(ScriptEvent, u64)>,
)
    requires
        crate::script::balanced(events),
    ensures
        run_steps(s, events).begin_times == s.begin_times,
{
    lemma_nested_run(s, events);
    let after = run_steps(s, events).begin_times;
    assert(after.take(s.begin_times.len() as int) =~= after);
}

/// The end of an include is never asked of a driver that has no file begun: while includes
/// nest, an end that belongs to one of them finds it begun on top of the files before.
pub proof fn law_nested_ends_find_their_file(
    s: crate::progress::ProgressState,
    events: Seq<(ScriptEvent, u64)>,
    file: String,
    now: u64,
)
    requires
        crate::script::nested(events.push((ScriptEvent::EndInclude(file), now))),
    ensures
        run_steps(s, events).begin_times.len() > s.begin_times.len(),
{
    let all = events.push((ScriptEvent::EndInclude(file), now));
    assert(all.drop_last() =~= events);
    lemma_nested_run(s, events);
}

/// Whether `actions` are those of a run of the script `events` from the state `s` on: one for
/// each record, in order, up to the first that stops the run or to the last record.
pub open spec fn is_run(
    actions: Seq<RunAction>,
    s: crate::progress::ProgressState,
    events: Seq<(ScriptEvent, u64)>,
) -> bool {
    &&& actions.len() <= events.len()
    &&& forall|i: int|
        0 <= i < actions.len() ==> is_run_action(
            #[trigger] actions[i],
            run_steps(s, events.take(i)),
            events[i].0,
            events[i].1,
        )
    &&& forall|i: int| 0 <= i < actions.len() - 1 ==> (#[trigger] actions[i]) is Execute
    &&& actions.len() == events.len() || (actions.len() > 0 && actions.last() is Stop)
}

/// A run executes the records before the first halt, each of them once and in order, and no
/// other: the action at each place is for the record at that place, and executes it exactly
/// where it stands before the halt. The includes that have begun and ended are those before
/// the halt.
pub proof fn law_run_executes_records_before_halt(
    actions: Seq<RunAction>,
    s: crate::progress::ProgressState,
    events: Seq<(ScriptEvent, u64)>,
)
    requires
        is_run(actions, s, events),
    ensures
        crate::script::halt_at(events) <= actions.len(),
        forall|i: int|
            0 <= i < actions.len() ==> ((#[trigger] actions[i]) is Execute <==> i
                < crate::script::halt_at(events)),
        run_steps(s, events.take(actions.len() as int)) == run_steps(
            s,
            events.take(crate::script::halt_at(events)),
        ),
{
    let n = crate::script::halt_at(events);
    let len = actions.len() as int;
    crate::script::lemma_halt_at(events);
    if len < n {
        assert(is_run_action(
            actions[len - 1],
            run_steps(s, events.take(len - 1)),
            events[len - 1].0,
            events[len - 1].1,
        ));
    }
    if len > n {
        assert(is_run_action(actions[n], run_steps(s, events.take(n)), events[n].0, events[n].1));
        assert(events.take(n + 1).drop_last() =~= events.take(n));
        assert(len == n + 1);
    }
}

/// The tags as they are shown at the time of a record.
pub struct Tags {
    pub begin: Seq<char>,
    pub end: Seq<char>,
    pub ok: Seq<char>,
}

/// Whether the tags are shown as they may be in either state of the colour setting.
pub open spec fn are_tags(tags: Tags) -> bool {
    &&& crate::style::styled(tags.begin, crate::style::blue_bold_codes(), "[BEGIN]"@)
    &&& crate::style::styled(tags.end, crate::style::blue_bold_codes(), "[END]"@)
    &&& crate::style::styled(tags.ok, crate::style::green_bold_codes(), "[OK]"@)
}

/// A part of the output of a run: the verdict on a file that has ended, or anything else.
pub enum Shown {
    Verdict(Seq<char>),
    Other(Seq<char>),
}

/// The parts of the output for one record.
pub open spec fn event_parts(
    tags: Tags,
    s: crate::progress::ProgressState,
    event: ScriptEvent,
    now: u64,
) -> Seq<Shown> {
    match event {
        ScriptEvent::BeginInclude(file) => seq![
            Shown::Other(
                crate::progress::begin_text(tags.begin, s.did_pop, s.begin_times.len(), file@),
            ),
        ],
        ScriptEvent::EndInclude(file) => seq![
            Shown::Other(
                crate::progress::finish_lead(
                    tags.end,
                    s.did_pop,
                    (s.begin_times.len() - 1) as nat,
                    file@,
                ),
            ),
            Shown::Verdict(tags.ok),
            Shown::Other(
                crate::progress::finish_time(
                    crate::progress::elapsed(s.begin_times.last(), now) / 1_000_000,
                ),
            ),
        ],
        _ => Seq::empty(),
    }
}

/// The parts of the output for the records `events`, with the tags as they are shown at the
/// time of each.
pub open spec fn run_parts(
    tags: Seq<Tags>,
    s: crate::progress::ProgressState,
    events: Seq<(ScriptEvent, u64)>,
) -> Seq<Shown>
    decreases events.len(),
{
    if events.len() == 0 {
        Seq::empty()
    } else {
        let front = events.drop_last();
        run_parts(tags, s, front) + event_parts(
            tags[front.len() as int],
            run_steps(s, front),
            events.last().0,
            events.last().1,
        )
    }
}

/// The text of the parts.
pub open spec fn parts_text(parts: Seq<Shown>) -> Seq<char>
    decreases parts.len(),
{
    if parts.len() == 0 {
        Seq::empty()
    } else {
        parts_text(parts.drop_last()) + match parts.last() {
            Shown::Verdict(text) => text,
            Shown::Other(text) => text,
        }
    }
}

/// How many of the parts are verdicts.
pub open spec fn verdicts(parts: Seq<Shown>) -> nat
    decreases parts.len(),
{
    if parts.len() == 0 {
        0
    } else {
        verdicts(parts.drop_last()) + (if parts.last() is Verdict {
            1nat
        } else {
            0
        })
    }
}

/// What the actions print.
pub open spec fn printed(actions: Seq<RunAction>) -> Seq<char>
    decreases actions.len(),
{
    if actions.len() == 0 {
        Seq::empty()
    } else {
        printed(actions.drop_last()) + match actions.last() {
            RunAction::Execute { output, .. } => output@,
            RunAction::Stop => Seq::empty(),
        }
    }
}

/// Whether `out` is the output for the records `events`, with the tags as they are shown at the
/// time of each.
pub open spec fn is_run_output(
    out: Seq<char>,
    tags: Seq<Tags>,
    s: crate::progress::ProgressState,
    events: Seq<(ScriptEvent, u64)>,
) -> bool {
    &&& tags.len() == events.len()
    &&& forall|i: int| 0 <= i < tags.len() ==> are_tags(#[trigger] tags[i])
    &&& out == parts_text(run_parts(tags, s, events))
}

/// Text and verdicts of parts that are put together.
proof fn lemma_parts_add(a: Seq<Shown>, b: Seq<Shown>)
    ensures
        parts_text(a + b) == parts_text(a) + parts_text(b),
        verdicts(a + b) == verdicts(a) + verdicts(b),
    decreases b.len(),
{
    if b.len() == 0 {
        assert(a + b =~= a);
        assert(parts_text(a) + Seq::<char>::empty() =~= parts_text(a));
    } else {
        lemma_parts_add(a, b.drop_last());
        assert((a + b).drop_last() =~= a + b.drop_last());
        assert((a + b).last() == b.last());
        assert(parts_text(a + b) =~= parts_text(a) + parts_text(b));
    }
}

/// The output for a record consists of its parts, for the tags that it was printed with.
proof fn lemma_event_tags(
    action: RunAction,
    s: crate::progress::ProgressState,
    event: ScriptEvent,
    now: u64,
) -> (tags: Tags)
    requires
        is_run_action(action, s, event, now),
    ensures
        are_tags(tags),
        parts_text(event_parts(tags, s, event, now)) == (match action {
            RunAction::Execute { output, .. } => output@,
            RunAction::Stop => Seq::<char>::empty(),
        }),
{
    reveal_with_fuel(parts_text, 4);
    let plain = Tags { begin: "[BEGIN]"@, end: "[END]"@, ok: "[OK]"@ };
    match event {
        ScriptEvent::BeginInclude(file) => {
            let output = action->Execute_output@;
            let tag = choose|tag: Seq<char>|
                crate::style::styled(tag, crate::style::blue_bold_codes(), "[BEGIN]"@) && output
                    == #[trigger] crate::progress::begin_text(
                    tag,
                    s.did_pop,
                    s.begin_times.len(),
                    file@,
                );
            let tags = Tags { begin: tag, ..plain };
            let parts = event_parts(tags, s, event, now);
            assert(parts.drop_last() =~= Seq::<Shown>::empty());
            assert(parts_text(parts) =~= output);
            tags
        },
        ScriptEvent::EndInclude(file) => {
            let output = action->Execute_output@;
            let depth = (s.begin_times.len() - 1) as nat;
            let millis = crate::progress::elapsed(s.begin_times.last(), now) / 1_000_000;
            let (end_tag, ok_tag) = choose|end_tag: Seq<char>, ok_tag: Seq<char>|
                crate::style::styled(end_tag, crate::style::blue_bold_codes(), "[END]"@)
                    && crate::style::styled(ok_tag, crate::style::green_bold_codes(), "[OK]"@)
                    && output == #[trigger] crate::progress::finish_text(
                    end_tag,
                    ok_tag,
                    s.did_pop,
                    depth,
                    file@,
                    millis,
                );
            let tags = Tags { end: end_tag, ok: ok_tag, ..plain };
            let parts = event_parts(tags, s, event, now);
            let lead = crate::progress::finish_lead(end_tag, s.did_pop, depth, file@);
            let two = parts.drop_last();
            let one = two.drop_last();
            assert(one.drop_last() =~= Seq::<Shown>::empty());
            assert(one.last() == Shown::Other(lead));
            assert(two.last() == Shown::Verdict(ok_tag));
            assert(parts_text(one) =~= lead);
            assert(parts_text(parts) =~= output);
            tags
        },
        _ => {
            if let RunAction::Execute { output, .. } = action {
                assert(output@ =~= Seq::<char>::empty());
            }
            plain
        },
    }
}

/// The parts of the output hold one verdict for each include that ends.
proof fn lemma_verdicts(
    tags: Seq<Tags>,
    s: crate::progress::ProgressState,
    events: Seq<(ScriptEvent, u64)>,
)
    ensures
        verdicts(run_parts(tags, s, events)) == crate::script::ended(events),
    decreases events.len(),
{
    reveal_with_fuel(verdicts, 4);
    if events.len() > 0 {
        let front = events.drop_last();
        lemma_verdicts(tags, s, front);
        let parts = event_parts(
            tags[front.len() as int],
            run_steps(s, front),
            events.last().0,
            events.last().1,
        );
        lemma_parts_add(run_parts(tags, s, front), parts);
        if events.last().0 is EndInclude {
            let two = parts.drop_last();
            let one = two.drop_last();
            assert(two.last() is Verdict);
            assert(one.last() is Other);
            assert(one.drop_last() =~= Seq::<Shown>::empty());
        } else if events.last().0 is BeginInclude {
            assert(parts.drop_last() =~= Seq::<Shown>::empty());
        }
    }
}

/// The parts of the output depend only on the tags at the times of the records.
proof fn lemma_run_parts_prefix(
    tags: Seq<Tags>,
    more: Tags,
    s: crate::progress::ProgressState,
    events: Seq<(ScriptEvent, u64)>,
)
    requires
        events.len() <= tags.len(),
    ensures
        run_parts(tags.push(more), s, events) == run_parts(tags, s, events),
    decreases events.len(),
{
    if events.len() > 0 {
        lemma_run_parts_prefix(tags, more, s, events.drop_last());
    }
}

/// The first `k` actions print the parts of the first `k` records.
proof fn lemma_run_output(
    actions: Seq<RunAction>,
    s: crate::progress::ProgressState,
    events: Seq<(ScriptEvent, u64)>,
    k: int,
) -> (tags: Seq<Tags>)
    requires
        is_run(actions, s, events),
        0 <= k <= actions.len(),
    ensures
        tags.len() == k,
        forall|i: int| 0 <= i < k ==> are_tags(#[trigger] tags[i]),
        printed(actions.take(k)) == parts_text(run_parts(tags, s, events.take(k))),
    decreases k,
{
    if k == 0 {
        Seq::empty()
    } else {
        let front = events.take(k - 1);
        let before = lemma_run_output(actions, s, events, k - 1);
        let (event, now) = events[k - 1];
        let last = lemma_event_tags(actions[k - 1], run_steps(s, front), event, now);
        let tags = before.push(last);
        assert(events.take(k).drop_last() =~= front);
        assert(actions.take(k).drop_last() =~= actions.take(k - 1));
        lemma_run_parts_prefix(before, last, s, front);
        lemma_parts_add(
            run_parts(before, s, front),
            event_parts(last, run_steps(s, front), event, now),
        );
        tags
    }
}

/// What a run prints for the records of a script holds one verdict for each include that ends
/// before the first halt, and no other: it is the text of the parts for the records before
/// the halt, for some showing of the tags.
pub proof fn law_run_shows_one_verdict_per_ended_file(
    actions: Seq<RunAction>,
    s: crate::progress::ProgressState,
    events: Seq<(ScriptEvent, u64)>,
)
    requires
        is_run(actions, s, events),
    ensures
        exists|tags: Seq<Tags>|
            #[trigger] is_run_output(
                printed(actions),
                tags,
                s,
                events.take(crate::script::halt_at(events)),
            ),
        forall|tags: Seq<Tags>| #[trigger]
            verdicts(run_parts(tags, s, events.take(crate::script::halt_at(events))))
                == crate::script::ended(events.take(crate::script::halt_at(events))),
{
    let n = crate::script::halt_at(events);
    law_run_executes_records_before_halt(actions, s, events);
    crate::script::lemma_halt_at(events);
    let tags = lemma_run_output(actions, s, events, n);
    if actions.len() > n {
        assert(!(actions[n] is Execute));
        assert(actions.len() == n + 1);
        assert(actions.drop_last() =~= actions.take(n));
        assert(printed(actions) =~= printed(actions.take(n)));
    } else {
        assert(actions.take(n) =~= actions);
    }
    assert(is_run_output(printed(actions), tags, s, events.take(n)));
    assert forall|tags: Seq<Tags>| #[trigger]
        verdicts(run_parts(tags, s, events.take(n))) == crate::script::ended(events.take(n)) by {
        lemma_verdicts(tags, s, events.take(n));
    }
}

/// A record is run unless it is a halt, at which the run stops. Only the begin of an include is
/// shown at once, only includes print anything, and the begin and end times are those at which
/// the marks were read.
pub proof fn law_one_record_at_a_time(
    action: RunAction,
    s: crate::progress::ProgressState,
    event: ScriptEvent,
    now: u64,
)
    requires
        is_run_action(action, s, event, now),
    ensures
        action is Stop <==> event is Halt,
        action matches RunAction::Execute { output, flush } ==> {
            &&& flush <==> event is BeginInclude
            &&& event is Record ==> output@.len() == 0
            &&& event matches ScriptEvent::BeginInclude(file)
                ==> crate::progress::is_begin_output(output@, s, file@)
            &&& event matches ScriptEvent::EndInclude(file)
                ==> crate::progress::is_finish_output(output@, s, file@, now)
        },
        ({
            let after = run_step(s, event, now);
            &&& event is BeginInclude ==> after.begin_times == s.begin_times.push(now)
                && !after.did_pop
            &&& event is EndInclude && s.begin_times.len() > 0 ==> after.begin_times.push(
                s.begin_times.last(),
            ) == s.begin_times && after.did_pop
            &&& event is Record || event is Halt ==> after == s
        }),
{
    if s.begin_times.len() > 0 {
        crate::progress::law_end_undoes_begin(s, now);
    }
    if event is BeginInclude {
        crate::progress::law_end_undoes_begin(s, now);
        assert(run_step(s, event, now).begin_times =~= s.begin_times.push(now));
    }
}

/// What is said of a record that failed holds the name of the file, as it is shown, between
/// backquotes at its end.
pub proof fn law_context_names_the_file(shown: Seq<char>)
    ensures
        context_text(shown).len() == shown.len() + 16,
        context_text(shown).take(15) == "failed to run `"@,
        context_text(shown).subrange(15, 15int + shown.len()) == shown,
        context_text(shown).last() == '`',
{
    reveal_strlit("failed to run `");
    reveal_strlit("`");
    assert(context_text(shown).take(15) =~= "failed to run `"@);
    assert(context_text(shown).subrange(15, 15int + shown.len()) =~= shown);
}

/// What is said of a record that failed holds the name of its file, plain or bold.
pub proof fn law_context_is_about_its_file(out: Seq<char>, file: Seq<char>)
    requires
        is_context(out, file),
    ensures
        out.len() >= file.len() + 16,
        out.take(15) == "failed to run `"@,
        out.last() == '`',
        crate::style::styled(
            out.subrange(15, out.len() - 1),
            seq!['\x1b', '[', '1', 'm'],
            file,
        ),
{
    let shown = choose|shown: Seq<char>|
        crate::style::styled(shown, crate::style::bold_codes(), file) && out
            == #[trigger] context_text(shown);
    law_context_names_the_file(shown);
    crate::style::law_colours_differ_in_one_digit();
    crate::style::law_styled_text_shows_the_text(shown, crate::style::bold_codes(), file);
    assert(out.subrange(15, out.len() - 1) =~= shown);
}

/// A run ends with what is printed at the end of its file, and a newline.
pub proof fn law_run_ends_with_a_newline(
    out: Seq<char>,
    s: crate::progress::ProgressState,
    file: Seq<char>,
    now: u64,
) -> (line: Seq<char>)
    requires
        is_run_end(out, s, file, now),
    ensures
        out == line + seq!['\n'],
        crate::progress::is_finish_output(line, s, file, now),
{
    let line = out.drop_last();
    assert(out =~= line + seq!['\n']);
    line
}

}
