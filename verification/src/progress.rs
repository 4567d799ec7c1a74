//! The progress output of one test file and the files that it includes.

use vstd::prelude::*;

use crate::style::{blue_bold, green_bold};
use crate::text::{pad_right, repeat, to_decimal};

verus! {

/// What is known of the files that are being worked on: when each was begun, outermost
/// first, and whether the last thing printed was the end of a file.
///
/// Times are readings of a monotonic clock, in nanoseconds.
pub struct Progress {
    pub begin_times: Vec<u64>,
    pub did_pop: bool,
}

/// The content of a [`Progress`].
pub struct ProgressState {
    pub begin_times: Seq<u64>,
    pub did_pop: bool,
}

impl View for Progress {
    type V = ProgressState;

    open spec fn view(&self) -> ProgressState {
        ProgressState { begin_times: self.begin_times@, did_pop: self.did_pop }
    }
}

/// The state before the outermost file has printed anything but its header.
pub open spec fn started(now: u64) -> ProgressState {
    ProgressState { begin_times: seq![now], did_pop: false }
}

/// The state once a file has been begun at `now` inside the innermost one.
pub open spec fn begun(s: ProgressState, now: u64) -> ProgressState {
    ProgressState { begin_times: s.begin_times.push(now), did_pop: false }
}

/// The state once the innermost file has ended.
pub open spec fn finished(s: ProgressState) -> ProgressState {
    ProgressState { begin_times: s.begin_times.drop_last(), did_pop: true }
}

/// The time from `begin` to `now`; zero where the clock seems to have run backwards.
pub open spec fn elapsed(begin: u64, now: u64) -> nat {
    if now >= begin {
        (now - begin) as nat
    } else {
        0
    }
}

/// The line that opens the output of a test file.
pub open spec fn header_text(file: Seq<char>) -> Seq<char> {
    crate::text::padded(file, 60) + " .. "@
}

/// What is printed when an included file begins: the end of the line before, then the
/// file's own line, indented by its depth.
pub open spec fn begin_text(tag: Seq<char>, did_pop: bool, depth: nat, file: Seq<char>) -> Seq<
    char,
> {
    (if did_pop {
        "\n"@
    } else {
        tag + "\n"@
    }) + crate::text::repeated("| "@, depth) + header_text(file)
}

/// What stands before the verdict on a file that ends: nothing where the verdict goes on the
/// file's own line, else a new line with the file's name.
pub open spec fn finish_lead(
    end_tag: Seq<char>,
    did_pop: bool,
    depth: nat,
    file: Seq<char>,
) -> Seq<char> {
    if did_pop {
        "\n"@ + crate::text::repeated("| "@, depth) + end_tag + " "@ + crate::text::padded(
            file,
            54,
        ) + " .. "@
    } else {
        Seq::empty()
    }
}

/// What stands behind the verdict on a file that ends: the time that it took.
pub open spec fn finish_time(millis: nat) -> Seq<char> {
    " in "@ + crate::text::decimal(millis) + " ms"@
}

/// What is printed when a file ends: the verdict and the time, on the file's own line where
/// nothing has ended since, else on a new line.
pub open spec fn finish_text(
    end_tag: Seq<char>,
    ok_tag: Seq<char>,
    did_pop: bool,
    depth: nat,
    file: Seq<char>,
    millis: nat,
) -> Seq<char> {
    finish_lead(end_tag, did_pop, depth, file) + ok_tag + finish_time(millis)
}

/// The line that opens the output of the test file `file`.
pub fn header(file: &str) -> (r: String)
    ensures
        r@ == header_text(file@),
{
    let mut r = pad_right(file, 60);
    r.append(" .. ");
    r
}

/// The output for the begin of the included file `file`, with the tag as it is to be shown.
pub fn begin_line(tag: &str, did_pop: bool, depth: usize, file: &str) -> (r: String)
    ensures
        r@ == begin_text(tag@, did_pop, depth as nat, file@),
{
    let mut r = String::new();
    if !did_pop {
        r.append(tag);
    }
    r.append("\n");
    r.append(repeat("| ", depth).as_str());
    r.append(header(file).as_str());
    assert(r@ =~= begin_text(tag@, did_pop, depth as nat, file@));
    r
}

/// The output for the end of `file`, with the tags as they are to be shown.
pub fn finish_line(
    end_tag: &str,
    ok_tag: &str,
    did_pop: bool,
    depth: usize,
    file: &str,
    millis: u64,
) -> (r: String)
    ensures
        r@ == finish_text(end_tag@, ok_tag@, did_pop, depth as nat, file@, millis as nat),
{
    let mut r = String::new();
    if did_pop {
        r.append("\n");
        r.append(repeat("| ", depth).as_str());
        r.append(end_tag);
        r.append(" ");
        r.append(pad_right(file, 54).as_str());
        r.append(" .. ");
    }
    r.append(ok_tag);
    r.append(" in ");
    r.append(to_decimal(millis).as_str());
    r.append(" ms");
    assert(r@ =~= finish_text(end_tag@, ok_tag@, did_pop, depth as nat, file@, millis as nat));
    r
}

/// Whether `out` is the output for the begin of the included file `file` in the state `s`,
/// in either state of the colour setting.
pub open spec fn is_begin_output(out: Seq<char>, s: ProgressState, file: Seq<char>) -> bool {
    exists|tag: Seq<char>|
        crate::style::styled(tag, crate::style::blue_bold_codes(), "[BEGIN]"@) && out
            == #[trigger] begin_text(tag, s.did_pop, s.begin_times.len(), file)
}

/// Whether `out` is the output for the end at `now` of the innermost file of the state `s`,
/// called `file`, in either state of the colour setting.
pub open spec fn is_finish_output(
    out: Seq<char>,
    s: ProgressState,
    file: Seq<char>,
    now: u64,
) -> bool {
    exists|end_tag: Seq<char>, ok_tag: Seq<char>|
        crate::style::styled(end_tag, crate::style::blue_bold_codes(), "[END]"@)
            && crate::style::styled(ok_tag, crate::style::green_bold_codes(), "[OK]"@) && out
            == #[trigger] finish_text(
            end_tag,
            ok_tag,
            s.did_pop,
            (s.begin_times.len() - 1) as nat,
            file,
            elapsed(s.begin_times.last(), now) / 1_000_000,
        )
}

/// Time elapsed since `begin`.
pub fn since(begin: u64, now: u64) -> (r: u64)
    ensures
        r == elapsed(begin, now),
        begin <= now ==> begin + r == now,
{
    if now >= begin {
        now - begin
    } else {
        0
    }
}

impl Progress {
    /// The state once the outermost file has been begun at `now`.
    pub fn start(now: u64) -> (r: Progress)
        ensures
            r@ == started(now),
    {
        let mut begin_times: Vec<u64> = Vec::new();
        begin_times.push(now);
        assert(begin_times@ =~= seq![now]);
        Progress { begin_times, did_pop: false }
    }

    /// Notes that the included file `file` begins at `now`, and gives what to print.
    pub fn begin_include(&mut self, file: &str, now: u64) -> (r: String)
        ensures
            final(self)@ == begun(old(self)@, now),
            is_begin_output(r@, old(self)@, file@),
    {
        let ghost s = self@;
        let depth: usize = self.begin_times.len();
        let did_pop = self.did_pop;
        self.begin_times.push(now);
        self.did_pop = false;
        let tag = blue_bold("[BEGIN]");
        let r = begin_line(tag.as_str(), did_pop, depth, file);
        assert(r@ == begin_text(tag@, s.did_pop, s.begin_times.len(), file@));
        r
    }

    /// Notes that `file`, the innermost file, ends at `now`, and gives what to print.
    pub fn finish_test_file(&mut self, file: &str, now: u64) -> (r: String)
        requires
            old(self)@.begin_times.len() > 0,
        ensures
            final(self)@ == finished(old(self)@),
            is_finish_output(r@, old(self)@, file@, now),
    {
        let ghost s = self@;
        let begin: u64 = self.begin_times.pop().unwrap();
        let millis: u64 = since(begin, now) / 1_000_000;
        let did_pop = self.did_pop;
        self.did_pop = true;
        let end_tag = blue_bold("[END]");
        let ok_tag = green_bold("[OK]");
        let depth: usize = self.begin_times.len();
        let r = finish_line(end_tag.as_str(), ok_tag.as_str(), did_pop, depth, file, millis);
        assert(r@ == finish_text(
            end_tag@,
            ok_tag@,
            s.did_pop,
            (s.begin_times.len() - 1) as nat,
            file@,
            elapsed(s.begin_times.last(), now) / 1_000_000,
        ));
        r
    }

    /// The time from the begin of the outermost file to `now`, in nanoseconds.
    pub fn total_time(&self, now: u64) -> (r: u64)
        requires
            self@.begin_times.len() > 0,
        ensures
            r == elapsed(self@.begin_times[0], now),
            self@.begin_times[0] <= now ==> self@.begin_times[0] + r == now,
    {
        since(self.begin_times[0], now)
    }
}

/// The time that is reported brings the begin to the end, so that the times of adjoining
/// stretches add up; a clock that runs backwards gives no time.
pub proof fn law_times_add_up(a: u64, b: u64, c: u64)
    ensures
        a <= b ==> a + elapsed(a, b) == b,
        b <= a ==> elapsed(a, b) == 0,
        a <= b <= c ==> elapsed(a, b) + elapsed(b, c) == elapsed(a, c),
{
}

/// A file that begins inside another and ends leaves the begin times as they were; while it
/// lasts, its own begin time is the last one and those before it are untouched.
pub proof fn law_end_undoes_begin(s: ProgressState, now: u64)
    ensures
        started(now).begin_times == seq![now],
        !started(now).did_pop,
        begun(s, now).begin_times.len() == s.begin_times.len() + 1,
        begun(s, now).begin_times.last() == now,
        forall|i: int|
            0 <= i < s.begin_times.len() ==> #[trigger] begun(s, now).begin_times[i]
                == s.begin_times[i],
        !begun(s, now).did_pop,
        finished(begun(s, now)).begin_times == s.begin_times,
        finished(s).did_pop,
        s.begin_times.len() > 0 ==> finished(s).begin_times.push(s.begin_times.last())
            == s.begin_times,
{
    assert(started(now).begin_times =~= seq![now]);
    assert(finished(begun(s, now)).begin_times =~= s.begin_times);
    if s.begin_times.len() > 0 {
        assert(finished(s).begin_times.push(s.begin_times.last()) =~= s.begin_times);
    }
}

/// The line that opens the output of a file is the file's name, spaces up to the column at
/// which all lines go on, and two dots between spaces.
pub proof fn law_header_shows_the_file(file: Seq<char>)
    ensures
        ({
            let line = header_text(file);
            let n = line.len() - 4;
            &&& n == if file.len() > 60 {
                file.len() as int
            } else {
                60
            }
            &&& line.take(file.len() as int) == file
            &&& forall|i: int| file.len() <= i < n ==> #[trigger] line[i] == ' '
            &&& line.skip(n) == seq![' ', '.', '.', ' ']
        }),
{
    reveal_strlit(" .. ");
    let line = header_text(file);
    crate::text::law_padding_is_spaces_behind_the_text(file, 60);
    let pad = crate::text::padded(file, 60);
    assert(line.take(file.len() as int) =~= pad.take(file.len() as int));
    assert forall|i: int| file.len() <= i < line.len() - 4 implies #[trigger] line[i] == ' ' by {
        assert(line[i] == pad[i]);
    }
    assert(line.skip(line.len() - 4) =~= seq![' ', '.', '.', ' ']);
}

/// The begin of an included file is shown as a new line, with one bar for each file around it,
/// then its header; the tag ends the line before, where nothing has ended since.
pub proof fn law_begin_opens_an_indented_line(
    tag: Seq<char>,
    other: Seq<char>,
    depth: nat,
    file: Seq<char>,
)
    ensures
        begin_text(tag, false, depth, file) == tag + begin_text(other, true, depth, file),
        begin_text(tag, true, 0, file) == seq!['\n'] + header_text(file),
        begin_text(tag, true, depth + 1, file) == seq!['\n', '|', ' '] + begin_text(
            tag,
            true,
            depth,
            file,
        ).skip(1),
        begin_text(tag, true, depth, file).skip((1 + 2 * depth) as int) == header_text(file),
{
    reveal_strlit("\n");
    reveal_strlit("| ");
    let bars = crate::text::repeated("| "@, depth);
    crate::text::law_copies_add_up("| "@, 1, depth);
    assert(1 + depth == depth + 1);
    assert(bars.len() == 2 * depth);
    assert(begin_text(tag, false, depth, file) =~= tag + begin_text(other, true, depth, file));
    assert(crate::text::repeated("| "@, 0).len() == 0);
    assert(begin_text(tag, true, 0, file) =~= seq!['\n'] + header_text(file));
    assert(begin_text(tag, true, depth + 1, file) =~= seq!['\n', '|', ' '] + begin_text(
        tag,
        true,
        depth,
        file,
    ).skip(1));
    assert(begin_text(tag, true, depth, file).skip((1 + 2 * depth) as int) =~= header_text(file));
}

/// The end of a file is shown as the verdict and the time in milliseconds, behind a new line
/// with the file's name where something has ended since; there the name stands behind one bar
/// for each file around it and the tag.
pub proof fn law_end_shows_verdict_and_time(
    end_tag: Seq<char>,
    ok_tag: Seq<char>,
    depth: nat,
    file: Seq<char>,
    millis: nat,
)
    ensures
        finish_text(end_tag, ok_tag, false, depth, file, millis) == ok_tag + seq![
            ' ',
            'i',
            'n',
            ' ',
        ] + crate::text::decimal(millis) + seq![' ', 'm', 's'],
        finish_text(end_tag, ok_tag, true, depth, file, millis) == finish_lead(
            end_tag,
            true,
            depth,
            file,
        ) + finish_text(end_tag, ok_tag, false, depth, file, millis),
        finish_lead(end_tag, true, 0, file) == seq!['\n'] + end_tag + seq![' ']
            + crate::text::padded(file, 54) + seq![' ', '.', '.', ' '],
        finish_lead(end_tag, true, depth + 1, file) == seq!['\n', '|', ' '] + finish_lead(
            end_tag,
            true,
            depth,
            file,
        ).skip(1),
{
    reveal_strlit("\n");
    reveal_strlit("| ");
    reveal_strlit(" ");
    reveal_strlit(" .. ");
    reveal_strlit(" in ");
    reveal_strlit(" ms");
    crate::text::law_copies_add_up("| "@, 1, depth);
    assert(1 + depth == depth + 1);
    assert(crate::text::repeated("| "@, 0).len() == 0);
    assert(finish_text(end_tag, ok_tag, false, depth, file, millis) =~= ok_tag + seq![
        ' ',
        'i',
        'n',
        ' ',
    ] + crate::text::decimal(millis) + seq![' ', 'm', 's']);
    assert(finish_text(end_tag, ok_tag, true, depth, file, millis) =~= finish_lead(
        end_tag,
        true,
        depth,
        file,
    ) + finish_text(end_tag, ok_tag, false, depth, file, millis));
    assert(finish_lead(end_tag, true, 0, file) =~= seq!['\n'] + end_tag + seq![' ']
        + crate::text::padded(file, 54) + seq![' ', '.', '.', ' ']);
    assert(finish_lead(end_tag, true, depth + 1, file) =~= seq!['\n', '|', ' '] + finish_lead(
        end_tag,
        true,
        depth,
        file,
    ).skip(1));
}

/// What is printed at the end of a file names the full milliseconds since the file's own begin:
/// that many have passed, and no more.
pub proof fn law_end_output_tells_the_time(
    out: Seq<char>,
    s: ProgressState,
    file: Seq<char>,
    now: u64,
) -> (shown: (Seq<char>, Seq<char>, nat))
    requires
        is_finish_output(out, s, file, now),
        s.begin_times.len() > 0,
        s.begin_times.last() <= now,
    ensures
        s.begin_times.last() + shown.2 * 1_000_000 <= now,
        now < s.begin_times.last() + (shown.2 + 1) * 1_000_000,
        out == (if s.did_pop {
            seq!['\n'] + crate::text::repeated(
                seq!['|', ' '],
                (s.begin_times.len() - 1) as nat,
            ) + shown.0 + seq![' '] + crate::text::padded(file, 54) + seq![' ', '.', '.', ' ']
        } else {
            Seq::empty()
        }) + shown.1 + seq![' ', 'i', 'n', ' '] + crate::text::decimal(shown.2) + seq![
            ' ',
            'm',
            's',
        ],
        crate::style::styled(
            shown.0,
            crate::style::blue_bold_codes(),
            seq!['[', 'E', 'N', 'D', ']'],
        ),
        crate::style::styled(
            shown.1,
            crate::style::green_bold_codes(),
            seq!['[', 'O', 'K', ']'],
        ),
{
    reveal_strlit("[OK]");
    assert("[OK]"@ =~= seq!['[', 'O', 'K', ']']);
    let depth = (s.begin_times.len() - 1) as nat;
    let millis = elapsed(s.begin_times.last(), now) / 1_000_000;
    let (end_tag, ok_tag) = choose|end_tag: Seq<char>, ok_tag: Seq<char>|
        crate::style::styled(end_tag, crate::style::blue_bold_codes(), "[END]"@)
            && crate::style::styled(ok_tag, crate::style::green_bold_codes(), "[OK]"@) && out
            == #[trigger] finish_text(end_tag, ok_tag, s.did_pop, depth, file, millis);
    law_end_shows_verdict_and_time(end_tag, ok_tag, depth, file, millis);
    let lead = finish_lead(end_tag, s.did_pop, depth, file);
    reveal_strlit("[END]");
    reveal_strlit("\n");
    reveal_strlit("| ");
    reveal_strlit(" ");
    reveal_strlit(" .. ");
    assert("[END]"@ =~= seq!['[', 'E', 'N', 'D', ']']);
    assert("| "@ =~= seq!['|', ' ']);
    let end = ok_tag + seq![' ', 'i', 'n', ' '] + crate::text::decimal(millis) + seq![
        ' ',
        'm',
        's',
    ];
    assert(out =~= lead + end);
    if s.did_pop {
        assert(lead =~= seq!['\n'] + crate::text::repeated(seq!['|', ' '], depth) + end_tag
            + seq![' '] + crate::text::padded(file, 54) + seq![' ', '.', '.', ' ']);
    }
    assert(lead + end =~= lead + ok_tag + seq![' ', 'i', 'n', ' '] + crate::text::decimal(millis)
        + seq![' ', 'm', 's']);
    (end_tag, ok_tag, millis)
}

/// What is printed at the begin of an included file ends with the file's header, behind one bar
/// for each file around it; before that stands the end of the line before, with the tag where
/// nothing has ended since.
pub proof fn law_begin_output_shows_the_file(out: Seq<char>, s: ProgressState, file: Seq<char>)
    requires
        is_begin_output(out, s, file),
    ensures
        ({
            let tail = seq!['\n'] + crate::text::repeated(seq!['|', ' '], s.begin_times.len())
                + header_text(file);
            &&& s.did_pop ==> out == tail
            &&& !s.did_pop ==> out.len() >= tail.len() && out.skip(out.len() - tail.len()) == tail
                && crate::style::styled(
                out.take(out.len() - tail.len()),
                crate::style::blue_bold_codes(),
                seq!['[', 'B', 'E', 'G', 'I', 'N', ']'],
            )
        }),
{
    reveal_strlit("[BEGIN]");
    reveal_strlit("\n");
    reveal_strlit("| ");
    assert("[BEGIN]"@ =~= seq!['[', 'B', 'E', 'G', 'I', 'N', ']']);
    assert("| "@ =~= seq!['|', ' ']);
    assert("\n"@ =~= seq!['\n']);
    let tag = choose|tag: Seq<char>|
        crate::style::styled(tag, crate::style::blue_bold_codes(), "[BEGIN]"@) && out
            == #[trigger] begin_text(tag, s.did_pop, s.begin_times.len(), file);
    let tail = seq!['\n'] + crate::text::repeated(seq!['|', ' '], s.begin_times.len())
        + header_text(file);
    if s.did_pop {
        assert(out =~= tail);
    } else {
        assert(out =~= tag + tail);
        assert(out.skip(out.len() - tail.len()) =~= tail);
        assert(out.take(out.len() - tail.len()) =~= tag);
    }
}

/// What a progress stands for is what it holds.
pub proof fn law_progress_stands_for_its_fields(progress: Progress)
    ensures
        progress@.begin_times == progress.begin_times@,
        progress@.did_pop == progress.did_pop,
{
}

}
