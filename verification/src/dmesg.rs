//! The kernel log: turning the records of `/dev/kmsg` into lines, searching them, and waiting
//! for a line to come.
use vstd::prelude::*;

use crate::error::{Error, ErrorView};
use crate::number::{behind_digits, decimal, decimal_digits, digit_run, digit_run_at_least, is_digit};
use crate::text::{
    chars_of, contains, has_text, trailing_space, trim_end_from, without_trailing_space,
};

verus! {

// ---------------------------------------------------------------------------
// Snapshots
// ---------------------------------------------------------------------------

/// How one attempt to read the next line of `/dev/kmsg` ended.
#[derive(Debug)]
pub enum KmsgRead {
    /// The log is at its end.
    End,
    /// The next line would have to be waited for.
    WouldBlock,
    /// The next line, as the kernel prints it.
    Line { text: String },
    /// Reading failed.
    Failed { cause: String },
}

/// What reading `/dev/kmsg` gave.
#[derive(Debug)]
pub enum KmsgLog {
    /// The log could not be opened.
    Unopened { cause: String },
    /// The attempts to read a line, in their order.
    Opened { reads: Vec<KmsgRead> },
}

/// The position of the first `c` in `s`, or the length of `s` where there is none.
pub open spec fn first_of(s: Seq<char>, c: char) -> nat
    decreases s.len(),
{
    if s.len() == 0 || s[0] == c {
        0
    } else {
        1 + first_of(s.drop_first(), c)
    }
}

/// `s` begins with `n` numbers parted by commas, and what follows the last of them, if anything
/// does, is parted from it by a comma too.
pub open spec fn begins_with_numbers(s: Seq<char>, n: nat) -> bool
    decreases n,
{
    let run = digit_run(s);
    if n == 0 {
        true
    } else if run == 0 {
        false
    } else if run == s.len() {
        n == 1
    } else {
        s[run as int] == ',' && begins_with_numbers(s.skip(run as int + 1), (n - 1) as nat)
    }
}

/// The line begins a record: it has the prefix `<level>,<sequence>,<time>;`, in which further
/// fields may follow the time. The lines that continue a record have none.
pub open spec fn has_record_prefix(line: Seq<char>) -> bool {
    let mark = first_of(line, ';');
    mark < line.len() && begins_with_numbers(line.take(mark as int), 3)
}

/// The message of a line of `/dev/kmsg`: the line without its record prefix, if it has one, and
/// without the whitespace at its end.
pub open spec fn kmsg_message(line: Seq<char>) -> Seq<char> {
    if has_record_prefix(line) {
        without_trailing_space(line.skip(first_of(line, ';') as int + 1))
    } else {
        without_trailing_space(line)
    }
}

/// How many lines were read before reading ended.
pub open spec fn lines_read(reads: Seq<KmsgRead>) -> nat
    decreases reads.len(),
{
    if reads.len() > 0 && reads[0] is Line {
        1 + lines_read(reads.drop_first())
    } else {
        0
    }
}

/// The messages in the log, the newest first. The log is read from its oldest line on. Reading
/// ends where the log ends or would have to be waited for; a failure loses what was read before
/// it.
pub open spec fn messages(log: KmsgLog) -> Result<Seq<Seq<char>>, ErrorView> {
    match log {
        KmsgLog::Unopened { cause } => Err(ErrorView::OpenKmsg { cause: cause@ }),
        KmsgLog::Opened { reads } => {
            let n = lines_read(reads@);
            if n < reads@.len() && reads@[n as int] is Failed {
                Err(ErrorView::ReadKmsg { cause: reads@[n as int]->cause@ })
            } else {
                Ok(Seq::new(n, |i: int| kmsg_message(reads@[n - 1 - i]->text@)))
            }
        },
    }
}

/// The lines of a list as the specifications see them.
pub open spec fn texts(lines: Seq<String>) -> Seq<Seq<char>> {
    lines.map_values(|s: String| s@)
}

/// A result that carries lines, with both its sides as the specifications see them.
pub open spec fn lines_outcome(r: Result<Vec<String>, Error>) -> Result<Seq<Seq<char>>, ErrorView> {
    match r {
        Ok(lines) => Ok(texts(lines@)),
        Err(e) => Err(e@),
    }
}

proof fn first_of_is(s: Seq<char>, c: char, i: int)
    requires
        0 <= i <= s.len(),
        forall|k: int| 0 <= k < i ==> s[k] != c,
    ensures
        i == s.len() || s[i] == c ==> first_of(s, c) == i,
    decreases s.len(),
{
    if i > 0 {
        assert(s[0] != c);
        assert forall|k: int| 0 <= k < i - 1 implies s.drop_first()[k] != c by {
            assert(s.drop_first()[k] == s[k + 1]);
        }
        first_of_is(s.drop_first(), c, i - 1);
    }
}

fn starts_with_numbers(s: &Vec<char>, from: usize, n: usize) -> (r: bool)
    requires
        from <= s@.len(),
    ensures
        r == begins_with_numbers(s@.skip(from as int), n as nat),
    decreases n,
{
    if n == 0 {
        return true;
    }
    let end: usize = behind_digits(s, from);
    let ghost run = digit_run(s@.skip(from as int)) as int;
    if end == from {
        return false;
    }
    if end == s.len() {
        return n == 1;
    }
    assert(s@.skip(from as int)[run] == s@[end as int]);
    assert(s@.skip(from as int).skip(run + 1) =~= s@.skip(end + 1));
    s[end] == ',' && starts_with_numbers(s, end + 1, n - 1)
}

/// The message of a line of `/dev/kmsg`.
pub fn message_of(line: &str) -> (r: String)
    ensures
        r@ == kmsg_message(line@),
{
    let chars: Vec<char> = chars_of(line);
    let mut mark: usize = 0;
    while mark < chars.len() && chars[mark] != ';'
        invariant
            chars@ == line@,
            mark <= chars@.len(),
            forall|k: int| 0 <= k < mark ==> chars@[k] != ';',
        decreases chars@.len() - mark,
    {
        mark += 1;
    }
    proof {
        first_of_is(line@, ';', mark as int);
        assert(line@.skip(0) =~= line@);
    }
    if mark < chars.len() {
        let head: Vec<char> = chars_of(line.substring_char(0, mark));
        assert(head@.skip(0) =~= line@.take(mark as int));
        if starts_with_numbers(&head, 0, 3) {
            return trim_end_from(line, mark + 1);
        }
    }
    trim_end_from(line, 0)
}

impl KmsgRead {
    /// Whether no further line is to be read after this attempt.
    pub fn ends_snapshot(&self) -> (r: bool)
        ensures
            r == !(self is Line),
    {
        match self {
            KmsgRead::Line { .. } => false,
            _ => true,
        }
    }
}

proof fn lines_read_is(reads: Seq<KmsgRead>, i: int)
    requires
        0 <= i <= reads.len(),
        forall|k: int| 0 <= k < i ==> (#[trigger] reads[k]) is Line,
    ensures
        i == reads.len() || !(reads[i] is Line) ==> lines_read(reads) == i,
    decreases reads.len(),
{
    if i > 0 {
        assert(reads[0] is Line);
        let rest = reads.drop_first();
        assert forall|k: int| 0 <= k < i - 1 implies (#[trigger] rest[k]) is Line by {
            assert(rest[k] == reads[k + 1]);
        }
        lines_read_is(rest, i - 1);
    }
}

/// The messages in the kernel log, the newest first.
pub fn dmesg_snapshot(log: &KmsgLog) -> (r: Result<Vec<String>, Error>)
    ensures
        lines_outcome(r) == messages(*log),
        match r {
            Ok(lines) => {
                &&& messages(*log) is Ok
                &&& lines@.len() == messages(*log)->Ok_0.len()
                &&& forall|i: int|
                    0 <= i < lines@.len() ==> (#[trigger] lines@[i])@ == messages(*log)->Ok_0[i]
            },
            Err(e) => messages(*log) == Err::<Seq<Seq<char>>, ErrorView>(e@),
        },
{
    match log {
        KmsgLog::Unopened { cause } => Err(Error::OpenKmsg { cause: cause.clone() }),
        KmsgLog::Opened { reads } => {
            let mut n: usize = 0;
            while n < reads.len() && !reads[n].ends_snapshot()
                invariant
                    n <= reads@.len(),
                    forall|k: int| 0 <= k < n ==> (#[trigger] reads@[k]) is Line,
                decreases reads@.len() - n,
            {
                n += 1;
            }
            proof {
                lines_read_is(reads@, n as int);
            }
            if n < reads.len() {
                if let KmsgRead::Failed { cause } = &reads[n] {
                    return Err(Error::ReadKmsg { cause: cause.clone() });
                }
            }
            let mut out: Vec<String> = Vec::new();
            let mut left: usize = n;
            while left > 0
                invariant
                    left <= n <= reads@.len(),
                    out@.len() == n - left,
                    forall|k: int| 0 <= k < n ==> (#[trigger] reads@[k]) is Line,
                    forall|k: int|
                        0 <= k < n - left ==> (#[trigger] out@[k])@ == kmsg_message(
                            reads@[n - 1 - k]->text@,
                        ),
                decreases left,
            {
                left -= 1;
                if let KmsgRead::Line { text } = &reads[left] {
                    out.push(message_of(text.as_str()));
                }
            }
            assert(texts(out@) =~= Seq::new(
                n as nat,
                |k: int| kmsg_message(reads@[n - 1 - k]->text@),
            ));
            Ok(out)
        },
    }
}

/// A record prefix does not show: of a line `<prefix>;<text>` the text remains, whatever
/// whitespace ends it taken away.
pub proof fn kmsg_prefix_is_stripped(prefix: Seq<char>, text: Seq<char>)
    requires
        !prefix.contains(';'),
        begins_with_numbers(prefix, 3),
    ensures
        has_record_prefix(prefix.push(';') + text),
        kmsg_message(prefix.push(';') + text) == without_trailing_space(text),
{
    let line = prefix.push(';') + text;
    assert forall|k: int| 0 <= k < prefix.len() implies line[k] != ';' by {
        assert(prefix.contains(prefix[k]));
        assert(line[k] == prefix[k]);
    }
    assert(line[prefix.len() as int] == ';');
    first_of_is(line, ';', prefix.len() as int);
    assert(line.take(prefix.len() as int) =~= prefix);
    assert(line.skip(prefix.len() as int + 1) =~= text);
}

proof fn numeral_begins(n: nat, rest: Seq<char>, more: nat)
    requires
        more > 0 || rest.len() == 0 || rest[0] == ',',
        more > 0 ==> rest.len() > 0 && rest[0] == ',' && begins_with_numbers(rest.drop_first(), more),
    ensures
        begins_with_numbers(decimal(n) + rest, more + 1),
{
    decimal_digits(n);
    number_begins(decimal(n), rest, more);
}

/// The prefix that the kernel writes is a record prefix: level, sequence number and time as
/// numbers, with or without further fields.
pub proof fn kmsg_record_gives_its_text(
    level: nat,
    sequence: nat,
    time: nat,
    fields: Seq<char>,
    text: Seq<char>,
)
    requires
        fields.len() == 0 || fields[0] == ',',
        !fields.contains(';'),
    ensures
        kmsg_message(
            (decimal(level) + (seq![','] + (decimal(sequence) + (seq![','] + (decimal(time)
                + fields))))).push(';') + text,
        ) == without_trailing_space(text),
{
    let comma = seq![','];
    let third = decimal(time) + fields;
    let second = decimal(sequence) + (comma + third);
    let prefix = decimal(level) + (comma + second);
    numeral_begins(time, fields, 0);
    assert((comma + third).drop_first() =~= third);
    numeral_begins(sequence, comma + third, 1);
    assert((comma + second).drop_first() =~= second);
    numeral_begins(level, comma + second, 2);
    decimal_digits(level);
    decimal_digits(sequence);
    decimal_digits(time);
    number_without_mark(decimal(level));
    number_without_mark(decimal(sequence));
    number_without_mark(decimal(time));
    assert(!comma.contains(';'));
    joined_without(decimal(time), fields, ';');
    joined_without(comma, third, ';');
    joined_without(decimal(sequence), comma + third, ';');
    joined_without(comma, second, ';');
    joined_without(decimal(level), comma + second, ';');
    kmsg_prefix_is_stripped(prefix, text);
}

/// A line that begins no record loses nothing but the whitespace at its end, whatever marks
/// stand in it. So does, for one, every line that begins with a space.
pub proof fn continuation_line_is_kept(line: Seq<char>)
    requires
        line.len() > 0,
        !is_digit(line[0]),
    ensures
        !has_record_prefix(line),
        kmsg_message(line) == without_trailing_space(line),
{
    let mark = first_of(line, ';');
    if mark < line.len() {
        assert(digit_run(line.take(mark as int)) == 0);
    }
}

/// No message of a snapshot ends with whitespace, a line break included.
pub proof fn messages_end_without_space(log: KmsgLog, i: int)
    requires
        messages(log) is Ok,
        0 <= i < messages(log)->Ok_0.len(),
        messages(log)->Ok_0[i].len() > 0,
    ensures
        !crate::text::is_space(messages(log)->Ok_0[i].last()),
{
    let reads = log->reads@;
    let line = reads[lines_read(reads) - 1 - i]->text@;
    trailing_space(line);
    trailing_space(line.skip(first_of(line, ';') as int + 1));
}

// ---------------------------------------------------------------------------
// Searching
// ---------------------------------------------------------------------------

/// The first of the lines in which `needle` occurs.
pub open spec fn first_line_with(lines: Seq<Seq<char>>, needle: Seq<char>) -> Option<Seq<char>>
    decreases lines.len(),
{
    if lines.len() == 0 {
        None
    } else if has_text(lines[0], needle) {
        Some(lines[0])
    } else {
        first_line_with(lines.drop_first(), needle)
    }
}

/// An optional text as the specifications see it.
pub open spec fn optional_text(r: Option<String>) -> Option<Seq<char>> {
    match r {
        Some(s) => Some(s@),
        None => None,
    }
}

proof fn first_line_is(lines: Seq<Seq<char>>, needle: Seq<char>, i: int)
    requires
        0 <= i <= lines.len(),
        forall|k: int| 0 <= k < i ==> !has_text(#[trigger] lines[k], needle),
    ensures
        i == lines.len() ==> first_line_with(lines, needle) is None,
        i < lines.len() && has_text(lines[i], needle) ==> first_line_with(lines, needle) == Some(
            lines[i],
        ),
    decreases lines.len(),
{
    if i > 0 {
        assert(!has_text(lines[0], needle));
        let rest = lines.drop_first();
        assert forall|k: int| 0 <= k < i - 1 implies !has_text(#[trigger] rest[k], needle) by {
            assert(rest[k] == lines[k + 1]);
        }
        first_line_is(rest, needle, i - 1);
    }
}

/// The first of `lines` in which `needle` occurs.
pub fn find_line(lines: &Vec<String>, needle: &str) -> (r: Option<String>)
    ensures
        optional_text(r) == first_line_with(texts(lines@), needle@),
        match r {
            Some(line) => first_line_with(texts(lines@), needle@) == Some(line@),
            None => first_line_with(texts(lines@), needle@) is None,
        },
{
    let mut i: usize = 0;
    while i < lines.len()
        invariant
            i <= lines@.len(),
            forall|k: int| 0 <= k < i ==> !has_text(#[trigger] texts(lines@)[k], needle@),
        decreases lines@.len() - i,
    {
        assert(texts(lines@)[i as int] == lines@[i as int]@);
        if contains(lines[i].as_str(), needle) {
            proof {
                first_line_is(texts(lines@), needle@, i as int);
            }
            return Some(lines[i].clone());
        }
        i += 1;
    }
    proof {
        first_line_is(texts(lines@), needle@, i as int);
    }
    None
}

/// The newest message in the kernel log in which `needle` occurs, as plain text.
pub fn dmesg_find(log: &KmsgLog, needle: &str) -> (r: Result<Option<String>, Error>)
    ensures
        match messages(*log) {
            Ok(lines) => r matches Ok(found) && {
                &&& optional_text(found) == first_line_with(lines, needle@)
                &&& match found {
                    Some(line) => first_line_with(lines, needle@) == Some(line@),
                    None => first_line_with(lines, needle@) is None,
                }
            },
            Err(error) => r matches Err(e) && e@ == error,
        },
{
    match dmesg_snapshot(log) {
        Ok(lines) => Ok(find_line(&lines, needle)),
        Err(e) => Err(e),
    }
}

/// A search gives the first line with the needle, and gives none only where no line has it.
pub proof fn search_gives_the_first_line(lines: Seq<Seq<char>>, needle: Seq<char>)
    ensures
        match first_line_with(lines, needle) {
            Some(line) => exists|i: int|
                {
                    &&& 0 <= i < lines.len()
                    &&& #[trigger] lines[i] == line
                    &&& has_text(line, needle)
                    &&& forall|k: int| 0 <= k < i ==> !has_text(#[trigger] lines[k], needle)
                },
            None => forall|k: int|
                0 <= k < lines.len() ==> !has_text(#[trigger] lines[k], needle),
        },
    decreases lines.len(),
{
    if lines.len() > 0 && !has_text(lines[0], needle) {
        let rest = lines.drop_first();
        search_gives_the_first_line(rest, needle);
        match first_line_with(rest, needle) {
            Some(line) => {
                let i = choose|i: int|
                    {
                        &&& 0 <= i < rest.len()
                        &&& #[trigger] rest[i] == line
                        &&& has_text(line, needle)
                        &&& forall|k: int| 0 <= k < i ==> !has_text(#[trigger] rest[k], needle)
                    };
                assert(lines[i + 1] == line);
                assert forall|k: int| 0 <= k < i + 1 implies !has_text(
                    #[trigger] lines[k],
                    needle,
                ) by {
                    if k > 0 {
                        assert(rest[k - 1] == lines[k]);
                    }
                }
            },
            None => {
                assert forall|k: int| 0 <= k < lines.len() implies !has_text(
                    #[trigger] lines[k],
                    needle,
                ) by {
                    if k > 0 {
                        assert(rest[k - 1] == lines[k]);
                    }
                }
            },
        }
    } else if lines.len() > 0 {
        assert(lines[0] == first_line_with(lines, needle)->0);
    }
}

/// Searching a snapshot finds the newest line with the needle: no line that was read later has
/// it. Nothing is found only where no line has it.
pub proof fn search_gives_the_newest_line(reads: Vec<KmsgRead>, needle: Seq<char>)
    requires
        messages(KmsgLog::Opened { reads }) is Ok,
    ensures
        match first_line_with(messages(KmsgLog::Opened { reads })->Ok_0, needle) {
            Some(line) => exists|i: int|
                {
                    &&& 0 <= i < lines_read(reads@)
                    &&& kmsg_message((#[trigger] reads@[i])->text@) == line
                    &&& has_text(line, needle)
                    &&& forall|k: int|
                        i < k < lines_read(reads@) ==> !has_text(
                            kmsg_message((#[trigger] reads@[k])->text@),
                            needle,
                        )
                },
            None => forall|k: int|
                0 <= k < lines_read(reads@) ==> !has_text(
                    kmsg_message((#[trigger] reads@[k])->text@),
                    needle,
                ),
        },
{
    let n = lines_read(reads@);
    let lines = messages(KmsgLog::Opened { reads })->Ok_0;
    search_gives_the_first_line(lines, needle);
    assert forall|k: int| 0 <= k < n implies kmsg_message((#[trigger] reads@[k])->text@) == lines[n
        - 1 - k] by {}
    match first_line_with(lines, needle) {
        Some(line) => {
            let j = choose|j: int|
                {
                    &&& 0 <= j < lines.len()
                    &&& #[trigger] lines[j] == line
                    &&& has_text(line, needle)
                    &&& forall|k: int| 0 <= k < j ==> !has_text(#[trigger] lines[k], needle)
                };
            let i = n - 1 - j;
            assert(kmsg_message(reads@[i]->text@) == line);
            assert forall|k: int| i < k < n implies !has_text(
                kmsg_message((#[trigger] reads@[k])->text@),
                needle,
            ) by {
                assert(!has_text(lines[n - 1 - k], needle));
            }
        },
        None => {
            assert forall|k: int| 0 <= k < n implies !has_text(
                kmsg_message((#[trigger] reads@[k])->text@),
                needle,
            ) by {
                assert(!has_text(lines[n - 1 - k], needle));
            }
        },
    }
}

// ---------------------------------------------------------------------------
// Waiting for a line
// ---------------------------------------------------------------------------

/// How long to wait between two looks at the log.
pub const POLL_INTERVAL_MILLIS: u64 = 50;

/// What the one who waits for a line has just learned.
#[derive(Debug)]
pub enum PollEvent {
    /// So many nanoseconds have gone by since the wait began.
    Clock { elapsed: u128 },
    /// The kernel log, as it is now.
    Snapshot { log: KmsgLog },
}

/// What the one who waits for a line has to do next.
#[derive(Debug)]
pub enum PollAction {
    /// Read the kernel log.
    TakeSnapshot,
    /// Sleep, then look at the clock.
    Sleep { millis: u64 },
    /// Stop: this is the line.
    Found { line: String },
    /// Stop: the wait has failed.
    Fail { error: Error },
}

/// A [`PollAction`] with its texts as character sequences.
pub enum PollView {
    TakeSnapshot,
    Sleep { millis: u64 },
    Found { line: Seq<char> },
    Fail { error: ErrorView },
}

impl View for PollAction {
    type V = PollView;

    open spec fn view(&self) -> PollView {
        match *self {
            PollAction::TakeSnapshot => PollView::TakeSnapshot,
            PollAction::Sleep { millis } => PollView::Sleep { millis },
            PollAction::Found { line } => PollView::Found { line: line@ },
            PollAction::Fail { error } => PollView::Fail { error: error@ },
        }
    }
}

/// The next action of a wait for a line with `needle` that may take `timeout` nanoseconds.
pub open spec fn poll_step(needle: Seq<char>, timeout: u128, event: PollEvent) -> PollView {
    match event {
        PollEvent::Clock { elapsed } => if elapsed < timeout {
            PollView::TakeSnapshot
        } else {
            PollView::Fail { error: ErrorView::DmesgTimeout { needle } }
        },
        PollEvent::Snapshot { log } => match messages(log) {
            Ok(lines) => match first_line_with(lines, needle) {
                Some(line) => PollView::Found { line },
                None => PollView::Sleep { millis: POLL_INTERVAL_MILLIS },
            },
            Err(error) => PollView::Fail { error },
        },
    }
}

/// Decides how a wait for a line with `needle` goes on. The wait begins with a look at the
/// clock, and so does every round after a sleep.
pub fn dmesg_eventually(needle: &str, timeout: u128, event: &PollEvent) -> (r: PollAction)
    ensures
        r@ == poll_step(needle@, timeout, *event),
        match r {
            PollAction::TakeSnapshot => poll_step(needle@, timeout, *event) is TakeSnapshot,
            PollAction::Sleep { millis } => poll_step(needle@, timeout, *event) == (
            PollView::Sleep { millis }),
            PollAction::Found { line } => poll_step(needle@, timeout, *event) == (
            PollView::Found { line: line@ }),
            PollAction::Fail { error } => poll_step(needle@, timeout, *event) == (
            PollView::Fail { error: error@ }),
        },
{
    match event {
        PollEvent::Clock { elapsed } => {
            if *elapsed < timeout {
                PollAction::TakeSnapshot
            } else {
                PollAction::Fail { error: Error::DmesgTimeout { needle: needle.to_owned() } }
            }
        },
        PollEvent::Snapshot { log } => match dmesg_find(log, needle) {
            Ok(Some(line)) => PollAction::Found { line },
            Ok(None) => PollAction::Sleep { millis: POLL_INTERVAL_MILLIS },
            Err(error) => PollAction::Fail { error },
        },
    }
}

/// One round of a wait: what the clock shows, and what the log holds if it is read then.
pub struct PollRound {
    pub elapsed: u128,
    pub log: KmsgLog,
}

/// How a wait ends that meets these rounds one after the other and follows [`poll_step`];
/// `None` where it has not ended after the last of them.
pub open spec fn poll_outcome(
    needle: Seq<char>,
    timeout: u128,
    rounds: Seq<PollRound>,
) -> Option<Result<Seq<char>, ErrorView>>
    decreases rounds.len(),
{
    if rounds.len() == 0 {
        None
    } else {
        let now = rounds[0];
        match poll_step(needle, timeout, PollEvent::Clock { elapsed: now.elapsed }) {
            PollView::Fail { error } => Some(Err(error)),
            PollView::Found { line } => Some(Ok(line)),
            PollView::Sleep { .. } => poll_outcome(needle, timeout, rounds.drop_first()),
            PollView::TakeSnapshot => match poll_step(
                needle,
                timeout,
                PollEvent::Snapshot { log: now.log },
            ) {
                PollView::Found { line } => Some(Ok(line)),
                PollView::Fail { error } => Some(Err(error)),
                PollView::Sleep { .. } => poll_outcome(needle, timeout, rounds.drop_first()),
                // No clock reading is asked for, so there is no next round.
                PollView::TakeSnapshot => None,
            },
        }
    }
}

/// The round comes in time, and its log is readable but has no line with `needle`.
pub open spec fn in_vain(needle: Seq<char>, timeout: u128, round: PollRound) -> bool {
    &&& round.elapsed < timeout
    &&& messages(round.log) matches Ok(lines) && first_line_with(lines, needle) is None
}

/// A wait goes on as long as the rounds are in vain, and the first that is not decides: past the
/// timeout the wait fails without another look at the log; a log that cannot be read fails it;
/// otherwise it gives the first line with the needle.
pub proof fn first_telling_round_decides(
    needle: Seq<char>,
    timeout: u128,
    rounds: Seq<PollRound>,
    n: int,
)
    requires
        0 <= n <= rounds.len(),
        forall|i: int| 0 <= i < n ==> in_vain(needle, timeout, #[trigger] rounds[i]),
        n < rounds.len() ==> !in_vain(needle, timeout, rounds[n]),
    ensures
        poll_outcome(needle, timeout, rounds) == (if n == rounds.len() {
            None
        } else if rounds[n].elapsed >= timeout {
            Some(Err(ErrorView::DmesgTimeout { needle }))
        } else {
            match messages(rounds[n].log) {
                Ok(lines) => Some(Ok(first_line_with(lines, needle)->0)),
                Err(error) => Some(Err(error)),
            }
        }),
    decreases rounds.len(),
{
    if n > 0 {
        assert(in_vain(needle, timeout, rounds[0]));
        let rest = rounds.drop_first();
        assert forall|i: int| 0 <= i < n - 1 implies in_vain(
            needle,
            timeout,
            #[trigger] rest[i],
        ) by {
            assert(rest[i] == rounds[i + 1]);
        }
        first_telling_round_decides(needle, timeout, rest, n - 1);
    }
}

proof fn first_telling_round(
    needle: Seq<char>,
    timeout: u128,
    rounds: Seq<PollRound>,
    from: int,
) -> (n: int)
    requires
        0 <= from <= rounds.len(),
        forall|i: int| 0 <= i < from ==> in_vain(needle, timeout, #[trigger] rounds[i]),
    ensures
        0 <= n <= rounds.len(),
        forall|i: int| 0 <= i < n ==> in_vain(needle, timeout, #[trigger] rounds[i]),
        n < rounds.len() ==> !in_vain(needle, timeout, rounds[n]),
    decreases rounds.len() - from,
{
    if from == rounds.len() || !in_vain(needle, timeout, rounds[from]) {
        from
    } else {
        first_telling_round(needle, timeout, rounds, from + 1)
    }
}

/// A wait comes to an end: with a full sleep before every round but the first, it has ended by
/// the round before which the sleeps add up to the timeout, whatever the log says.
pub proof fn a_wait_ends(needle: Seq<char>, timeout: u128, rounds: Seq<PollRound>)
    requires
        rounds.len() > 0,
        forall|i: int|
            0 <= i < rounds.len() ==> (#[trigger] rounds[i]).elapsed >= i * POLL_INTERVAL_MILLIS
                * 1_000_000,
        (rounds.len() - 1) * POLL_INTERVAL_MILLIS * 1_000_000 >= timeout,
    ensures
        poll_outcome(needle, timeout, rounds) is Some,
{
    let n = first_telling_round(needle, timeout, rounds, 0);
    first_telling_round_decides(needle, timeout, rounds, n);
    if n == rounds.len() {
        assert(in_vain(needle, timeout, rounds[n - 1]));
    }
}

// ---------------------------------------------------------------------------
// What a line, a snapshot and a wait give, in terms of what was read
// ---------------------------------------------------------------------------

/// `s` is a decimal number.
pub open spec fn is_number(s: Seq<char>) -> bool {
    s.len() > 0 && forall|i: int| 0 <= i < s.len() ==> is_digit(#[trigger] s[i])
}

/// The line is made of three numbers parted by commas, fields that a comma parts from them if
/// there are any, a semicolon, and the text.
pub open spec fn is_record(
    line: Seq<char>,
    level: Seq<char>,
    sequence: Seq<char>,
    time: Seq<char>,
    fields: Seq<char>,
    text: Seq<char>,
) -> bool {
    &&& is_number(level) && is_number(sequence) && is_number(time)
    &&& fields.len() == 0 || fields[0] == ','
    &&& !fields.contains(';')
    &&& line == level + seq![','] + sequence + seq![','] + time + fields + seq![';'] + text
}

proof fn number_begins(n: Seq<char>, rest: Seq<char>, more: nat)
    requires
        is_number(n),
        rest.len() == 0 || rest[0] == ',',
        more > 0 ==> rest.len() > 0 && begins_with_numbers(rest.drop_first(), more),
    ensures
        begins_with_numbers(n + rest, more + 1),
{
    let s = n + rest;
    let len = n.len() as int;
    assert forall|i: int| 0 <= i < len implies is_digit(#[trigger] s[i]) by {
        assert(s[i] == n[i]);
    }
    digit_run_at_least(s, len);
    if rest.len() > 0 {
        assert(s[len] == ',');
        assert(s.skip(len + 1) =~= rest.drop_first());
        assert(begins_with_numbers(rest.drop_first(), more));
    }
}

proof fn joined_without(a: Seq<char>, b: Seq<char>, c: char)
    requires
        !a.contains(c),
        !b.contains(c),
    ensures
        !(a + b).contains(c),
{
    if (a + b).contains(c) {
        let i = choose|i: int| 0 <= i < (a + b).len() && (a + b)[i] == c;
        if i < a.len() {
            assert(a[i] == c);
        } else {
            assert(b[i - a.len()] == c);
        }
    }
}

proof fn number_without_mark(n: Seq<char>)
    requires
        is_number(n),
    ensures
        !n.contains(';'),
{
    if n.contains(';') {
        let i = choose|i: int| 0 <= i < n.len() && n[i] == ';';
        assert(is_digit(n[i]));
    }
}

proof fn record_regrouped(
    level: Seq<char>,
    sequence: Seq<char>,
    time: Seq<char>,
    fields: Seq<char>,
    text: Seq<char>,
)
    ensures
        level + seq![','] + sequence + seq![','] + time + fields + seq![';'] + text == (level + (
        seq![','] + (sequence + (seq![','] + (time + fields))))).push(';') + text,
{
    let comma = seq![','];
    assert(level + comma + sequence =~= level + (comma + sequence));
    assert(level + comma + sequence + comma + time + fields =~= level + (comma + (sequence + (comma
        + (time + fields)))));
    let prefix = level + (comma + (sequence + (comma + (time + fields))));
    assert(prefix + seq![';'] =~= prefix.push(';'));
}

/// The message of a record is its text, without the whitespace at its end: whatever the level,
/// the sequence number, the time and the further fields are, they do not show.
pub proof fn a_record_gives_its_text(
    line: Seq<char>,
    level: Seq<char>,
    sequence: Seq<char>,
    time: Seq<char>,
    fields: Seq<char>,
    text: Seq<char>,
)
    requires
        is_record(line, level, sequence, time, fields, text),
    ensures
        kmsg_message(line) == without_trailing_space(text),
{
    let comma = seq![','];
    let third = time + fields;
    let second = sequence + (comma + third);
    let prefix = level + (comma + second);
    number_begins(time, fields, 0);
    assert((comma + third).drop_first() =~= third);
    number_begins(sequence, comma + third, 1);
    assert((comma + second).drop_first() =~= second);
    number_begins(level, comma + second, 2);
    number_without_mark(level);
    number_without_mark(sequence);
    number_without_mark(time);
    assert(!comma.contains(';'));
    joined_without(time, fields, ';');
    joined_without(comma, third, ';');
    joined_without(sequence, comma + third, ';');
    joined_without(comma, second, ';');
    joined_without(level, comma + second, ';');
    record_regrouped(level, sequence, time, fields, text);
    kmsg_prefix_is_stripped(prefix, text);
}

proof fn leading_number(s: Seq<char>)
    ensures
        digit_run(s) <= s.len(),
        digit_run(s) > 0 ==> is_number(s.take(digit_run(s) as int)),
    decreases s.len(),
{
    if s.len() > 0 && is_digit(s[0]) {
        let rest = s.drop_first();
        leading_number(rest);
        let run = digit_run(s) as int;
        let n = s.take(run);
        assert forall|i: int| 0 <= i < n.len() implies is_digit(#[trigger] n[i]) by {
            if i > 0 {
                assert(n[i] == rest.take(run - 1)[i - 1]);
            }
        }
    }
}

proof fn first_of_is_first(s: Seq<char>, c: char)
    ensures
        first_of(s, c) <= s.len(),
        first_of(s, c) < s.len() ==> s[first_of(s, c) as int] == c,
        forall|k: int| 0 <= k < first_of(s, c) ==> s[k] != c,
    decreases s.len(),
{
    if s.len() > 0 && s[0] != c {
        let rest = s.drop_first();
        first_of_is_first(rest, c);
        assert forall|k: int| 0 <= k < first_of(s, c) implies s[k] != c by {
            if k > 0 {
                assert(rest[k - 1] == s[k]);
            }
        }
    }
}

/// A line that is no record loses nothing but the whitespace at its end.
pub proof fn any_other_line_is_kept(line: Seq<char>)
    requires
        forall|
            level: Seq<char>,
            sequence: Seq<char>,
            time: Seq<char>,
            fields: Seq<char>,
            text: Seq<char>,
        |
            !#[trigger] is_record(line, level, sequence, time, fields, text),
    ensures
        kmsg_message(line) == without_trailing_space(line),
{
    if has_record_prefix(line) {
        let mark = first_of(line, ';') as int;
        first_of_is_first(line, ';');
        let head = line.take(mark);
        let a = digit_run(head) as int;
        let t1 = head.skip(a + 1);
        let b = digit_run(t1) as int;
        let t2 = t1.skip(b + 1);
        let c = digit_run(t2) as int;
        reveal_with_fuel(begins_with_numbers, 4);
        leading_number(head);
        leading_number(t1);
        leading_number(t2);
        let level = head.take(a);
        let sequence = t1.take(b);
        let time = t2.take(c);
        let fields = t2.skip(c);
        let text = line.skip(mark + 1);
        if fields.contains(';') {
            let i = choose|i: int| 0 <= i < fields.len() && fields[i] == ';';
            assert(fields[i] == line[a + b + c + 2 + i]);
        }
        assert(line =~= level + seq![','] + sequence + seq![','] + time + fields + seq![';'] + text);
        assert(is_record(line, level, sequence, time, fields, text));
    }
}

/// The attempts `reads` gave `n` lines: those are the lines before the first attempt, if there
/// is one, that gave none.
pub open spec fn gave_lines(reads: Seq<KmsgRead>, n: int) -> bool {
    &&& 0 <= n <= reads.len()
    &&& forall|k: int| 0 <= k < n ==> (#[trigger] reads[k]) is Line
    &&& n == reads.len() || !(reads[n] is Line)
}

/// A snapshot has one message for each line that was read, and no other: the message of line `i`
/// has as many messages before it as lines were read after line `i`. Where reading failed, the
/// failure is all there is.
pub proof fn snapshot_has_one_message_per_line(reads: Vec<KmsgRead>, n: int)
    requires
        gave_lines(reads@, n),
    ensures
        n < reads@.len() && reads@[n] is Failed ==> messages(KmsgLog::Opened { reads }) == Err::<
            Seq<Seq<char>>,
            ErrorView,
        >(ErrorView::ReadKmsg { cause: reads@[n]->Failed_cause@ }),
        n == reads@.len() || !(reads@[n] is Failed) ==> {
            &&& messages(KmsgLog::Opened { reads }) is Ok
            &&& messages(KmsgLog::Opened { reads })->Ok_0.len() == n
            &&& forall|i: int|
                0 <= i < n ==> messages(KmsgLog::Opened { reads })->Ok_0[n - 1 - i] == kmsg_message(
                    (#[trigger] reads@[i])->text@,
                )
        },
{
    lines_read_is(reads@, n);
}

/// A line that is read after others comes before their messages, and changes none of them.
pub proof fn a_newer_line_comes_first(older: Vec<KmsgRead>, newer: Vec<KmsgRead>, line: String)
    requires
        gave_lines(older@, older@.len() as int),
        newer@ == older@.push(KmsgRead::Line { text: line }),
    ensures
        messages(KmsgLog::Opened { reads: older }) is Ok,
        messages(KmsgLog::Opened { reads: newer }) == Ok::<Seq<Seq<char>>, ErrorView>(
            seq![kmsg_message(line@)] + messages(KmsgLog::Opened { reads: older })->Ok_0,
        ),
{
    let n = older@.len() as int;
    assert forall|k: int| 0 <= k < n + 1 implies (#[trigger] newer@[k]) is Line by {
        if k < n {
            assert(newer@[k] == older@[k]);
        }
    }
    snapshot_has_one_message_per_line(older, n);
    snapshot_has_one_message_per_line(newer, n + 1);
    let a = messages(KmsgLog::Opened { reads: older })->Ok_0;
    let b = messages(KmsgLog::Opened { reads: newer })->Ok_0;
    assert forall|j: int| 0 <= j < n + 1 implies b[j] == (seq![kmsg_message(line@)] + a)[j] by {
        let i = n - j;
        assert(b[n + 1 - 1 - i] == kmsg_message(newer@[i]->text@));
        if j > 0 {
            assert(newer@[i] == older@[i]);
            assert(a[n - 1 - i] == kmsg_message(older@[i]->text@));
        }
    }
    assert(b =~= seq![kmsg_message(line@)] + a);
}

/// A log that cannot be opened has no messages.
pub proof fn an_unopened_log_has_no_messages(cause: String)
    ensures
        messages(KmsgLog::Unopened { cause }) == Err::<Seq<Seq<char>>, ErrorView>(
            ErrorView::OpenKmsg { cause: cause@ },
        ),
{
}

/// The message of line `i` has the needle, and no line that was read later has it.
pub open spec fn is_newest_with(
    reads: Seq<KmsgRead>,
    n: int,
    i: int,
    needle: Seq<char>,
) -> bool {
    &&& 0 <= i < n
    &&& has_text(kmsg_message(reads[i]->text@), needle)
    &&& forall|k: int|
        i < k < n ==> !has_text(kmsg_message((#[trigger] reads[k])->text@), needle)
}

/// A search of the log finds the newest line with the needle.
pub proof fn the_newest_line_is_found(reads: Vec<KmsgRead>, n: int, i: int, needle: Seq<char>)
    requires
        gave_lines(reads@, n),
        n == reads@.len() || !(reads@[n] is Failed),
        is_newest_with(reads@, n, i, needle),
    ensures
        first_line_with(messages(KmsgLog::Opened { reads })->Ok_0, needle) == Some(
            kmsg_message(reads@[i]->text@),
        ),
{
    snapshot_has_one_message_per_line(reads, n);
    let lines = messages(KmsgLog::Opened { reads })->Ok_0;
    assert forall|k: int| 0 <= k < n - 1 - i implies !has_text(#[trigger] lines[k], needle) by {
        let j = n - 1 - k;
        assert(lines[n - 1 - j] == kmsg_message(reads@[j]->text@));
    }
    assert(lines[n - 1 - i] == kmsg_message(reads@[i]->text@));
    first_line_is(lines, needle, n - 1 - i);
}

/// A search of the log finds nothing where no line has the needle.
pub proof fn nothing_is_found_where_no_line_has_it(
    reads: Vec<KmsgRead>,
    n: int,
    needle: Seq<char>,
)
    requires
        gave_lines(reads@, n),
        n == reads@.len() || !(reads@[n] is Failed),
        forall|k: int|
            0 <= k < n ==> !has_text(kmsg_message((#[trigger] reads@[k])->text@), needle),
    ensures
        messages(KmsgLog::Opened { reads }) is Ok,
        first_line_with(messages(KmsgLog::Opened { reads })->Ok_0, needle) is None,
{
    snapshot_has_one_message_per_line(reads, n);
    let lines = messages(KmsgLog::Opened { reads })->Ok_0;
    assert forall|k: int| 0 <= k < n implies !has_text(#[trigger] lines[k], needle) by {
        let j = n - 1 - k;
        assert(lines[n - 1 - j] == kmsg_message(reads@[j]->text@));
    }
    first_line_is(lines, needle, n);
}

/// Whatever its timeout, a wait that sees the line ends with it, the newest if there are more.
pub proof fn a_wait_ends_with_the_newest_line(
    needle: Seq<char>,
    timeout: u128,
    reads: Vec<KmsgRead>,
    n: int,
    i: int,
)
    requires
        gave_lines(reads@, n),
        n == reads@.len() || !(reads@[n] is Failed),
        is_newest_with(reads@, n, i, needle),
    ensures
        poll_step(needle, timeout, PollEvent::Snapshot { log: KmsgLog::Opened { reads } }) == (
        PollView::Found { line: kmsg_message(reads@[i]->text@) }),
{
    snapshot_has_one_message_per_line(reads, n);
    the_newest_line_is_found(reads, n, i, needle);
}

/// Whatever its timeout, a wait that does not see the line sleeps for 50 milliseconds.
pub proof fn a_wait_without_the_line_sleeps(
    needle: Seq<char>,
    timeout: u128,
    reads: Vec<KmsgRead>,
    n: int,
)
    requires
        gave_lines(reads@, n),
        n == reads@.len() || !(reads@[n] is Failed),
        forall|k: int|
            0 <= k < n ==> !has_text(kmsg_message((#[trigger] reads@[k])->text@), needle),
    ensures
        poll_step(needle, timeout, PollEvent::Snapshot { log: KmsgLog::Opened { reads } }) == (
        PollView::Sleep { millis: 50 }),
{
    nothing_is_found_where_no_line_has_it(reads, n, needle);
}

/// Whatever its timeout, a wait ends with the failure to open or to read the log.
pub proof fn a_wait_ends_where_the_log_fails(
    needle: Seq<char>,
    timeout: u128,
    cause: String,
    reads: Vec<KmsgRead>,
    n: int,
)
    requires
        gave_lines(reads@, n),
        n < reads@.len(),
        reads@[n] is Failed,
    ensures
        poll_step(needle, timeout, PollEvent::Snapshot { log: KmsgLog::Unopened { cause } }) == (
        PollView::Fail { error: ErrorView::OpenKmsg { cause: cause@ } }),
        poll_step(needle, timeout, PollEvent::Snapshot { log: KmsgLog::Opened { reads } }) == (
        PollView::Fail { error: ErrorView::ReadKmsg { cause: reads@[n]->Failed_cause@ } }),
{
    snapshot_has_one_message_per_line(reads, n);
}

/// A wait looks at the log exactly while there is time, and gives up exactly when there is none
/// left.
pub proof fn a_wait_gives_up_at_the_timeout(needle: Seq<char>, timeout: u128, elapsed: u128)
    ensures
        poll_step(needle, timeout, PollEvent::Clock { elapsed }) is TakeSnapshot <==> elapsed
            < timeout,
        poll_step(needle, timeout, PollEvent::Clock { elapsed }) == (PollView::Fail {
            error: ErrorView::DmesgTimeout { needle },
        }) <==> elapsed >= timeout,
{
}

/// What the clock showed when it was last looked at, among the first `i + 1` events.
pub open spec fn last_clock(events: Seq<PollEvent>, i: int) -> int
    decreases i + 1,
{
    if i < 0 {
        0
    } else {
        match events[i] {
            PollEvent::Clock { elapsed } => elapsed as int,
            PollEvent::Snapshot { .. } => last_clock(events, i - 1),
        }
    }
}

/// `events` is the course of a wait up to some moment. It begins with a look at the clock. After
/// that, each event is the one that the action on the event before it asks for: a snapshot where
/// the log is to be read, a look at the clock, no earlier than the sleep allows, where a sleep
/// is asked for, and none where the wait is over.
pub open spec fn is_wait(needle: Seq<char>, timeout: u128, events: Seq<PollEvent>) -> bool {
    &&& events.len() > 0
    &&& events[0] is Clock
    &&& forall|i: int|
        0 <= i < events.len() - 1 ==> match poll_step(needle, timeout, #[trigger] events[i]) {
            PollView::TakeSnapshot => events[i + 1] is Snapshot,
            PollView::Sleep { millis } => events[i + 1] matches PollEvent::Clock { elapsed }
                && elapsed >= last_clock(events, i) + millis * 1_000_000,
            PollView::Found { .. } => false,
            PollView::Fail { .. } => false,
        }
}

/// A wait looks at the clock between any two looks at the log.
pub proof fn the_clock_is_read_between_snapshots(
    needle: Seq<char>,
    timeout: u128,
    events: Seq<PollEvent>,
    i: int,
    j: int,
)
    requires
        is_wait(needle, timeout, events),
        0 <= i < j < events.len(),
        events[i] is Snapshot,
        events[j] is Snapshot,
    ensures
        i + 1 < j,
        events[i + 1] is Clock,
{
    let action = poll_step(needle, timeout, events[i]);
    assert(!(action is TakeSnapshot));
}

proof fn clocks_and_snapshots_take_turns(
    needle: Seq<char>,
    timeout: u128,
    events: Seq<PollEvent>,
    m: int,
)
    requires
        is_wait(needle, timeout, events),
        0 <= m,
        2 * m < events.len(),
    ensures
        events[2 * m] is Clock,
        last_clock(events, 2 * m) >= m * 50_000_000,
        2 * m + 1 < events.len() ==> events[2 * m + 1] is Snapshot && last_clock(events, 2 * m)
            < timeout,
    decreases m,
{
    if m > 0 {
        clocks_and_snapshots_take_turns(needle, timeout, events, m - 1);
        let i = 2 * m - 1;
        assert(events[i] == events[2 * (m - 1) + 1]);
        assert(last_clock(events, i) == last_clock(events, i - 1));
        assert(poll_step(needle, timeout, events[i]) == (PollView::Sleep { millis: 50 }));
    }
    assert(poll_step(needle, timeout, events[2 * m]) is TakeSnapshot || poll_step(
        needle,
        timeout,
        events[2 * m],
    ) is Fail);
}

/// A wait comes to an end, whatever the log says: it has no more events than a timeout with a
/// sleep of 50 milliseconds after each look at the log has room for.
pub proof fn a_wait_has_an_end(needle: Seq<char>, timeout: u128, events: Seq<PollEvent>)
    requires
        is_wait(needle, timeout, events),
    ensures
        events.len() * 25_000_000 < timeout + 75_000_000,
{
    if events.len() >= 2 {
        let m = (events.len() - 2) / 2;
        clocks_and_snapshots_take_turns(needle, timeout, events, m);
    }
}

/// A wait that ends with a line has found it in time, and one that ends for want of a line has
/// taken all its time.
pub proof fn a_wait_keeps_its_time(needle: Seq<char>, timeout: u128, events: Seq<PollEvent>)
    requires
        is_wait(needle, timeout, events),
    ensures
        poll_step(needle, timeout, events.last()) is Found ==> events.len() >= 2
            && events.last() is Snapshot && last_clock(events, events.len() - 1) < timeout,
        poll_step(needle, timeout, events.last()) == (PollView::Fail {
            error: ErrorView::DmesgTimeout { needle },
        }) ==> events.last() is Clock && last_clock(events, events.len() - 1) >= timeout,
{
    let last = events.len() - 1;
    if last % 2 == 0 {
        clocks_and_snapshots_take_turns(needle, timeout, events, last / 2);
        assert(events[2 * (last / 2)] == events.last());
    } else {
        clocks_and_snapshots_take_turns(needle, timeout, events, (last - 1) / 2);
        assert(events[2 * ((last - 1) / 2) + 1] == events.last());
        assert(last_clock(events, last) == last_clock(events, last - 1));
    }
}

/// The specifications see of each line of a list its characters.
pub proof fn every_line_is_seen(lines: Seq<String>)
    ensures
        texts(lines).len() == lines.len(),
        forall|i: int| 0 <= i < lines.len() ==> #[trigger] texts(lines)[i] == lines[i]@,
{
}

} // verus!
