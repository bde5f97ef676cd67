//! The captured console output of one execution, held to a byte budget.

use vstd::prelude::*;

use crate::text;

verus! {

/// The line that stands for everything that did not fit.
pub open spec fn truncation_mark() -> Seq<char> {
    "[logs truncated]"@
}

/// What the log is told of a line before it is read.
#[derive(Debug, Clone, Copy, PartialEq, Eq, Structural)]
pub enum Offer {
    /// The line may fit: read it and push it.
    Wanted,
    /// The line is not wanted; nothing else is to be done about it.
    Declined,
}

/// The lines logged so far and what is left of their budget.
#[derive(Debug)]
pub struct LogBuffer {
    lines: Vec<String>,
    remaining: usize,
    budget: usize,
}

/// What a [`LogBuffer`] holds.
#[verifier::ext_equal]
pub struct LogState {
    pub lines: Seq<Seq<char>>,
    /// What is left of the budget, in bytes.
    pub remaining: nat,
    /// The budget that the log was made with, in bytes.
    pub budget: nat,
}

/// A log with a budget and nothing in it.
pub open spec fn empty_log(budget: nat) -> LogState {
    LogState { lines: Seq::empty(), remaining: budget, budget }
}

/// The log after it ran out: the mark is its last line and nothing follows it.
pub open spec fn truncated(log: LogState) -> LogState {
    LogState { lines: log.lines.push(truncation_mark()), remaining: 0, ..log }
}

/// The bytes that a line is charged: at least one, so that empty lines draw on the
/// budget too.
pub open spec fn charge(line: Seq<char>) -> nat {
    if text::byte_len(line) == 0 {
        1
    } else {
        text::byte_len(line)
    }
}

/// The log after a line of `units` UTF-16 code units is announced.
pub open spec fn offered(log: LogState, units: nat) -> (LogState, Offer) {
    if log.remaining == 0 {
        (log, Offer::Declined)
    } else if units > log.remaining {
        (truncated(log), Offer::Declined)
    } else {
        (log, Offer::Wanted)
    }
}

/// The log after a line is pushed.
pub open spec fn pushed(log: LogState, line: Seq<char>) -> LogState {
    if log.remaining == 0 {
        log
    } else if text::byte_len(line) > log.remaining {
        truncated(log)
    } else {
        LogState {
            lines: log.lines.push(line),
            remaining: (log.remaining - charge(line)) as nat,
            ..log
        }
    }
}

/// The bytes of all lines together.
pub open spec fn total_bytes(lines: Seq<Seq<char>>) -> nat
    decreases lines.len(),
{
    if lines.len() == 0 {
        0
    } else {
        total_bytes(lines.drop_last()) + text::byte_len(lines.last())
    }
}

/// The lines and their bytes stay within the budget, but for the mark.
pub open spec fn within_budget(log: LogState) -> bool {
    ||| total_bytes(log.lines) + log.remaining <= log.budget && log.lines.len() + log.remaining
        <= log.budget
    ||| log.remaining == 0 && total_bytes(log.lines) <= log.budget + 16 && log.lines.len()
        <= log.budget + 1
}

proof fn lemma_total_push(lines: Seq<Seq<char>>, line: Seq<char>)
    ensures
        total_bytes(lines.push(line)) == total_bytes(lines) + text::byte_len(line),
{
    assert(lines.push(line).drop_last() =~= lines);
}

proof fn lemma_mark_bytes()
    ensures
        text::byte_len(truncation_mark()) == 16,
{
    reveal_strlit("[logs truncated]");
    assert(vstd::utf8::is_ascii_chars(truncation_mark()));
    vstd::utf8::is_ascii_chars_encode_utf8(truncation_mark());
}

proof fn lemma_within_budget(log: LogState, line: Seq<char>)
    requires
        within_budget(log),
    ensures
        within_budget(pushed(log, line)),
        log.remaining > 0 ==> within_budget(truncated(log)),
{
    lemma_mark_bytes();
    lemma_total_push(log.lines, line);
    lemma_total_push(log.lines, truncation_mark());
}

impl View for LogBuffer {
    type V = LogState;

    closed spec fn view(&self) -> LogState {
        LogState {
            lines: text::texts(self.lines@),
            remaining: self.remaining as nat,
            budget: self.budget as nat,
        }
    }
}

impl LogBuffer {
    #[verifier::type_invariant]
    spec fn bounded(self) -> bool {
        within_budget(self@)
    }

    /// An empty log with a budget of `budget` bytes.
    pub fn new(budget: usize) -> (log: LogBuffer)
        ensures
            log@ == empty_log(budget as nat),
    {
        let lines: Vec<String> = Vec::new();
        assert(text::texts(lines@) =~= Seq::empty());
        LogBuffer { lines, remaining: budget, budget }
    }

    /// Announces a line by its length in UTF-16 code units, which the engine knows
    /// without copying the line. A line takes at least as many bytes as it has code
    /// units, so one that is too long already by that count is never copied.
    pub fn offer(&mut self, units: usize) -> (wanted: Offer)
        ensures
            final(self)@ == offered(old(self)@, units as nat).0,
            wanted == offered(old(self)@, units as nat).1,
    {
        if self.remaining == 0 {
            return Offer::Declined;
        }
        if units > self.remaining {
            self.truncate();
            return Offer::Declined;
        }
        Offer::Wanted
    }

    /// Logs a line, or the mark where it does not fit any more. Once the budget is
    /// used up nothing is logged.
    pub fn push(&mut self, line: String)
        ensures
            final(self)@ == pushed(old(self)@, line@),
    {
        proof {
            use_type_invariant(&*self);
            lemma_within_budget(self@, line@);
        }
        if self.remaining == 0 {
            return;
        }
        let n: usize = text::len_of(line.as_str());
        if n > self.remaining {
            self.truncate();
            return;
        }
        let charged: usize = if n == 0 {
            1
        } else {
            n
        };
        let ghost before = self@;
        let budget: usize = self.budget;
        let remaining: usize = self.remaining - charged;
        let mut lines: Vec<String> = Vec::new();
        self.take_lines(&mut lines);
        let ghost kept = text::texts(lines@);
        lines.push(line);
        assert(text::texts(lines@) =~= kept.push(line@));
        *self = LogBuffer { lines, remaining, budget };
    }

    fn truncate(&mut self)
        requires
            old(self)@.remaining > 0,
        ensures
            final(self)@ == truncated(old(self)@),
    {
        proof {
            use_type_invariant(&*self);
            lemma_within_budget(self@, Seq::empty());
        }
        let budget: usize = self.budget;
        let mut lines: Vec<String> = Vec::new();
        self.take_lines(&mut lines);
        let ghost kept = text::texts(lines@);
        lines.push("[logs truncated]".to_owned());
        assert(text::texts(lines@) =~= kept.push(truncation_mark()));
        *self = LogBuffer { lines, remaining: 0, budget };
    }

    fn take_lines(&mut self, lines: &mut Vec<String>)
        requires
            old(lines)@.len() == 0,
        ensures
            final(lines)@ == old(self).lines@,
    {
        let mut empty: LogBuffer = LogBuffer::new(self.budget);
        std::mem::swap(self, &mut empty);
        *lines = empty.lines;
    }

    /// The lines logged. Together they hold no more than the budget, but for the
    /// mark, and there are no more of them than bytes in the budget, but for the
    /// mark.
    pub fn into_lines(self) -> (lines: Vec<String>)
        ensures
            text::texts(lines@) == self@.lines,
            total_bytes(text::texts(lines@)) <= self@.budget + text::byte_len(truncation_mark()),
            lines@.len() <= self@.budget + 1,
    {
        proof {
            use_type_invariant(&self);
            lemma_mark_bytes();
            assert(text::texts(self.lines@).len() == self.lines@.len());
        }
        self.lines
    }
}

/// Announcing a line first changes nothing of what is logged: whether a line is
/// declined by its code units or by its bytes, the log ends up the same. The engine may
/// count fewer units than the line has, since it writes out a lone surrogate as an
/// escape.
pub proof fn law_offer_is_only_a_shortcut(log: LogState, units: nat, line: Seq<char>)
    requires
        units <= text::utf16_len(line),
    ensures
        pushed(log, line) == match offered(log, units) {
            (_, Offer::Wanted) => pushed(log, line),
            (left, Offer::Declined) => left,
        },
{
    text::law_code_units_never_exceed_bytes(line);
}

/// Once the mark stands, or the budget is used up to the last byte, nothing is logged
/// any more.
pub proof fn law_exhausted_log_stays_as_it_is(log: LogState, units: nat, line: Seq<char>)
    requires
        log.remaining == 0,
    ensures
        pushed(log, line) == log,
        offered(log, units) == (log, Offer::Declined),
{
}

/// A log with a budget of `budget` bytes after these lines were pushed.
pub open spec fn after_lines(budget: nat, lines: Seq<Seq<char>>) -> LogState
    decreases lines.len(),
{
    if lines.len() == 0 {
        empty_log(budget)
    } else {
        pushed(after_lines(budget, lines.drop_last()), lines.last())
    }
}

/// What these lines are charged together.
pub open spec fn charges(lines: Seq<Seq<char>>) -> nat
    decreases lines.len(),
{
    if lines.len() == 0 {
        0
    } else {
        charges(lines.drop_last()) + charge(lines.last())
    }
}

/// `k` is the largest number of first lines whose charges together are within the budget.
pub open spec fn most_that_fit(budget: nat, lines: Seq<Seq<char>>, k: int) -> bool {
    &&& 0 <= k <= lines.len()
    &&& charges(lines.take(k)) <= budget
    &&& forall|j: int| k < j <= lines.len() ==> charges(#[trigger] lines.take(j)) > budget
}

/// The log whose first `k` lines were kept. The mark stands for the others, if there are
/// any, unless the kept ones used up the budget to the last byte.
pub open spec fn with_first(budget: nat, lines: Seq<Seq<char>>, k: int) -> LogState {
    let kept = LogState {
        lines: lines.take(k),
        remaining: (budget - charges(lines.take(k))) as nat,
        budget,
    };
    if k < lines.len() && charges(lines.take(k)) < budget {
        truncated(kept)
    } else {
        kept
    }
}

/// A log keeps the first lines as they were pushed, as many as their charges let it. The
/// mark follows exactly where there are more lines and some of the budget is left.
pub proof fn law_log_is_a_prefix(budget: nat, lines: Seq<Seq<char>>)
    ensures
        exists|k: int|
            most_that_fit(budget, lines, k) && after_lines(budget, lines) == #[trigger] with_first(
                budget,
                lines,
                k,
            ),
    decreases lines.len(),
{
    let log = after_lines(budget, lines);
    if lines.len() == 0 {
        assert(lines.take(0) =~= lines);
        assert(most_that_fit(budget, lines, 0));
        assert(log =~= with_first(budget, lines, 0));
    } else {
        let n = lines.len() as int;
        let rest = lines.drop_last();
        let before = after_lines(budget, rest);
        law_log_is_a_prefix(budget, rest);
        let k = choose|k: int|
            most_that_fit(budget, rest, k) && before == #[trigger] with_first(budget, rest, k);
        assert(forall|j: int| 0 <= j < n ==> #[trigger] lines.take(j) =~= rest.take(j));
        assert(lines.take(n) =~= lines);
        assert(lines.take(n - 1) =~= rest);
        assert(rest.take(n - 1) =~= rest);
        assert(charges(lines) == charges(rest) + charge(lines.last()));
        if k == n - 1 && charge(lines.last()) <= before.remaining {
            assert(rest.push(lines.last()) =~= lines);
            assert(most_that_fit(budget, lines, n));
            assert(log =~= with_first(budget, lines, n));
        } else {
            assert(charges(lines) > budget);
            assert(most_that_fit(budget, lines, k));
            assert(log =~= with_first(budget, lines, k));
        }
    }
}

/// A line is charged its bytes, and an empty one a single byte.
pub proof fn law_lines_are_charged_their_bytes(line: Seq<char>)
    ensures
        text::byte_len(line) > 0 ==> charge(line) == text::byte_len(line),
        line.len() == 0 ==> charge(line) == 1,
{
    text::lemma_byte_len_zero(line);
}

/// A line that is longer than the budget that is left, already by its code units, is
/// declined unread, and the mark stands for it and all that follow; one that may still fit
/// is wanted, and announcing it changes nothing.
pub proof fn law_overlong_lines_are_declined_unread(log: LogState, units: nat)
    ensures
        log.remaining > 0 && units > log.remaining ==> {
            let (after, offer) = offered(log, units);
            &&& offer == Offer::Declined
            &&& after.lines == log.lines.push("[logs truncated]"@)
            &&& after.remaining == 0
            &&& after.budget == log.budget
        },
        log.remaining > 0 && units <= log.remaining ==> offered(log, units) == (log, Offer::Wanted),
        log.remaining == 0 ==> offered(log, units) == (log, Offer::Declined),
{
}

/// A line that fits is logged as it is behind the others and takes its bytes from the
/// budget; one that does not fit is replaced by the mark.
pub proof fn law_lines_are_logged_as_they_are(log: LogState, line: Seq<char>)
    requires
        log.remaining > 0,
    ensures
        text::byte_len(line) <= log.remaining ==> {
            let after = pushed(log, line);
            &&& after.lines == log.lines.push(line)
            &&& after.budget == log.budget
            &&& line.len() > 0 ==> after.remaining == log.remaining - text::byte_len(line)
            &&& line.len() == 0 ==> after.remaining == log.remaining - 1
        },
        text::byte_len(line) > log.remaining ==> {
            let after = pushed(log, line);
            &&& after.lines == log.lines.push("[logs truncated]"@)
            &&& after.remaining == 0
            &&& after.budget == log.budget
        },
{
    text::lemma_byte_len_zero(line);
}

} // verus!
