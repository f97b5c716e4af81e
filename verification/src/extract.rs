//! Extraction over a bounded tail: scan the retained lines newest
//! first for a bracketed number, and when none matches, surface the
//! whole tail, rejoined with newlines, as a diagnostic.
use vstd::prelude::*;

use crate::scan::{line_epoch, scan_line};
use crate::tail::{tail_of, LogTail, DEFAULT_TAIL_LEN};
use vstd::string::StringExecFns;

verus! {

/// The outcome of one extraction.
pub enum ExtractionResult {
    /// The newest matching line of the tail held this epoch number.
    Found(u64),
    /// The source was read but no retained line matched; the field
    /// holds the tail, oldest line first, joined with newlines.
    NotFound(String),
    /// The source could not be opened at all.
    SourceUnavailable,
}

/// The epoch the tail yields: the number of the newest line that
/// scans to one.
pub open spec fn tail_epoch(lines: Seq<Seq<char>>) -> Option<u64>
    decreases lines.len(),
{
    if lines.len() == 0 {
        None
    } else {
        match line_epoch(lines.last()) {
            Some(e) => Some(e),
            None => tail_epoch(lines.drop_last()),
        }
    }
}

/// Lines rejoined with a newline between each adjacent pair.
pub open spec fn join_lines(lines: Seq<Seq<char>>) -> Seq<char>
    decreases lines.len(),
{
    if lines.len() == 0 {
        Seq::empty()
    } else if lines.len() == 1 {
        lines[0]
    } else {
        join_lines(lines.drop_last()) + seq!['\n'] + lines.last()
    }
}

/// Joining one more line appends a newline and then the line.
proof fn lemma_join_snoc(lines: Seq<Seq<char>>, i: int)
    requires
        0 < i < lines.len(),
    ensures
        join_lines(lines.take(i + 1)) =~= join_lines(lines.take(i)) + seq!['\n'] + lines[i],
{
    let t = lines.take(i + 1);
    assert(t.drop_last() =~= lines.take(i));
    assert(t.last() == lines[i]);
}

/// Join a vector of lines with newline separators.
pub fn join_tail_lines(lines: &Vec<String>) -> (r: String)
    ensures
        r@ == join_lines(lines.deep_view()),
{
    let mut out = String::new();
    let n = lines.len();
    let mut i: usize = 0;
    while i < n
        invariant
            n == lines.len(),
            i <= n,
            out@ == join_lines(lines.deep_view().take(i as int)),
        decreases n - i,
    {
        proof {
            reveal_strlit("\n");
            assert(lines.deep_view()[i as int] == lines[i as int]@);
            if i > 0 {
                lemma_join_snoc(lines.deep_view(), i as int);
            } else {
                assert(lines.deep_view().take(1) =~= seq![lines.deep_view()[0]]);
            }
        }
        if i > 0 {
            out.append("\n");
        }
        out.append(lines[i].as_str());
        i += 1;
    }
    proof {
        assert(lines.deep_view().take(n as int) =~= lines.deep_view());
    }
    out
}

/// Scan the tail, newest line first, for the first line that yields an
/// epoch; when none does, return the joined tail as a diagnostic.
/// The `NotFound` clause is exactly the "no match surfaces the whole
/// tail" guarantee.
pub fn extract(tail: &LogTail) -> (r: ExtractionResult)
    ensures
        tail_epoch(tail@) matches Some(e) ==> r == ExtractionResult::Found(e),
        tail_epoch(tail@) is None ==> (r matches ExtractionResult::NotFound(t) && t@
            == join_lines(tail@)),
{
    let lines = tail.lines();
    let n = lines.len();
    let mut i: usize = n;
    proof {
        assert(tail@.take(n as int) =~= tail@);
    }
    while i > 0
        invariant
            lines.deep_view() == tail@,
            n == tail@.len(),
            i <= n,
            tail_epoch(tail@) == tail_epoch(tail@.take(i as int)),
        decreases i,
    {
        i = i - 1;
        proof {
            assert(lines.deep_view()[i as int] == lines[i as int]@);
            assert(tail@.take(i as int + 1).drop_last() =~= tail@.take(i as int));
            assert(tail@.take(i as int + 1).last() == tail@[i as int]);
        }
        let scanned = scan_line(lines[i].as_str());
        if let Some(e) = scanned {
            return ExtractionResult::Found(e);
        }
    }
    ExtractionResult::NotFound(join_tail_lines(lines))
}

/// The whole read-and-extract step on an already-read source, bounded
/// to the default tail length: `None` stands for a source that could
/// not be opened and maps to `SourceUnavailable`, and nothing else
/// does; a readable source is condensed to its tail and scanned.
pub fn get_last_epoch(source: Option<Vec<String>>) -> (r: ExtractionResult)
    ensures
        r is SourceUnavailable <==> source is None,
        source matches Some(lines) ==> ({
            let t = tail_of(lines.deep_view(), DEFAULT_TAIL_LEN as nat);
            &&& (tail_epoch(t) matches Some(e) ==> r == ExtractionResult::Found(e))
            &&& (tail_epoch(t) is None ==> (r matches ExtractionResult::NotFound(txt) && txt@
                == join_lines(t)))
        }),
{
    match source {
        None => ExtractionResult::SourceUnavailable,
        Some(lines) => {
            let t = LogTail::from_lines(&lines, DEFAULT_TAIL_LEN);
            extract(&t)
        },
    }
}

/// The newest matching line wins: when the line at `k` yields an epoch
/// and every newer line yields none, the tail yields exactly the epoch
/// of line `k`, whatever older lines hold.
pub proof fn lemma_most_recent_match_wins(lines: Seq<Seq<char>>, k: int)
    requires
        0 <= k < lines.len(),
        line_epoch(lines[k]) is Some,
        forall|m: int| k < m < lines.len() ==> line_epoch(#[trigger] lines[m]) is None,
    ensures
        tail_epoch(lines) == line_epoch(lines[k]),
    decreases lines.len(),
{
    if k == lines.len() - 1 {
    } else {
        assert(line_epoch(lines.last()) is None);
        assert(forall|m: int|
            k < m < lines.drop_last().len() ==> line_epoch(#[trigger] lines.drop_last()[m])
                is None);
        lemma_most_recent_match_wins(lines.drop_last(), k);
        assert(lines.drop_last()[k] == lines[k]);
    }
}

} // verus!
