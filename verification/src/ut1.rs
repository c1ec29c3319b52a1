use vstd::prelude::*;
use vstd::string::StringSliceAdditionalSpecFns;

use crate::duration::Duration;
use crate::epoch::Epoch;
use crate::errors::{HifitimeError, ParsingError};

verus! {

broadcast use vstd::seq_lib::group_to_multiset_ensures;

/// The index of the line feed that ends the line starting at `i` (the length of the bytes for
/// the last line when no line feed ends it).
pub open spec fn line_end(b: Seq<u8>, i: int) -> int
    decreases b.len() - i,
{
    if i >= b.len() || i < 0 {
        b.len() as int
    } else if b[i] == 10 {
        i
    } else {
        line_end(b, i + 1)
    }
}

/// The end of the text of the line starting at `i`: before its line feed, and before the
/// carriage return that comes right before that line feed (`str::lines`).
pub open spec fn content_end(b: Seq<u8>, i: int) -> int {
    let e = line_end(b, i);
    if e < b.len() && e > i && b[e - 1] == 13 {
        e - 1
    } else {
        e
    }
}

/// The index of the first comma from `i` on, before `end` (or `end` when there is none).
pub open spec fn next_comma(b: Seq<u8>, i: int, end: int) -> int
    decreases end - i,
{
    if i >= end {
        end
    } else if b[i] == 44 {
        i
    } else {
        next_comma(b, i + 1, end)
    }
}

/// The byte ranges of the first and of the fourth comma separated columns of the line text
/// from `i` to `end`, if it has a fourth column.
pub open spec fn eop2_columns(b: Seq<u8>, i: int, end: int) -> Option<((int, int), (int, int))> {
    let c1 = next_comma(b, i, end);
    let c2 = next_comma(b, c1 + 1, end);
    let c3 = next_comma(b, c2 + 1, end);
    if c1 >= end || c2 >= end || c3 >= end {
        None
    } else {
        Some(((i, c1), (c3 + 1, next_comma(b, c3 + 1, end))))
    }
}

/// The line that opens the data of an EOP2 file, with its leading space or without it.
pub open spec fn is_eop2_start(line: Seq<u8>) -> bool {
    line == seq![32u8, 69, 79, 80, 50, 61] || line == seq![69u8, 79, 80, 50, 61]
}

/// The line that closes the data of an EOP2 file, with its leading space or without it.
pub open spec fn is_eop2_end(line: Seq<u8>) -> bool {
    line == seq![32u8, 36, 69, 78, 68] || line == seq![36u8, 69, 78, 68]
}

/// The error of a data line without a fourth column.
pub open spec fn missing_column_error() -> HifitimeError {
    HifitimeError::Parse { source: ParsingError::UnknownFormat, details: "missing ΔUT1 column (3)" }
}

/// A line ends at or after its start, and within the bytes.
pub proof fn lemma_line_end(b: Seq<u8>, i: int)
    requires
        0 <= i,
    ensures
        i <= line_end(b, i) <= b.len() || (i > b.len() && line_end(b, i) == b.len()),
        line_end(b, i) < b.len() ==> b[line_end(b, i)] == 10,
    decreases b.len() - i,
{
    if i < b.len() && b[i] != 10 {
        lemma_line_end(b, i + 1);
    }
}

/// A comma found is within the range searched.
pub proof fn lemma_next_comma(b: Seq<u8>, i: int, end: int)
    requires
        i <= end,
    ensures
        i <= next_comma(b, i, end) <= end,
    decreases end - i,
{
    if i < end && b[i] != 44 {
        lemma_next_comma(b, i + 1, end);
    }
}

/// The rows of an EOP2 text from the line starting at `i` on: the lines before the opening
/// line are skipped; after it, each line until the closing line gives the ranges of its first
/// and fourth columns, empty lines are skipped, and a line without a fourth column is an error.
pub open spec fn eop2_from(b: Seq<u8>, i: int, in_data: bool) -> Result<
    Seq<((int, int), (int, int))>,
    HifitimeError,
>
    decreases b.len() - i,
{
    if i >= b.len() || i < 0 {
        Ok(seq![])
    } else {
        proof {
            lemma_line_end(b, i);
        }
        let e = line_end(b, i);
        let next = if e < b.len() {
            e + 1
        } else {
            b.len() as int
        };
        let line = b.subrange(i, content_end(b, i));
        if !in_data {
            eop2_from(b, next, is_eop2_start(line))
        } else if is_eop2_end(line) {
            Ok(seq![])
        } else if content_end(b, i) == i {
            eop2_from(b, next, true)
        } else {
            match eop2_columns(b, i, content_end(b, i)) {
                None => Err(missing_column_error()),
                Some(cols) => match eop2_from(b, next, true) {
                    Ok(rest) => Ok(seq![cols] + rest),
                    Err(x) => Err(x),
                },
            }
        }
    }
}

/// The rows of a whole EOP2 text.
pub open spec fn eop2_scan(b: Seq<u8>) -> Result<Seq<((int, int), (int, int))>, HifitimeError> {
    eop2_from(b, 0, false)
}

/// Rows found so far, before the rows of the rest of the text.
pub open spec fn prepend(
    done: Seq<((int, int), (int, int))>,
    rest: Result<Seq<((int, int), (int, int))>, HifitimeError>,
) -> Result<Seq<((int, int), (int, int))>, HifitimeError> {
    match rest {
        Ok(r) => Ok(done + r),
        Err(x) => Err(x),
    }
}

/// Ranges as integers.
pub open spec fn rows_view(v: Seq<((usize, usize), (usize, usize))>) -> Seq<((int, int), (int, int))> {
    Seq::new(
        v.len(),
        |k: int| ((v[k].0.0 as int, v[k].0.1 as int), (v[k].1.0 as int, v[k].1.1 as int)),
    )
}

/// The index of the line feed that ends the line starting at `i`.
pub(crate) fn find_line_end(b: &[u8], i: usize) -> (r: usize)
    requires
        i <= b@.len(),
    ensures
        r == line_end(b@, i as int),
        i <= r <= b@.len(),
{
    let mut j: usize = i;
    while j < b.len() && b[j] != 10
        invariant
            i <= j <= b@.len(),
            line_end(b@, j as int) == line_end(b@, i as int),
        decreases b@.len() - j,
    {
        j = j + 1;
    }
    j
}

/// The index of the first comma from `i` on, before `end`.
fn find_comma(b: &[u8], i: usize, end: usize) -> (r: usize)
    requires
        i <= end <= b@.len(),
    ensures
        r == next_comma(b@, i as int, end as int),
        i <= r <= end,
{
    let mut j: usize = i;
    while j < end && b[j] != 44
        invariant
            i <= j <= end,
            end <= b@.len(),
            next_comma(b@, j as int, end as int) == next_comma(b@, i as int, end as int),
        decreases end - j,
    {
        j = j + 1;
    }
    j
}

/// Whether the bytes from `i` to `end` are those of `pat`.
fn span_is(b: &[u8], i: usize, end: usize, pat: &[u8]) -> (r: bool)
    requires
        i <= end <= b@.len(),
    ensures
        r == (b@.subrange(i as int, end as int) == pat@),
{
    if end - i != pat.len() {
        return false;
    }
    let mut k: usize = 0;
    while k < pat.len()
        invariant
            end - i == pat@.len(),
            i <= end <= b@.len(),
            k <= pat@.len(),
            forall|m: int| 0 <= m < k ==> b@[i + m] == pat@[m],
        decreases pat@.len() - k,
    {
        if b[i + k] != pat[k] {
            assert(b@.subrange(i as int, end as int)[k as int] != pat@[k as int]);
            return false;
        }
        k = k + 1;
    }
    assert(b@.subrange(i as int, end as int) =~= pat@);
    true
}

/// Splits the text of an EOP2 file into the data lines between the line `EOP2=` and the line
/// `$END` (each with or without a leading space), and gives, for each data line that is not
/// empty, the byte ranges of its first column (the modified Julian date) and of its fourth
/// column (the difference TAI - UT1 in milliseconds); a data line without a fourth column is
/// an error.
pub fn eop2_rows(contents: &str) -> (r: Result<Vec<((usize, usize), (usize, usize))>, HifitimeError>)
    ensures
        match eop2_scan(contents.spec_bytes()) {
            Ok(rows) => r matches Ok(v) && rows_view(v@) == rows,
            Err(x) => r == Err::<Vec<((usize, usize), (usize, usize))>, HifitimeError>(x),
        },
{
    let b = contents.as_bytes();
    let n = b.len();
    let start_a: Vec<u8> = vec![32u8, 69, 79, 80, 50, 61];
    let start_b: Vec<u8> = vec![69u8, 79, 80, 50, 61];
    let end_a: Vec<u8> = vec![32u8, 36, 69, 78, 68];
    let end_b: Vec<u8> = vec![36u8, 69, 78, 68];
    proof {
        assert(start_a@ =~= seq![32u8, 69, 79, 80, 50, 61]);
        assert(start_b@ =~= seq![69u8, 79, 80, 50, 61]);
        assert(end_a@ =~= seq![32u8, 36, 69, 78, 68]);
        assert(end_b@ =~= seq![36u8, 69, 78, 68]);
    }
    let mut i: usize = 0;
    let mut in_data = false;
    let mut rows: Vec<((usize, usize), (usize, usize))> = Vec::new();
    proof {
        assert(rows_view(rows@) + seq![] =~= seq![]);
        assert(prepend(rows_view(rows@), eop2_from(b@, 0, false)) == eop2_scan(b@)) by {
            match eop2_from(b@, 0, false) {
                Ok(r) => {
                    assert(rows_view(rows@) + r =~= r);
                },
                Err(x) => {},
            }
        }
    }
    while i < n
        invariant
            n == b@.len(),
            b@ == contents.spec_bytes(),
            i <= n,
            start_a@ == seq![32u8, 69, 79, 80, 50, 61],
            start_b@ == seq![69u8, 79, 80, 50, 61],
            end_a@ == seq![32u8, 36, 69, 78, 68],
            end_b@ == seq![36u8, 69, 78, 68],
            prepend(rows_view(rows@), eop2_from(b@, i as int, in_data)) == eop2_scan(b@),
            forall|k: int|
                0 <= k < rows@.len() ==> #[trigger] rows@[k].0.0 <= rows@[k].0.1 <= n,
        decreases n - i,
    {
        let e = find_line_end(b, i);
        let ce: usize = if e < n && e > i && b[e - 1] == 13 {
            e - 1
        } else {
            e
        };
        let next: usize = if e < n {
            e + 1
        } else {
            n
        };
        let ghost old_rows = rows_view(rows@);
        let ghost line = b@.subrange(i as int, ce as int);
        proof {
            lemma_line_end(b@, i as int);
        }
        if !in_data {
            let opens = span_is(b, i, ce, start_a.as_slice()) || span_is(b, i, ce, start_b.as_slice());
            in_data = opens;
        } else if span_is(b, i, ce, end_a.as_slice()) || span_is(b, i, ce, end_b.as_slice()) {
            proof {
                assert(old_rows + seq![] =~= old_rows);
            }
            return Ok(rows);
        } else if ce > i {
            let c1 = find_comma(b, i, ce);
            if c1 >= ce {
                return Err(
                    HifitimeError::Parse {
                        source: ParsingError::UnknownFormat,
                        details: "missing ΔUT1 column (3)",
                    },
                );
            }
            let c2 = find_comma(b, c1 + 1, ce);
            if c2 >= ce {
                return Err(
                    HifitimeError::Parse {
                        source: ParsingError::UnknownFormat,
                        details: "missing ΔUT1 column (3)",
                    },
                );
            }
            let c3 = find_comma(b, c2 + 1, ce);
            if c3 >= ce {
                return Err(
                    HifitimeError::Parse {
                        source: ParsingError::UnknownFormat,
                        details: "missing ΔUT1 column (3)",
                    },
                );
            }
            let c4 = find_comma(b, c3 + 1, ce);
            rows.push(((i, c1), (c3 + 1, c4)));
            proof {
                let row = ((i as int, c1 as int), (c3 as int + 1, c4 as int));
                assert(rows_view(rows@) =~= old_rows + seq![row]);
                match eop2_from(b@, next as int, true) {
                    Ok(rest) => {
                        assert(old_rows + (seq![row] + rest) =~= (old_rows + seq![row]) + rest);
                    },
                    Err(x) => {},
                }
            }
        }
        i = next;
    }
    proof {
        assert(rows_view(rows@) + seq![] =~= rows_view(rows@));
    }
    Ok(rows)
}

/// Whether the records are in increasing order of the durations of their epochs.
pub open spec fn records_sorted(s: Seq<(Epoch, Duration)>) -> bool {
    forall|a: int, b: int| 0 <= a < b < s.len() ==> s[a].0.duration@ <= s[b].0.duration@
}

/// Sorts records of differences by increasing durations of their epochs (the same records,
/// in that order).
pub fn sort_records(v: Vec<(Epoch, Duration)>) -> (r: Vec<(Epoch, Duration)>)
    requires
        forall|k: int| 0 <= k < v@.len() ==> (#[trigger] v@[k]).0.duration.wf(),
    ensures
        r@.to_multiset() == v@.to_multiset(),
        records_sorted(r@),
{
    let mut rest = v;
    let mut sorted: Vec<(Epoch, Duration)> = Vec::new();
    proof {
        assert(sorted@.to_multiset() =~= vstd::multiset::Multiset::empty());
    }
    while rest.len() > 0
        invariant
            sorted@.to_multiset().add(rest@.to_multiset()) == v@.to_multiset(),
            records_sorted(sorted@),
            forall|a: int, b: int|
                0 <= a < sorted@.len() && 0 <= b < rest@.len() ==> sorted@[a].0.duration@
                    <= rest@[b].0.duration@,
            forall|k: int| 0 <= k < rest@.len() ==> (#[trigger] rest@[k]).0.duration.wf(),
        decreases rest@.len(),
    {
        // The position of the record of the shortest duration left.
        let mut best: usize = 0;
        let mut k: usize = 1;
        while k < rest.len()
            invariant
                best < rest@.len(),
                1 <= k <= rest@.len(),
                forall|m: int| 0 <= m < k ==> rest@[best as int].0.duration@ <= rest@[m].0.duration@,
                forall|m: int| 0 <= m < rest@.len() ==> (#[trigger] rest@[m]).0.duration.wf(),
            decreases rest@.len() - k,
        {
            if rest[k].0.duration.lt(&rest[best].0.duration) {
                best = k;
            }
            k = k + 1;
        }
        let ghost before = rest@;
        let item = rest.remove(best);
        sorted.push(item);
        proof {
            assert(rest@ =~= before.remove(best as int));
            assert forall|m: int| 0 <= m < rest@.len() implies item.0.duration@ <= rest@[m].0.duration@ by {
                if m < best {
                    assert(rest@[m] == before[m]);
                } else {
                    assert(rest@[m] == before[m + 1]);
                }
            }
            assert forall|a: int, b: int|
                0 <= a < sorted@.len() && 0 <= b < rest@.len() implies sorted@[a].0.duration@
                <= rest@[b].0.duration@ by {
                if b < best {
                    assert(rest@[b] == before[b]);
                } else {
                    assert(rest@[b] == before[b + 1]);
                }
            }
            assert forall|m: int| 0 <= m < rest@.len() implies (#[trigger] rest@[m]).0.duration.wf() by {
                if m < best {
                    assert(rest@[m] == before[m]);
                } else {
                    assert(rest@[m] == before[m + 1]);
                }
            }
        }
    }
    proof {
        assert(rest@ =~= Seq::<(Epoch, Duration)>::empty());
        assert(rest@.to_multiset() =~= vstd::multiset::Multiset::empty());
        assert(sorted@.to_multiset().add(rest@.to_multiset()) =~= sorted@.to_multiset());
    }
    sorted
}

/// The difference of the last record, in the order given, whose epoch's duration is at or
/// before `at`; none when there is no such record.
pub open spec fn last_at_or_before(s: Seq<(Epoch, Duration)>, at: int) -> Option<Duration>
    decreases s.len(),
{
    if s.len() == 0 {
        None
    } else if s.last().0.duration@ <= at {
        Some(s.last().1)
    } else {
        last_at_or_before(s.drop_last(), at)
    }
}

/// The difference TAI - UT1 that applies at a duration since 1900 in TAI: that of the last
/// record whose epoch is at or before it (for records sorted by epoch, the latest one that
/// has started), none before the first record.
pub fn ut1_offset(records: &[(Epoch, Duration)], at_tai: Duration) -> (r: Option<Duration>)
    requires
        at_tai.wf(),
        forall|k: int| 0 <= k < records@.len() ==> (#[trigger] records@[k]).0.duration.wf(),
    ensures
        r == last_at_or_before(records@, at_tai@),
{
    let mut k: usize = records.len();
    proof {
        assert(records@.take(k as int) =~= records@);
    }
    while k > 0
        invariant
            k <= records@.len(),
            at_tai.wf(),
            forall|m: int| 0 <= m < records@.len() ==> (#[trigger] records@[m]).0.duration.wf(),
            last_at_or_before(records@, at_tai@) == last_at_or_before(records@.take(k as int), at_tai@),
        decreases k,
    {
        proof {
            assert(records@.take(k as int).drop_last() =~= records@.take(k - 1));
        }
        if !at_tai.lt(&records[k - 1].0.duration) {
            return Some(records[k - 1].1);
        }
        k = k - 1;
    }
    None
}

} // verus!
