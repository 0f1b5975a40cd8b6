//! Reading the current setting of every core, and laying the readings out in
//! columns.

use crate::error::{EppError, EppErrorView, IoStage};
use crate::location::{core_index_of_path, path_core_index, CoreIndex};
use crate::numeral::{decimal, digit_char, push_two_digits, two_digits};
use crate::sorting::{sort_by_key, stable_sort, views, Keyed};
use crate::text::{lex_le, pad_end, padded, trim, trimmed};
use vstd::prelude::*;

verus! {

/// The number of columns of the report.
pub const NUM_COLUMNS: usize = 3;

/// The number of spaces between two columns.
pub const COLUMN_SPACING: usize = 2;

/// What was found in a control file: its contents, or why it could not be
/// read.
#[derive(Debug, PartialEq, Eq)]
pub struct FileReading {
    pub path: String,
    pub content: Result<String, String>,
}

/// A reading as a mathematical value.
pub struct Reading {
    pub path: Seq<char>,
    pub content: Result<Seq<char>, Seq<char>>,
}

impl View for FileReading {
    type V = Reading;

    open spec fn view(&self) -> Reading {
        Reading {
            path: self.path@,
            content: match self.content {
                Ok(text) => Ok(text@),
                Err(cause) => Err(cause@),
            },
        }
    }
}

/// The setting of one core: the label of the core and the value found in its
/// control file.
#[derive(Debug, Clone, PartialEq, Eq)]
pub struct ReadResult {
    pub label: String,
    pub value: String,
}

/// A result as a mathematical value.
pub struct Entry {
    pub label: Seq<char>,
    pub value: Seq<char>,
}

impl View for ReadResult {
    type V = Entry;

    open spec fn view(&self) -> Entry {
        Entry { label: self.label@, value: self.value@ }
    }
}

impl Keyed for ReadResult {
    /// Results are ordered by label.
    open spec fn key_of(v: Entry) -> Seq<char> {
        v.label
    }

    fn key(&self) -> (k: &str) {
        self.label.as_str()
    }
}

/// The label of a core: `CPU` and the index, two digits long at least.
pub open spec fn core_label(index: nat) -> Seq<char> {
    seq!['C', 'P', 'U'] + two_digits(index)
}

/// Computes `core_label`.
pub fn label_of(index: u32) -> (label: String)
    ensures
        label@ == core_label(index as nat),
{
    let mut label: String = String::from_str("CPU");
    proof {
        reveal_strlit("CPU");
        assert("CPU"@ =~= seq!['C', 'P', 'U']);
    }
    push_two_digits(&mut label, index);
    label
}

/// Below a hundred cores the labels are as long as each other, and their
/// order is the order of the indices.
pub proof fn lemma_label_order_is_index_order(a: nat, b: nat)
    requires
        a < 100,
        b < 100,
    ensures
        core_label(a).len() == 5,
        lex_le(core_label(a), core_label(b)) <==> a <= b,
{
    reveal_with_fuel(lex_le, 6);
    reveal_with_fuel(decimal, 2);
    let la = core_label(a);
    let lb = core_label(b);
    assert(la =~= seq!['C', 'P', 'U', digit_char(a / 10), digit_char(a % 10)]);
    assert(lb =~= seq!['C', 'P', 'U', digit_char(b / 10), digit_char(b % 10)]);
    let ta = la.drop_first().drop_first().drop_first();
    let tb = lb.drop_first().drop_first().drop_first();
    assert(ta =~= seq![digit_char(a / 10), digit_char(a % 10)]);
    assert(tb =~= seq![digit_char(b / 10), digit_char(b % 10)]);
    assert(ta.drop_first() =~= seq![digit_char(a % 10)]);
    assert(tb.drop_first() =~= seq![digit_char(b % 10)]);
    assert(ta.drop_first().drop_first() =~= Seq::<char>::empty());
    assert(lex_le(la, lb) == lex_le(ta, tb));
}

/// What the readings come to: the paths that were passed over, in order, and
/// either the results or the error that ended the pass.
pub struct Collected {
    pub skipped: Seq<Seq<char>>,
    pub outcome: Result<Seq<Entry>, EppErrorView>,
}

/// Takes one more reading into account. A path without a core directory
/// named `cpu..` is passed over. A path whose core directory is named `cpu`
/// and no index is an error, and so is a file that could not be read.
/// Otherwise the reading gives a result: the label of the core, and the
/// contents without the whitespace around them.
pub open spec fn collect_one(so_far: Collected, reading: Reading) -> Collected {
    match so_far.outcome {
        Err(_) => so_far,
        Ok(entries) => match path_core_index(reading.path) {
            CoreIndex::Absent => Collected { skipped: so_far.skipped.push(reading.path), ..so_far },
            CoreIndex::Malformed(fault) => Collected {
                outcome: Err(EppErrorView::InvalidData { path: reading.path, fault }),
                ..so_far
            },
            CoreIndex::Index(index) => match reading.content {
                Err(cause) => Collected {
                    outcome: Err(
                        EppErrorView::IOError { stage: IoStage::Read, path: reading.path, cause },
                    ),
                    ..so_far
                },
                Ok(text) => Collected {
                    outcome: Ok(
                        entries.push(Entry { label: core_label(index as nat), value: trim(text) }),
                    ),
                    ..so_far
                },
            },
        },
    }
}

/// Takes the readings into account in order, up to the first error.
pub open spec fn collect(readings: Seq<Reading>) -> Collected
    decreases readings.len(),
{
    if readings.len() == 0 {
        Collected { skipped: Seq::empty(), outcome: Ok(Seq::empty()) }
    } else {
        collect_one(collect(readings.drop_last()), readings.last())
    }
}

/// The results of the readings, by ascending label.
pub open spec fn sorted_results(readings: Seq<Reading>) -> Collected {
    let collected = collect(readings);
    match collected.outcome {
        Ok(entries) => Collected { outcome: Ok(stable_sort::<ReadResult>(entries)), ..collected },
        Err(_) => collected,
    }
}

/// What a result shows as: label, colon, space, value.
pub open spec fn entry_text(entry: Entry) -> Seq<char> {
    entry.label + seq![':', ' '] + entry.value
}

/// The width of a column: the length of the longest entry.
pub open spec fn column_width(entries: Seq<Entry>) -> nat
    decreases entries.len(),
{
    if entries.len() == 0 {
        0
    } else {
        let rest = column_width(entries.drop_last());
        let last = entry_text(entries.last()).len();
        if last > rest {
            last
        } else {
            rest
        }
    }
}

/// One row: each entry padded with spaces to `width`, two spaces between
/// neighbours.
pub open spec fn row_text(entries: Seq<Entry>, width: nat) -> Seq<char>
    decreases entries.len(),
{
    if entries.len() == 0 {
        Seq::<char>::empty()
    } else if entries.len() == 1 {
        pad_end(entry_text(entries[0]), width)
    } else {
        row_text(entries.drop_last(), width) + seq![' ', ' '] + pad_end(
            entry_text(entries.last()),
            width,
        )
    }
}

/// The number of rows that `count` entries fill, three to a row.
pub open spec fn row_count(count: nat) -> nat {
    (count + 2) / 3
}

/// The entries of row `row`: three, or what is left for the last row.
pub open spec fn row_entries(entries: Seq<Entry>, row: int) -> Seq<Entry> {
    entries.subrange(
        3 * row,
        if 3 * row + 3 <= entries.len() {
            3 * row + 3
        } else {
            entries.len() as int
        },
    )
}

/// The report: the entries in order, row by row, every column as wide as the
/// longest entry.
pub open spec fn report_lines(entries: Seq<Entry>) -> Seq<Seq<char>> {
    Seq::new(
        row_count(entries.len()),
        |row: int| row_text(row_entries(entries, row), column_width(entries)),
    )
}

/// The readings as a report.
pub struct Report {
    pub skipped: Seq<Seq<char>>,
    pub outcome: Result<Seq<Seq<char>>, EppErrorView>,
}

/// The report of the readings: the lines of their results by ascending
/// label, or the error that ended the pass.
pub open spec fn report_of(readings: Seq<Reading>) -> Report {
    let sorted = sorted_results(readings);
    Report {
        skipped: sorted.skipped,
        outcome: match sorted.outcome {
            Ok(entries) => Ok(report_lines(entries)),
            Err(error) => Err(error),
        },
    }
}

/// The results of a pass over the readings.
#[derive(Debug, PartialEq, Eq)]
pub struct Readings {
    /// The paths that were passed over because they name no core.
    pub skipped: Vec<String>,
    /// The results by ascending label, or the error that ended the pass.
    pub result: Result<Vec<ReadResult>, EppError>,
}

impl View for Readings {
    type V = Collected;

    open spec fn view(&self) -> Collected {
        Collected {
            skipped: views(self.skipped@),
            outcome: match self.result {
                Ok(entries) => Ok(views(entries@)),
                Err(error) => Err(error@),
            },
        }
    }
}

/// The report of a pass over the readings.
#[derive(Debug, PartialEq, Eq)]
pub struct ProfileReport {
    /// The paths that were passed over because they name no core.
    pub skipped: Vec<String>,
    /// The lines of the report, or the error that ended the pass.
    pub result: Result<Vec<String>, EppError>,
}

impl View for ProfileReport {
    type V = Report;

    open spec fn view(&self) -> Report {
        Report {
            skipped: views(self.skipped@),
            outcome: match self.result {
                Ok(lines) => Ok(views(lines@)),
                Err(error) => Err(error@),
            },
        }
    }
}

/// Turns the readings of the control files into results by ascending label.
pub fn collect_readings(readings: &Vec<FileReading>) -> (collected: Readings)
    ensures
        collected@ == sorted_results(views(readings@)),
{
    let mut skipped: Vec<String> = Vec::new();
    let mut entries: Vec<ReadResult> = Vec::new();
    let mut i: usize = 0;
    proof {
        assert(views(readings@).take(0) =~= Seq::<Reading>::empty());
        assert(views(skipped@) =~= Seq::<Seq<char>>::empty());
        assert(views(entries@) =~= Seq::<Entry>::empty());
    }
    while i < readings.len()
        invariant
            i <= readings@.len(),
            collect(views(readings@).take(i as int)) == (Collected {
                skipped: views(skipped@),
                outcome: Ok(views(entries@)),
            }),
        decreases readings.len() - i,
    {
        let reading: &FileReading = &readings[i];
        let ghost seen: Seq<Reading> = views(readings@).take(i as int + 1);
        let ghost skipped_before: Seq<Seq<char>> = views(skipped@);
        let ghost entries_before: Seq<Entry> = views(entries@);
        proof {
            assert(seen.drop_last() =~= views(readings@).take(i as int));
            assert(seen.last() == reading@);
        }
        match core_index_of_path(reading.path.as_str()) {
            CoreIndex::Absent => {
                skipped.push(reading.path.clone());
                proof {
                    assert(views(skipped@) =~= skipped_before.push(reading@.path));
                }
            },
            CoreIndex::Malformed(fault) => {
                let error: EppError = EppError::InvalidData { path: reading.path.clone(), fault };
                proof {
                    lemma_collect_stays_failed(views(readings@), i as int + 1);
                }
                return Readings { skipped, result: Err(error) };
            },
            CoreIndex::Index(index) => {
                match &reading.content {
                    Err(cause) => {
                        let error: EppError = EppError::IOError {
                            stage: IoStage::Read,
                            path: reading.path.clone(),
                            cause: cause.clone(),
                        };
                        proof {
                            lemma_collect_stays_failed(views(readings@), i as int + 1);
                        }
                        return Readings { skipped, result: Err(error) };
                    },
                    Ok(text) => {
                        let entry: ReadResult = ReadResult {
                            label: label_of(index),
                            value: trimmed(text.as_str()),
                        };
                        entries.push(entry);
                        proof {
                            assert(views(entries@) =~= entries_before.push(entry@));
                        }
                    },
                }
            },
        }
        i = i + 1;
    }
    proof {
        assert(views(readings@).take(i as int) =~= views(readings@));
    }
    Readings { skipped, result: Ok(sort_by_key(entries)) }
}

/// Once a reading has given an error, later readings change nothing.
pub proof fn lemma_collect_stays_failed(readings: Seq<Reading>, k: int)
    requires
        0 <= k <= readings.len(),
        collect(readings.take(k)).outcome is Err,
    ensures
        collect(readings) == collect(readings.take(k)),
    decreases readings.len() - k,
{
    if k == readings.len() {
        assert(readings.take(k) =~= readings);
    } else {
        assert(readings.take(k + 1).drop_last() =~= readings.take(k));
        lemma_collect_stays_failed(readings, k + 1);
    }
}

/// The text of one result.
fn text_of(entry: &ReadResult) -> (text: String)
    ensures
        text@ == entry_text(entry@),
{
    let mut text: String = entry.label.clone();
    text.append(": ");
    text.append(entry.value.as_str());
    proof {
        reveal_strlit(": ");
        assert(": "@ =~= seq![':', ' ']);
    }
    text
}

/// Lays the results out in rows of three columns, in the order given.
pub fn format_report(entries: &Vec<ReadResult>) -> (lines: Vec<String>)
    ensures
        views(lines@) == report_lines(views(entries@)),
{
    let ghost all: Seq<Entry> = views(entries@);
    let n: usize = entries.len();
    let mut texts: Vec<String> = Vec::new();
    let mut width: usize = 0;
    let mut i: usize = 0;
    proof {
        assert(all.take(0) =~= Seq::<Entry>::empty());
    }
    while i < n
        invariant
            n == entries@.len(),
            all == views(entries@),
            i <= n,
            texts@.len() == i,
            forall|j: int| 0 <= j < i ==> (#[trigger] texts@[j])@ == entry_text(all[j]),
            width == column_width(all.take(i as int)),
        decreases n - i,
    {
        let text: String = text_of(&entries[i]);
        let len: usize = text.as_str().unicode_len();
        proof {
            assert(all.take(i as int + 1).drop_last() =~= all.take(i as int));
            assert(all.take(i as int + 1).last() == all[i as int]);
        }
        if len > width {
            width = len;
        }
        texts.push(text);
        i = i + 1;
    }
    proof {
        assert(all.take(n as int) =~= all);
    }
    let mut lines: Vec<String> = Vec::new();
    let mut start: usize = 0;
    while start < n
        invariant
            n == entries@.len(),
            all == views(entries@),
            texts@.len() == n,
            forall|j: int| 0 <= j < n ==> (#[trigger] texts@[j])@ == entry_text(all[j]),
            width == column_width(all),
            start <= n,
            start == 3 * lines@.len() || start == n,
            lines@.len() <= row_count(n as nat),
            start == n ==> lines@.len() == row_count(n as nat),
            forall|r: int|
                0 <= r < lines@.len() ==> (#[trigger] lines@[r])@ == row_text(
                    row_entries(all, r),
                    width as nat,
                ),
        decreases n - start,
    {
        let end: usize = if n - start >= NUM_COLUMNS {
            start + NUM_COLUMNS
        } else {
            n
        };
        let ghost row: int = lines@.len() as int;
        let ghost cells: Seq<Entry> = row_entries(all, row);
        let mut line: String = String::new();
        let mut k: usize = start;
        proof {
            assert(start == 3 * row);
            assert(cells.take(0) =~= Seq::<Entry>::empty());
        }
        while k < end
            invariant
                start <= k <= end <= n,
                all.len() == n,
                texts@.len() == n,
                forall|j: int| 0 <= j < n ==> (#[trigger] texts@[j])@ == entry_text(all[j]),
                cells == all.subrange(start as int, end as int),
                line@ == row_text(cells.take(k - start), width as nat),
            decreases end - k,
        {
            let ghost before: Seq<char> = line@;
            if k > start {
                let mut gap: usize = 0;
                while gap < COLUMN_SPACING
                    invariant
                        gap <= COLUMN_SPACING,
                        line@ == before + Seq::new(gap as nat, |i: int| ' '),
                    decreases COLUMN_SPACING - gap,
                {
                    line.append(" ");
                    proof {
                        reveal_strlit(" ");
                        assert(line@ =~= before + Seq::new((gap + 1) as nat, |i: int| ' '));
                    }
                    gap = gap + 1;
                }
                proof {
                    assert(Seq::new(2, |i: int| ' ') =~= seq![' ', ' ']);
                }
            }
            let cell: String = padded(texts[k].as_str(), width);
            line.append(cell.as_str());
            proof {
                let upto = cells.take(k - start + 1);
                assert(upto.drop_last() =~= cells.take(k - start));
                assert(upto.last() == all[k as int]);
                if k == start {
                    assert(upto[0] == all[k as int]);
                    assert(line@ =~= pad_end(entry_text(all[k as int]), width as nat));
                } else {
                    assert(line@ =~= row_text(cells.take(k - start), width as nat) + seq![' ', ' ']
                        + pad_end(entry_text(all[k as int]), width as nat));
                }
            }
            k = k + 1;
        }
        proof {
            assert(cells.take(end - start) =~= cells);
        }
        lines.push(line);
        start = end;
    }
    proof {
        assert(views(lines@) =~= report_lines(all));
    }
    lines
}

/// Reports the current setting of every core from the readings of the control
/// files: the results by ascending label, in rows of three columns.
pub fn report_readings(readings: &Vec<FileReading>) -> (report: ProfileReport)
    ensures
        report@ == report_of(views(readings@)),
{
    let collected: Readings = collect_readings(readings);
    match collected.result {
        Ok(entries) => ProfileReport {
            skipped: collected.skipped,
            result: Ok(format_report(&entries)),
        },
        Err(error) => ProfileReport { skipped: collected.skipped, result: Err(error) },
    }
}

} // verus!
