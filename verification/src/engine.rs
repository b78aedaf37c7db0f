//! Lookup and comparison over the rows that sources hand back.
//!
//! A source is asked from outside this crate; what it answered comes in as a
//! plain value. The functions here decide what the answer means: which rows
//! lie in the range asked for, which sources take part in a comparison, and
//! under which label.

use crate::reference::VerseRange;
use vstd::prelude::*;

verus! {

/// One verse of a collection, with the label of where it came from.
#[derive(Clone, PartialEq, Eq, Debug)]
pub struct Verse {
    pub source_label: String,
    pub chapter: u32,
    pub verse: u32,
    pub text: String,
}

/// What a [`Verse`] stands for.
pub struct VerseView {
    pub source_label: Seq<char>,
    pub chapter: u32,
    pub verse: u32,
    pub text: Seq<char>,
}

impl View for Verse {
    type V = VerseView;

    open spec fn view(&self) -> VerseView {
        VerseView {
            source_label: self.source_label@,
            chapter: self.chapter,
            verse: self.verse,
            text: self.text@,
        }
    }
}

/// What each of `rows` stands for.
pub open spec fn verse_views(rows: Seq<Verse>) -> Seq<VerseView> {
    Seq::new(rows.len(), |i: int| rows[i]@)
}

/// Why a source gave no rows.
#[derive(Clone, PartialEq, Eq, Debug)]
pub struct QueryFailure {
    pub message: String,
}

/// The rows of `rows` that lie in `range`, in the order they came.
pub open spec fn rows_in_range(range: VerseRange, rows: Seq<Verse>) -> Seq<Verse> {
    rows.filter(|v: Verse| range.contains(v.chapter, v.verse))
}

/// True when `a` comes no later than `b` by chapter, then verse.
pub open spec fn not_after(a: Verse, b: Verse) -> bool {
    a.chapter < b.chapter || (a.chapter == b.chapter && a.verse <= b.verse)
}

/// True when `rows` runs in non-decreasing order of chapter, then verse.
pub open spec fn in_reading_order(rows: Seq<Verse>) -> bool {
    forall|i: int, j: int| 0 <= i <= j < rows.len() ==> #[trigger] not_after(rows[i], rows[j])
}

/// Cutting rows down to a range keeps them in their order: every row that
/// stays was among the rows, and rows in reading order stay in reading order.
pub proof fn lemma_selection_keeps_order(range: VerseRange, rows: Seq<Verse>)
    ensures
        forall|k: int|
            0 <= k < rows_in_range(range, rows).len() ==> rows.contains(
                #[trigger] rows_in_range(range, rows)[k],
            ),
        in_reading_order(rows) ==> in_reading_order(rows_in_range(range, rows)),
    decreases rows.len(),
{
    reveal(Seq::filter);
    if rows.len() > 0 {
        let front = rows.drop_last();
        let kept = rows_in_range(range, front);
        let all = rows_in_range(range, rows);
        lemma_selection_keeps_order(range, front);
        assert forall|k: int| 0 <= k < all.len() implies rows.contains(#[trigger] all[k]) by {
            if k < kept.len() {
                assert(front.contains(kept[k]));
            }
        }
        if in_reading_order(rows) {
            assert forall|i: int, j: int| 0 <= i <= j < all.len() implies #[trigger] not_after(
                all[i],
                all[j],
            ) by {
                if i < kept.len() && j >= kept.len() {
                    assert(front.contains(kept[i]));
                }
            }
        }
    }
}

/// Keeps the rows that lie in `range`.
pub fn select_range(range: &VerseRange, rows: Vec<Verse>) -> (found: Vec<Verse>)
    ensures
        found@ == rows_in_range(*range, rows@),
        in_reading_order(rows@) ==> in_reading_order(found@),
{
    proof {
        lemma_selection_keeps_order(*range, rows@);
        reveal(Seq::filter);
    }
    let ghost keep = |v: Verse| range.contains(v.chapter, v.verse);
    let mut found: Vec<Verse> = Vec::new();
    for row in it: rows
        invariant
            it.seq() == rows@,
            keep == (|v: Verse| range.contains(v.chapter, v.verse)),
            found@ == rows@.take(it.index()).filter(keep),
    {
        proof {
            reveal(Seq::filter);
            assert(rows@.take(it.index() + 1).drop_last() == rows@.take(it.index()));
        }
        if range.covers(row.chapter, row.verse) {
            found.push(row);
        }
    }
    proof {
        assert(rows@.take(rows@.len() as int) == rows@);
    }
    found
}

/// The verses of a range, from what one source answered. A failure of the
/// source is handed on; an answer is cut down to the rows in the range.
pub fn lookup(range: &VerseRange, outcome: Result<Vec<Verse>, QueryFailure>) -> (r: Result<
    Vec<Verse>,
    QueryFailure,
>)
    ensures
        match outcome {
            Ok(rows) => r matches Ok(found) && found@ == rows_in_range(*range, rows@) && (
            in_reading_order(rows@) ==> in_reading_order(found@)),
            Err(e) => r == Err::<Vec<Verse>, QueryFailure>(e),
        },
        outcome is Ok && range.is_inverted() ==> (r matches Ok(found) && found@.len() == 0),
{
    match outcome {
        Ok(rows) => {
            proof {
                if range.is_inverted() {
                    lemma_inverted_range_selects_nothing(*range, rows@);
                }
            }
            Ok(select_range(range, rows))
        },
        Err(e) => Err(e),
    }
}

/// No row lies in a range that ends before it starts.
pub proof fn lemma_inverted_range_selects_nothing(range: VerseRange, rows: Seq<Verse>)
    requires
        range.is_inverted(),
    ensures
        rows_in_range(range, rows) == Seq::<Verse>::empty(),
    decreases rows.len(),
{
    reveal(Seq::filter);
    if rows.len() > 0 {
        lemma_inverted_range_selects_nothing(range, rows.drop_last());
    }
}

/// What came back from one source of a comparison: the label it gave itself,
/// if it gave one, and its answer to the range query.
#[derive(PartialEq, Eq, Debug)]
pub struct SourceOutcome {
    pub label: Option<String>,
    pub rows: Result<Vec<Verse>, QueryFailure>,
}

/// The verses that one source holds of a range, under the source's label.
#[derive(Clone, PartialEq, Eq, Debug)]
pub struct ComparisonEntry {
    pub source_label: String,
    pub verses: Vec<Verse>,
}

/// What a [`ComparisonEntry`] stands for.
pub struct ComparisonEntryView {
    pub source_label: Seq<char>,
    pub verses: Seq<VerseView>,
}

impl View for ComparisonEntry {
    type V = ComparisonEntryView;

    open spec fn view(&self) -> ComparisonEntryView {
        ComparisonEntryView {
            source_label: self.source_label@,
            verses: verse_views(self.verses@),
        }
    }
}

/// What each of `entries` stands for.
pub open spec fn entry_views(entries: Seq<ComparisonEntry>) -> Seq<ComparisonEntryView> {
    Seq::new(entries.len(), |i: int| entries[i]@)
}

/// The label of a source that gave itself none.
pub open spec fn placeholder_label() -> Seq<char> {
    "Unknown Bible"@
}

/// The label under which a source is shown.
pub open spec fn shown_label(label: Option<String>) -> Seq<char> {
    match label {
        Some(l) => l@,
        None => placeholder_label(),
    }
}

/// `row` with the label `label` in place of its own.
pub open spec fn relabelled(row: Verse, label: Seq<char>) -> VerseView {
    VerseView { source_label: label, chapter: row.chapter, verse: row.verse, text: row.text@ }
}

/// `rows`, each with the label `label` in place of its own.
pub open spec fn relabelled_all(rows: Seq<Verse>, label: Seq<char>) -> Seq<VerseView> {
    Seq::new(rows.len(), |i: int| relabelled(rows[i], label))
}

/// The entry that one source adds to a comparison: none where its query
/// failed, else its rows in the range, each under the source's label.
pub open spec fn entry_of(range: VerseRange, outcome: SourceOutcome) -> Option<
    ComparisonEntryView,
> {
    match outcome.rows {
        Ok(rows) => Some(
            ComparisonEntryView {
                source_label: shown_label(outcome.label),
                verses: relabelled_all(rows_in_range(range, rows@), shown_label(outcome.label)),
            },
        ),
        Err(_) => None,
    }
}

/// The entries of a comparison: one for each source that answered, in the
/// order of the sources.
pub open spec fn compared(range: VerseRange, outcomes: Seq<SourceOutcome>) -> Seq<
    ComparisonEntryView,
>
    decreases outcomes.len(),
{
    if outcomes.len() == 0 {
        Seq::empty()
    } else {
        let before = compared(range, outcomes.drop_last());
        match entry_of(range, outcomes.last()) {
            Some(entry) => before.push(entry),
            None => before,
        }
    }
}

/// The number of sources that answered.
pub open spec fn answered(outcomes: Seq<SourceOutcome>) -> nat
    decreases outcomes.len(),
{
    if outcomes.len() == 0 {
        0
    } else {
        answered(outcomes.drop_last()) + if outcomes.last().rows is Ok {
            1nat
        } else {
            0nat
        }
    }
}

/// Puts `label` on every row.
fn relabel(rows: Vec<Verse>, label: &String) -> (out: Vec<Verse>)
    ensures
        verse_views(out@) == relabelled_all(rows@, label@),
{
    let mut out: Vec<Verse> = Vec::new();
    for row in it: rows
        invariant
            it.seq() == rows@,
            out@.len() == it.index(),
            verse_views(out@) == relabelled_all(rows@.take(it.index()), label@),
    {
        let ghost before = out@;
        let ghost done = it.index();
        out.push(
            Verse {
                source_label: label.clone(),
                chapter: row.chapter,
                verse: row.verse,
                text: row.text,
            },
        );
        assert forall|i: int| 0 <= i < out@.len() implies verse_views(out@)[i] == relabelled_all(
            rows@.take(done + 1),
            label@,
        )[i] by {
            if i < done {
                assert(verse_views(before)[i] == relabelled_all(rows@.take(done), label@)[i]);
            }
        }
    }
    out
}

/// Merges what the sources of a comparison answered. A source whose query
/// failed is left out and the others are kept; a source without a label is
/// shown under a placeholder. Each entry holds the source's rows in the
/// range, every one under the source's label whatever label the row carried.
pub fn compare(range: &VerseRange, outcomes: Vec<SourceOutcome>) -> (entries: Vec<
    ComparisonEntry,
>)
    ensures
        entry_views(entries@) == compared(*range, outcomes@),
        entries@.len() == answered(outcomes@),
{
    let mut entries: Vec<ComparisonEntry> = Vec::new();
    for outcome in it: outcomes
        invariant
            it.seq() == outcomes@,
            entry_views(entries@) == compared(*range, outcomes@.take(it.index())),
            entries@.len() == answered(outcomes@.take(it.index())),
    {
        proof {
            assert(outcomes@.take(it.index() + 1).drop_last() == outcomes@.take(it.index()));
        }
        match outcome.rows {
            Ok(rows) => {
                let label: String = match outcome.label {
                    Some(l) => l,
                    None => "Unknown Bible".to_string(),
                };
                let verses = relabel(select_range(range, rows), &label);
                entries.push(ComparisonEntry { source_label: label, verses });
                assert(entry_views(entries@) =~= compared(
                    *range,
                    outcomes@.take(it.index() + 1),
                ));
            },
            Err(_) => {
                assert(entry_views(entries@) =~= compared(
                    *range,
                    outcomes@.take(it.index() + 1),
                ));
            },
        }
    }
    proof {
        assert(outcomes@.take(outcomes@.len() as int) == outcomes@);
    }
    entries
}

} // verus!
