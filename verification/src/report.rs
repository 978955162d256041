//! What is shown of the results: in which order, and as which lines.

use vstd::prelude::*;
use crate::chunk::{as_position, results_model, BlockResults, BlockResultsModel};
use crate::order::{sort_by_distance, sorted_by_distance, sorted_from};
use crate::tally::{count_by_name, counts_model, lemma_counts_add_up, name_counts, names_of, total};

verus! {

/// One line of the report.
#[derive(Debug, PartialEq, Eq)]
pub struct ReportLine {
    /// The world position of a block, or of a chunk where the line counts.
    pub position: (i32, i32, i32),
    /// The name of the block or blocks.
    pub name: String,
    /// `None` on a line for one block; on a line for a chunk, how many of the
    /// blocks found in the chunk have the name.
    pub count: Option<usize>,
}

/// One line of the report, as a mathematical value.
pub struct ReportLineModel {
    /// The world position of a block or of a chunk.
    pub position: (int, int, int),
    /// The name of the block or blocks.
    pub name: Seq<char>,
    /// The number of blocks, on a line that counts.
    pub count: Option<nat>,
}

impl View for ReportLine {
    type V = ReportLineModel;

    open spec fn view(&self) -> ReportLineModel {
        ReportLineModel {
            position: as_position(self.position),
            name: self.name@,
            count: match self.count {
                Some(c) => Some(c as nat),
                None => None,
            },
        }
    }
}

/// The lines of a report, as mathematical values.
pub open spec fn lines_model(lines: Seq<ReportLine>) -> Seq<ReportLineModel> {
    lines.map_values(|line: ReportLine| line@)
}

/// The line for one block that was found.
pub open spec fn match_line(found: ((int, int, int), Seq<char>)) -> ReportLineModel {
    ReportLineModel { position: found.0, name: found.1, count: None }
}

/// The line for the blocks of one name found in the chunk at `chunk`.
pub open spec fn count_line(chunk: (int, int, int), entry: (Seq<char>, nat)) -> ReportLineModel {
    ReportLineModel { position: chunk, name: entry.0, count: Some(entry.1) }
}

/// One line for each block found in the chunk, in the order of the blocks.
pub open spec fn match_lines(result: BlockResultsModel) -> Seq<ReportLineModel> {
    result.blocks.map_values(|found: ((int, int, int), Seq<char>)| match_line(found))
}

/// One line for each name among the blocks found in the chunk, with the
/// number of blocks of that name, in the order in which the names first
/// occur.
pub open spec fn count_lines(result: BlockResultsModel) -> Seq<ReportLineModel> {
    name_counts(names_of(result.blocks)).map_values(
        |entry: (Seq<char>, nat)| count_line(result.chunk, entry),
    )
}

/// The lines for one chunk: every block where `show_all` is set, and else
/// the names with their counts.
pub open spec fn chunk_lines(result: BlockResultsModel, show_all: bool) -> Seq<ReportLineModel> {
    if show_all {
        match_lines(result)
    } else {
        count_lines(result)
    }
}

/// [`chunk_lines`] as a function of the chunk's result alone.
pub open spec fn lines_of(show_all: bool) -> spec_fn(BlockResultsModel) -> Seq<ReportLineModel> {
    |result: BlockResultsModel| chunk_lines(result, show_all)
}

/// The lines for all results: those of the first chunk, then those of the
/// second, and so on.
pub open spec fn report_lines(results: Seq<BlockResultsModel>, show_all: bool) -> Seq<
    ReportLineModel,
> {
    results.map_values(lines_of(show_all)).flatten()
}

/// The sum of the counts that the lines hold. A line for one block, which
/// holds no count, adds nothing.
pub open spec fn counted(lines: Seq<ReportLineModel>) -> nat
    decreases lines.len(),
{
    if lines.len() == 0 {
        0
    } else {
        counted(lines.drop_last()) + match lines.last().count {
            Some(c) => c,
            None => 0,
        }
    }
}

/// The lines that count hold together the counts they were made from.
proof fn lemma_counted_lines(chunk: (int, int, int), counts: Seq<(Seq<char>, nat)>)
    ensures
        counted(counts.map_values(|entry: (Seq<char>, nat)| count_line(chunk, entry))) == total(counts),
    decreases counts.len(),
{
    let line = |entry: (Seq<char>, nat)| count_line(chunk, entry);
    if counts.len() > 0 {
        lemma_counted_lines(chunk, counts.drop_last());
        assert(counts.map_values(line).drop_last() =~= counts.drop_last().map_values(line));
    }
}

/// For every chunk, the counts on the lines that count add up to the number
/// of lines that list the chunk block by block.
pub proof fn lemma_counts_cover_listing(result: BlockResultsModel)
    ensures
        counted(chunk_lines(result, false)) == chunk_lines(result, true).len(),
        chunk_lines(result, true).len() == result.blocks.len(),
{
    lemma_counted_lines(result.chunk, name_counts(names_of(result.blocks)));
    lemma_counts_add_up(names_of(result.blocks));
}

/// The lines for one chunk, added to `lines`.
fn add_chunk_lines(lines: &mut Vec<ReportLine>, result: &BlockResults, show_all: bool)
    ensures
        lines_model(final(lines)@) == lines_model(old(lines)@) + chunk_lines(result@, show_all),
{
    let ghost base = lines_model(lines@);
    if show_all {
        let mut j: usize = 0;
        assert(base + match_lines(result@).take(0) =~= base);
        while j < result.blocks.len()
            invariant
                j <= result.blocks.len(),
                match_lines(result@).len() == result.blocks.len(),
                lines_model(lines@) == base + match_lines(result@).take(j as int),
            decreases result.blocks.len() - j,
        {
            let found = &result.blocks[j];
            let ghost before = lines@;
            let line = ReportLine { position: found.0, name: found.1.clone(), count: None };
            assert(line@ == match_lines(result@)[j as int]);
            lines.push(line);
            assert(lines_model(lines@) =~= lines_model(before).push(line@));
            assert(match_lines(result@).take(j + 1) =~= match_lines(result@).take(j as int).push(
                line@,
            ));
            j += 1;
        }
        assert(match_lines(result@).take(j as int) =~= match_lines(result@));
    } else {
        let counts = count_by_name(&result.blocks);
        let ghost wanted = count_lines(result@);
        assert(base + wanted.take(0) =~= base);
        for entry in it: counts
            invariant
                counts_model(it.seq()) == name_counts(names_of(result@.blocks)),
                wanted == count_lines(result@),
                wanted.len() == it.seq().len(),
                lines_model(lines@) == base + wanted.take(it.index() as int),
        {
            let ghost before = lines@;
            let ghost k = it.index() as int;
            let line = ReportLine { position: result.chunk, name: entry.0, count: Some(entry.1) };
            assert(line@ == wanted[k]) by {
                assert(counts_model(it.seq())[k] == (entry.0@, entry.1 as nat));
            }
            lines.push(line);
            assert(lines_model(lines@) =~= lines_model(before).push(line@));
            assert(wanted.take(k + 1) =~= wanted.take(k).push(line@));
        }
        assert(wanted.take(wanted.len() as int) =~= wanted);
    }
}

/// Writes the results out as lines, chunk by chunk in the order given.
///
/// Where `show_all` is set, every block found gets a line with its position
/// and name, in the order of the blocks within the chunk. Otherwise the
/// blocks of a chunk are grouped by their exact names, and each name gets
/// one line with the chunk's position and the number of blocks of that name.
pub fn report(results: &Vec<BlockResults>, show_all: bool) -> (lines: Vec<ReportLine>)
    ensures
        lines_model(lines@) == report_lines(results_model(results@), show_all),
{
    let ghost all = results_model(results@);
    let mut lines: Vec<ReportLine> = Vec::new();
    let mut i: usize = 0;
    proof {
        assert(all.take(0).map_values(lines_of(show_all)) =~= Seq::empty());
        assert(lines_model(lines@) =~= report_lines(all.take(0), show_all));
    }
    while i < results.len()
        invariant
            i <= results.len(),
            all == results_model(results@),
            lines_model(lines@) == report_lines(all.take(i as int), show_all),
        decreases results.len() - i,
    {
        proof {
            let done = all.take(i as int);
            assert(all.take(i + 1) =~= done.push(results[i as int]@));
            done.lemma_push_map_commute(lines_of(show_all), results[i as int]@);
            done.map_values(lines_of(show_all)).lemma_flatten_push(
                chunk_lines(results[i as int]@, show_all),
            );
        }
        add_chunk_lines(&mut lines, &results[i], show_all);
        i += 1;
    }
    assert(all.take(i as int) =~= all);
    lines
}

/// The results in the order in which they are shown: sorted by distance
/// from `home` where there is one, and else as they came.
pub open spec fn arrangement(results: Seq<BlockResultsModel>, home: Option<(i32, i32)>) -> Seq<
    BlockResultsModel,
> {
    match home {
        Some(h) => sorted_from(results, h),
        None => results,
    }
}

/// Puts the results into the order in which they are shown. With a home
/// position they are sorted by the distance of their chunks from it, nearest
/// first, chunks at the same distance keeping their order; without one they
/// stay as they came. Nothing is added or left out.
pub fn arrange(results: Vec<BlockResults>, home: Option<(i32, i32)>) -> (ordered: Vec<BlockResults>)
    ensures
        results_model(ordered@) == arrangement(results_model(results@), home),
        home matches Some(h) ==> sorted_by_distance(
            results_model(results@),
            results_model(ordered@),
            h,
        ),
{
    match home {
        Some(h) => sort_by_distance(results, h),
        None => results,
    }
}

/// Turns the collected results into the lines of the report: the results
/// are arranged as [`arrange`] does, then written out as [`report`] does.
pub fn post_process(results: Vec<BlockResults>, home: Option<(i32, i32)>, show_all: bool) -> (lines:
    Vec<ReportLine>)
    ensures
        lines_model(lines@) == report_lines(
            arrangement(results_model(results@), home),
            show_all,
        ),
{
    let ordered = arrange(results, home);
    report(&ordered, show_all)
}

} // verus!
