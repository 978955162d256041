//! The search of one region file: from the file's name and its decoded
//! chunks to the blocks found in it.

use vstd::prelude::*;
use crate::chunk::{
    chunk_origin, chunk_result, lemma_chunk_result_moves_with_region, moved_result, results_model,
    scan_chunk, BlockResults, BlockResultsModel, ChunkModel, DecodedChunk, FULL_STATUS,
};
use crate::distance::{
    as_point, in_radius, lemma_filter_ignores_shift, passes, squared_distance, within,
};
use crate::error::SearchError;
use crate::region::{
    is_region_name, names_region, region_coordinates, region_in_range, region_origin,
};
use crate::text::{chars_of, same_text};

verus! {

/// What the search of the region at `region` reports for one of its chunks:
/// nothing where the region's origin fails the distance filter, and else
/// what the chunk itself yields.
pub open spec fn searched_chunk(
    region: (i32, i32),
    chunk: ChunkModel,
    needle: Seq<char>,
    filter: Option<((i32, i32), i32)>,
) -> Option<BlockResultsModel> {
    if passes(as_point(region), filter) {
        chunk_result(region, chunk, needle, filter)
    } else {
        None
    }
}

/// Whether anything can be found in a chunk that lies at `(x, z)` within the
/// region at `region` and has the status `status`: the region's origin and
/// the chunk's own origin pass the distance filter, and the chunk is fully
/// generated.
pub open spec fn chunk_wanted(
    region: (i32, i32),
    x: int,
    z: int,
    status: Seq<char>,
    filter: Option<((i32, i32), i32)>,
) -> bool {
    &&& passes(as_point(region), filter)
    &&& status == FULL_STATUS@
    &&& passes((region.0 + x * 16, region.1 + z * 16), filter)
}

/// A chunk that is not wanted yields nothing, whatever its blocks are
/// named.
pub proof fn lemma_unwanted_chunk_yields_nothing(
    region: (i32, i32),
    chunk: ChunkModel,
    needle: Seq<char>,
    filter: Option<((i32, i32), i32)>,
)
    requires
        !chunk_wanted(region, chunk.x, chunk.z, chunk.status, filter),
    ensures
        searched_chunk(region, chunk, needle, filter) is None,
{
}

/// Where the origin of the radius lies at or before the origin of the region
/// along both axes, no chunk of the region is nearer to it than the region's
/// own origin is: a chunk can then lie within the radius only if the
/// region's origin does. For an origin of the radius that lies elsewhere
/// this need not hold; a region is pruned by its own origin all the same.
pub proof fn lemma_chunks_beyond_region_origin(
    region: (int, int),
    x: int,
    z: int,
    origin: (int, int),
    radius: int,
)
    requires
        0 <= x,
        0 <= z,
        origin.0 <= region.0,
        origin.1 <= region.1,
    ensures
        squared_distance(region, origin) <= squared_distance(
            (region.0 + x * 16, region.1 + z * 16),
            origin,
        ),
        in_radius((region.0 + x * 16, region.1 + z * 16), origin, radius) ==> in_radius(
            region,
            origin,
            radius,
        ),
{
    let a = region.0 - origin.0;
    let b = region.1 - origin.1;
    let dx = x * 16;
    let dz = z * 16;
    assert(a * a <= (a + dx) * (a + dx)) by (nonlinear_arith)
        requires
            0 <= a,
            0 <= dx,
    ;
    assert(b * b <= (b + dz) * (b + dz)) by (nonlinear_arith)
        requires
            0 <= b,
            0 <= dz,
    ;
}

/// [`searched_chunk`] as a function of the chunk alone.
pub open spec fn chunk_reporter(
    region: (i32, i32),
    needle: Seq<char>,
    filter: Option<((i32, i32), i32)>,
) -> spec_fn(ChunkModel) -> Option<BlockResultsModel> {
    |chunk: ChunkModel| searched_chunk(region, chunk, needle, filter)
}

/// What the search reports for the region at `region` with the chunks
/// `chunks`: the result of each chunk that has one, in the order of the
/// chunks.
pub open spec fn region_results(
    region: (i32, i32),
    chunks: Seq<ChunkModel>,
    needle: Seq<char>,
    filter: Option<((i32, i32), i32)>,
) -> Seq<BlockResultsModel> {
    chunks.filter_map(chunk_reporter(region, needle, filter))
}

/// What the search reports for the region file named `filename` with the
/// chunks `chunks`, or why it fails.
pub open spec fn block_search(
    filename: Seq<char>,
    chunks: Seq<ChunkModel>,
    needle: Seq<char>,
    filter: Option<((i32, i32), i32)>,
) -> Result<Seq<BlockResultsModel>, SearchError> {
    match region_origin(filename) {
        Ok(region) => Ok(region_results(region, chunks, needle, filter)),
        Err(e) => Err(e),
    }
}

/// Decoded chunks, as mathematical values.
pub open spec fn chunks_model(chunks: Seq<DecodedChunk>) -> Seq<ChunkModel> {
    chunks.map_values(|c: DecodedChunk| c@)
}

/// A region whose origin fails the distance filter yields nothing, whatever
/// its chunks hold.
pub proof fn lemma_pruned_region_is_empty(
    region: (i32, i32),
    chunks: Seq<ChunkModel>,
    needle: Seq<char>,
    filter: Option<((i32, i32), i32)>,
)
    requires
        !passes(as_point(region), filter),
    ensures
        region_results(region, chunks, needle, filter) == Seq::<BlockResultsModel>::empty(),
    decreases chunks.len(),
{
    if chunks.len() > 0 {
        lemma_pruned_region_is_empty(region, chunks.drop_last(), needle, filter);
    }
}

/// Moving a region and the origin of the distance filter by the same vector
/// moves every result of the region by that vector, and changes nothing
/// else: the same chunks are reported in the same order, with the same
/// blocks.
pub proof fn lemma_results_move_with_region(
    region: (i32, i32),
    filter: Option<((i32, i32), i32)>,
    moved_region: (i32, i32),
    moved_filter: Option<((i32, i32), i32)>,
    shift: (int, int),
    chunks: Seq<ChunkModel>,
    needle: Seq<char>,
)
    requires
        moved_region.0 == region.0 + shift.0,
        moved_region.1 == region.1 + shift.1,
        match (filter, moved_filter) {
            (Some((origin, radius)), Some((moved_origin, moved_radius))) => {
                &&& moved_origin.0 == origin.0 + shift.0
                &&& moved_origin.1 == origin.1 + shift.1
                &&& moved_radius == radius
            },
            (None, None) => true,
            _ => false,
        },
    ensures
        region_results(moved_region, chunks, needle, moved_filter) == region_results(
            region,
            chunks,
            needle,
            filter,
        ).map_values(|result: BlockResultsModel| moved_result(result, shift)),
    decreases chunks.len(),
{
    let moved = |result: BlockResultsModel| moved_result(result, shift);
    let here = region_results(region, chunks, needle, filter);
    let there = region_results(moved_region, chunks, needle, moved_filter);
    if chunks.len() == 0 {
        assert(there =~= here.map_values(moved));
    } else {
        let rest = chunks.drop_last();
        let last = chunks.last();
        lemma_results_move_with_region(
            region,
            filter,
            moved_region,
            moved_filter,
            shift,
            rest,
            needle,
        );
        lemma_chunk_result_moves_with_region(
            region,
            filter,
            moved_region,
            moved_filter,
            shift,
            last,
            needle,
        );
        lemma_filter_ignores_shift(as_point(region), filter, moved_filter, shift);
        assert(there =~= here.map_values(moved));
    }
}

/// Every result of a region comes from one of its chunks, and that chunk is
/// fully generated, its origin passes the distance filter, and so does the
/// origin of the region. A chunk that is not fully generated contributes
/// nothing, whatever its blocks are named.
pub proof fn lemma_results_come_from_passing_chunks(
    region: (i32, i32),
    chunks: Seq<ChunkModel>,
    needle: Seq<char>,
    filter: Option<((i32, i32), i32)>,
    k: int,
)
    requires
        0 <= k < region_results(region, chunks, needle, filter).len(),
    ensures
        passes(as_point(region), filter),
        exists|i: int|
            0 <= i < chunks.len() && #[trigger] chunk_result(region, chunks[i], needle, filter)
                == Some(region_results(region, chunks, needle, filter)[k])
                && chunks[i].status == FULL_STATUS@ && passes(
                (chunk_origin(region, chunks[i]).0, chunk_origin(region, chunks[i]).2),
                filter,
            ),
    decreases chunks.len(),
{
    let report = chunk_reporter(region, needle, filter);
    let all = region_results(region, chunks, needle, filter);
    assert(chunks.len() > 0);
    let rest = chunks.drop_last();
    let before = region_results(region, rest, needle, filter);
    if k < before.len() {
        assert(all[k] == before[k]);
        lemma_results_come_from_passing_chunks(region, rest, needle, filter, k);
        let i = choose|i: int|
            0 <= i < rest.len() && #[trigger] chunk_result(region, rest[i], needle, filter) == Some(
                before[k],
            ) && rest[i].status == FULL_STATUS@ && passes(
                (chunk_origin(region, rest[i]).0, chunk_origin(region, rest[i]).2),
                filter,
            );
        assert(chunks[i] == rest[i]);
    } else {
        let i = chunks.len() - 1;
        assert(report(chunks[i]) == Some(all[k]));
        assert(chunk_result(region, chunks[i], needle, filter) == Some(all[k]));
    }
}

/// The search of one region file. It is begun from the file's name, before
/// anything of the file is read, and then searches each chunk of the file as
/// the file's reader decodes it. A region whose origin fails the distance
/// filter is pruned: none of its chunks needs decoding.
#[derive(Debug)]
pub struct RegionSearch {
    region: (i32, i32),
    needle: Vec<char>,
    filter: Option<((i32, i32), i32)>,
    pruned: bool,
}

/// The search of one region file, as a mathematical value.
pub struct RegionSearchModel {
    /// The world position of the region.
    pub region: (i32, i32),
    /// The text looked for in the names of the blocks.
    pub needle: Seq<char>,
    /// The distance filter, if there is one.
    pub filter: Option<((i32, i32), i32)>,
}

impl View for RegionSearch {
    type V = RegionSearchModel;

    /// What the search was begun with. Whether the region is pruned follows
    /// from these, and is kept beside them only to be at hand.

    closed spec fn view(&self) -> RegionSearchModel {
        RegionSearchModel { region: self.region, needle: self.needle@, filter: self.filter }
    }
}

impl RegionSearch {
    #[verifier::type_invariant]
    spec fn well_formed(&self) -> bool {
        &&& region_in_range(self.region)
        &&& self.pruned == !passes(as_point(self.region), self.filter)
    }

    /// Begins the search of the region file named `filename` for blocks
    /// whose names contain `block_name`. The name is that of the file alone,
    /// without its directory. The search begins exactly where
    /// [`region_coordinates`] gives the region's origin; it fails with
    /// `InvalidFilename` for every name that is not the name of a region
    /// file.
    pub fn begin(filename: &str, block_name: &str, filter: Option<((i32, i32), i32)>) -> (search:
        Result<RegionSearch, SearchError>)
        ensures
            match search {
                Ok(s) => region_origin(filename@) == Ok::<(i32, i32), SearchError>(s@.region)
                    && names_region(filename@, s@.region) && s@.needle == block_name@ && s@.filter
                    == filter,
                Err(e) => region_origin(filename@) == Err::<(i32, i32), SearchError>(e) && e
                    == SearchError::InvalidFilename,
            },
            !is_region_name(filename@) ==> search is Err,
    {
        match region_coordinates(filename) {
            Ok(region) => Ok(
                RegionSearch {
                    region,
                    needle: chars_of(block_name),
                    filter,
                    pruned: !within(region, filter),
                },
            ),
            Err(e) => Err(e),
        }
    }

    /// The world position of the region.
    pub fn region(&self) -> (region: (i32, i32))
        ensures
            region == self@.region,
            region_in_range(region),
    {
        proof {
            use_type_invariant(self);
        }
        self.region
    }

    /// Whether the region's origin fails the distance filter. A pruned
    /// region yields nothing, whatever its chunks hold.
    pub fn is_pruned(&self) -> (pruned: bool)
        ensures
            pruned == !passes(as_point(self@.region), self@.filter),
    {
        proof {
            use_type_invariant(self);
        }
        self.pruned
    }

    /// Whether a chunk of the region is worth decoding in full, given where
    /// it lies within the region and its status. A chunk that is not wanted
    /// yields nothing, whatever its blocks are named. A position outside the
    /// region is always wanted, so that the attempt to make the chunk shows
    /// the fault.
    pub fn wants_chunk(&self, x: usize, z: usize, status: &str) -> (wanted: bool)
        ensures
            wanted == (x >= 32 || z >= 32 || chunk_wanted(
                self@.region,
                x as int,
                z as int,
                status@,
                self@.filter,
            )),
    {
        proof {
            use_type_invariant(self);
        }
        if x >= 32 || z >= 32 {
            return true;
        }
        if self.pruned || !same_text(status, FULL_STATUS) {
            return false;
        }
        let chunk_x: i32 = self.region.0 + (x as i32) * 16;
        let chunk_z: i32 = self.region.1 + (z as i32) * 16;
        within((chunk_x, chunk_z), self.filter)
    }

    /// Searches one chunk of the region.
    pub fn scan(&self, chunk: &DecodedChunk) -> (found: Option<BlockResults>)
        ensures
            match found {
                Some(r) => searched_chunk(self@.region, chunk@, self@.needle, self@.filter) == Some(
                    r@,
                ),
                None => searched_chunk(self@.region, chunk@, self@.needle, self@.filter) is None,
            },
    {
        proof {
            use_type_invariant(self);
        }
        if self.pruned {
            None
        } else {
            scan_chunk(self.region, chunk, &self.needle, self.filter)
        }
    }
}

/// Finds the blocks of one region file whose names contain `block_name`.
///
/// `filename` names the region file and gives the region's world position;
/// `chunks` are the file's chunks, decoded. With a distance filter, a region
/// whose origin fails it yields nothing, and so does each chunk whose own
/// origin fails it. A chunk that is not fully generated is never searched.
/// Every other chunk with at least one matching block yields one result,
/// in the order of the chunks.
///
/// `filename` is the name of the file alone, without its directory. The
/// search fails, with `InvalidFilename`, exactly where
/// [`region_coordinates`] fails on `filename`: for every name that is not
/// `r.<X>.<Z>.mca` and nothing more.
pub fn find_blocks(
    filename: &str,
    chunks: &Vec<DecodedChunk>,
    block_name: &str,
    chunk_distance_filter: Option<((i32, i32), i32)>,
) -> (found: Result<Vec<BlockResults>, SearchError>)
    ensures
        match found {
            Ok(results) => block_search(
                filename@,
                chunks_model(chunks@),
                block_name@,
                chunk_distance_filter,
            ) == Ok::<Seq<BlockResultsModel>, SearchError>(results_model(results@))
                && is_region_name(filename@),
            Err(e) => block_search(filename@, chunks_model(chunks@), block_name@, chunk_distance_filter)
                == Err::<Seq<BlockResultsModel>, SearchError>(e) && e
                == SearchError::InvalidFilename,
        },
        !is_region_name(filename@) ==> found is Err,
{
    let search = match RegionSearch::begin(filename, block_name, chunk_distance_filter) {
        Ok(search) => search,
        Err(e) => { return Err(e); },
    };
    let ghost all = chunks_model(chunks@);
    let ghost report = chunk_reporter(search@.region, block_name@, chunk_distance_filter);
    let mut results: Vec<BlockResults> = Vec::new();
    if search.is_pruned() {
        proof {
            lemma_pruned_region_is_empty(search@.region, all, block_name@, chunk_distance_filter);
            assert(results_model(results@) =~= Seq::<BlockResultsModel>::empty());
        }
        return Ok(results);
    }
    let mut i: usize = 0;
    assert(results_model(results@) =~= all.take(0).filter_map(report));
    while i < chunks.len()
        invariant
            i <= chunks.len(),
            all == chunks_model(chunks@),
            search@.needle == block_name@,
            search@.filter == chunk_distance_filter,
            report == chunk_reporter(search@.region, block_name@, chunk_distance_filter),
            results_model(results@) == all.take(i as int).filter_map(report),
        decreases chunks.len() - i,
    {
        proof {
            all.lemma_filter_map_take_succ(report, i as int);
        }
        let ghost before = results@;
        match search.scan(&chunks[i]) {
            Some(result) => {
                results.push(result);
                assert(results_model(results@) =~= results_model(before) + seq![result@]);
            },
            None => {},
        }
        i += 1;
    }
    assert(all.take(i as int) =~= all);
    Ok(results)
}

} // verus!
