//! Chunks: what a decoded chunk holds, and the search for blocks in it.

use vstd::prelude::*;
use crate::distance::{lemma_filter_ignores_shift, passes, within};
use crate::error::SearchError;
use crate::region::region_in_range;
use crate::text::{contains_chars, fill_chars, is_substring, same_text};

verus! {

/// The status of a chunk that is fully generated. Only such chunks hold
/// block data that can be relied on.
pub const FULL_STATUS: &'static str = "minecraft:full";

/// A decoded chunk, as a mathematical value.
pub struct ChunkModel {
    /// The chunk's position within its region along x, counted in chunks.
    pub x: int,
    /// The chunk's position within its region along z, counted in chunks.
    pub z: int,
    /// The generation status.
    pub status: Seq<char>,
    /// The height of the chunk's lowest layer.
    pub y_start: int,
    /// The names of the blocks. The block with index `i` sits at the local
    /// offsets `x = i % 16`, `z = (i / 16) % 16` and `y = i / 256`.
    pub blocks: Seq<Seq<char>>,
}

impl ChunkModel {
    /// The chunk lies within a region of 32 by 32 chunks, and the height of
    /// each of its blocks fits in `i32`.
    pub open spec fn valid(self) -> bool {
        &&& 0 <= self.x < 32
        &&& 0 <= self.z < 32
        &&& i32::MIN <= self.y_start <= i32::MAX
        &&& self.blocks.len() > 0 ==> self.y_start + (self.blocks.len() - 1) / 256 <= i32::MAX
    }
}

/// A chunk as the decoder of region files hands it out: where it lies in its
/// region, its generation status, the height at which it starts and the
/// names of its blocks, layer by layer from the bottom.
///
/// The chunk borrows its texts from the decoder: it is made, searched and
/// dropped while the decoder's own value lives.
#[derive(Debug)]
pub struct DecodedChunk<'a> {
    x: usize,
    z: usize,
    status: &'a str,
    y_start: i32,
    blocks: Vec<&'a str>,
}

impl<'a> View for DecodedChunk<'a> {
    type V = ChunkModel;

    closed spec fn view(&self) -> ChunkModel {
        ChunkModel {
            x: self.x as int,
            z: self.z as int,
            status: self.status@,
            y_start: self.y_start as int,
            blocks: self.blocks.deep_view(),
        }
    }
}

impl<'a> DecodedChunk<'a> {
    #[verifier::type_invariant]
    spec fn well_formed(&self) -> bool {
        self@.valid()
    }

    /// Makes a chunk from what the decoder found. `x` and `z` say where the
    /// chunk lies in its region and must be below 32; the height
    /// `y_start + i / 256` of every block `i` must fit in `i32`. Where one
    /// of these fails, and only there, the chunk is refused with
    /// `DecodeError`.
    pub fn new(x: usize, z: usize, status: &'a str, y_start: i32, blocks: Vec<&'a str>) -> (chunk:
        Result<DecodedChunk<'a>, SearchError>)
        ensures
            ({
                let model = ChunkModel {
                    x: x as int,
                    z: z as int,
                    status: status@,
                    y_start: y_start as int,
                    blocks: blocks.deep_view(),
                };
                match chunk {
                    Ok(c) => c@ == model && model.valid(),
                    Err(e) => e == SearchError::DecodeError && !model.valid(),
                }
            }),
    {
        if x >= 32 || z >= 32 {
            return Err(SearchError::DecodeError);
        }
        let count = blocks.len();
        if count > 0 && y_start as i64 + ((count - 1) / 256) as i64 > i32::MAX as i64 {
            return Err(SearchError::DecodeError);
        }
        Ok(DecodedChunk { x, z, status, y_start, blocks })
    }
}

/// The blocks of one chunk whose names hold the text that was searched for.
#[derive(Debug, PartialEq, Eq)]
pub struct BlockResults {
    /// The world position of the chunk: of its block with index 0.
    pub chunk: (i32, i32, i32),
    /// The world position and the name of each block found, by rising index.
    pub blocks: Vec<((i32, i32, i32), String)>,
}

/// The blocks found in one chunk, as a mathematical value.
pub struct BlockResultsModel {
    /// The world position of the chunk.
    pub chunk: (int, int, int),
    /// The world position and the name of each block found.
    pub blocks: Seq<((int, int, int), Seq<char>)>,
}

/// A position given in `i32` coordinates, as a point of space.
pub open spec fn as_position(p: (i32, i32, i32)) -> (int, int, int) {
    (p.0 as int, p.1 as int, p.2 as int)
}

/// A block that was found, as a mathematical value.
pub open spec fn match_model(m: ((i32, i32, i32), String)) -> ((int, int, int), Seq<char>) {
    (as_position(m.0), m.1@)
}

/// The blocks that were found, as mathematical values.
pub open spec fn matches_model(blocks: Seq<((i32, i32, i32), String)>) -> Seq<
    ((int, int, int), Seq<char>),
> {
    blocks.map_values(|m: ((i32, i32, i32), String)| match_model(m))
}

impl View for BlockResults {
    type V = BlockResultsModel;

    open spec fn view(&self) -> BlockResultsModel {
        BlockResultsModel { chunk: as_position(self.chunk), blocks: matches_model(self.blocks@) }
    }
}

/// The results of many chunks, as mathematical values.
pub open spec fn results_model(results: Seq<BlockResults>) -> Seq<BlockResultsModel> {
    results.map_values(|r: BlockResults| r@)
}

/// The world position of a chunk: of its block with index 0.
pub open spec fn chunk_origin(region: (i32, i32), chunk: ChunkModel) -> (int, int, int) {
    (region.0 + chunk.x * 16, chunk.y_start, region.1 + chunk.z * 16)
}

/// The world position of the block with index `index` in the chunk that
/// begins at `origin`.
pub open spec fn block_position(origin: (int, int, int), index: int) -> (int, int, int) {
    (origin.0 + index % 16, origin.1 + index / 256, origin.2 + (index / 16) % 16)
}

/// The indices below `upto` of the blocks whose names contain `needle`, in
/// rising order.
pub open spec fn matching_indices(blocks: Seq<Seq<char>>, needle: Seq<char>, upto: nat) -> Seq<
    int,
> {
    Seq::new(upto, |i: int| i).filter(|i: int| is_substring(blocks[i], needle))
}

/// The blocks with an index below `upto` whose names contain `needle`, each
/// with its world position, in rising order of the index.
pub open spec fn matches_upto(
    blocks: Seq<Seq<char>>,
    origin: (int, int, int),
    needle: Seq<char>,
    upto: nat,
) -> Seq<((int, int, int), Seq<char>)> {
    matching_indices(blocks, needle, upto).map_values(
        |i: int| (block_position(origin, i), blocks[i]),
    )
}

/// All blocks of `chunk` whose names contain `needle`, each with its world
/// position, in rising order of the index.
pub open spec fn chunk_matches(chunk: ChunkModel, origin: (int, int, int), needle: Seq<char>) -> Seq<
    ((int, int, int), Seq<char>),
> {
    matches_upto(chunk.blocks, origin, needle, chunk.blocks.len())
}

/// What the search reports for one chunk of the region at `region`: nothing
/// where the chunk is not fully generated, where its origin fails the
/// distance filter or where none of its blocks matches; else the chunk's
/// origin with all of its matching blocks.
pub open spec fn chunk_result(
    region: (i32, i32),
    chunk: ChunkModel,
    needle: Seq<char>,
    filter: Option<((i32, i32), i32)>,
) -> Option<BlockResultsModel> {
    let origin = chunk_origin(region, chunk);
    let found = chunk_matches(chunk, origin, needle);
    if chunk.status == FULL_STATUS@ && passes((origin.0, origin.2), filter) && found.len() > 0 {
        Some(BlockResultsModel { chunk: origin, blocks: found })
    } else {
        None
    }
}

/// A chunk that is not fully generated yields nothing, whatever its blocks
/// are named.
pub proof fn lemma_unfinished_chunk_yields_nothing(
    region: (i32, i32),
    chunk: ChunkModel,
    needle: Seq<char>,
    filter: Option<((i32, i32), i32)>,
)
    requires
        chunk.status != FULL_STATUS@,
    ensures
        chunk_result(region, chunk, needle, filter) is None,
{
}

/// Looking at one more block adds that block to the matches if its name
/// contains the needle, and nothing otherwise.
pub proof fn lemma_matches_step(
    blocks: Seq<Seq<char>>,
    origin: (int, int, int),
    needle: Seq<char>,
    upto: nat,
)
    ensures
        matches_upto(blocks, origin, needle, upto + 1) == if is_substring(blocks[upto as int], needle) {
            matches_upto(blocks, origin, needle, upto).push(
                (block_position(origin, upto as int), blocks[upto as int]),
            )
        } else {
            matches_upto(blocks, origin, needle, upto)
        },
{
    let before = Seq::new(upto, |i: int| i);
    let keep = |i: int| is_substring(blocks[i], needle);
    let place = |i: int| (block_position(origin, i), blocks[i]);
    assert(Seq::new(upto + 1, |i: int| i) =~= before.push(upto as int));
    before.lemma_filter_push(upto as int, keep);
    before.filter(keep).lemma_push_map_commute(place, upto as int);
}

/// Every block among the matches is a block of the chunk whose name contains
/// the needle, and stands at the world position that its index gives.
pub proof fn lemma_matches_hold_the_needle(
    blocks: Seq<Seq<char>>,
    origin: (int, int, int),
    needle: Seq<char>,
    upto: nat,
    k: int,
)
    requires
        0 <= k < matches_upto(blocks, origin, needle, upto).len(),
    ensures
        exists|i: int|
            0 <= i < upto && is_substring(#[trigger] blocks[i], needle) && matches_upto(
                blocks,
                origin,
                needle,
                upto,
            )[k] == (block_position(origin, i), blocks[i]),
    decreases upto,
{
    if upto == 0 {
        assert(matches_upto(blocks, origin, needle, 0).len() == 0) by {
            reveal(Seq::filter);
        }
    } else {
        let shorter = (upto - 1) as nat;
        lemma_matches_step(blocks, origin, needle, shorter);
        if k < matches_upto(blocks, origin, needle, shorter).len() {
            lemma_matches_hold_the_needle(blocks, origin, needle, shorter, k);
        } else {
            assert(is_substring(blocks[shorter as int], needle));
        }
    }
}

/// Every block of the chunk whose name contains the needle is among the
/// matches.
pub proof fn lemma_matches_miss_nothing(
    blocks: Seq<Seq<char>>,
    origin: (int, int, int),
    needle: Seq<char>,
    upto: nat,
    i: int,
)
    requires
        0 <= i < upto,
        is_substring(blocks[i], needle),
    ensures
        matches_upto(blocks, origin, needle, upto).contains((block_position(origin, i), blocks[i])),
    decreases upto,
{
    let shorter = (upto - 1) as nat;
    lemma_matches_step(blocks, origin, needle, shorter);
    let before = matches_upto(blocks, origin, needle, shorter);
    let all = matches_upto(blocks, origin, needle, upto);
    if i < shorter {
        lemma_matches_miss_nothing(blocks, origin, needle, shorter, i);
        let k = choose|k: int|
            0 <= k < before.len() && before[k] == (block_position(origin, i), blocks[i]);
        assert(all[k] == before[k]);
    } else {
        assert(all[before.len() as int] == (block_position(origin, i), blocks[i]));
    }
}

/// A position moved by `shift` in the horizontal plane.
pub open spec fn moved_position(p: (int, int, int), shift: (int, int)) -> (int, int, int) {
    (p.0 + shift.0, p.1, p.2 + shift.1)
}

/// [`moved_position`] on a block that was found.
pub open spec fn moved_match(shift: (int, int)) -> spec_fn(((int, int, int), Seq<char>)) -> (
    (int, int, int),
    Seq<char>,
) {
    |found: ((int, int, int), Seq<char>)| (moved_position(found.0, shift), found.1)
}

/// The blocks found in a chunk, all moved by `shift`.
pub open spec fn moved_result(result: BlockResultsModel, shift: (int, int)) -> BlockResultsModel {
    BlockResultsModel {
        chunk: moved_position(result.chunk, shift),
        blocks: result.blocks.map_values(moved_match(shift)),
    }
}

/// Moving the origin of a chunk moves the blocks found in it by as much,
/// and changes nothing else about them.
pub proof fn lemma_matches_move_with_origin(
    blocks: Seq<Seq<char>>,
    origin: (int, int, int),
    needle: Seq<char>,
    upto: nat,
    shift: (int, int),
)
    ensures
        matches_upto(blocks, moved_position(origin, shift), needle, upto) == matches_upto(
            blocks,
            origin,
            needle,
            upto,
        ).map_values(moved_match(shift)),
    decreases upto,
{
    let there = moved_position(origin, shift);
    if upto == 0 {
        assert(matches_upto(blocks, there, needle, 0) =~= Seq::empty()) by {
            reveal(Seq::filter);
        }
        assert(matches_upto(blocks, origin, needle, 0) =~= Seq::empty()) by {
            reveal(Seq::filter);
        }
        assert(matches_upto(blocks, there, needle, 0) =~= matches_upto(
            blocks,
            origin,
            needle,
            0,
        ).map_values(moved_match(shift)));
    } else {
        let shorter = (upto - 1) as nat;
        lemma_matches_move_with_origin(blocks, origin, needle, shorter, shift);
        lemma_matches_step(blocks, origin, needle, shorter);
        lemma_matches_step(blocks, there, needle, shorter);
        let here = matches_upto(blocks, origin, needle, shorter);
        if is_substring(blocks[shorter as int], needle) {
            here.lemma_push_map_commute(
                moved_match(shift),
                (block_position(origin, shorter as int), blocks[shorter as int]),
            );
        }
    }
}

/// Moving a region and the origin of the distance filter by the same vector
/// moves what is found in each chunk by that vector, and changes nothing
/// else: the same chunks are reported, with the same blocks.
pub proof fn lemma_chunk_result_moves_with_region(
    region: (i32, i32),
    filter: Option<((i32, i32), i32)>,
    moved_region: (i32, i32),
    moved_filter: Option<((i32, i32), i32)>,
    shift: (int, int),
    chunk: ChunkModel,
    needle: Seq<char>,
)
    requires
        moved_region.0 == region.0 + shift.0,
        moved_region.1 == region.1 + shift.1,
        match (filter, moved_filter) {
            (Some((origin, radius)), Some((moved_origin, moved_radius))) => {
                &&& moved_origin.0 == origin.0 + shift.0
                &&& moved_origin.1 == origin.1 + shift.1
                &&& moved_radius == radius
            },
            (None, None) => true,
            _ => false,
        },
    ensures
        chunk_result(moved_region, chunk, needle, moved_filter) == match chunk_result(
            region,
            chunk,
            needle,
            filter,
        ) {
            Some(result) => Some(moved_result(result, shift)),
            None => None,
        },
{
    let origin = chunk_origin(region, chunk);
    assert(chunk_origin(moved_region, chunk) == moved_position(origin, shift));
    lemma_matches_move_with_origin(chunk.blocks, origin, needle, chunk.blocks.len(), shift);
    lemma_filter_ignores_shift((origin.0, origin.2), filter, moved_filter, shift);
}

/// Searches one chunk of the region at `region` for blocks whose names
/// contain `needle`.
///
/// A chunk that is not fully generated, or whose origin fails the distance
/// filter, is passed over. Otherwise every block whose name contains
/// `needle` is reported with its world position, by rising index; a chunk
/// without such a block is not reported at all.
pub fn scan_chunk(
    region: (i32, i32),
    chunk: &DecodedChunk,
    needle: &Vec<char>,
    filter: Option<((i32, i32), i32)>,
) -> (found: Option<BlockResults>)
    requires
        region_in_range(region),
    ensures
        match found {
            Some(r) => chunk_result(region, chunk@, needle@, filter) == Some(r@),
            None => chunk_result(region, chunk@, needle@, filter) is None,
        },
{
    proof {
        use_type_invariant(chunk);
    }
    if !same_text(chunk.status, FULL_STATUS) {
        return None;
    }
    let chunk_x: i32 = region.0 + (chunk.x as i32) * 16;
    let chunk_z: i32 = region.1 + (chunk.z as i32) * 16;
    let chunk_y: i32 = chunk.y_start;
    if !within((chunk_x, chunk_z), filter) {
        return None;
    }
    let ghost origin = chunk_origin(region, chunk@);
    let ghost names = chunk@.blocks;
    let count = chunk.blocks.len();
    let mut blocks: Vec<((i32, i32, i32), String)> = Vec::new();
    let mut name_chars: Vec<char> = Vec::new();
    let mut i: usize = 0;
    assert(matches_model(blocks@) =~= matches_upto(names, origin, needle@, 0)) by {
        reveal(Seq::filter);
    }
    while i < count
        invariant
            i <= count,
            count == chunk.blocks.len(),
            chunk@.valid(),
            region_in_range(region),
            names == chunk.blocks.deep_view(),
            names == chunk@.blocks,
            origin == (chunk_x as int, chunk_y as int, chunk_z as int),
            origin == chunk_origin(region, chunk@),
            matches_model(blocks@) == matches_upto(names, origin, needle@, i as nat),
        decreases count - i,
    {
        let name: &str = chunk.blocks[i];
        fill_chars(name, &mut name_chars);
        assert(names[i as int] == name@);
        proof {
            lemma_matches_step(names, origin, needle@, i as nat);
        }
        if contains_chars(&name_chars, needle) {
            let x: i32 = chunk_x + (i % 16) as i32;
            let z: i32 = chunk_z + ((i / 16) % 16) as i32;
            let y: i32 = (chunk_y as i64 + (i / 256) as i64) as i32;
            let ghost before = blocks@;
            let found = ((x, y, z), name.to_owned());
            assert(match_model(found) == (block_position(origin, i as int), names[i as int]));
            blocks.push(found);
            assert(matches_model(blocks@) =~= matches_model(before).push(match_model(found)));
        }
        i += 1;
    }
    if blocks.len() == 0 {
        None
    } else {
        Some(BlockResults { chunk: (chunk_x, chunk_y, chunk_z), blocks })
    }
}

} // verus!
