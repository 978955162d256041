use minecraft_block_finder::text::chars_of;
use minecraft_block_finder::{scan_chunk, BlockResults, DecodedChunk, SearchError};

fn refused(chunk: Result<DecodedChunk, SearchError>) -> bool {
    matches!(chunk, Err(SearchError::DecodeError))
}

fn names(count: usize, special: &[(usize, &'static str)]) -> Vec<&'static str> {
    let mut blocks = vec!["minecraft:air"; count];
    for (index, name) in special {
        blocks[*index] = name;
    }
    blocks
}

fn full(x: usize, z: usize, y_start: i32, blocks: Vec<&'static str>) -> DecodedChunk<'static> {
    DecodedChunk::new(x, z, "minecraft:full", y_start, blocks).unwrap()
}

#[test]
fn chunk_must_lie_within_its_region() {
    assert!(DecodedChunk::new(0, 0, "", 0, vec![]).is_ok());
    assert!(DecodedChunk::new(31, 31, "", 0, vec![]).is_ok());
    assert!(refused(DecodedChunk::new(32, 0, "", 0, vec![])));
    assert!(refused(DecodedChunk::new(0, 32, "", 0, vec![])));
}

#[test]
fn chunk_heights_must_fit() {
    assert!(DecodedChunk::new(0, 0, "", i32::MAX, names(256, &[])).is_ok());
    assert!(refused(DecodedChunk::new(0, 0, "", i32::MAX, names(257, &[]))));
    assert!(DecodedChunk::new(0, 0, "", i32::MAX - 1, names(512, &[])).is_ok());
    assert!(refused(DecodedChunk::new(0, 0, "", i32::MAX - 1, names(513, &[]))));
    assert!(DecodedChunk::new(0, 0, "", i32::MIN, names(1024, &[])).is_ok());
}

#[test]
fn one_block_in_one_chunk() {
    let chunk = full(1, 2, -64, names(4096, &[(5, "minecraft:diamond_ore")]));
    let found = scan_chunk((0, 0), &chunk, &chars_of("diamond_ore"), None);
    assert_eq!(
        found,
        Some(BlockResults {
            chunk: (16, -64, 32),
            blocks: vec![((21, -64, 32), "minecraft:diamond_ore".to_string())],
        })
    );
}

#[test]
fn block_index_gives_x_then_z_then_y() {
    let chunk = full(
        0,
        0,
        10,
        names(
            1024,
            &[(0, "a_ore"), (15, "b_ore"), (16, "c_ore"), (255, "d_ore"), (256, "e_ore"), (256 + 16 * 3 + 7, "f_ore"), (1023, "g_ore")],
        ),
    );
    let found = scan_chunk((512, -1024), &chunk, &chars_of("_ore"), None).unwrap();
    assert_eq!(found.chunk, (512, 10, -1024));
    assert_eq!(
        found.blocks,
        vec![
            ((512, 10, -1024), "a_ore".to_string()),
            ((527, 10, -1024), "b_ore".to_string()),
            ((512, 10, -1023), "c_ore".to_string()),
            ((527, 10, -1009), "d_ore".to_string()),
            ((512, 11, -1024), "e_ore".to_string()),
            ((519, 11, -1021), "f_ore".to_string()),
            ((527, 13, -1009), "g_ore".to_string()),
        ]
    );
}

#[test]
fn chunk_position_is_scaled_by_16() {
    let chunk = full(31, 30, 0, names(1, &[(0, "stone")]));
    let found = scan_chunk((-512, 1024), &chunk, &chars_of("stone"), None).unwrap();
    assert_eq!(found.chunk, (-512 + 496, 0, 1024 + 480));
    assert_eq!(found.blocks, vec![((-16, 0, 1504), "stone".to_string())]);
}

#[test]
fn name_need_only_contain_the_text() {
    let chunk = full(0, 0, 0, names(3, &[(0, "minecraft:diamond_ore"), (1, "minecraft:ore_block"), (2, "minecraft:ORE")]));
    let found = scan_chunk((0, 0), &chunk, &chars_of("ore"), None).unwrap();
    assert_eq!(
        found.blocks,
        vec![
            ((0, 0, 0), "minecraft:diamond_ore".to_string()),
            ((1, 0, 0), "minecraft:ore_block".to_string()),
        ]
    );
}

#[test]
fn chunk_without_a_match_is_not_reported() {
    let chunk = full(0, 0, 0, names(512, &[]));
    assert_eq!(scan_chunk((0, 0), &chunk, &chars_of("diamond_ore"), None), None);
    let empty = full(0, 0, 0, vec![]);
    assert_eq!(scan_chunk((0, 0), &empty, &chars_of(""), None), None);
}

#[test]
fn unfinished_chunk_is_never_searched() {
    for status in ["minecraft:features", "minecraft:empty", "full", "", "minecraft:full "] {
        let chunk = DecodedChunk::new(
            1,
            2,
            status,
            -64,
            names(4096, &[(5, "minecraft:diamond_ore")]),
        )
        .unwrap();
        assert_eq!(scan_chunk((0, 0), &chunk, &chars_of("diamond_ore"), None), None, "{status:?}");
    }
}

#[test]
fn chunk_may_borrow_its_names() {
    let owned: Vec<String> = (0..300).map(|i| format!("block_{i}")).collect();
    let status = String::from("minecraft:full");
    let chunk = DecodedChunk::new(0, 0, &status, 0, owned.iter().map(|n| n.as_str()).collect()).unwrap();
    let found = scan_chunk((0, 0), &chunk, &chars_of("_29"), None).unwrap();
    let expected: Vec<((i32, i32, i32), String)> = vec![
        ((13, 0, 1), "block_29".to_string()),
        ((2, 1, 2), "block_290".to_string()),
        ((3, 1, 2), "block_291".to_string()),
        ((4, 1, 2), "block_292".to_string()),
        ((5, 1, 2), "block_293".to_string()),
        ((6, 1, 2), "block_294".to_string()),
        ((7, 1, 2), "block_295".to_string()),
        ((8, 1, 2), "block_296".to_string()),
        ((9, 1, 2), "block_297".to_string()),
        ((10, 1, 2), "block_298".to_string()),
        ((11, 1, 2), "block_299".to_string()),
    ];
    assert_eq!(found.blocks, expected);
}

#[test]
fn chunk_beyond_the_radius_is_passed_over() {
    let chunk = full(1, 2, -64, names(4096, &[(5, "minecraft:diamond_ore")]));
    let needle = chars_of("diamond_ore");
    // The chunk begins at (16, 32): 16 * 16 + 32 * 32 = 1280.
    assert!(scan_chunk((0, 0), &chunk, &needle, Some(((0, 0), 36))).is_some());
    assert!(scan_chunk((0, 0), &chunk, &needle, Some(((0, 0), 35))).is_none());
    assert!(scan_chunk((0, 0), &chunk, &needle, Some(((16, 32), 0))).is_some());
    assert!(scan_chunk((0, 0), &chunk, &needle, Some(((17, 32), 0))).is_none());
}

#[test]
fn last_region_keeps_its_coordinates_within_i32() {
    let chunk = full(31, 31, i32::MAX, names(256, &[(255, "ore")]));
    let found = scan_chunk((2147483136, 2147483136), &chunk, &chars_of("ore"), None).unwrap();
    assert_eq!(found.chunk, (i32::MAX - 15, i32::MAX, i32::MAX - 15));
    assert_eq!(found.blocks, vec![((i32::MAX, i32::MAX, i32::MAX), "ore".to_string())]);
}
