use minecraft_block_finder::{arrange, count_by_name, post_process, report, BlockResults, ReportLine};

fn found(chunk: (i32, i32, i32), names: &[&str]) -> BlockResults {
    BlockResults {
        chunk,
        blocks: names
            .iter()
            .enumerate()
            .map(|(i, n)| ((chunk.0 + i as i32, chunk.1, chunk.2), n.to_string()))
            .collect(),
    }
}

fn counted(position: (i32, i32, i32), name: &str, count: usize) -> ReportLine {
    ReportLine { position, name: name.to_string(), count: Some(count) }
}

fn listed(position: (i32, i32, i32), name: &str) -> ReportLine {
    ReportLine { position, name: name.to_string(), count: None }
}

#[test]
fn three_oak_logs_and_one_spruce_log() {
    let chunk = found((16, -64, 32), &["oak_log", "oak_log", "spruce_log", "oak_log"]);
    assert_eq!(
        count_by_name(&chunk.blocks),
        vec![("oak_log".to_string(), 3), ("spruce_log".to_string(), 1)]
    );
    assert_eq!(
        report(&vec![chunk], false),
        vec![counted((16, -64, 32), "oak_log", 3), counted((16, -64, 32), "spruce_log", 1)]
    );
}

#[test]
fn names_are_counted_in_order_of_first_occurrence() {
    let chunk = found((0, 0, 0), &["c", "a", "b", "a", "c", "c", "d", "a"]);
    assert_eq!(
        count_by_name(&chunk.blocks),
        vec![("c".to_string(), 3), ("a".to_string(), 3), ("b".to_string(), 1), ("d".to_string(), 1)]
    );
}

#[test]
fn names_are_grouped_only_when_equal() {
    let chunk = found((0, 0, 0), &["oak_log", "Oak_log", "oak_log ", "oak_log"]);
    assert_eq!(
        count_by_name(&chunk.blocks),
        vec![("oak_log".to_string(), 2), ("Oak_log".to_string(), 1), ("oak_log ".to_string(), 1)]
    );
}

#[test]
fn counting_nothing_gives_nothing() {
    assert_eq!(count_by_name(&vec![]), vec![]);
    assert_eq!(report(&vec![], true), vec![]);
    assert_eq!(report(&vec![], false), vec![]);
}

#[test]
fn counts_add_up_to_the_blocks_listed() {
    let chunks = vec![
        found((0, 0, 0), &["a", "b", "a", "c", "b", "a"]),
        found((16, 0, 0), &["x"]),
        found((32, 0, 0), &["y", "y", "y", "y"]),
    ];
    for chunk in &chunks {
        let one = vec![BlockResults { chunk: chunk.chunk, blocks: chunk.blocks.clone() }];
        let total: usize = report(&one, false).iter().map(|line| line.count.unwrap()).sum();
        assert_eq!(total, report(&one, true).len());
        assert_eq!(total, chunk.blocks.len());
    }
}

#[test]
fn every_block_is_listed_in_order() {
    let chunks = vec![found((0, 5, 0), &["a", "b", "a"]), found((16, 6, 32), &["c"])];
    assert_eq!(
        report(&chunks, true),
        vec![
            listed((0, 5, 0), "a"),
            listed((1, 5, 0), "b"),
            listed((2, 5, 0), "a"),
            listed((16, 6, 32), "c"),
        ]
    );
}

#[test]
fn counted_lines_carry_the_position_of_the_chunk() {
    let chunks = vec![found((0, 5, 0), &["a", "b", "a"]), found((16, 6, 32), &["a"])];
    assert_eq!(
        report(&chunks, false),
        vec![counted((0, 5, 0), "a", 2), counted((0, 5, 0), "b", 1), counted((16, 6, 32), "a", 1)]
    );
}

#[test]
fn without_home_the_order_stays() {
    let results = vec![found((100, 0, 100), &["far"]), found((1, 0, 1), &["near"])];
    let ordered = arrange(results, None);
    assert_eq!(ordered[0].chunk, (100, 0, 100));
    assert_eq!(ordered[1].chunk, (1, 0, 1));
}

#[test]
fn with_home_the_nearest_chunk_is_shown_first() {
    let results = vec![found((12, 0, 16), &["far"]), found((3, 0, 4), &["near"])];
    assert_eq!(
        post_process(results, Some((0, 0)), true),
        vec![listed((3, 0, 4), "near"), listed((12, 0, 16), "far")]
    );
    let results = vec![found((12, 0, 16), &["far", "far"]), found((3, 0, 4), &["near"])];
    assert_eq!(
        post_process(results, Some((0, 0)), false),
        vec![counted((3, 0, 4), "near", 1), counted((12, 0, 16), "far", 2)]
    );
    let results = vec![found((12, 0, 16), &["far"]), found((3, 0, 4), &["near"])];
    assert_eq!(
        post_process(results, None, true),
        vec![listed((12, 0, 16), "far"), listed((3, 0, 4), "near")]
    );
}
