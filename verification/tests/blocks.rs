//! Selecting blocks, finding block files, and summing up a run over blocks.

use clarity_effects::blocks::{
    block_height_of, block_query, collect_block_entries_for_selection, collect_entries,
    count_query, index_block_files, limit_reached, parse_block_selection, scan_limit, scan_sources,
    validate_block_args, validation_exit_code, validation_summary, BlockScanEntry, BlockSelection, BlockSource,
    ValidateProblem, ValidationRun,
};

fn words(s: &str) -> Vec<String> {
    s.split(' ').map(String::from).collect()
}

fn selection(command: &str) -> Result<BlockSelection, String> {
    let argv = words(command);
    parse_block_selection(argv.get(2), &argv)
}

fn entries(hashes: &[&str], source: BlockSource) -> Vec<BlockScanEntry> {
    hashes
        .iter()
        .map(|hash| BlockScanEntry {
            index_block_hash: hash.to_string(),
            source,
        })
        .collect()
}

#[test]
fn selections_are_read() {
    assert_eq!(selection("c db"), Ok(BlockSelection::All));
    assert_eq!(
        selection("c db prefix 00ab"),
        Ok(BlockSelection::Prefix("00ab".to_string()))
    );
    assert_eq!(selection("c db last 0"), Ok(BlockSelection::Last(0)));
    assert_eq!(
        selection("c db range 3 5"),
        Ok(BlockSelection::HeightRange { start: 3, end: 5 })
    );
    assert_eq!(
        selection("c db index-range 0 18446744073709551615"),
        Ok(BlockSelection::IndexRange {
            start: 0,
            end: u64::MAX
        })
    );
    assert_eq!(
        selection("c db index-range"),
        Ok(BlockSelection::IndexRangeInfo)
    );
    assert_eq!(
        selection("c db naka-index-range 7 9"),
        Ok(BlockSelection::NakaIndexRange { start: 7, end: 9 })
    );
    assert_eq!(
        selection("c db naka-index-range"),
        Ok(BlockSelection::NakaIndexRangeInfo)
    );
}

#[test]
fn selections_are_refused() {
    for (command, message) in [
        ("c db prefix", "Missing <index-block-hash-prefix>"),
        ("c db last", "Missing <block-count>"),
        ("c db last -1", "<block-count> must be a u64"),
        ("c db last 18446744073709551616", "<block-count> must be a u64"),
        ("c db range", "Missing <start-block>"),
        ("c db range x", "<start-block> must be a u64"),
        ("c db range 1", "Missing <end-block>"),
        ("c db range 1 y", "<end-block> must be a u64"),
        ("c db range 5 5", "<start-block> must be < <end-block>"),
        ("c db index-range x", "<start-block> must be a u64"),
        ("c db index-range 1", "Missing <end-block>"),
        ("c db index-range 1 y", "<end-block> must be a u64"),
        ("c db index-range 2 1", "<start-block> must be < <end-block>"),
        ("c db naka-index-range x", "<start-block> must be a u64"),
        ("c db naka-index-range 1", "Missing <end-block>"),
        ("c db naka-index-range 1 y", "<end-block> must be a u64"),
        ("c db naka-index-range 2 2", "<start-block> must be < <end-block>"),
        ("c db first", "Unrecognized option: first"),
    ] {
        assert_eq!(selection(command), Err(message.to_string()), "{command}");
    }
}

#[test]
fn clauses_are_written() {
    for (command, clause) in [
        ("c db", "WHERE orphaned = 0 ORDER BY height ASC"),
        (
            "c db prefix ab",
            "WHERE orphaned = 0 AND index_block_hash LIKE 'ab%' ORDER BY height ASC",
        ),
        (
            "c db last 12",
            "WHERE orphaned = 0 ORDER BY height DESC LIMIT 12",
        ),
        (
            "c db range 3 5",
            "WHERE orphaned = 0 AND height BETWEEN 3 AND 4 ORDER BY height ASC",
        ),
        (
            "c db index-range 10 25",
            "WHERE orphaned = 0 ORDER BY index_block_hash ASC LIMIT 10, 15",
        ),
        (
            "c db naka-index-range 0 1",
            "WHERE orphaned = 0 ORDER BY index_block_hash ASC LIMIT 0, 1",
        ),
    ] {
        assert_eq!(selection(command).unwrap().clause(), clause);
    }
    // Numbers that are out of order are cut off at zero.
    let reversed = BlockSelection::IndexRange { start: 9, end: 2 };
    assert_eq!(
        reversed.clause(),
        "WHERE orphaned = 0 ORDER BY index_block_hash ASC LIMIT 9, 0"
    );
    let nothing = BlockSelection::HeightRange { start: 0, end: 0 };
    assert_eq!(
        nothing.clause(),
        "WHERE orphaned = 0 AND height BETWEEN 0 AND 0 ORDER BY height ASC"
    );
}

#[test]
fn queries_are_written() {
    assert_eq!(
        block_query(BlockSource::Epoch2, "WHERE x"),
        "SELECT index_block_hash FROM staging_blocks WHERE x"
    );
    assert_eq!(
        block_query(BlockSource::Nakamoto, "WHERE x"),
        "SELECT index_block_hash FROM nakamoto_staging_blocks WHERE x"
    );
    assert_eq!(
        count_query(BlockSource::Epoch2),
        "SELECT COUNT(*) FROM staging_blocks WHERE orphaned = 0"
    );
    assert_eq!(
        count_query(BlockSource::Nakamoto),
        "SELECT COUNT(*) FROM nakamoto_staging_blocks WHERE orphaned = 0"
    );
}

#[test]
fn commands_are_read() {
    let args = validate_block_args(words("c --early-exit db last 3")).unwrap();
    assert!(args.early_exit);
    assert_eq!(args.db_path, "db");
    assert_eq!(args.selection, BlockSelection::Last(3));
    let args = validate_block_args(words("c db")).unwrap();
    assert!(!args.early_exit);
    assert_eq!(
        validate_block_args(words("c --early-exit")),
        Err(ValidateProblem::Usage)
    );
    assert_eq!(
        validate_block_args(words("c db last")),
        Err(ValidateProblem::BadSelection(
            "Missing <block-count>".to_string()
        ))
    );
}

#[test]
fn the_last_blocks_come_from_the_later_store_first() {
    let nakamoto = words("n1 n2");
    let epoch2 = words("e1 e2 e3");
    let collect = |count: u64| {
        collect_block_entries_for_selection(&BlockSelection::Last(count), &nakamoto, &epoch2)
    };
    assert!(collect(0).is_empty());
    assert_eq!(collect(1), entries(&["n1"], BlockSource::Nakamoto));
    assert_eq!(collect(2), entries(&["n1", "n2"], BlockSource::Nakamoto));
    let mut four = entries(&["n1", "n2"], BlockSource::Nakamoto);
    four.extend(entries(&["e1", "e2"], BlockSource::Epoch2));
    assert_eq!(collect(4), four);
    assert_eq!(collect(100).len(), 5);
}

#[test]
fn other_selections_take_all_rows() {
    let nakamoto = words("n1");
    let epoch2 = words("e1 e2");
    let mut both = entries(&["e1", "e2"], BlockSource::Epoch2);
    both.extend(entries(&["n1"], BlockSource::Nakamoto));
    let all = BlockSelection::All;
    assert_eq!(
        collect_block_entries_for_selection(&all, &nakamoto, &epoch2),
        both
    );
    let index = BlockSelection::IndexRange { start: 0, end: 9 };
    assert_eq!(
        collect_block_entries_for_selection(&index, &nakamoto, &epoch2),
        entries(&["e1", "e2"], BlockSource::Epoch2)
    );
    let naka = BlockSelection::NakaIndexRange { start: 0, end: 9 };
    assert_eq!(
        collect_block_entries_for_selection(&naka, &nakamoto, &epoch2),
        entries(&["n1"], BlockSource::Nakamoto)
    );
    assert_eq!(
        scan_sources(&BlockSelection::Last(1)),
        [BlockSource::Nakamoto, BlockSource::Epoch2]
    );
    assert_eq!(scan_sources(&all), [BlockSource::Epoch2, BlockSource::Nakamoto]);
    assert_eq!(scan_limit(&BlockSelection::Last(7)), Some(7));
    assert_eq!(scan_limit(&all), None);
}

#[test]
fn collecting_stops_at_the_limit() {
    let mut list = entries(&["a"], BlockSource::Epoch2);
    let rows = words("b c d");
    assert!(collect_entries(&mut list, &rows, BlockSource::Epoch2, Some(3)));
    assert_eq!(list, entries(&["a", "b", "c"], BlockSource::Epoch2));
    assert!(collect_entries(&mut list, &rows, BlockSource::Epoch2, Some(1)));
    assert_eq!(list.len(), 3);
    assert!(!collect_entries(&mut list, &rows, BlockSource::Epoch2, None));
    assert_eq!(list.len(), 6);
    assert!(limit_reached(Some(0), 0));
    assert!(!limit_reached(Some(1), 0));
    assert!(!limit_reached(None, usize::MAX));
}

#[test]
fn a_run_is_summed_up() {
    let mut run = ValidationRun::new(false);
    assert_eq!(run.block_done(&"b1".to_string(), &Ok(())), None);
    assert_eq!(
        run.block_done(&"b2".to_string(), &Err("broken".to_string())),
        None
    );
    assert_eq!(run.completed, 2);
    assert_eq!(
        validation_summary(&run.errors, 2, 61),
        "\nValidation completed with 1 error(s) found in 61s:\n  Block b2: broken\n"
    );
    assert_eq!(validation_exit_code(&run.errors), 1);
    assert_eq!(validation_exit_code(&Vec::new()), 0);
    assert_eq!(
        validation_summary(&Vec::new(), 12, 3),
        "\nFinished validating 12 blocks in 3s\n"
    );
}

#[test]
fn a_run_may_stop_at_the_first_error() {
    let mut run = ValidationRun::new(true);
    assert_eq!(run.block_done(&"b1".to_string(), &Ok(())), None);
    let stop = run.block_done(&"b2".to_string(), &Err("broken".to_string()));
    assert_eq!(stop, Some("Block b2: broken".to_string()));
    assert_eq!(run.completed, 1);
    assert!(run.errors.is_empty());
}

#[test]
fn block_files_are_known_by_their_names() {
    for (name, height) in [
        ("0.json", Some(0)),
        ("00012.json", Some(12)),
        ("18446744073709551615.json", Some(u64::MAX)),
        ("18446744073709551616.json", None),
        (".json", None),
        ("12.jsonx", None),
        ("12xjson", None),
        ("12.json\n", None),
        ("x12.json", None),
        ("+12.json", None),
        ("\u{661}.json", None),
        ("12.JSON", None),
        ("12", None),
        ("", None),
    ] {
        assert_eq!(block_height_of(&name.to_string()), height, "{name:?}");
    }
}

#[test]
fn block_files_are_sorted_by_height() {
    let names = words("10.json 9.json notes.txt 010.json 2.json");
    let files: Vec<(u64, String)> = [
        (2, "2.json"),
        (9, "9.json"),
        (10, "10.json"),
        (10, "010.json"),
    ]
    .iter()
    .map(|(height, name)| (*height, name.to_string()))
    .collect();
    assert_eq!(index_block_files(&names), files);
    assert!(index_block_files(&Vec::new()).is_empty());
}
