//! Which blocks are validated, and in which order.

use vstd::prelude::*;

use crate::codes::option_view;
use crate::ordered::{lemma_push_members, views, Data};
use crate::text::{
    all_digits, decimal, digits, is_digit, is_text, law_numbers_are_read_back, lemma_digits,
    number_in, parse_u64,
};

verus! {

/// Where a block is stored.
#[derive(Debug, Clone, Copy, PartialEq, Eq, Structural)]
pub enum BlockSource {
    Nakamoto,
    Epoch2,
}

/// A block to be validated.
#[derive(Debug, Clone, PartialEq, Eq)]
pub struct BlockScanEntry {
    pub index_block_hash: String,
    pub source: BlockSource,
}

pub ghost struct EntryV {
    pub index_block_hash: Seq<char>,
    pub source: BlockSource,
}

impl View for BlockScanEntry {
    type V = EntryV;

    open spec fn view(&self) -> EntryV {
        EntryV { index_block_hash: self.index_block_hash@, source: self.source }
    }
}

/// The blocks that a command is about.
#[derive(Debug, Clone, PartialEq, Eq)]
pub enum BlockSelection {
    All,
    Prefix(String),
    Last(u64),
    HeightRange { start: u64, end: u64 },
    IndexRange { start: u64, end: u64 },
    NakaIndexRange { start: u64, end: u64 },
    IndexRangeInfo,
    NakaIndexRangeInfo,
}

pub ghost enum SelectionV {
    All,
    Prefix(Seq<char>),
    Last(u64),
    HeightRange { start: u64, end: u64 },
    IndexRange { start: u64, end: u64 },
    NakaIndexRange { start: u64, end: u64 },
    IndexRangeInfo,
    NakaIndexRangeInfo,
}

impl View for BlockSelection {
    type V = SelectionV;

    open spec fn view(&self) -> SelectionV {
        match self {
            BlockSelection::All => SelectionV::All,
            BlockSelection::Prefix(prefix) => SelectionV::Prefix(prefix@),
            BlockSelection::Last(count) => SelectionV::Last(*count),
            BlockSelection::HeightRange { start, end } => SelectionV::HeightRange {
                start: *start,
                end: *end,
            },
            BlockSelection::IndexRange { start, end } => SelectionV::IndexRange {
                start: *start,
                end: *end,
            },
            BlockSelection::NakaIndexRange { start, end } => SelectionV::NakaIndexRange {
                start: *start,
                end: *end,
            },
            BlockSelection::IndexRangeInfo => SelectionV::IndexRangeInfo,
            BlockSelection::NakaIndexRangeInfo => SelectionV::NakaIndexRangeInfo,
        }
    }
}

/// The selection only asks how many entries there are.
pub open spec fn is_info(s: SelectionV) -> bool {
    s is IndexRangeInfo || s is NakaIndexRangeInfo
}

/// One number less another, or zero.
pub open spec fn less(a: u64, b: u64) -> nat {
    if a >= b {
        (a - b) as nat
    } else {
        0
    }
}

/// The part of a query that makes a selection.
pub open spec fn clause_text(s: SelectionV) -> Seq<char> {
    match s {
        SelectionV::All => "WHERE orphaned = 0 ORDER BY height ASC"@,
        SelectionV::Prefix(prefix) => "WHERE orphaned = 0 AND index_block_hash LIKE '"@ + prefix
            + "%' ORDER BY height ASC"@,
        SelectionV::Last(count) => "WHERE orphaned = 0 ORDER BY height DESC LIMIT "@ + digits(
            count as nat,
        ),
        SelectionV::HeightRange { start, end } => "WHERE orphaned = 0 AND height BETWEEN "@
            + digits(start as nat) + " AND "@ + digits(less(end, 1)) + " ORDER BY height ASC"@,
        SelectionV::IndexRange { start, end } => index_clause_text(start, end),
        SelectionV::NakaIndexRange { start, end } => index_clause_text(start, end),
        SelectionV::IndexRangeInfo | SelectionV::NakaIndexRangeInfo => ""@,
    }
}

pub open spec fn index_clause_text(start: u64, end: u64) -> Seq<char> {
    "WHERE orphaned = 0 ORDER BY index_block_hash ASC LIMIT "@ + digits(start as nat) + ", "@
        + digits(less(end, start))
}

fn minus(a: u64, b: u64) -> (c: u64)
    ensures
        c == less(a, b),
{
    if a >= b {
        a - b
    } else {
        0
    }
}

fn index_clause(start: u64, end: u64) -> (s: String)
    ensures
        s@ == index_clause_text(start, end),
{
    let mut s = "WHERE orphaned = 0 ORDER BY index_block_hash ASC LIMIT ".to_string();
    s.append(decimal(start as u128).as_str());
    s.append(", ");
    s.append(decimal(minus(end, start) as u128).as_str());
    s
}

impl BlockSelection {
    /// The part of a query that makes the selection.
    pub fn clause(&self) -> (s: String)
        requires
            !is_info(self@),
        ensures
            s@ == clause_text(self@),
    {
        match self {
            BlockSelection::All => "WHERE orphaned = 0 ORDER BY height ASC".to_string(),
            BlockSelection::Prefix(prefix) => {
                let mut s = "WHERE orphaned = 0 AND index_block_hash LIKE '".to_string();
                s.append(prefix.as_str());
                s.append("%' ORDER BY height ASC");
                s
            },
            BlockSelection::Last(count) => {
                let mut s = "WHERE orphaned = 0 ORDER BY height DESC LIMIT ".to_string();
                s.append(decimal(*count as u128).as_str());
                s
            },
            BlockSelection::HeightRange { start, end } => {
                let mut s = "WHERE orphaned = 0 AND height BETWEEN ".to_string();
                s.append(decimal(*start as u128).as_str());
                s.append(" AND ");
                s.append(decimal(minus(*end, 1) as u128).as_str());
                s.append(" ORDER BY height ASC");
                s
            },
            BlockSelection::IndexRange { start, end } => index_clause(*start, *end),
            BlockSelection::NakaIndexRange { start, end } => index_clause(*start, *end),
            BlockSelection::IndexRangeInfo | BlockSelection::NakaIndexRangeInfo => {
                "".to_string()
            },
        }
    }
}

/// Two numbers at a place of the arguments, of which the first is the smaller.
pub open spec fn range_at(argv: Seq<Seq<char>>, i: int) -> Result<(u64, u64), Seq<char>> {
    if i >= argv.len() {
        Err("Missing <start-block>"@)
    } else {
        match number_in(argv[i]) {
            None => Err("<start-block> must be a u64"@),
            Some(start) => if i + 1 >= argv.len() {
                Err("Missing <end-block>"@)
            } else {
                match number_in(argv[i + 1]) {
                    None => Err("<end-block> must be a u64"@),
                    Some(end) => if start >= end {
                        Err("<start-block> must be < <end-block>"@)
                    } else {
                        Ok((start, end))
                    },
                }
            },
        }
    }
}

/// The selection that arguments ask for, or what is wrong with them.
pub open spec fn selection_in(mode: Option<Seq<char>>, argv: Seq<Seq<char>>) -> Result<
    SelectionV,
    Seq<char>,
> {
    match mode {
        None => Ok(SelectionV::All),
        Some(mode) => if mode == "prefix"@ {
            if argv.len() > 3 {
                Ok(SelectionV::Prefix(argv[3]))
            } else {
                Err("Missing <index-block-hash-prefix>"@)
            }
        } else if mode == "last"@ {
            if argv.len() > 3 {
                match number_in(argv[3]) {
                    Some(count) => Ok(SelectionV::Last(count)),
                    None => Err("<block-count> must be a u64"@),
                }
            } else {
                Err("Missing <block-count>"@)
            }
        } else if mode == "range"@ {
            match range_at(argv, 3) {
                Ok((start, end)) => Ok(SelectionV::HeightRange { start, end }),
                Err(e) => Err(e),
            }
        } else if mode == "index-range"@ {
            if argv.len() <= 3 {
                Ok(SelectionV::IndexRangeInfo)
            } else {
                match range_at(argv, 3) {
                    Ok((start, end)) => Ok(SelectionV::IndexRange { start, end }),
                    Err(e) => Err(e),
                }
            }
        } else if mode == "naka-index-range"@ {
            if argv.len() <= 3 {
                Ok(SelectionV::NakaIndexRangeInfo)
            } else {
                match range_at(argv, 3) {
                    Ok((start, end)) => Ok(SelectionV::NakaIndexRange { start, end }),
                    Err(e) => Err(e),
                }
            }
        } else {
            Err("Unrecognized option: "@ + mode)
        },
    }
}

/// Reads two numbers, of which the first is the smaller.
fn parse_range(argv: &Vec<String>, i: usize) -> (r: Result<(u64, u64), String>)
    requires
        i < usize::MAX,
    ensures
        match r {
            Ok(range) => range_at(views(argv@), i as int) == Ok::<(u64, u64), Seq<char>>(range),
            Err(e) => range_at(views(argv@), i as int) == Err::<(u64, u64), Seq<char>>(e@),
        },
{
    let ghost all = views(argv@);
    if i >= argv.len() {
        return Err("Missing <start-block>".to_string());
    }
    assert(all[i as int] == argv[i as int]@);
    let start = match parse_u64(argv[i].as_str()) {
        Some(start) => start,
        None => {
            return Err("<start-block> must be a u64".to_string());
        },
    };
    if i + 1 >= argv.len() {
        return Err("Missing <end-block>".to_string());
    }
    assert(all[i + 1] == argv[i + 1]@);
    let end = match parse_u64(argv[i + 1].as_str()) {
        Some(end) => end,
        None => {
            return Err("<end-block> must be a u64".to_string());
        },
    };
    if start >= end {
        return Err("<start-block> must be < <end-block>".to_string());
    }
    Ok((start, end))
}

/// What an optional text holds.
pub open spec fn mode_view(mode: Option<&String>) -> Option<Seq<char>> {
    match mode {
        Some(mode) => Some(mode@),
        None => None,
    }
}

/// Reads the selection that arguments ask for.
pub fn parse_block_selection(mode: Option<&String>, argv: &Vec<String>) -> (r: Result<
    BlockSelection,
    String,
>)
    ensures
        match r {
            Ok(selection) => selection_in(mode_view(mode), views(argv@)) == Ok::<
                SelectionV,
                Seq<char>,
            >(selection@),
            Err(e) => selection_in(mode_view(mode), views(argv@)) == Err::<SelectionV, Seq<char>>(
                e@,
            ),
        },
{
    let mode = match mode {
        Some(mode) => mode,
        None => {
            return Ok(BlockSelection::All);
        },
    };
    let ghost all = views(argv@);
    assert(all.len() > 3 ==> all[3] == argv[3]@);
    if is_text(mode, "prefix") {
        if argv.len() > 3 {
            Ok(BlockSelection::Prefix(argv[3].duplicate()))
        } else {
            Err("Missing <index-block-hash-prefix>".to_string())
        }
    } else if is_text(mode, "last") {
        if argv.len() > 3 {
            match parse_u64(argv[3].as_str()) {
                Some(count) => Ok(BlockSelection::Last(count)),
                None => Err("<block-count> must be a u64".to_string()),
            }
        } else {
            Err("Missing <block-count>".to_string())
        }
    } else if is_text(mode, "range") {
        match parse_range(argv, 3) {
            Ok((start, end)) => Ok(BlockSelection::HeightRange { start, end }),
            Err(e) => Err(e),
        }
    } else if is_text(mode, "index-range") {
        if argv.len() <= 3 {
            return Ok(BlockSelection::IndexRangeInfo);
        }
        match parse_range(argv, 3) {
            Ok((start, end)) => Ok(BlockSelection::IndexRange { start, end }),
            Err(e) => Err(e),
        }
    } else if is_text(mode, "naka-index-range") {
        if argv.len() <= 3 {
            return Ok(BlockSelection::NakaIndexRangeInfo);
        }
        match parse_range(argv, 3) {
            Ok((start, end)) => Ok(BlockSelection::NakaIndexRange { start, end }),
            Err(e) => Err(e),
        }
    } else {
        let mut e = "Unrecognized option: ".to_string();
        e.append(mode.as_str());
        Err(e)
    }
}

/// A range that arguments ask for holds at least one number.
pub proof fn law_ranges_are_not_empty(mode: Option<Seq<char>>, argv: Seq<Seq<char>>)
    ensures
        selection_in(mode, argv) matches Ok(SelectionV::HeightRange { start, end }) ==> start < end,
        selection_in(mode, argv) matches Ok(SelectionV::IndexRange { start, end }) ==> start < end,
        selection_in(mode, argv) matches Ok(SelectionV::NakaIndexRange { start, end }) ==> start
            < end,
{
}

/// The arguments of the command that validates blocks.
#[derive(Debug, PartialEq, Eq)]
pub struct ValidateArgs {
    pub early_exit: bool,
    pub db_path: String,
    pub selection: BlockSelection,
}

/// Why the arguments are refused.
#[derive(Debug, Clone, PartialEq, Eq)]
pub enum ValidateProblem {
    /// There is no database.
    Usage,
    /// The selection is not one.
    BadSelection(String),
}

/// The command is to stop at the first error.
pub open spec fn exits_early(argv: Seq<Seq<char>>) -> bool {
    argv.len() > 1 && argv[1] == "--early-exit"@
}

/// The arguments without the flag that stops at the first error.
pub open spec fn without_early_exit(argv: Seq<Seq<char>>) -> Seq<Seq<char>> {
    if exits_early(argv) {
        argv.remove(1)
    } else {
        argv
    }
}

/// The mode of a selection, if one is given.
pub open spec fn mode_in(args: Seq<Seq<char>>) -> Option<Seq<char>> {
    if args.len() > 2 {
        Some(args[2])
    } else {
        None
    }
}

/// Reads the arguments of `validate-block`.
pub fn validate_block_args(argv: Vec<String>) -> (r: Result<ValidateArgs, ValidateProblem>)
    ensures
        ({
            let args = without_early_exit(views(argv@));
            match r {
                Ok(v) => {
                    &&& v.early_exit == exits_early(views(argv@))
                    &&& args.len() > 1
                    &&& v.db_path@ == args[1]
                    &&& selection_in(mode_in(args), args) == Ok::<SelectionV, Seq<char>>(
                        v.selection@,
                    )
                },
                Err(ValidateProblem::Usage) => args.len() <= 1,
                Err(ValidateProblem::BadSelection(e)) => {
                    &&& args.len() > 1
                    &&& selection_in(mode_in(args), args) == Err::<SelectionV, Seq<char>>(e@)
                },
            }
        }),
{
    let ghost all = views(argv@);
    let mut args = argv;
    let mut early_exit = false;
    if args.len() > 1 {
        assert(all[1] == args[1]@);
        if is_text(&args[1], "--early-exit") {
            let ghost before = args@;
            args.remove(1);
            assert(views(args@) =~= views(before).remove(1));
            early_exit = true;
        }
    }
    assert(views(args@) == without_early_exit(all));
    if args.len() <= 1 {
        return Err(ValidateProblem::Usage);
    }
    let mode = if args.len() > 2 {
        Some(&args[2])
    } else {
        None
    };
    assert(mode_view(mode) == mode_in(views(args@)));
    match parse_block_selection(mode, &args) {
        Ok(selection) => Ok(ValidateArgs { early_exit, db_path: args[1].duplicate(), selection }),
        Err(e) => Err(ValidateProblem::BadSelection(e)),
    }
}

/// As many entries are there as are wanted.
pub open spec fn enough(limit: Option<u64>, current: nat) -> bool {
    limit matches Some(max) && current >= max as usize
}

/// As many entries are there as are wanted.
pub fn limit_reached(limit: Option<u64>, current: usize) -> (b: bool)
    ensures
        b == enough(limit, current as nat),
{
    match limit {
        Some(max) => current >= max as usize,
        None => false,
    }
}

/// The entries of rows, one for each.
pub open spec fn entries_of(rows: Seq<Seq<char>>, source: BlockSource) -> Seq<EntryV> {
    rows.map_values(|hash: Seq<char>| EntryV { index_block_hash: hash, source })
}

/// How many rows are taken up: all, or as many as bring the entries to the limit.
/// One row is taken up at least, where the limit is not reached before.
pub open spec fn rows_taken(limit: Option<u64>, before: nat, rows: nat) -> nat {
    match limit {
        None => rows,
        Some(max) => if before >= max as usize {
            0
        } else if before + rows >= max as usize {
            (max as usize - before) as nat
        } else {
            rows
        },
    }
}

/// Adds the entries of rows until the limit is reached, and tells whether it is.
pub fn collect_entries(
    entries: &mut Vec<BlockScanEntry>,
    rows: &Vec<String>,
    source: BlockSource,
    limit: Option<u64>,
) -> (reached: bool)
    ensures
        ({
            let taken = rows_taken(limit, old(entries)@.len(), rows@.len());
            &&& taken <= rows@.len()
            &&& views(final(entries)@) == views(old(entries)@) + entries_of(
                views(rows@).take(taken as int),
                source,
            )
            &&& reached == enough(limit, final(entries)@.len())
        }),
{
    let ghost start = views(entries@);
    let ghost all = views(rows@);
    let ghost taken = rows_taken(limit, entries@.len(), rows@.len());
    proof {
        assert(views(entries@).len() == entries@.len());
        assert(start + entries_of(all.take(0), source) =~= start);
    }
    if limit_reached(limit, entries.len()) {
        return true;
    }
    let mut i: usize = 0;
    while i < rows.len()
        invariant
            i <= rows.len(),
            all == views(rows@),
            start == views(old(entries)@),
            start.len() == old(entries)@.len(),
            taken == rows_taken(limit, old(entries)@.len(), rows@.len()),
            !enough(limit, entries@.len()),
            entries@.len() == start.len() + i,
            views(entries@) == start + entries_of(all.take(i as int), source),
        decreases rows.len() - i,
    {
        let ghost before = entries@;
        entries.push(BlockScanEntry { index_block_hash: rows[i].duplicate(), source });
        proof {
            let e = EntryV { index_block_hash: all[i as int], source };
            assert(views(entries@) =~= views(before).push(e));
            assert(entries_of(all.take(i + 1), source) =~= entries_of(
                all.take(i as int),
                source,
            ).push(e));
            assert(views(entries@) =~= start + entries_of(all.take(i + 1), source));
        }
        i = i + 1;
        if limit_reached(limit, entries.len()) {
            return true;
        }
    }
    false
}

/// The stores that are searched for a selection, in order.
pub open spec fn sources_of(s: SelectionV) -> Seq<BlockSource> {
    match s {
        SelectionV::Last(_) => seq![BlockSource::Nakamoto, BlockSource::Epoch2],
        SelectionV::IndexRange { .. } => seq![BlockSource::Epoch2],
        SelectionV::NakaIndexRange { .. } => seq![BlockSource::Nakamoto],
        _ => seq![BlockSource::Epoch2, BlockSource::Nakamoto],
    }
}

/// How many entries a selection wants at most.
pub open spec fn limit_of(s: SelectionV) -> Option<u64> {
    match s {
        SelectionV::Last(count) => Some(count),
        _ => None,
    }
}

/// The stores that are searched for a selection, in order. The search ends early
/// where the limit is reached.
pub fn scan_sources(selection: &BlockSelection) -> (r: Vec<BlockSource>)
    ensures
        r@ == sources_of(selection@),
{
    let mut r: Vec<BlockSource> = Vec::new();
    match selection {
        BlockSelection::Last(_) => {
            r.push(BlockSource::Nakamoto);
            r.push(BlockSource::Epoch2);
        },
        BlockSelection::IndexRange { .. } => {
            r.push(BlockSource::Epoch2);
        },
        BlockSelection::NakaIndexRange { .. } => {
            r.push(BlockSource::Nakamoto);
        },
        _ => {
            r.push(BlockSource::Epoch2);
            r.push(BlockSource::Nakamoto);
        },
    }
    assert(r@ =~= sources_of(selection@));
    r
}

/// How many entries a selection wants at most.
pub fn scan_limit(selection: &BlockSelection) -> (r: Option<u64>)
    ensures
        r == limit_of(selection@),
{
    match selection {
        BlockSelection::Last(count) => Some(*count),
        _ => None,
    }
}

/// The entries of a selection, out of the rows of both stores.
pub open spec fn selected(
    s: SelectionV,
    nakamoto: Seq<Seq<char>>,
    epoch2: Seq<Seq<char>>,
) -> Seq<EntryV> {
    match s {
        SelectionV::Last(count) => {
            let first = rows_taken(Some(count), 0, nakamoto.len());
            let second = rows_taken(Some(count), first, epoch2.len());
            entries_of(nakamoto.take(first as int), BlockSource::Nakamoto) + entries_of(
                epoch2.take(second as int),
                BlockSource::Epoch2,
            )
        },
        SelectionV::IndexRange { .. } => entries_of(epoch2, BlockSource::Epoch2),
        SelectionV::NakaIndexRange { .. } => entries_of(nakamoto, BlockSource::Nakamoto),
        _ => entries_of(epoch2, BlockSource::Epoch2) + entries_of(
            nakamoto,
            BlockSource::Nakamoto,
        ),
    }
}

/// The entries of a selection, out of the rows that its query gives in both
/// stores. The rows of a store that is not searched do not count.
pub fn collect_block_entries_for_selection(
    selection: &BlockSelection,
    nakamoto: &Vec<String>,
    epoch2: &Vec<String>,
) -> (entries: Vec<BlockScanEntry>)
    ensures
        views(entries@) == selected(selection@, views(nakamoto@), views(epoch2@)),
{
    let mut entries: Vec<BlockScanEntry> = Vec::new();
    proof {
        assert(views(nakamoto@).take(nakamoto@.len() as int) =~= views(nakamoto@));
        assert(views(epoch2@).take(epoch2@.len() as int) =~= views(epoch2@));
        assert(views(entries@) =~= Seq::<EntryV>::empty());
    }
    let ghost goal = selected(selection@, views(nakamoto@), views(epoch2@));
    match selection {
        BlockSelection::Last(limit) => {
            let reached = collect_entries(
                &mut entries,
                nakamoto,
                BlockSource::Nakamoto,
                Some(*limit),
            );
            assert(views(entries@).len() == entries@.len());
            if reached {
                assert(views(epoch2@).take(0) =~= Seq::<Seq<char>>::empty());
                assert(views(entries@) =~= goal);
                return entries;
            }
            collect_entries(&mut entries, epoch2, BlockSource::Epoch2, Some(*limit));
        },
        BlockSelection::IndexRange { .. } => {
            collect_entries(&mut entries, epoch2, BlockSource::Epoch2, None);
        },
        BlockSelection::NakaIndexRange { .. } => {
            collect_entries(&mut entries, nakamoto, BlockSource::Nakamoto, None);
        },
        _ => {
            collect_entries(&mut entries, epoch2, BlockSource::Epoch2, None);
            collect_entries(&mut entries, nakamoto, BlockSource::Nakamoto, None);
        },
    }
    assert(views(entries@) =~= goal);
    entries
}

/// No more entries are selected than are asked for.
pub proof fn law_last_blocks_are_limited(
    count: u64,
    nakamoto: Seq<Seq<char>>,
    epoch2: Seq<Seq<char>>,
)
    ensures
        selected(SelectionV::Last(count), nakamoto, epoch2).len() <= count as usize,
{
}

/// The query for the blocks of a store.
pub open spec fn query_text(source: BlockSource, clause: Seq<char>) -> Seq<char> {
    match source {
        BlockSource::Nakamoto => "SELECT index_block_hash FROM nakamoto_staging_blocks "@ + clause,
        BlockSource::Epoch2 => "SELECT index_block_hash FROM staging_blocks "@ + clause,
    }
}

/// The query for the blocks of a store.
pub fn block_query(source: BlockSource, clause: &str) -> (s: String)
    ensures
        s@ == query_text(source, clause@),
{
    let mut s = match source {
        BlockSource::Nakamoto => "SELECT index_block_hash FROM nakamoto_staging_blocks ".to_string(),
        BlockSource::Epoch2 => "SELECT index_block_hash FROM staging_blocks ".to_string(),
    };
    s.append(clause);
    s
}

/// The query for the number of the blocks of a store.
pub fn count_query(source: BlockSource) -> (s: &'static str)
    ensures
        s@ == (match source {
            BlockSource::Nakamoto => {
                "SELECT COUNT(*) FROM nakamoto_staging_blocks WHERE orphaned = 0"@
            },
            BlockSource::Epoch2 => "SELECT COUNT(*) FROM staging_blocks WHERE orphaned = 0"@,
        }),
{
    match source {
        BlockSource::Nakamoto => "SELECT COUNT(*) FROM nakamoto_staging_blocks WHERE orphaned = 0",
        BlockSource::Epoch2 => "SELECT COUNT(*) FROM staging_blocks WHERE orphaned = 0",
    }
}

/// The line for a block that failed.
pub open spec fn failure_line(error: (String, String)) -> Seq<char> {
    "  Block "@ + error.0@ + ": "@ + error.1@ + "\n"@
}

/// One line for each block that failed.
pub open spec fn failure_lines(errors: Seq<(String, String)>) -> Seq<char>
    decreases errors.len(),
{
    if errors.len() == 0 {
        ""@
    } else {
        failure_lines(errors.drop_last()) + failure_line(errors.last())
    }
}

/// What is printed once all blocks are validated.
pub open spec fn summary_text(errors: Seq<(String, String)>, total: nat, seconds: nat) -> Seq<
    char,
> {
    if errors.len() > 0 {
        "\nValidation completed with "@ + digits(errors.len()) + " error(s) found in "@ + digits(
            seconds,
        ) + "s:\n"@ + failure_lines(errors)
    } else {
        "\nFinished validating "@ + digits(total) + " blocks in "@ + digits(seconds) + "s\n"@
    }
}

fn format_failure_line(error: &(String, String)) -> (s: String)
    ensures
        s@ == failure_line(*error),
{
    let mut s = "  Block ".to_string();
    s.append(error.0.as_str());
    s.append(": ");
    s.append(error.1.as_str());
    s.append("\n");
    s
}

/// Writes what is printed once all blocks are validated.
pub fn validation_summary(errors: &Vec<(String, String)>, total: usize, seconds: u64) -> (s: String)
    ensures
        s@ == summary_text(errors@, total as nat, seconds as nat),
{
    if errors.len() == 0 {
        let mut s = "\nFinished validating ".to_string();
        s.append(decimal(total as u128).as_str());
        s.append(" blocks in ");
        s.append(decimal(seconds as u128).as_str());
        s.append("s\n");
        return s;
    }
    let mut s = "\nValidation completed with ".to_string();
    s.append(decimal(errors.len() as u128).as_str());
    s.append(" error(s) found in ");
    s.append(decimal(seconds as u128).as_str());
    s.append("s:\n");
    let ghost heading = s@;
    let ghost all = errors@;
    let mut i: usize = 0;
    proof {
        reveal_strlit("");
        assert(s@ =~= heading + failure_lines(all.take(0)));
    }
    while i < errors.len()
        invariant
            i <= errors.len(),
            all == errors@,
            s@ == heading + failure_lines(all.take(i as int)),
        decreases errors.len() - i,
    {
        s.append(format_failure_line(&errors[i]).as_str());
        proof {
            assert(all.take(i + 1).drop_last() =~= all.take(i as int));
            assert(s@ =~= heading + failure_lines(all.take(i + 1)));
        }
        i = i + 1;
    }
    assert(all.take(all.len() as int) =~= all);
    s
}

/// The exit code once all blocks are validated.
pub fn validation_exit_code(errors: &Vec<(String, String)>) -> (code: i32)
    ensures
        code == (if errors@.len() > 0 {
            1i32
        } else {
            0i32
        }),
{
    if errors.len() > 0 {
        1
    } else {
        0
    }
}

/// A run over blocks: how many are done, and which of them failed.
#[derive(Debug, PartialEq, Eq)]
pub struct ValidationRun {
    /// Whether the run is to stop at the first error.
    pub early_exit: bool,
    pub completed: usize,
    /// The blocks that failed, and why.
    pub errors: Vec<(String, String)>,
}

/// What is printed of a block at which a run stops.
pub open spec fn stop_text(hash: Seq<char>, message: Seq<char>) -> Seq<char> {
    "Block "@ + hash + ": "@ + message
}

/// The failures of a run.
pub open spec fn failures(errors: Seq<(String, String)>) -> Seq<(Seq<char>, Seq<char>)> {
    errors.map_values(|e: (String, String)| (e.0@, e.1@))
}

impl ValidationRun {
    /// A run in which no block is done.
    pub fn new(early_exit: bool) -> (r: Self)
        ensures
            r.early_exit == early_exit,
            r.completed == 0,
            r.errors@ == Seq::<(String, String)>::empty(),
    {
        ValidationRun { early_exit, completed: 0, errors: Vec::new() }
    }

    /// Takes down what validating a block gave. The text, if there is one, is what
    /// is printed when the run stops here.
    pub fn block_done(&mut self, hash: &String, result: &Result<(), String>) -> (stop: Option<
        String,
    >)
        requires
            old(self).completed < usize::MAX,
        ensures
            final(self).early_exit == old(self).early_exit,
            match (result, old(self).early_exit) {
                (Err(e), true) => {
                    &&& option_view(stop) == Some(stop_text(hash@, e@))
                    &&& *final(self) == *old(self)
                },
                (Err(e), false) => {
                    &&& stop is None
                    &&& failures(final(self).errors@) == failures(old(self).errors@).push(
                        (hash@, e@),
                    )
                    &&& final(self).completed == old(self).completed + 1
                },
                (Ok(_), _) => {
                    &&& stop is None
                    &&& final(self).errors@ == old(self).errors@
                    &&& final(self).completed == old(self).completed + 1
                },
            },
    {
        if let Err(e) = result {
            if self.early_exit {
                let mut text = "Block ".to_string();
                text.append(hash.as_str());
                text.append(": ");
                text.append(e.as_str());
                return Some(text);
            }
            let ghost before = self.errors@;
            self.errors.push((hash.duplicate(), e.duplicate()));
            assert(failures(self.errors@) =~= failures(before).push((hash@, e@)));
        }
        self.completed = self.completed + 1;
        None
    }
}

/// The pattern of the names of block files: a block height, and the suffix of
/// JSON files.
pub open spec fn block_file_pattern() -> Seq<char> {
    "^([0-9]+)\\.json$"@
}

/// The digits at the start of the name of a block file, if it is one: one or more
/// decimal digits, and nothing but the suffix behind them.
pub open spec fn height_digits(name: Seq<char>) -> Option<Seq<char>> {
    let n = name.len() - 5;
    if n > 0 && name.skip(n) == ".json"@ && all_digits(name.take(n)) {
        Some(name.take(n))
    } else {
        None
    }
}

/// Calls `regex::Regex::new`, `Regex::captures` and `Captures::get`: what the
/// given group of a pattern matches in a text.
///
/// The claim is for one pattern and its first group. There `^` and `$` stand for
/// the two ends of the text, `[0-9]+` for one or more decimal digits of ASCII,
/// and `\.json` for itself, so that the pattern matches exactly the texts that
/// consist of digits and the suffix, and the group is the digits.
#[verifier::external_body]
fn capture(pattern: &str, text: &str, group: usize) -> (r: Option<String>)
    requires
        pattern@ == block_file_pattern(),
        group == 1,
    ensures
        option_view(r) == height_digits(text@),
{
    let captures = regex::Regex::new(pattern).unwrap().captures(text)?;
    captures.get(group).map(|m| m.as_str().to_string())
}

/// The block height in the name of a block file.
pub open spec fn height_in(name: Seq<char>) -> Option<u64> {
    match height_digits(name) {
        Some(d) => number_in(d),
        None => None,
    }
}

/// The block height in the name of a block file, if it is one.
pub fn block_height_of(filename: &String) -> (r: Option<u64>)
    ensures
        r == height_in(filename@),
{
    match capture("^([0-9]+)\\.json$", filename.as_str(), 1) {
        Some(d) => parse_u64(d.as_str()),
        None => None,
    }
}

/// A block file: its height and its name.
pub ghost struct BlockFileV {
    pub height: u64,
    pub name: Seq<char>,
}

/// The block files among files, in their order.
pub open spec fn block_files(names: Seq<Seq<char>>) -> Seq<BlockFileV>
    decreases names.len(),
{
    if names.len() == 0 {
        Seq::empty()
    } else {
        let before = block_files(names.drop_last());
        match height_in(names.last()) {
            Some(height) => before.push(BlockFileV { height, name: names.last() }),
            None => before,
        }
    }
}

/// A list with one more file, behind all that are not higher.
pub open spec fn placed(files: Seq<BlockFileV>, file: BlockFileV) -> Seq<BlockFileV>
    decreases files.len(),
{
    if files.len() == 0 || files.last().height <= file.height {
        files.push(file)
    } else {
        placed(files.drop_last(), file).push(files.last())
    }
}

/// Files by height; those of the same height stay in their order.
pub open spec fn by_height(files: Seq<BlockFileV>) -> Seq<BlockFileV>
    decreases files.len(),
{
    if files.len() == 0 {
        Seq::empty()
    } else {
        placed(by_height(files.drop_last()), files.last())
    }
}

/// What a list of files holds.
pub open spec fn file_views(files: Seq<(u64, String)>) -> Seq<BlockFileV> {
    files.map_values(|f: (u64, String)| BlockFileV { height: f.0, name: f.1@ })
}

/// Where a file belongs: the list is parted there into files that are not higher,
/// and files that are.
proof fn lemma_placed(files: Seq<BlockFileV>, file: BlockFileV, i: int)
    requires
        0 <= i <= files.len(),
        i > 0 ==> files[i - 1].height <= file.height,
        forall|j: int| i <= j < files.len() ==> (#[trigger] files[j]).height > file.height,
    ensures
        placed(files, file) == files.insert(i, file),
    decreases files.len(),
{
    if i == files.len() {
        assert(files.insert(i, file) =~= files.push(file));
    } else {
        let rest = files.drop_last();
        lemma_placed(rest, file, i);
        assert(files[files.len() - 1].height > file.height);
        assert(files.insert(i, file) =~= rest.insert(i, file).push(files.last()));
    }
}

/// The block files among files, by height.
pub fn index_block_files(filenames: &Vec<String>) -> (r: Vec<(u64, String)>)
    ensures
        file_views(r@) == by_height(block_files(views(filenames@))),
{
    let ghost all = views(filenames@);
    let mut r: Vec<(u64, String)> = Vec::new();
    let mut i: usize = 0;
    assert(file_views(r@) =~= Seq::<BlockFileV>::empty());
    while i < filenames.len()
        invariant
            i <= filenames.len(),
            all == views(filenames@),
            file_views(r@) == by_height(block_files(all.take(i as int))),
        decreases filenames.len() - i,
    {
        let name = &filenames[i];
        proof {
            assert(all.take(i + 1).drop_last() =~= all.take(i as int));
            assert(all.take(i + 1).last() == name@);
        }
        if let Some(height) = block_height_of(name) {
            let ghost before = file_views(r@);
            let ghost file = BlockFileV { height, name: name@ };
            let mut k: usize = r.len();
            while k > 0 && r[k - 1].0 > height
                invariant
                    k <= r.len(),
                    forall|j: int| k <= j < r.len() ==> (#[trigger] r[j]).0 > height,
                decreases k,
            {
                k = k - 1;
            }
            let ghost rows = r@;
            r.insert(k, (height, name.duplicate()));
            proof {
                assert forall|j: int| k <= j < before.len() implies (#[trigger] before[j]).height
                    > height by {
                    assert(rows[j].0 > height);
                }
                lemma_placed(before, file, k as int);
                assert(file_views(r@) =~= before.insert(k as int, file));
                let old_files = block_files(all.take(i as int));
                let new_files = block_files(all.take(i + 1));
                assert(new_files == old_files.push(file));
                assert(new_files.drop_last() =~= old_files);
            }
        }
        i = i + 1;
    }
    assert(all.take(all.len() as int) =~= all);
    r
}

/// Files are in the order of their heights.
pub open spec fn ascends(files: Seq<BlockFileV>) -> bool {
    forall|i: int, j: int|
        0 <= i < j < files.len() ==> (#[trigger] files[i]).height <= (#[trigger] files[j]).height
}

proof fn lemma_placed_ascends(files: Seq<BlockFileV>, file: BlockFileV)
    requires
        ascends(files),
    ensures
        ascends(placed(files, file)),
        placed(files, file).to_multiset() == files.to_multiset().insert(file),
        placed(files, file).len() == files.len() + 1,
        forall|i: int|
            0 <= i < placed(files, file).len() ==> (#[trigger] placed(files, file)[i]) == file
                || files.contains(placed(files, file)[i]),
    decreases files.len(),
{
    broadcast use vstd::seq_lib::group_to_multiset_ensures;

    if files.len() == 0 || files.last().height <= file.height {
        let r = files.push(file);
        assert forall|i: int| 0 <= i < r.len() implies (#[trigger] r[i]) == file
            || files.contains(r[i]) by {
            if i < files.len() {
                assert(files[i] == r[i]);
            }
        }
    } else {
        let rest = files.drop_last();
        let last = files.last();
        assert forall|i: int, j: int| 0 <= i < j < rest.len() implies (#[trigger] rest[i]).height
            <= (#[trigger] rest[j]).height by {
            assert(rest[i] == files[i] && rest[j] == files[j]);
        }
        lemma_placed_ascends(rest, file);
        let p = placed(rest, file);
        let r = p.push(last);
        assert(files =~= rest.push(last));
        assert forall|i: int, j: int| 0 <= i < j < r.len() implies (#[trigger] r[i]).height <= (
        #[trigger] r[j]).height by {
            if j < p.len() {
                assert(r[i] == p[i] && r[j] == p[j]);
            } else {
                assert(r[i] == p[i]);
                if p[i] != file {
                    let k = choose|k: int| 0 <= k < rest.len() && rest[k] == p[i];
                    assert(files[k] == p[i]);
                    assert(files[files.len() - 1] == last);
                }
            }
        }
        assert forall|i: int| 0 <= i < r.len() implies (#[trigger] r[i]) == file || files.contains(
            r[i],
        ) by {
            if i < p.len() {
                if p[i] != file {
                    let k = choose|k: int| 0 <= k < rest.len() && rest[k] == p[i];
                    assert(files[k] == r[i]);
                }
            } else {
                assert(files[files.len() - 1] == r[i]);
            }
        }
        assert(r.to_multiset() =~= files.to_multiset().insert(file));
    }
}

/// Sorting block files loses none and adds none, and puts them in the order of
/// their heights.
pub proof fn law_files_by_height(files: Seq<BlockFileV>)
    ensures
        ascends(by_height(files)),
        by_height(files).to_multiset() == files.to_multiset(),
    decreases files.len(),
{
    broadcast use vstd::seq_lib::group_to_multiset_ensures;

    if files.len() > 0 {
        let rest = files.drop_last();
        law_files_by_height(rest);
        lemma_placed_ascends(by_height(rest), files.last());
        assert(files =~= rest.push(files.last()));
    } else {
        assert(by_height(files) =~= files);
    }
}

/// A selection of all blocks, by prefix or by a range of heights is searched for in
/// both stores, and every row of both is selected: those of the earlier store first,
/// each in its order, and none twice.
pub proof fn law_both_stores_are_searched(
    s: SelectionV,
    nakamoto: Seq<Seq<char>>,
    epoch2: Seq<Seq<char>>,
    k: int,
)
    requires
        s is All || s is Prefix || s is HeightRange,
    ensures
        sources_of(s) == seq![BlockSource::Epoch2, BlockSource::Nakamoto],
        limit_of(s) is None,
        selected(s, nakamoto, epoch2).len() == nakamoto.len() + epoch2.len(),
        0 <= k < epoch2.len() ==> selected(s, nakamoto, epoch2)[k] == (EntryV {
            index_block_hash: epoch2[k],
            source: BlockSource::Epoch2,
        }),
        0 <= k < nakamoto.len() ==> selected(s, nakamoto, epoch2)[epoch2.len() + k] == (EntryV {
            index_block_hash: nakamoto[k],
            source: BlockSource::Nakamoto,
        }),
{
}

/// A range of places is searched for in one store, which the selection tells, and
/// every row of that store is selected, in order, and none of the other.
pub proof fn law_one_store_is_searched(
    s: SelectionV,
    nakamoto: Seq<Seq<char>>,
    epoch2: Seq<Seq<char>>,
    k: int,
)
    ensures
        s is IndexRange ==> {
            &&& sources_of(s) == seq![BlockSource::Epoch2]
            &&& limit_of(s) is None
            &&& selected(s, nakamoto, epoch2).len() == epoch2.len()
            &&& 0 <= k < epoch2.len() ==> selected(s, nakamoto, epoch2)[k] == (EntryV {
                index_block_hash: epoch2[k],
                source: BlockSource::Epoch2,
            })
        },
        s is NakaIndexRange ==> {
            &&& sources_of(s) == seq![BlockSource::Nakamoto]
            &&& limit_of(s) is None
            &&& selected(s, nakamoto, epoch2).len() == nakamoto.len()
            &&& 0 <= k < nakamoto.len() ==> selected(s, nakamoto, epoch2)[k] == (EntryV {
                index_block_hash: nakamoto[k],
                source: BlockSource::Nakamoto,
            })
        },
{
}

/// The last blocks are as many as are asked for, or all where there are fewer; they
/// are taken from the later store first, and the earlier one fills up.
pub proof fn law_last_blocks_fill_up(
    count: u64,
    nakamoto: Seq<Seq<char>>,
    epoch2: Seq<Seq<char>>,
    k: int,
)
    requires
        count <= usize::MAX,
    ensures
        sources_of(SelectionV::Last(count)) == seq![BlockSource::Nakamoto, BlockSource::Epoch2],
        limit_of(SelectionV::Last(count)) == Some(count),
        ({
            let all = selected(SelectionV::Last(count), nakamoto, epoch2);
            &&& all.len() == (if count <= nakamoto.len() + epoch2.len() {
                count as nat
            } else {
                nakamoto.len() + epoch2.len()
            })
            &&& 0 <= k < all.len() && k < nakamoto.len() ==> all[k] == (EntryV {
                index_block_hash: nakamoto[k],
                source: BlockSource::Nakamoto,
            })
            &&& nakamoto.len() <= k < all.len() ==> all[k] == (EntryV {
                index_block_hash: epoch2[k - nakamoto.len()],
                source: BlockSource::Epoch2,
            })
        }),
{
}

/// Without a limit all rows are taken up. With a limit the entries do not go past it
/// unless they were there before, and a row is left only where the limit is reached.
pub proof fn law_rows_are_taken_up_to_the_limit(limit: Option<u64>, before: nat, rows: nat)
    ensures
        rows_taken(limit, before, rows) <= rows,
        limit is None ==> rows_taken(limit, before, rows) == rows && !enough(limit, before),
        limit matches Some(max) ==> max <= usize::MAX ==> {
            let after = before + rows_taken(limit, before, rows);
            &&& before <= max ==> after <= max
            &&& before >= max ==> after == before
            &&& after < max ==> rows_taken(limit, before, rows) == rows
            &&& enough(limit, after) <==> after >= max
        },
{
}

/// Two numbers of which the first is the smaller stand at a place of the arguments.
pub open spec fn range_stands(argv: Seq<Seq<char>>, i: int, start: u64, end: u64) -> bool {
    &&& i + 1 < argv.len()
    &&& number_in(argv[i]) == Some(start)
    &&& number_in(argv[i + 1]) == Some(end)
    &&& start < end
}

/// What a mode selects: without a mode all blocks are selected; the modes are those
/// of the prefix, of the last blocks, of a range of heights, and of ranges of places
/// in each of the two stores, where no range asks for the number of places. Anything
/// else is refused.
pub proof fn law_modes_select(mode: Option<Seq<char>>, argv: Seq<Seq<char>>, s: SelectionV)
    ensures
        selection_in(mode, argv) == Ok::<SelectionV, Seq<char>>(s) <==> {
            ||| mode is None && s is All
            ||| mode == Some("prefix"@) && argv.len() > 3 && s == SelectionV::Prefix(argv[3])
            ||| mode == Some("last"@) && argv.len() > 3 && (s matches SelectionV::Last(count)
                && number_in(argv[3]) == Some(count))
            ||| mode == Some("range"@) && (s matches SelectionV::HeightRange { start, end }
                && range_stands(argv, 3, start, end))
            ||| mode == Some("index-range"@) && (s matches SelectionV::IndexRange { start, end }
                && range_stands(argv, 3, start, end))
            ||| mode == Some("naka-index-range"@) && (
            s matches SelectionV::NakaIndexRange { start, end } && range_stands(
                argv,
                3,
                start,
                end,
            ))
            ||| mode == Some("index-range"@) && argv.len() <= 3 && s is IndexRangeInfo
            ||| mode == Some("naka-index-range"@) && argv.len() <= 3 && s is NakaIndexRangeInfo
        },
{
    reveal_strlit("prefix");
    reveal_strlit("last");
    reveal_strlit("range");
    reveal_strlit("index-range");
    reveal_strlit("naka-index-range");
    assert("prefix"@.len() == 6);
    assert("last"@.len() == 4);
    assert("range"@.len() == 5);
    assert("index-range"@.len() == 11);
    assert("naka-index-range"@.len() == 16);
}

/// The flag that stops at the first error is known only in the first place, and all
/// other arguments keep their order without it.
pub proof fn law_early_exit_is_taken_out(argv: Seq<Seq<char>>, k: int)
    requires
        0 <= k < argv.len(),
    ensures
        exits_early(argv) <==> argv.len() > 1 && argv[1] == "--early-exit"@,
        !exits_early(argv) ==> without_early_exit(argv) == argv,
        exits_early(argv) ==> {
            &&& without_early_exit(argv).len() == argv.len() - 1
            &&& k < 1 ==> without_early_exit(argv)[k] == argv[k]
            &&& k > 1 ==> without_early_exit(argv)[k - 1] == argv[k]
        },
        mode_in(argv) == (if argv.len() > 2 {
            Some(argv[2])
        } else {
            None
        }),
{
}

/// A name is that of a block file exactly if it consists of digits, at least one, and
/// the suffix, and the digits tell the height as long as it fits in 64 bits.
pub proof fn law_block_files_are_named_by_height(name: Seq<char>, height: nat)
    ensures
        height <= u64::MAX ==> height_in(digits(height) + ".json"@) == Some(height as u64),
        height_in(name) is Some ==> name.len() > 5 && name.skip(name.len() - 5) == ".json"@
            && forall|i: int|
            0 <= i < name.len() - 5 ==> '0' <= #[trigger] name[i] && name[i] <= '9',
{
    reveal_strlit(".json");
    law_numbers_are_read_back(height);
    let written = digits(height) + ".json"@;
    let n = written.len() - 5;
    assert(written.skip(n) =~= ".json"@);
    assert(written.take(n) =~= digits(height));
    lemma_digits(height);
    if height_in(name) is Some {
        assert forall|i: int| 0 <= i < name.len() - 5 implies '0' <= #[trigger] name[i] && name[i]
            <= '9' by {
            assert(is_digit(name.take(name.len() - 5)[i]));
        }
    }
}

/// Every file that is named by a height is a block file of that height, and there
/// are no others.
pub proof fn law_block_files_are_those_with_a_height(names: Seq<Seq<char>>, file: BlockFileV)
    ensures
        block_files(names).contains(file) <==> names.contains(file.name) && height_in(file.name)
            == Some(file.height),
        block_files(names).len() <= names.len(),
    decreases names.len(),
{
    if names.len() > 0 {
        let rest = names.drop_last();
        let last = names.last();
        law_block_files_are_those_with_a_height(rest, file);
        assert(names =~= rest.push(last));
        lemma_push_members(rest, last, file.name);
        if let Some(height) = height_in(last) {
            lemma_push_members(block_files(rest), BlockFileV { height, name: last }, file);
        }
    }
}

/// The files of one height.
pub open spec fn of_height(files: Seq<BlockFileV>, height: u64) -> Seq<BlockFileV>
    decreases files.len(),
{
    if files.len() == 0 {
        Seq::empty()
    } else if files.last().height == height {
        of_height(files.drop_last(), height).push(files.last())
    } else {
        of_height(files.drop_last(), height)
    }
}

proof fn lemma_placed_of_height(files: Seq<BlockFileV>, file: BlockFileV, height: u64)
    ensures
        of_height(placed(files, file), height) == (if file.height == height {
            of_height(files, height).push(file)
        } else {
            of_height(files, height)
        }),
    decreases files.len(),
{
    if files.len() == 0 || files.last().height <= file.height {
        assert(files.push(file).drop_last() =~= files);
    } else {
        let rest = files.drop_last();
        lemma_placed_of_height(rest, file, height);
        assert(placed(files, file).drop_last() =~= placed(rest, file));
        if file.height == height {
            assert(of_height(files, height) == of_height(rest, height));
        }
    }
}

/// Block files of the same height keep their order when they are sorted.
pub proof fn law_files_of_a_height_keep_their_order(files: Seq<BlockFileV>, height: u64)
    ensures
        of_height(by_height(files), height) == of_height(files, height),
    decreases files.len(),
{
    if files.len() > 0 {
        law_files_of_a_height_keep_their_order(files.drop_last(), height);
        lemma_placed_of_height(by_height(files.drop_last()), files.last(), height);
    }
}

/// What a selection asks of a store: blocks that are not orphaned, by height but for
/// ranges of places, which go by hash; a range of heights from its start up to the
/// height before its end, and a range of places from its start on, as many as lie
/// before its end.
pub proof fn law_clauses_select(s: SelectionV, start: u64, end: u64)
    requires
        start < end,
    ensures
        clause_text(SelectionV::All) == "WHERE orphaned = 0 ORDER BY height ASC"@,
        s matches SelectionV::Prefix(prefix) ==> clause_text(s)
            == "WHERE orphaned = 0 AND index_block_hash LIKE '"@ + prefix
            + "%' ORDER BY height ASC"@,
        s matches SelectionV::Last(count) ==> clause_text(s)
            == "WHERE orphaned = 0 ORDER BY height DESC LIMIT "@ + digits(count as nat),
        clause_text(SelectionV::HeightRange { start, end })
            == "WHERE orphaned = 0 AND height BETWEEN "@ + digits(start as nat) + " AND "@
            + digits((end - 1) as nat) + " ORDER BY height ASC"@,
        clause_text(SelectionV::IndexRange { start, end })
            == "WHERE orphaned = 0 ORDER BY index_block_hash ASC LIMIT "@ + digits(start as nat)
            + ", "@ + digits((end - start) as nat),
        clause_text(SelectionV::NakaIndexRange { start, end }) == clause_text(
            SelectionV::IndexRange { start, end },
        ),
{
}

} // verus!
