//! What is expected of a block when it is replayed.

use vstd::prelude::*;

use crate::codes::option_view;
use crate::ordered::Data;
use crate::text::{decimal, digits};

verus! {

/// What executing a block costs, by dimension.
#[derive(Debug, Clone, Copy, PartialEq, Eq, Structural)]
pub struct ExecutionCost {
    pub write_length: u64,
    pub write_count: u64,
    pub read_length: u64,
    pub read_count: u64,
    pub runtime: u64,
}

/// Why a tenure changes.
#[derive(Debug, Clone, Copy, PartialEq, Eq, Structural)]
pub enum TenureChangeCause {
    /// A new tenure begins.
    BlockFound,
    /// The tenure is extended in every dimension.
    Extended,
    ExtendedRuntime,
    ExtendedReadCount,
    ExtendedReadLength,
    ExtendedWriteCount,
    ExtendedWriteLength,
}

/// The cost of a block has to be told from that of its parent. It has not where
/// the block begins a tenure, or extends one in every dimension.
pub open spec fn builds_on_parent(cause: Option<TenureChangeCause>) -> bool {
    !(cause matches Some(c) && (c is BlockFound || c is Extended))
}

/// The cost of a parent, without the dimension in which the tenure is extended.
pub open spec fn counted(parent: ExecutionCost, cause: Option<TenureChangeCause>) -> ExecutionCost {
    match cause {
        Some(TenureChangeCause::ExtendedReadCount) => ExecutionCost { read_count: 0, ..parent },
        Some(TenureChangeCause::ExtendedReadLength) => ExecutionCost { read_length: 0, ..parent },
        Some(TenureChangeCause::ExtendedRuntime) => ExecutionCost { runtime: 0, ..parent },
        Some(TenureChangeCause::ExtendedWriteCount) => ExecutionCost { write_count: 0, ..parent },
        Some(TenureChangeCause::ExtendedWriteLength) => ExecutionCost { write_length: 0, ..parent },
        _ => parent,
    }
}

/// One cost is at least another in every dimension.
pub open spec fn covers(a: ExecutionCost, b: ExecutionCost) -> bool {
    &&& a.write_length >= b.write_length
    &&& a.write_count >= b.write_count
    &&& a.read_length >= b.read_length
    &&& a.read_count >= b.read_count
    &&& a.runtime >= b.runtime
}

/// One cost less another, dimension by dimension.
pub open spec fn cost_difference(a: ExecutionCost, b: ExecutionCost) -> ExecutionCost {
    ExecutionCost {
        write_length: (a.write_length - b.write_length) as u64,
        write_count: (a.write_count - b.write_count) as u64,
        read_length: (a.read_length - b.read_length) as u64,
        read_count: (a.read_count - b.read_count) as u64,
        runtime: (a.runtime - b.runtime) as u64,
    }
}

/// The cost that a block is expected to have, given what its tenure costs with it
/// and without it; nothing where the costs do not fit together.
pub open spec fn cost_expected(
    cause: Option<TenureChangeCause>,
    total: ExecutionCost,
    parent: ExecutionCost,
) -> Option<ExecutionCost> {
    if !builds_on_parent(cause) {
        Some(total)
    } else if covers(total, counted(parent, cause)) {
        Some(cost_difference(total, counted(parent, cause)))
    } else {
        None
    }
}

/// Whether the cost of a block has to be told from that of its parent.
pub fn needs_parent_cost(cause: Option<TenureChangeCause>) -> (b: bool)
    ensures
        b == builds_on_parent(cause),
{
    match cause {
        Some(TenureChangeCause::BlockFound) => false,
        Some(TenureChangeCause::Extended) => false,
        _ => true,
    }
}

/// The cost that a block is expected to have. The cost of its parent counts only
/// where it is needed.
pub fn expected_cost(
    cause: Option<TenureChangeCause>,
    total: ExecutionCost,
    parent: ExecutionCost,
) -> (r: Option<ExecutionCost>)
    ensures
        r == cost_expected(cause, total, parent),
{
    if !needs_parent_cost(cause) {
        return Some(total);
    }
    let mut parent = parent;
    match cause {
        Some(TenureChangeCause::ExtendedReadCount) => {
            parent.read_count = 0;
        },
        Some(TenureChangeCause::ExtendedReadLength) => {
            parent.read_length = 0;
        },
        Some(TenureChangeCause::ExtendedRuntime) => {
            parent.runtime = 0;
        },
        Some(TenureChangeCause::ExtendedWriteCount) => {
            parent.write_count = 0;
        },
        Some(TenureChangeCause::ExtendedWriteLength) => {
            parent.write_length = 0;
        },
        _ => {},
    }
    if total.write_length < parent.write_length || total.write_count < parent.write_count
        || total.read_length < parent.read_length || total.read_count < parent.read_count
        || total.runtime < parent.runtime {
        return None;
    }
    Some(
        ExecutionCost {
            write_length: total.write_length - parent.write_length,
            write_count: total.write_count - parent.write_count,
            read_length: total.read_length - parent.read_length,
            read_count: total.read_count - parent.read_count,
            runtime: total.runtime - parent.runtime,
        },
    )
}

/// The costs of a tenure add up: what a block is expected to cost, and what the
/// tenure costs without it, make what the tenure costs with it. In the dimension
/// in which a tenure is extended counting starts anew.
pub proof fn law_costs_add_up(
    cause: Option<TenureChangeCause>,
    total: ExecutionCost,
    parent: ExecutionCost,
)
    requires
        builds_on_parent(cause),
    ensures
        cost_expected(cause, total, parent) matches Some(cost) ==> {
            let before = counted(parent, cause);
            &&& cost.write_length + before.write_length == total.write_length
            &&& cost.write_count + before.write_count == total.write_count
            &&& cost.read_length + before.read_length == total.read_length
            &&& cost.read_count + before.read_count == total.read_count
            &&& cost.runtime + before.runtime == total.runtime
        },
{
}

/// How the view of the burn chain that a block is processed with is found.
#[derive(Debug, Clone, PartialEq, Eq)]
pub enum BurnViewStep {
    /// This is the view.
    Use(String),
    /// This is the view, if it descends from that of the parent.
    Connect { view: String, parent_view: String },
    /// There is none.
    Fail(String),
}

pub ghost enum BurnStepV {
    Use(Seq<char>),
    Connect { view: Seq<char>, parent_view: Seq<char> },
    Fail(Seq<char>),
}

impl View for BurnViewStep {
    type V = BurnStepV;

    open spec fn view(&self) -> BurnStepV {
        match self {
            BurnViewStep::Use(view) => BurnStepV::Use(view@),
            BurnViewStep::Connect { view, parent_view } => BurnStepV::Connect {
                view: view@,
                parent_view: parent_view@,
            },
            BurnViewStep::Fail(message) => BurnStepV::Fail(message@),
        }
    }
}

/// How the view is found: that of the tenure change if there is one, which has to
/// descend from that of the parent if the parent has one, and else that of the
/// parent.
pub open spec fn burn_step(tenure: Option<Seq<char>>, parent: Option<Seq<char>>) -> BurnStepV {
    match (tenure, parent) {
        (Some(view), Some(parent_view)) => BurnStepV::Connect { view, parent_view },
        (Some(view), None) => BurnStepV::Use(view),
        (None, Some(parent_view)) => BurnStepV::Use(parent_view),
        (None, None) => BurnStepV::Fail("Failed to load burn view of parent block ID"@),
    }
}

/// Tells how the view of the burn chain is found.
pub fn burn_view_step(tenure: &Option<String>, parent: &Option<String>) -> (r: BurnViewStep)
    ensures
        r@ == burn_step(option_view(*tenure), option_view(*parent)),
{
    match (tenure, parent) {
        (Some(view), Some(parent_view)) => BurnViewStep::Connect {
            view: view.duplicate(),
            parent_view: parent_view.duplicate(),
        },
        (Some(view), None) => BurnViewStep::Use(view.duplicate()),
        (None, Some(parent_view)) => BurnViewStep::Use(parent_view.duplicate()),
        (None, None) => BurnViewStep::Fail(
            "Failed to load burn view of parent block ID".to_string(),
        ),
    }
}

/// Checks that a view descends from that of the parent: the sortition of the
/// parent is the ancestor that was found at its height.
pub fn check_burn_views_connect(ancestor: &Option<String>, parent_sortition: &String) -> (r: Result<
    (),
    &'static str,
>)
    ensures
        r is Ok <==> option_view(*ancestor) == Some(parent_sortition@),
        r matches Err(e) ==> e@ == (if ancestor is None {
            "Failed to load burn view of parent block ID"@
        } else {
            "Does not connect to burn view of parent block ID"@
        }),
{
    match ancestor {
        None => Err("Failed to load burn view of parent block ID"),
        Some(found) => if found.same(parent_sortition) {
            Ok(())
        } else {
            Err("Does not connect to burn view of parent block ID")
        },
    }
}

/// A block attaches to its parent.
pub fn check_continuous(parent_block_id: &String, expected: &String) -> (r: Result<
    (),
    &'static str,
>)
    ensures
        r is Ok <==> parent_block_id@ == expected@,
        r matches Err(e) ==> e@ == "Discontinuous Nakamoto Stacks block"@,
{
    if parent_block_id.same(expected) {
        Ok(())
    } else {
        Err("Discontinuous Nakamoto Stacks block")
    }
}

/// The hash and the sequence number of the last of some microblocks; those of no
/// microblock where there is none.
pub fn last_microblock(microblocks: &Vec<(String, u16)>, none: &String) -> (r: (String, u16))
    ensures
        (r.0@, r.1) == last_of(microblocks@, none@),
{
    let n = microblocks.len();
    if n == 0 {
        (none.duplicate(), 0)
    } else {
        (microblocks[n - 1].0.duplicate(), microblocks[n - 1].1)
    }
}

/// What is said of a block whose cost is not the expected one.
pub open spec fn unexpected_cost_text(
    block: Seq<char>,
    expected: Seq<char>,
    evaluated: Seq<char>,
) -> Seq<char> {
    "Failed processing block! block = "@ + block + ". Unexpected cost. expected = "@ + expected
        + ", evaluated = "@ + evaluated
}

/// Says that the cost of a block is not the expected one.
pub fn unexpected_cost(block: &str, expected: &str, evaluated: &str) -> (s: String)
    ensures
        s@ == unexpected_cost_text(block@, expected@, evaluated@),
{
    let mut s = "Failed processing block! block = ".to_string();
    s.append(block);
    s.append(". Unexpected cost. expected = ");
    s.append(expected);
    s.append(", evaluated = ");
    s.append(evaluated);
    s
}

/// The sum of fees.
pub open spec fn fee_sum(fees: Seq<u64>) -> nat
    decreases fees.len(),
{
    if fees.len() == 0 {
        0
    } else {
        fee_sum(fees.drop_last()) + fees.last() as nat
    }
}

proof fn lemma_fees_grow(fees: Seq<u64>, i: int)
    requires
        0 <= i <= fees.len(),
    ensures
        fee_sum(fees.take(i)) <= fee_sum(fees),
    decreases fees.len() - i,
{
    if i == fees.len() {
        assert(fees.take(i) =~= fees);
    } else {
        assert(fees.take(i + 1).drop_last() =~= fees.take(i));
        lemma_fees_grow(fees, i + 1);
    }
}

/// The sum of the fees of the transactions of a block.
pub fn total_fees(fees: &Vec<u64>) -> (sum: u64)
    requires
        fee_sum(fees@) <= u64::MAX,
    ensures
        sum == fee_sum(fees@),
{
    let ghost all = fees@;
    let mut sum: u64 = 0;
    let mut i: usize = 0;
    while i < fees.len()
        invariant
            i <= fees.len(),
            all == fees@,
            fee_sum(all) <= u64::MAX,
            sum == fee_sum(all.take(i as int)),
        decreases fees.len() - i,
    {
        proof {
            assert(all.take(i + 1).drop_last() =~= all.take(i as int));
            lemma_fees_grow(all, i + 1);
        }
        sum = sum + fees[i];
        i = i + 1;
    }
    assert(all.take(all.len() as int) =~= all);
    sum
}

/// The parent that a block is mined on.
#[derive(Debug, Clone, PartialEq, Eq)]
pub struct ParentBlock {
    pub height: u64,
    pub index_block_hash: String,
    pub consensus_hash: String,
    pub block_hash: String,
}

/// What is said of an attempt to mine a block.
pub open spec fn mining_text(
    parent: ParentBlock,
    elapsed_ms: nat,
    min_fee: nat,
    max_time: nat,
) -> Seq<char> {
    "block @ height = "@ + digits((parent.height + 1) as nat) + " off of "@
        + parent.index_block_hash@ + " ("@ + parent.consensus_hash@ + "/"@ + parent.block_hash@
        + ") in "@ + digits(elapsed_ms) + "ms. Min-fee: "@ + digits(min_fee) + ", Max-time: "@
        + digits(max_time)
}

/// Says how an attempt to mine a block went about it.
pub fn mining_summary(parent: &ParentBlock, elapsed_ms: u128, min_fee: u64, max_time: u64) -> (s:
    String)
    requires
        parent.height < u64::MAX,
    ensures
        s@ == mining_text(*parent, elapsed_ms as nat, min_fee as nat, max_time as nat),
{
    let mut s = "block @ height = ".to_string();
    s.append(decimal(parent.height as u128 + 1).as_str());
    s.append(" off of ");
    s.append(parent.index_block_hash.as_str());
    s.append(" (");
    s.append(parent.consensus_hash.as_str());
    s.append("/");
    s.append(parent.block_hash.as_str());
    s.append(") in ");
    s.append(decimal(elapsed_ms).as_str());
    s.append("ms. Min-fee: ");
    s.append(decimal(min_fee as u128).as_str());
    s.append(", Max-time: ");
    s.append(decimal(max_time as u128).as_str());
    s
}

/// What became of an attempt to mine a block.
#[derive(Debug, PartialEq, Eq)]
pub enum MiningOutcome {
    Mined { block_hash: String, total_fees: u64, size: u64, cost: String },
    Failed(String),
}

/// What is printed of an attempt to mine a block.
pub open spec fn mining_report_text(summary: Seq<char>, outcome: MiningOutcome) -> Seq<char> {
    match outcome {
        MiningOutcome::Mined { block_hash, total_fees, size, cost } => "Successfully mined "@
            + summary + "\nBlock "@ + block_hash@ + ": "@ + digits(total_fees as nat) + " uSTX, "@
            + digits(size as nat) + " bytes, cost "@ + cost@ + "\n"@,
        MiningOutcome::Failed(e) => "Failed to mine "@ + summary + "\nError: "@ + e@ + "\n"@,
    }
}

/// Writes what became of an attempt to mine a block, and tells the exit code.
pub fn mining_report(summary: &str, outcome: &MiningOutcome) -> (r: (String, i32))
    ensures
        r.0@ == mining_report_text(summary@, *outcome),
        r.1 == (if outcome is Mined {
            0i32
        } else {
            1i32
        }),
{
    match outcome {
        MiningOutcome::Mined { block_hash, total_fees, size, cost } => {
            let mut s = "Successfully mined ".to_string();
            s.append(summary);
            s.append("\nBlock ");
            s.append(block_hash.as_str());
            s.append(": ");
            s.append(decimal(*total_fees as u128).as_str());
            s.append(" uSTX, ");
            s.append(decimal(*size as u128).as_str());
            s.append(" bytes, cost ");
            s.append(cost.as_str());
            s.append("\n");
            (s, 0)
        },
        MiningOutcome::Failed(e) => {
            let mut s = "Failed to mine ".to_string();
            s.append(summary);
            s.append("\nError: ");
            s.append(e.as_str());
            s.append("\n");
            (s, 1)
        },
    }
}

/// What is known of a block of the earlier kind that is replayed. What has not
/// been asked yet is `None`.
#[derive(Debug, PartialEq, Eq)]
pub struct BlockReplay {
    pub block_id: String,
    /// The last microblock of the parent that the block names.
    pub parent_microblock: (String, u16),
    /// What stands for no microblock.
    pub no_microblock: String,
    /// What the block cost when it was processed first, if that is stored.
    pub stored_cost: Option<ExecutionCost>,
    /// Whether a stream of microblocks was found.
    pub microblock_stream: Option<bool>,
    /// Whether the block has a burn block.
    pub snapshot: Option<bool>,
    /// Whether the block attaches to its parent.
    pub attaches: Option<bool>,
    /// The microblocks that connect the block to its parent.
    pub connecting: Option<Vec<(String, u16)>>,
    /// What appending the block gave.
    pub appended: Option<Result<ExecutionCost, String>>,
}

/// What replaying a block needs next, or how it ends.
#[derive(Debug, Clone, Copy, PartialEq, Eq, Structural)]
pub enum ReplayStep {
    FindMicroblockStream,
    FindSnapshot,
    CheckAttachment,
    ConnectMicroblocks,
    Append,
    /// No stream of microblocks was found.
    NoMicroblockStream,
    /// The block has no burn block.
    Corrupt,
    /// The block does not attach to its parent.
    Detached,
    /// The microblocks end with another than the block names.
    WrongMicroblock,
    /// Appending the block failed.
    Failed,
    /// The block costs something else than it did before.
    CostMismatch,
    /// The block is as it should be, as far as its cost is known.
    Valid,
}

/// The last of some microblocks, or what stands for none.
pub open spec fn last_of(microblocks: Seq<(String, u16)>, none: Seq<char>) -> (Seq<char>, u16) {
    if microblocks.len() == 0 {
        (none, 0u16)
    } else {
        (microblocks.last().0@, microblocks.last().1)
    }
}

/// What replaying a block needs next, or how it ends.
pub open spec fn block_step(r: BlockReplay) -> ReplayStep {
    match r.microblock_stream {
        None => ReplayStep::FindMicroblockStream,
        Some(false) => ReplayStep::NoMicroblockStream,
        Some(true) => match r.snapshot {
            None => ReplayStep::FindSnapshot,
            Some(false) => ReplayStep::Corrupt,
            Some(true) => match r.attaches {
                None => ReplayStep::CheckAttachment,
                Some(false) => ReplayStep::Detached,
                Some(true) => match r.connecting {
                    None => ReplayStep::ConnectMicroblocks,
                    Some(connecting) => if last_of(connecting@, r.no_microblock@) != (
                        r.parent_microblock.0@,
                        r.parent_microblock.1,
                    ) {
                        ReplayStep::WrongMicroblock
                    } else {
                        match r.appended {
                            None => ReplayStep::Append,
                            Some(Err(_)) => ReplayStep::Failed,
                            Some(Ok(cost)) => if r.stored_cost matches Some(stored) && stored
                                != cost {
                                ReplayStep::CostMismatch
                            } else {
                                ReplayStep::Valid
                            },
                        }
                    },
                },
            },
        },
    }
}

impl BlockReplay {
    /// Tells what replaying the block needs next, or how it ends.
    pub fn next_step(&self) -> (step: ReplayStep)
        ensures
            step == block_step(*self),
    {
        match self.microblock_stream {
            None => {
                return ReplayStep::FindMicroblockStream;
            },
            Some(false) => {
                return ReplayStep::NoMicroblockStream;
            },
            Some(true) => {},
        }
        match self.snapshot {
            None => {
                return ReplayStep::FindSnapshot;
            },
            Some(false) => {
                return ReplayStep::Corrupt;
            },
            Some(true) => {},
        }
        match self.attaches {
            None => {
                return ReplayStep::CheckAttachment;
            },
            Some(false) => {
                return ReplayStep::Detached;
            },
            Some(true) => {},
        }
        let connecting = match &self.connecting {
            None => {
                return ReplayStep::ConnectMicroblocks;
            },
            Some(connecting) => connecting,
        };
        let (hash, sequence) = last_microblock(connecting, &self.no_microblock);
        if !hash.same(&self.parent_microblock.0) || sequence != self.parent_microblock.1 {
            return ReplayStep::WrongMicroblock;
        }
        match &self.appended {
            None => ReplayStep::Append,
            Some(Err(_)) => ReplayStep::Failed,
            Some(Ok(cost)) => match &self.stored_cost {
                Some(stored) => if *stored == *cost {
                    ReplayStep::Valid
                } else {
                    ReplayStep::CostMismatch
                },
                None => ReplayStep::Valid,
            },
        }
    }
}

/// A block is appended only once it is known to attach to its parent, and the
/// microblocks between them end as the block says; it is valid only if it was
/// appended at the cost that is stored, if any is.
pub proof fn law_valid_blocks(r: BlockReplay)
    ensures
        block_step(r) is Append || block_step(r) is Valid ==> {
            &&& r.attaches == Some(true)
            &&& r.connecting matches Some(connecting) && last_of(connecting@, r.no_microblock@)
                == (r.parent_microblock.0@, r.parent_microblock.1)
        },
        block_step(r) is Valid ==> {
            &&& r.appended matches Some(Ok(cost)) && (r.stored_cost matches Some(stored)
                ==> stored == cost)
        },
{
}

/// What is said of a block that has no stream of microblocks.
pub fn no_microblock_stream(block_id: &str) -> (s: String)
    ensures
        s@ == "No microblock stream found for "@ + block_id@,
{
    let mut s = "No microblock stream found for ".to_string();
    s.append(block_id);
    s
}

/// What is said of a block that does not attach to its parent. Each is named by its
/// consensus hash and its own hash.
pub fn not_attached(block: (&str, &str), parent: (&str, &str)) -> (s: String)
    ensures
        s@ == "Invalid stacks block "@ + block.0@ + "/"@ + block.1@
            + " -- does not attach to parent "@ + parent.1@ + "/"@ + parent.0@,
{
    let mut s = "Invalid stacks block ".to_string();
    s.append(block.0);
    s.append("/");
    s.append(block.1);
    s.append(" -- does not attach to parent ");
    s.append(parent.1);
    s.append("/");
    s.append(parent.0);
    s
}

/// What is said of a block that could not be appended.
pub fn append_failed(block_id: &str, error: &str) -> (s: String)
    ensures
        s@ == "Failed processing block! block = "@ + block_id@ + ", error = "@ + error@,
{
    let mut s = "Failed processing block! block = ".to_string();
    s.append(block_id);
    s.append(", error = ");
    s.append(error);
    s
}

/// A change of tenure in a block.
#[derive(Debug, Clone, PartialEq, Eq)]
pub struct TenureChange {
    pub cause: TenureChangeCause,
    /// The view of the burn chain that the change names.
    pub burn_view: String,
}

/// The header of a parent block.
#[derive(Debug, Clone, PartialEq, Eq)]
pub struct ParentHeader {
    pub block_id: String,
    pub burn_view: Option<String>,
}

/// What is known of a block of the later kind that is replayed. What has not been
/// asked yet is `None`.
#[derive(Debug, PartialEq, Eq)]
pub struct NakamotoReplay {
    pub parent_block_id: String,
    pub tenure: Option<TenureChange>,
    /// Whether the block has a burn block.
    pub snapshot: Option<bool>,
    /// What the tenure costs with the block, if that is stored.
    pub total_cost: Option<Option<ExecutionCost>>,
    /// What the tenure costs with the parent, if that is stored.
    pub parent_cost: Option<Option<ExecutionCost>>,
    /// The burn block height at which the tenure was elected.
    pub elected_height: Option<Option<u64>>,
    /// The reward cycle of that height.
    pub elected_in_cycle: Option<Option<u64>>,
    /// Whether the reward set of that cycle could be loaded.
    pub reward_set: Option<bool>,
    pub parent_header: Option<Option<ParentHeader>>,
    /// The sortition of the burn view of the parent.
    pub parent_view_sortition: Option<Option<String>>,
    /// The ancestor, at the height of that sortition, of the burn view of the
    /// tenure change.
    pub ancestor: Option<Option<String>>,
    /// Whether the burn view of the block has a burn block.
    pub view_snapshot: Option<bool>,
    /// What appending the block gave.
    pub appended: Option<Result<ExecutionCost, String>>,
}

/// What replaying a block needs next, or how it ends.
#[derive(Debug, Clone, PartialEq, Eq)]
pub enum NakamotoStep {
    FindSnapshot,
    FindTotalCost,
    FindParentCost,
    FindElectedHeight,
    FindRewardCycle(u64),
    LoadRewardSet(u64),
    FindParentHeader,
    FindParentView(String),
    FindAncestor(String),
    FindView(String),
    /// Append the block, processed with this view of the burn chain.
    Append(String),
    /// The block has no burn block.
    Corrupt,
    /// The costs that are stored do not fit together.
    CostsUnderflow,
    /// Nothing is stored to hold the block against: no cost of it or of its parent,
    /// no header of its parent, or no burn block of its burn view.
    Unknown,
    /// Something that has to be there is not.
    NoSuchBlock,
    Invalid(String),
    /// Appending the block failed.
    Failed,
    /// The block costs something else than expected.
    CostMismatch(ExecutionCost),
    Valid,
}

pub ghost enum NakamotoStepV {
    FindSnapshot,
    FindTotalCost,
    FindParentCost,
    FindElectedHeight,
    FindRewardCycle(u64),
    LoadRewardSet(u64),
    FindParentHeader,
    FindParentView(Seq<char>),
    FindAncestor(Seq<char>),
    FindView(Seq<char>),
    Append(Seq<char>),
    Corrupt,
    CostsUnderflow,
    Unknown,
    NoSuchBlock,
    Invalid(Seq<char>),
    Failed,
    CostMismatch(ExecutionCost),
    Valid,
}

impl View for NakamotoStep {
    type V = NakamotoStepV;

    open spec fn view(&self) -> NakamotoStepV {
        match self {
            NakamotoStep::FindSnapshot => NakamotoStepV::FindSnapshot,
            NakamotoStep::FindTotalCost => NakamotoStepV::FindTotalCost,
            NakamotoStep::FindParentCost => NakamotoStepV::FindParentCost,
            NakamotoStep::FindElectedHeight => NakamotoStepV::FindElectedHeight,
            NakamotoStep::FindRewardCycle(height) => NakamotoStepV::FindRewardCycle(*height),
            NakamotoStep::LoadRewardSet(cycle) => NakamotoStepV::LoadRewardSet(*cycle),
            NakamotoStep::FindParentHeader => NakamotoStepV::FindParentHeader,
            NakamotoStep::FindParentView(view) => NakamotoStepV::FindParentView(view@),
            NakamotoStep::FindAncestor(view) => NakamotoStepV::FindAncestor(view@),
            NakamotoStep::FindView(view) => NakamotoStepV::FindView(view@),
            NakamotoStep::Append(view) => NakamotoStepV::Append(view@),
            NakamotoStep::Corrupt => NakamotoStepV::Corrupt,
            NakamotoStep::CostsUnderflow => NakamotoStepV::CostsUnderflow,
            NakamotoStep::Unknown => NakamotoStepV::Unknown,
            NakamotoStep::NoSuchBlock => NakamotoStepV::NoSuchBlock,
            NakamotoStep::Invalid(message) => NakamotoStepV::Invalid(message@),
            NakamotoStep::Failed => NakamotoStepV::Failed,
            NakamotoStep::CostMismatch(expected) => NakamotoStepV::CostMismatch(*expected),
            NakamotoStep::Valid => NakamotoStepV::Valid,
        }
    }
}

/// The cause of the change of tenure, if there is one.
pub open spec fn cause_of(r: NakamotoReplay) -> Option<TenureChangeCause> {
    match r.tenure {
        Some(change) => Some(change.cause),
        None => None,
    }
}

/// The view of the burn chain that the change of tenure names, if there is one.
pub open spec fn view_of(r: NakamotoReplay) -> Option<Seq<char>> {
    match r.tenure {
        Some(change) => Some(change.burn_view@),
        None => None,
    }
}

/// How replaying goes on once a view of the burn chain is chosen.
pub open spec fn step_with_view(
    r: NakamotoReplay,
    view: Seq<char>,
    expected: ExecutionCost,
) -> NakamotoStepV {
    match r.view_snapshot {
        None => NakamotoStepV::FindView(view),
        Some(false) => NakamotoStepV::Unknown,
        Some(true) => match r.appended {
            None => NakamotoStepV::Append(view),
            Some(Err(_)) => NakamotoStepV::Failed,
            Some(Ok(cost)) => if cost == expected {
                NakamotoStepV::Valid
            } else {
                NakamotoStepV::CostMismatch(expected)
            },
        },
    }
}

/// How replaying goes on once the parent is known.
pub open spec fn step_with_parent(
    r: NakamotoReplay,
    parent: ParentHeader,
    expected: ExecutionCost,
) -> NakamotoStepV {
    if parent.block_id@ != r.parent_block_id@ {
        NakamotoStepV::Invalid("Discontinuous Nakamoto Stacks block"@)
    } else {
        match burn_step(view_of(r), option_view(parent.burn_view)) {
            BurnStepV::Fail(message) => NakamotoStepV::Invalid(message),
            BurnStepV::Use(view) => step_with_view(r, view, expected),
            BurnStepV::Connect { view, parent_view } => match r.parent_view_sortition {
                None => NakamotoStepV::FindParentView(parent_view),
                Some(None) => NakamotoStepV::Invalid(
                    "Failed to load burn view of parent block ID"@,
                ),
                Some(Some(sortition)) => match r.ancestor {
                    None => NakamotoStepV::FindAncestor(view),
                    Some(None) => NakamotoStepV::Invalid(
                        "Failed to load burn view of parent block ID"@,
                    ),
                    Some(Some(ancestor)) => if ancestor@ != sortition@ {
                        NakamotoStepV::Invalid("Does not connect to burn view of parent block ID"@)
                    } else {
                        step_with_view(r, view, expected)
                    },
                },
            },
        }
    }
}

/// How replaying goes on once the expected cost is known.
pub open spec fn step_with_cost(r: NakamotoReplay, expected: ExecutionCost) -> NakamotoStepV {
    match r.elected_height {
        None => NakamotoStepV::FindElectedHeight,
        Some(None) => NakamotoStepV::NoSuchBlock,
        Some(Some(height)) => match r.elected_in_cycle {
            None => NakamotoStepV::FindRewardCycle(height),
            Some(None) => NakamotoStepV::Invalid(
                "Elected in block height before first_block_height"@,
            ),
            Some(Some(cycle)) => match r.reward_set {
                None => NakamotoStepV::LoadRewardSet(cycle),
                Some(false) => NakamotoStepV::NoSuchBlock,
                Some(true) => match r.parent_header {
                    None => NakamotoStepV::FindParentHeader,
                    Some(None) => NakamotoStepV::Unknown,
                    Some(Some(parent)) => step_with_parent(r, parent, expected),
                },
            },
        },
    }
}

/// What replaying a block needs next, or how it ends.
pub open spec fn nakamoto_step(r: NakamotoReplay) -> NakamotoStepV {
    match r.snapshot {
        None => NakamotoStepV::FindSnapshot,
        Some(false) => NakamotoStepV::Corrupt,
        Some(true) => match r.total_cost {
            None => NakamotoStepV::FindTotalCost,
            Some(None) => NakamotoStepV::Unknown,
            Some(Some(total)) => if builds_on_parent(cause_of(r)) {
                match r.parent_cost {
                    None => NakamotoStepV::FindParentCost,
                    Some(None) => NakamotoStepV::Unknown,
                    Some(Some(parent)) => match cost_expected(cause_of(r), total, parent) {
                        None => NakamotoStepV::CostsUnderflow,
                        Some(expected) => step_with_cost(r, expected),
                    },
                }
            } else {
                step_with_cost(r, total)
            },
        },
    }
}

impl NakamotoReplay {
    fn with_view(&self, view: &String, expected: ExecutionCost) -> (step: NakamotoStep)
        ensures
            step@ == step_with_view(*self, view@, expected),
    {
        match self.view_snapshot {
            None => NakamotoStep::FindView(view.duplicate()),
            Some(false) => NakamotoStep::Unknown,
            Some(true) => match &self.appended {
                None => NakamotoStep::Append(view.duplicate()),
                Some(Err(_)) => NakamotoStep::Failed,
                Some(Ok(cost)) => if *cost == expected {
                    NakamotoStep::Valid
                } else {
                    NakamotoStep::CostMismatch(expected)
                },
            },
        }
    }

    fn with_parent(&self, parent: &ParentHeader, expected: ExecutionCost) -> (step: NakamotoStep)
        ensures
            step@ == step_with_parent(*self, *parent, expected),
    {
        if let Err(message) = check_continuous(&parent.block_id, &self.parent_block_id) {
            return NakamotoStep::Invalid(message.to_string());
        }
        let tenure_view = match &self.tenure {
            Some(change) => Some(change.burn_view.duplicate()),
            None => None,
        };
        match burn_view_step(&tenure_view, &parent.burn_view) {
            BurnViewStep::Fail(message) => NakamotoStep::Invalid(message),
            BurnViewStep::Use(view) => self.with_view(&view, expected),
            BurnViewStep::Connect { view, parent_view } => {
                let sortition = match &self.parent_view_sortition {
                    None => {
                        return NakamotoStep::FindParentView(parent_view);
                    },
                    Some(None) => {
                        return NakamotoStep::Invalid(
                            "Failed to load burn view of parent block ID".to_string(),
                        );
                    },
                    Some(Some(sortition)) => sortition,
                };
                match &self.ancestor {
                    None => NakamotoStep::FindAncestor(view),
                    Some(ancestor) => match check_burn_views_connect(ancestor, sortition) {
                        Err(message) => NakamotoStep::Invalid(message.to_string()),
                        Ok(_) => self.with_view(&view, expected),
                    },
                }
            },
        }
    }

    fn with_cost(&self, expected: ExecutionCost) -> (step: NakamotoStep)
        ensures
            step@ == step_with_cost(*self, expected),
    {
        let height = match self.elected_height {
            None => {
                return NakamotoStep::FindElectedHeight;
            },
            Some(None) => {
                return NakamotoStep::NoSuchBlock;
            },
            Some(Some(height)) => height,
        };
        let cycle = match self.elected_in_cycle {
            None => {
                return NakamotoStep::FindRewardCycle(height);
            },
            Some(None) => {
                return NakamotoStep::Invalid(
                    "Elected in block height before first_block_height".to_string(),
                );
            },
            Some(Some(cycle)) => cycle,
        };
        match self.reward_set {
            None => {
                return NakamotoStep::LoadRewardSet(cycle);
            },
            Some(false) => {
                return NakamotoStep::NoSuchBlock;
            },
            Some(true) => {},
        }
        match &self.parent_header {
            None => NakamotoStep::FindParentHeader,
            Some(None) => NakamotoStep::Unknown,
            Some(Some(parent)) => self.with_parent(parent, expected),
        }
    }

    /// Tells what replaying the block needs next, or how it ends.
    pub fn next_step(&self) -> (step: NakamotoStep)
        ensures
            step@ == nakamoto_step(*self),
    {
        match self.snapshot {
            None => {
                return NakamotoStep::FindSnapshot;
            },
            Some(false) => {
                return NakamotoStep::Corrupt;
            },
            Some(true) => {},
        }
        let total = match self.total_cost {
            None => {
                return NakamotoStep::FindTotalCost;
            },
            Some(None) => {
                return NakamotoStep::Unknown;
            },
            Some(Some(total)) => total,
        };
        let cause = match &self.tenure {
            Some(change) => Some(change.cause),
            None => None,
        };
        if !needs_parent_cost(cause) {
            return self.with_cost(total);
        }
        match self.parent_cost {
            None => NakamotoStep::FindParentCost,
            Some(None) => NakamotoStep::Unknown,
            Some(Some(parent)) => match expected_cost(cause, total, parent) {
                None => NakamotoStep::CostsUnderflow,
                Some(expected) => self.with_cost(expected),
            },
        }
    }
}

/// The burns that a block of the later kind is appended with: the fee of the block
/// commit and the burn of the sortition where the block starts a tenure, and else
/// none.
pub fn block_burns(tenure_start: bool, commit_fee: u64, burn: u64) -> (r: (u64, u64))
    ensures
        r == (if tenure_start {
            (commit_fee, burn)
        } else {
            (0u64, 0u64)
        }),
{
    if tenure_start {
        (commit_fee, burn)
    } else {
        (0, 0)
    }
}

/// A block is appended, or found valid, only if it attaches to its parent, and
/// the view of the burn chain that it brings connects to that of the parent.
pub proof fn law_appended_blocks_connect(r: NakamotoReplay)
    requires
        nakamoto_step(r) is Append || nakamoto_step(r) is Valid,
    ensures
        r.parent_header matches Some(Some(parent)) && parent.block_id@ == r.parent_block_id@,
        r.parent_header matches Some(Some(parent)) && (parent.burn_view is Some && r.tenure is Some
            ==> (r.parent_view_sortition matches Some(Some(sortition)) && (
        r.ancestor matches Some(Some(ancestor)) && ancestor@ == sortition@))),
{
}

/// A valid block was appended at the cost that is expected of it: what the tenure
/// costs with it, less what counts of what the tenure costs without it.
pub proof fn law_valid_blocks_cost_as_expected(r: NakamotoReplay)
    requires
        nakamoto_step(r) is Valid,
    ensures
        r.total_cost matches Some(Some(total)) && (r.appended matches Some(Ok(cost)) && (
        if builds_on_parent(cause_of(r)) {
            r.parent_cost matches Some(Some(parent)) && cost_expected(cause_of(r), total, parent)
                == Some(cost)
        } else {
            cost == total
        })),
{
}

/// A number is what is left of a total: all of it where counting starts anew, and
/// else what makes the total together with what was there before.
pub open spec fn is_left(left: u64, total: u64, before: u64, anew: bool) -> bool {
    if anew {
        left == total
    } else {
        left + before == total
    }
}

/// A cost is that of a block: the whole cost of the tenure where the block begins one
/// or extends one in every dimension, and else what the tenure costs more with the
/// block than with its parent, where a dimension that is extended starts anew.
pub open spec fn is_cost_of_block(
    cost: ExecutionCost,
    cause: Option<TenureChangeCause>,
    total: ExecutionCost,
    parent: ExecutionCost,
) -> bool {
    let whole = cause == Some(TenureChangeCause::BlockFound) || cause == Some(
        TenureChangeCause::Extended,
    );
    let anew = |dimension: TenureChangeCause| whole || cause == Some(dimension);
    &&& is_left(
        cost.write_length,
        total.write_length,
        parent.write_length,
        anew(TenureChangeCause::ExtendedWriteLength),
    )
    &&& is_left(
        cost.write_count,
        total.write_count,
        parent.write_count,
        anew(TenureChangeCause::ExtendedWriteCount),
    )
    &&& is_left(
        cost.read_length,
        total.read_length,
        parent.read_length,
        anew(TenureChangeCause::ExtendedReadLength),
    )
    &&& is_left(
        cost.read_count,
        total.read_count,
        parent.read_count,
        anew(TenureChangeCause::ExtendedReadCount),
    )
    &&& is_left(
        cost.runtime,
        total.runtime,
        parent.runtime,
        anew(TenureChangeCause::ExtendedRuntime),
    )
}

/// The cost that is expected of a block is the one that it has to have, and there is
/// none only where no cost would do.
pub proof fn law_expected_cost_is_that_of_the_block(
    cause: Option<TenureChangeCause>,
    total: ExecutionCost,
    parent: ExecutionCost,
    cost: ExecutionCost,
)
    ensures
        cost_expected(cause, total, parent) == Some(cost) <==> is_cost_of_block(
            cost,
            cause,
            total,
            parent,
        ),
        builds_on_parent(cause) <==> cause != Some(TenureChangeCause::BlockFound) && cause != Some(
            TenureChangeCause::Extended,
        ),
{
}

/// Costs that are stored say that a block should cost this much. The cost of the
/// parent need not be known where the block does not build on it.
pub open spec fn should_cost(r: NakamotoReplay, cost: ExecutionCost) -> bool {
    let cause = match r.tenure {
        Some(change) => Some(change.cause),
        None => None,
    };
    r.total_cost matches Some(Some(total)) && {
        ||| (cause == Some(TenureChangeCause::BlockFound) || cause == Some(
            TenureChangeCause::Extended,
        )) && cost == total
        ||| r.parent_cost matches Some(Some(parent)) && is_cost_of_block(cost, cause, total, parent)
    }
}

/// A block has a burn block, and what it should cost is known.
pub open spec fn is_priced(r: NakamotoReplay) -> bool {
    r.snapshot == Some(true) && exists|cost: ExecutionCost| #[trigger] should_cost(r, cost)
}

/// The reward set is there with which the tenure was elected.
pub open spec fn is_elected(r: NakamotoReplay) -> bool {
    &&& is_priced(r)
    &&& r.elected_height matches Some(Some(_))
    &&& r.elected_in_cycle matches Some(Some(_))
    &&& r.reward_set == Some(true)
}

/// A block attaches to its parent, and the view of the burn chain that it is processed
/// with is this one: that of its change of tenure, if it has one, which has to
/// descend from that of the parent, if that has one; and else that of the parent.
pub open spec fn attaches_with_view(r: NakamotoReplay, view: Seq<char>) -> bool {
    r.parent_header matches Some(Some(parent)) && parent.block_id@ == r.parent_block_id@ && match (
        r.tenure,
        parent.burn_view,
    ) {
        (Some(change), Some(_)) => view == change.burn_view@ && (
        r.parent_view_sortition matches Some(Some(sortition)) && (
        r.ancestor matches Some(Some(ancestor)) && ancestor@ == sortition@)),
        (Some(change), None) => view == change.burn_view@,
        (None, Some(parent_view)) => view == parent_view@,
        (None, None) => false,
    }
}

/// A block can be appended: everything is found, and it attaches to its parent.
pub open spec fn is_ready(r: NakamotoReplay, view: Seq<char>) -> bool {
    &&& is_elected(r)
    &&& attaches_with_view(r, view)
    &&& r.view_snapshot == Some(true)
}

proof fn lemma_step_with_cost(r: NakamotoReplay, cost: ExecutionCost)
    requires
        r.snapshot == Some(true),
        should_cost(r, cost),
    ensures
        nakamoto_step(r) == step_with_cost(r, cost),
        forall|other: ExecutionCost| #[trigger] should_cost(r, other) ==> other == cost,
        is_priced(r),
{
    if let Some(Some(total)) = r.total_cost {
        assert forall|other: ExecutionCost| #[trigger] should_cost(r, other) implies other
            == cost by {
            if let Some(Some(parent)) = r.parent_cost {
                law_expected_cost_is_that_of_the_block(cause_of(r), total, parent, other);
                law_expected_cost_is_that_of_the_block(cause_of(r), total, parent, cost);
            }
        }
        if let Some(Some(parent)) = r.parent_cost {
            law_expected_cost_is_that_of_the_block(cause_of(r), total, parent, cost);
        }
    }
}

proof fn lemma_not_priced(r: NakamotoReplay)
    requires
        r.snapshot == Some(true),
        !is_priced(r),
    ensures
        nakamoto_step(r) is FindTotalCost || nakamoto_step(r) is FindParentCost || nakamoto_step(
            r,
        ) is Unknown || nakamoto_step(r) is CostsUnderflow,
        r.total_cost matches Some(Some(total)) ==> builds_on_parent(cause_of(r)) && (
        r.parent_cost matches Some(Some(parent)) ==> cost_expected(cause_of(r), total, parent)
            is None),
{
    if let Some(Some(total)) = r.total_cost {
        if builds_on_parent(cause_of(r)) {
            if let Some(Some(parent)) = r.parent_cost {
                if let Some(cost) = cost_expected(cause_of(r), total, parent) {
                    law_expected_cost_is_that_of_the_block(cause_of(r), total, parent, cost);
                    assert(should_cost(r, cost));
                }
            }
        } else {
            assert(should_cost(r, total));
        }
    }
}

/// A replay asks for what a block should cost as long as that is not known: whether
/// it has a burn block, what its tenure costs with it, and, where it builds on its
/// parent, with the parent. It ends where one of them is missing, or where the costs
/// do not fit together.
pub proof fn law_replay_asks_for_costs(r: NakamotoReplay)
    ensures
        ({
            let step = nakamoto_step(r);
            let on_parent = r.tenure matches Some(change) ==> !(change.cause is BlockFound)
                && !(change.cause is Extended);
            let total_known = r.snapshot == Some(true) && r.total_cost matches Some(Some(_));
            &&& step is FindSnapshot <==> r.snapshot is None
            &&& step is Corrupt <==> r.snapshot == Some(false)
            &&& step is FindTotalCost <==> r.snapshot == Some(true) && r.total_cost is None
            &&& step is FindParentCost <==> total_known && on_parent && r.parent_cost is None
            &&& r.snapshot == Some(true) && r.total_cost == Some(None::<ExecutionCost>) ==> step
                is Unknown
            &&& total_known && on_parent && r.parent_cost == Some(None::<ExecutionCost>) ==> step
                is Unknown
            &&& step is CostsUnderflow <==> total_known && on_parent && (
            r.parent_cost matches Some(Some(_))) && !is_priced(r)
        }),
{
    if r.snapshot == Some(true) {
        if is_priced(r) {
            let cost = choose|cost: ExecutionCost| #[trigger] should_cost(r, cost);
            lemma_step_with_cost(r, cost);
        } else {
            lemma_not_priced(r);
        }
    }
}

/// Once the cost is known, a replay asks for the height at which the tenure was
/// elected, for the reward cycle of that height, and for the reward set of that
/// cycle, and ends where one of them is missing.
pub proof fn law_replay_asks_for_the_election(r: NakamotoReplay)
    ensures
        ({
            let step = nakamoto_step(r);
            &&& step is FindElectedHeight <==> is_priced(r) && r.elected_height is None
            &&& is_priced(r) && r.elected_height == Some(None::<u64>) ==> step is NoSuchBlock
            &&& is_priced(r) ==> (r.elected_height matches Some(Some(height)) ==> {
                &&& r.elected_in_cycle is None ==> step == NakamotoStepV::FindRewardCycle(height)
                &&& r.elected_in_cycle == Some(None::<u64>) ==> step == NakamotoStepV::Invalid(
                        "Elected in block height before first_block_height"@,
                    )
                &&& r.elected_in_cycle matches Some(Some(cycle)) ==> {
                    &&& r.reward_set is None ==> step == NakamotoStepV::LoadRewardSet(cycle)
                    &&& r.reward_set == Some(false) ==> step is NoSuchBlock
                }
            })
            &&& step is FindRewardCycle ==> is_priced(r) && r.elected_in_cycle is None
            &&& step is LoadRewardSet ==> is_priced(r) && r.reward_set is None
            &&& step is NoSuchBlock ==> is_priced(r) && (r.elected_height == Some(None::<u64>)
                || r.reward_set == Some(false))
        }),
{
    law_replay_asks_for_costs(r);
    if is_priced(r) {
        let cost = choose|cost: ExecutionCost| #[trigger] should_cost(r, cost);
        lemma_step_with_cost(r, cost);
    } else if r.snapshot == Some(true) {
        lemma_not_priced(r);
    }
}

/// Once the reward set is there, a replay asks for the header of the parent. A block
/// that does not attach to it is invalid. Where both bring a view of the burn chain,
/// the replay asks for the sortition of the parent's and for the ancestor of the
/// block's, and the block is invalid where they are missing or differ.
pub proof fn law_replay_asks_for_the_parent(r: NakamotoReplay)
    requires
        is_elected(r),
    ensures
        ({
            let step = nakamoto_step(r);
            &&& step is FindParentHeader <==> r.parent_header is None
            &&& r.parent_header == Some(None::<ParentHeader>) ==> step is Unknown
            &&& r.parent_header matches Some(Some(parent)) ==> {
                let attached = parent.block_id@ == r.parent_block_id@;
                &&& !attached ==> step == NakamotoStepV::Invalid(
                        "Discontinuous Nakamoto Stacks block"@,
                    )
                &&& attached && r.tenure is None && parent.burn_view is None ==> step == NakamotoStepV::Invalid(
                        "Failed to load burn view of parent block ID"@,
                    )
                &&& attached ==> (r.tenure matches Some(change) ==> (
                parent.burn_view matches Some(view) ==> {
                    &&& r.parent_view_sortition is None ==> step == NakamotoStepV::FindParentView(
                        view@,
                    )
                    &&& r.parent_view_sortition == Some(None::<String>) ==> step == NakamotoStepV::Invalid(
                        "Failed to load burn view of parent block ID"@,
                    )
                    &&& r.parent_view_sortition matches Some(Some(sortition)) ==> {
                        &&& r.ancestor is None ==> step == NakamotoStepV::FindAncestor(
                            change.burn_view@,
                        )
                        &&& r.ancestor == Some(None::<String>) ==> step == NakamotoStepV::Invalid(
                        "Failed to load burn view of parent block ID"@,
                    )
                        &&& r.ancestor matches Some(Some(ancestor)) ==> (ancestor@ != sortition@
                            ==> step == NakamotoStepV::Invalid(
                        "Does not connect to burn view of parent block ID"@,
                    ))
                    }
                }))
            }
        }),
{
    let cost = choose|cost: ExecutionCost| #[trigger] should_cost(r, cost);
    lemma_step_with_cost(r, cost);
}

/// Once a block attaches to its parent, a replay asks whether its view of the burn
/// chain has a burn block, and appends the block with that view. A block that was
/// appended at the cost that it should have is valid, whatever its tenure; at any
/// other it is not, and the replay tells what it should have cost.
pub proof fn law_blocks_that_cost_as_they_should_are_valid(
    r: NakamotoReplay,
    view: Seq<char>,
    cost: ExecutionCost,
)
    requires
        is_elected(r),
        attaches_with_view(r, view),
        should_cost(r, cost),
    ensures
        ({
            let step = nakamoto_step(r);
            &&& r.view_snapshot is None ==> step == NakamotoStepV::FindView(view)
            &&& r.view_snapshot == Some(false) ==> step is Unknown
            &&& r.view_snapshot == Some(true) ==> {
                &&& r.appended is None ==> step == NakamotoStepV::Append(view)
                &&& r.appended matches Some(Err(_)) ==> step is Failed
                &&& r.appended == Some(Ok::<ExecutionCost, String>(cost)) ==> step is Valid
                &&& r.appended matches Some(Ok(other)) ==> (other != cost ==> step
                    == NakamotoStepV::CostMismatch(cost))
            }
        }),
{
    lemma_step_with_cost(r, cost);
}

/// A replay finds a block valid, or its cost wrong, or appending it failed, only where
/// everything was found, the block attaches to its parent, and it was appended; and
/// it asks to append only where nothing else is left to ask.
pub proof fn law_judged_blocks_were_ready(r: NakamotoReplay)
    ensures
        ({
            let step = nakamoto_step(r);
            &&& step is Valid ==> (exists|view: Seq<char>| #[trigger] is_ready(r, view)) && (
            r.appended matches Some(Ok(cost)) && should_cost(r, cost))
            &&& step matches NakamotoStepV::CostMismatch(cost) ==> (exists|view: Seq<char>|
                #[trigger] is_ready(r, view)) && should_cost(r, cost) && (
            r.appended matches Some(Ok(other)) && other != cost)
            &&& step is Failed ==> (exists|view: Seq<char>| #[trigger] is_ready(r, view)) && (
            r.appended matches Some(Err(_)))
            &&& step matches NakamotoStepV::Append(view) ==> is_ready(r, view) && r.appended
                is None
            &&& step matches NakamotoStepV::FindView(view) ==> is_elected(r) && attaches_with_view(
                r,
                view,
            ) && r.view_snapshot is None
        }),
{
    if is_priced(r) {
        let cost = choose|cost: ExecutionCost| #[trigger] should_cost(r, cost);
        lemma_step_with_cost(r, cost);
        if is_elected(r) {
            if let Some(Some(parent)) = r.parent_header {
                let view = match r.tenure {
                    Some(change) => change.burn_view@,
                    None => parent.burn_view->0@,
                };
                let step = nakamoto_step(r);
                if step is Valid || step is CostMismatch || step is Failed || step is Append {
                    assert(is_ready(r, view));
                }
            }
        }
    } else if r.snapshot == Some(true) {
        lemma_not_priced(r);
    }
}

/// The replay of a block of the earlier kind asks, in this order, for its stream of
/// microblocks, for its burn block, whether it attaches to its parent, and for the
/// microblocks between them, and ends where one of them is missing. A block is
/// appended once they end as the block says, and is valid if that gives the cost that
/// is stored, or if none is.
pub proof fn law_blocks_of_the_earlier_kind_are_judged(r: BlockReplay)
    ensures
        ({
            let step = block_step(r);
            let streamed = r.microblock_stream == Some(true);
            let found = streamed && r.snapshot == Some(true);
            let attached = found && r.attaches == Some(true);
            let ends_with = |list: Seq<(String, u16)>, hash: Seq<char>, number: u16|
                if list.len() == 0 {
                    hash == r.no_microblock@ && number == 0
                } else {
                    hash == list[list.len() - 1].0@ && number == list[list.len() - 1].1
                };
            let ready = attached && (r.connecting matches Some(list) && ends_with(
                list@,
                r.parent_microblock.0@,
                r.parent_microblock.1,
            ));
            &&& step is FindMicroblockStream <==> r.microblock_stream is None
            &&& step is NoMicroblockStream <==> r.microblock_stream == Some(false)
            &&& step is FindSnapshot <==> streamed && r.snapshot is None
            &&& step is Corrupt <==> streamed && r.snapshot == Some(false)
            &&& step is CheckAttachment <==> found && r.attaches is None
            &&& step is Detached <==> found && r.attaches == Some(false)
            &&& step is ConnectMicroblocks <==> attached && r.connecting is None
            &&& step is WrongMicroblock <==> attached && r.connecting is Some && !ready
            &&& step is Append <==> ready && r.appended is None
            &&& step is Failed <==> ready && (r.appended matches Some(Err(_)))
            &&& step is Valid <==> ready && (r.appended matches Some(Ok(cost)) && (
            r.stored_cost is None || r.stored_cost == Some(cost)))
            &&& step is CostMismatch <==> ready && (r.appended matches Some(Ok(cost)) && (
            r.stored_cost matches Some(stored) && stored != cost))
        }),
{
}

/// Fees add up, in whatever parts they are added.
pub proof fn law_fees_add_up(a: Seq<u64>, b: Seq<u64>, fee: u64)
    ensures
        fee_sum(a + b) == fee_sum(a) + fee_sum(b),
        fee_sum(seq![fee]) == fee,
    decreases b.len(),
{
    assert(seq![fee].drop_last() =~= Seq::<u64>::empty());
    assert(fee_sum(seq![fee].drop_last()) == 0);
    if b.len() == 0 {
        assert(a + b =~= a);
    } else {
        law_fees_add_up(a, b.drop_last(), fee);
        assert((a + b).drop_last() =~= a + b.drop_last());
    }
}

} // verus!
