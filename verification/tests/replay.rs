//! Replaying blocks: what is asked in turn, and how it ends.

use clarity_effects::replay::{
    append_failed, block_burns, burn_view_step, check_burn_views_connect, check_continuous, expected_cost,
    last_microblock, mining_report, mining_summary, needs_parent_cost, no_microblock_stream,
    not_attached, total_fees, unexpected_cost, BlockReplay, BurnViewStep, ExecutionCost, MiningOutcome,
    NakamotoReplay, NakamotoStep, ParentBlock, ParentHeader, ReplayStep, TenureChange,
    TenureChangeCause,
};

fn cost(write_length: u64, write_count: u64, read_length: u64, read_count: u64) -> ExecutionCost {
    ExecutionCost {
        write_length,
        write_count,
        read_length,
        read_count,
        runtime: 100 + write_length,
    }
}

#[test]
fn costs_are_told_from_those_of_the_parent() {
    let total = cost(10, 20, 30, 40);
    let parent = cost(1, 2, 3, 4);
    let difference = ExecutionCost {
        write_length: 9,
        write_count: 18,
        read_length: 27,
        read_count: 36,
        runtime: 9,
    };
    assert_eq!(expected_cost(None, total, parent), Some(difference));
    for cause in [TenureChangeCause::BlockFound, TenureChangeCause::Extended] {
        assert!(!needs_parent_cost(Some(cause)));
        assert_eq!(expected_cost(Some(cause), total, parent), Some(total));
    }
    for (cause, expected) in [
        (
            TenureChangeCause::ExtendedRuntime,
            ExecutionCost {
                runtime: 110,
                ..difference
            },
        ),
        (
            TenureChangeCause::ExtendedReadCount,
            ExecutionCost {
                read_count: 40,
                ..difference
            },
        ),
        (
            TenureChangeCause::ExtendedReadLength,
            ExecutionCost {
                read_length: 30,
                ..difference
            },
        ),
        (
            TenureChangeCause::ExtendedWriteCount,
            ExecutionCost {
                write_count: 20,
                ..difference
            },
        ),
        (
            TenureChangeCause::ExtendedWriteLength,
            ExecutionCost {
                write_length: 10,
                ..difference
            },
        ),
    ] {
        assert!(needs_parent_cost(Some(cause)));
        assert_eq!(expected_cost(Some(cause), total, parent), Some(expected));
    }
    assert!(needs_parent_cost(None));
    assert_eq!(expected_cost(None, parent, total), None);
}

#[test]
fn views_of_the_burn_chain_are_chosen() {
    let a = Some("a".to_string());
    let b = Some("b".to_string());
    assert_eq!(
        burn_view_step(&a, &b),
        BurnViewStep::Connect {
            view: "a".to_string(),
            parent_view: "b".to_string(),
        }
    );
    assert_eq!(burn_view_step(&a, &None), BurnViewStep::Use("a".to_string()));
    assert_eq!(burn_view_step(&None, &b), BurnViewStep::Use("b".to_string()));
    assert_eq!(
        burn_view_step(&None, &None),
        BurnViewStep::Fail("Failed to load burn view of parent block ID".to_string())
    );
    let b = "b".to_string();
    assert_eq!(check_burn_views_connect(&Some("b".to_string()), &b), Ok(()));
    assert_eq!(
        check_burn_views_connect(&a, &b),
        Err("Does not connect to burn view of parent block ID")
    );
    assert_eq!(
        check_burn_views_connect(&None, &b),
        Err("Failed to load burn view of parent block ID")
    );
    assert_eq!(check_continuous(&b, &b), Ok(()));
    assert_eq!(
        check_continuous(&b, &"a".to_string()),
        Err("Discontinuous Nakamoto Stacks block")
    );
}

#[test]
fn the_last_microblock_is_found() {
    let none = "none".to_string();
    let blocks = vec![("m1".to_string(), 1), ("m2".to_string(), 2)];
    assert_eq!(last_microblock(&blocks, &none), ("m2".to_string(), 2));
    assert_eq!(last_microblock(&Vec::new(), &none), (none.clone(), 0));
}

fn block() -> BlockReplay {
    BlockReplay {
        block_id: "b".to_string(),
        parent_microblock: ("m".to_string(), 3),
        no_microblock: "none".to_string(),
        stored_cost: Some(cost(1, 1, 1, 1)),
        microblock_stream: None,
        snapshot: None,
        attaches: None,
        connecting: None,
        appended: None,
    }
}

#[test]
fn a_block_is_replayed_step_by_step() {
    let mut replay = block();
    assert_eq!(replay.next_step(), ReplayStep::FindMicroblockStream);
    replay.microblock_stream = Some(true);
    assert_eq!(replay.next_step(), ReplayStep::FindSnapshot);
    replay.snapshot = Some(true);
    assert_eq!(replay.next_step(), ReplayStep::CheckAttachment);
    replay.attaches = Some(true);
    assert_eq!(replay.next_step(), ReplayStep::ConnectMicroblocks);
    replay.connecting = Some(vec![("k".to_string(), 2), ("m".to_string(), 3)]);
    assert_eq!(replay.next_step(), ReplayStep::Append);
    replay.appended = Some(Ok(cost(1, 1, 1, 1)));
    assert_eq!(replay.next_step(), ReplayStep::Valid);
    replay.appended = Some(Ok(cost(1, 1, 1, 2)));
    assert_eq!(replay.next_step(), ReplayStep::CostMismatch);
    replay.stored_cost = None;
    assert_eq!(replay.next_step(), ReplayStep::Valid);
    replay.appended = Some(Err("no".to_string()));
    assert_eq!(replay.next_step(), ReplayStep::Failed);
}

#[test]
fn replaying_a_block_can_end_early() {
    let mut replay = block();
    replay.microblock_stream = Some(false);
    assert_eq!(replay.next_step(), ReplayStep::NoMicroblockStream);
    replay.microblock_stream = Some(true);
    replay.snapshot = Some(false);
    assert_eq!(replay.next_step(), ReplayStep::Corrupt);
    replay.snapshot = Some(true);
    replay.attaches = Some(false);
    assert_eq!(replay.next_step(), ReplayStep::Detached);
    replay.attaches = Some(true);
    replay.connecting = Some(Vec::new());
    assert_eq!(replay.next_step(), ReplayStep::WrongMicroblock);
    replay.parent_microblock = ("none".to_string(), 0);
    assert_eq!(replay.next_step(), ReplayStep::Append);
    replay.parent_microblock = ("none".to_string(), 1);
    assert_eq!(replay.next_step(), ReplayStep::WrongMicroblock);
}

fn nakamoto(tenure: Option<TenureChange>) -> NakamotoReplay {
    NakamotoReplay {
        parent_block_id: "p".to_string(),
        tenure,
        snapshot: None,
        total_cost: None,
        parent_cost: None,
        elected_height: None,
        elected_in_cycle: None,
        reward_set: None,
        parent_header: None,
        parent_view_sortition: None,
        ancestor: None,
        view_snapshot: None,
        appended: None,
    }
}

fn header(block_id: &str, burn_view: Option<&str>) -> Option<Option<ParentHeader>> {
    Some(Some(ParentHeader {
        block_id: block_id.to_string(),
        burn_view: burn_view.map(str::to_string),
    }))
}

fn invalid(message: &str) -> NakamotoStep {
    NakamotoStep::Invalid(message.to_string())
}

#[test]
fn a_later_block_is_replayed_step_by_step() {
    let mut replay = nakamoto(Some(TenureChange {
        cause: TenureChangeCause::ExtendedRuntime,
        burn_view: "v".to_string(),
    }));
    assert_eq!(replay.next_step(), NakamotoStep::FindSnapshot);
    replay.snapshot = Some(true);
    assert_eq!(replay.next_step(), NakamotoStep::FindTotalCost);
    replay.total_cost = Some(Some(cost(5, 5, 5, 5)));
    assert_eq!(replay.next_step(), NakamotoStep::FindParentCost);
    replay.parent_cost = Some(Some(cost(1, 1, 1, 1)));
    assert_eq!(replay.next_step(), NakamotoStep::FindElectedHeight);
    replay.elected_height = Some(Some(700));
    assert_eq!(replay.next_step(), NakamotoStep::FindRewardCycle(700));
    replay.elected_in_cycle = Some(Some(7));
    assert_eq!(replay.next_step(), NakamotoStep::LoadRewardSet(7));
    replay.reward_set = Some(true);
    assert_eq!(replay.next_step(), NakamotoStep::FindParentHeader);
    replay.parent_header = header("p", Some("w"));
    assert_eq!(
        replay.next_step(),
        NakamotoStep::FindParentView("w".to_string())
    );
    replay.parent_view_sortition = Some(Some("s".to_string()));
    assert_eq!(
        replay.next_step(),
        NakamotoStep::FindAncestor("v".to_string())
    );
    replay.ancestor = Some(Some("s".to_string()));
    assert_eq!(replay.next_step(), NakamotoStep::FindView("v".to_string()));
    replay.view_snapshot = Some(true);
    assert_eq!(replay.next_step(), NakamotoStep::Append("v".to_string()));
    let expected = ExecutionCost {
        write_length: 4,
        write_count: 4,
        read_length: 4,
        read_count: 4,
        runtime: 105,
    };
    replay.appended = Some(Ok(expected));
    assert_eq!(replay.next_step(), NakamotoStep::Valid);
    replay.appended = Some(Ok(cost(4, 4, 4, 4)));
    assert_eq!(replay.next_step(), NakamotoStep::CostMismatch(expected));
    replay.appended = Some(Err("no".to_string()));
    assert_eq!(replay.next_step(), NakamotoStep::Failed);
}

#[test]
fn a_block_without_a_tenure_change_takes_the_view_of_its_parent() {
    let mut replay = nakamoto(None);
    replay.snapshot = Some(true);
    replay.total_cost = Some(Some(cost(5, 5, 5, 5)));
    replay.parent_cost = Some(Some(cost(5, 5, 5, 5)));
    replay.elected_height = Some(Some(1));
    replay.elected_in_cycle = Some(Some(0));
    replay.reward_set = Some(true);
    replay.parent_header = header("p", Some("w"));
    assert_eq!(replay.next_step(), NakamotoStep::FindView("w".to_string()));
    replay.parent_header = header("p", None);
    assert_eq!(
        replay.next_step(),
        invalid("Failed to load burn view of parent block ID")
    );
}

#[test]
fn replaying_a_later_block_can_end_early() {
    let mut replay = nakamoto(Some(TenureChange {
        cause: TenureChangeCause::BlockFound,
        burn_view: "v".to_string(),
    }));
    replay.snapshot = Some(false);
    assert_eq!(replay.next_step(), NakamotoStep::Corrupt);
    replay.snapshot = Some(true);
    replay.total_cost = Some(None);
    assert_eq!(replay.next_step(), NakamotoStep::Unknown);
    replay.total_cost = Some(Some(cost(1, 1, 1, 1)));
    assert_eq!(replay.next_step(), NakamotoStep::FindElectedHeight);
    replay.elected_height = Some(None);
    assert_eq!(replay.next_step(), NakamotoStep::NoSuchBlock);
    replay.elected_height = Some(Some(1));
    replay.elected_in_cycle = Some(None);
    assert_eq!(
        replay.next_step(),
        invalid("Elected in block height before first_block_height")
    );
    replay.elected_in_cycle = Some(Some(0));
    replay.reward_set = Some(false);
    assert_eq!(replay.next_step(), NakamotoStep::NoSuchBlock);
    replay.reward_set = Some(true);
    replay.parent_header = Some(None);
    assert_eq!(replay.next_step(), NakamotoStep::Unknown);
    replay.parent_header = header("q", None);
    assert_eq!(
        replay.next_step(),
        invalid("Discontinuous Nakamoto Stacks block")
    );
    replay.parent_header = header("p", None);
    assert_eq!(replay.next_step(), NakamotoStep::FindView("v".to_string()));
    replay.view_snapshot = Some(false);
    assert_eq!(replay.next_step(), NakamotoStep::Unknown);
    replay.parent_header = header("p", Some("w"));
    replay.parent_view_sortition = Some(None);
    assert_eq!(
        replay.next_step(),
        invalid("Failed to load burn view of parent block ID")
    );
    replay.parent_view_sortition = Some(Some("s".to_string()));
    replay.ancestor = Some(None);
    assert_eq!(
        replay.next_step(),
        invalid("Failed to load burn view of parent block ID")
    );
    replay.ancestor = Some(Some("other".to_string()));
    assert_eq!(
        replay.next_step(),
        invalid("Does not connect to burn view of parent block ID")
    );

    let mut replay = nakamoto(None);
    replay.snapshot = Some(true);
    replay.total_cost = Some(Some(cost(1, 1, 1, 1)));
    replay.parent_cost = Some(None);
    assert_eq!(replay.next_step(), NakamotoStep::Unknown);
    replay.parent_cost = Some(Some(cost(2, 1, 1, 1)));
    assert_eq!(replay.next_step(), NakamotoStep::CostsUnderflow);
}

#[test]
fn only_the_start_of_a_tenure_burns() {
    assert_eq!(block_burns(true, 7, 9), (7, 9));
    assert_eq!(block_burns(false, 7, 9), (0, 0));
}

#[test]
fn replaying_is_commented_on() {
    assert_eq!(
        no_microblock_stream("b0"),
        "No microblock stream found for b0"
    );
    assert_eq!(
        not_attached(("c1", "b1"), ("c0", "b0")),
        "Invalid stacks block c1/b1 -- does not attach to parent b0/c0"
    );
    assert_eq!(
        append_failed("b0", "bad"),
        "Failed processing block! block = b0, error = bad"
    );
    assert_eq!(
        unexpected_cost("b0", "1", "2"),
        "Failed processing block! block = b0. Unexpected cost. expected = 1, evaluated = 2"
    );
}

#[test]
fn mining_is_reported() {
    let parent = ParentBlock {
        height: 99,
        index_block_hash: "id".to_string(),
        consensus_hash: "ch".to_string(),
        block_hash: "bh".to_string(),
    };
    let summary = mining_summary(&parent, 1234, 10, u64::MAX);
    assert_eq!(
        summary,
        "block @ height = 100 off of id (ch/bh) in 1234ms. \
         Min-fee: 10, Max-time: 18446744073709551615"
    );
    let fees = total_fees(&vec![1, 20, 300]);
    assert_eq!(fees, 321);
    assert_eq!(total_fees(&Vec::new()), 0);
    let mined = MiningOutcome::Mined {
        block_hash: "h".to_string(),
        total_fees: fees,
        size: 7,
        cost: "C".to_string(),
    };
    assert_eq!(
        mining_report("S", &mined),
        (
            "Successfully mined S\nBlock h: 321 uSTX, 7 bytes, cost C\n".to_string(),
            0
        )
    );
    assert_eq!(
        mining_report("S", &MiningOutcome::Failed("E".to_string())),
        ("Failed to mine S\nError: E\n".to_string(), 1)
    );
}
