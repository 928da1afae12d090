use hersir::fragment::{
    round_trip_plan, send_transactions_round_trip, summarize_batch, transfer, verify_in_block_on_all,
    verify_poll, Account, BatchSummary, BlockDate, BlockInclusion, Direction, FragmentLog,
    FragmentProgress, FragmentStatus, MemPoolCheck, RejectedFragment, SubmissionOutcome, parse_block_date,
};
use hersir::node::{Error, Node};

fn node_with_logs(alias: &str) -> Node {
    let mut n = Node::new(alias, 8);
    n.capture_log_line("log line".to_string());
    n
}

fn check() -> MemPoolCheck {
    MemPoolCheck::new("f1".to_string(), "N".to_string())
}

fn entry(id: &str, status: FragmentStatus) -> FragmentLog {
    FragmentLog { fragment_id: id.to_string(), status }
}

fn inclusion(epoch: u32, slot_id: u32, block: &str) -> BlockInclusion {
    BlockInclusion { date: BlockDate { epoch, slot_id }, block: block.to_string() }
}

#[test]
fn absent_fragment_retries_then_fails() {
    let n = node_with_logs("N");
    let logs = vec![entry("other", FragmentStatus::Pending)];
    assert_eq!(verify_poll(&check(), &n, &logs, 1_000, 2_000), Ok(FragmentProgress::Retry));
    assert_eq!(verify_poll(&check(), &n, &logs, 2_000, 2_000), Ok(FragmentProgress::Retry));
    let e = verify_poll(&check(), &n, &logs, 2_001, 2_000).unwrap_err();
    assert_eq!(
        e,
        Error::FragmentNotInMemPoolLogs {
            alias: "N".to_string(),
            fragment_id: "f1".to_string(),
            logs: vec!["log line".to_string()],
        }
    );
    assert_eq!(e.logs(), vec!["log line".to_string()]);
}

#[test]
fn pending_fragment_retries_then_fails() {
    let n = node_with_logs("N");
    let logs = vec![entry("f1", FragmentStatus::Pending)];
    assert_eq!(verify_poll(&check(), &n, &logs, 500, 2_000), Ok(FragmentProgress::Retry));
    assert_eq!(
        verify_poll(&check(), &n, &logs, 2_500, 2_000),
        Err(Error::FragmentIsPendingForTooLong {
            fragment_id: "f1".to_string(),
            duration_ms: 2_500,
            alias: "N".to_string(),
            logs: vec!["log line".to_string()],
        })
    );
}

#[test]
fn rejected_fragment_fails_at_once() {
    let n = node_with_logs("N");
    let logs = vec![entry("f1", FragmentStatus::Rejected { reason: "bad signature".to_string() })];
    assert_eq!(
        verify_poll(&check(), &n, &logs, 0, 2_000),
        Err(Error::FragmentRejected {
            alias: "N".to_string(),
            fragment_id: "f1".to_string(),
            reason: "bad signature".to_string(),
        })
    );
}

#[test]
fn fragment_in_block_succeeds() {
    let n = node_with_logs("N");
    let logs = vec![
        entry("f0", FragmentStatus::Pending),
        entry("f1", FragmentStatus::InBlock { date: BlockDate { epoch: 2, slot_id: 7 }, block: "abcd".to_string() }),
    ];
    assert_eq!(
        verify_poll(&check(), &n, &logs, 99_999, 2_000),
        Ok(FragmentProgress::InBlock(inclusion(2, 7, "abcd")))
    );
}

#[test]
fn same_block_on_all_trusted_nodes() {
    let aliases = vec!["N".to_string(), "P".to_string(), "Q".to_string()];
    let results = vec![Ok(inclusion(1, 3, "h")), Ok(inclusion(1, 3, "h")), Ok(inclusion(1, 3, "h"))];
    assert_eq!(verify_in_block_on_all(&check(), &aliases, results), Ok(inclusion(1, 3, "h")));
}

#[test]
fn different_blocks_are_reported() {
    let aliases = vec!["N".to_string(), "P".to_string(), "Q".to_string()];
    let results = vec![Ok(inclusion(1, 3, "h")), Ok(inclusion(1, 3, "h")), Ok(inclusion(1, 4, "h"))];
    assert_eq!(
        verify_in_block_on_all(&check(), &aliases, results),
        Err(Error::FragmentInDifferentBlocks {
            fragment_id: "f1".to_string(),
            alias: "N".to_string(),
            other_alias: "Q".to_string(),
        })
    );
}

#[test]
fn first_node_failure_is_returned() {
    let aliases = vec!["N".to_string(), "P".to_string(), "Q".to_string()];
    let rejected = Error::FragmentRejected {
        alias: "P".to_string(),
        fragment_id: "f1".to_string(),
        reason: "r".to_string(),
    };
    let results = vec![Ok(inclusion(1, 3, "h")), Err(rejected.clone()), Err(Error::PortUnavailable(1))];
    assert_eq!(verify_in_block_on_all(&check(), &aliases, results), Err(rejected));
}

fn batch() -> (Vec<String>, Vec<SubmissionOutcome>) {
    (
        vec!["a".to_string(), "b".to_string(), "c".to_string(), "d".to_string()],
        vec![
            SubmissionOutcome::Accepted,
            SubmissionOutcome::Rejected("fee".to_string()),
            SubmissionOutcome::Accepted,
            SubmissionOutcome::Rejected("dup".to_string()),
        ],
    )
}

#[test]
fn batch_without_fail_fast_collects_everything() {
    let (ids, outcomes) = batch();
    assert_eq!(
        summarize_batch(&ids, &outcomes, false),
        BatchSummary {
            accepted: vec!["a".to_string(), "c".to_string()],
            rejected: vec![
                RejectedFragment { fragment_id: "b".to_string(), reason: "fee".to_string() },
                RejectedFragment { fragment_id: "d".to_string(), reason: "dup".to_string() },
            ],
        }
    );
}

#[test]
fn batch_with_fail_fast_stops_at_first_rejection() {
    let (ids, outcomes) = batch();
    assert_eq!(
        summarize_batch(&ids, &outcomes, true),
        BatchSummary {
            accepted: vec!["a".to_string()],
            rejected: vec![RejectedFragment { fragment_id: "b".to_string(), reason: "fee".to_string() }],
        }
    );
}

#[test]
fn batch_all_accepted_with_fail_fast() {
    let ids = vec!["a".to_string(), "b".to_string()];
    let outcomes = vec![SubmissionOutcome::Accepted, SubmissionOutcome::Accepted];
    let s = summarize_batch(&ids, &outcomes, true);
    assert_eq!(s.accepted, ids);
    assert!(s.rejected.is_empty());
}

fn account(alias: &str, value: u64) -> Account {
    Account { alias: alias.to_string(), value, spending_counter: 0 }
}

#[test]
fn transfer_moves_funds() {
    let mut a = account("alice", 5_000);
    let mut b = account("bob", 10);
    assert!(transfer(&mut a, &mut b, 1_000));
    assert_eq!((a.value, a.spending_counter), (4_000, 1));
    assert_eq!((b.value, b.spending_counter), (1_010, 0));
    assert!(!transfer(&mut b, &mut a, 2_000));
    assert_eq!((a.value, b.value, b.spending_counter), (4_000, 1_010, 0));
}

#[test]
fn transfer_refuses_overflow() {
    let mut a = account("alice", 5);
    let mut b = account("bob", u64::MAX - 1);
    assert!(!transfer(&mut a, &mut b, 2));
    assert_eq!((a.value, b.value), (5, u64::MAX - 1));
}

#[test]
fn round_trip_restores_balances() {
    let mut alice = account("ALICE", 2_500_000_000);
    let mut bob = account("BOB", 2_000_000_000);
    assert_eq!(send_transactions_round_trip(10, &mut alice, &mut bob, 1_000), Some(20));
    assert_eq!(alice.value, 2_500_000_000);
    assert_eq!(bob.value, 2_000_000_000);
    assert_eq!(alice.spending_counter, 10);
    assert_eq!(bob.spending_counter, 10);
}

#[test]
fn round_trip_without_funds_changes_nothing() {
    let mut alice = account("ALICE", 999);
    let mut bob = account("BOB", 2_000);
    assert_eq!(send_transactions_round_trip(3, &mut alice, &mut bob, 1_000), None);
    assert_eq!((alice.value, alice.spending_counter, bob.value), (999, 0, 2_000));
}

#[test]
fn round_trip_plan_alternates() {
    let plan = round_trip_plan(10);
    assert_eq!(plan.len(), 20);
    for (i, d) in plan.iter().enumerate() {
        let expected = if i % 2 == 0 { Direction::Forward } else { Direction::Backward };
        assert_eq!(*d, expected);
    }
}

#[test]
fn mem_pool_check_fields() {
    let c = MemPoolCheck::new("id".to_string(), "leader".to_string());
    assert_eq!(c.fragment_id(), "id");
    assert_eq!(c.node(), "leader");
}

#[test]
fn block_dates_parse() {
    assert_eq!(parse_block_date(b"0.5"), Some(BlockDate { epoch: 0, slot_id: 5 }));
    assert_eq!(parse_block_date(b"12.345"), Some(BlockDate { epoch: 12, slot_id: 345 }));
    assert_eq!(parse_block_date(b"4294967295.0"), Some(BlockDate { epoch: u32::MAX, slot_id: 0 }));
}

#[test]
fn malformed_block_dates_are_refused() {
    for text in [&b"1."[..], b".3", b"1.2.3", b"", b"12", b"4294967296.1", b"1.x", b"a.1"] {
        assert_eq!(parse_block_date(text), None);
    }
}
