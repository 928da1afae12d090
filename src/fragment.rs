//! Fragment submission tracking: classification of what a node's fragment
//! logs say of a fragment, agreement across nodes, batch outcomes and the
//! accounting of round-trip transfers.
use vstd::prelude::*;
use crate::node::{Error, Node};

verus! {

/// Position of a block: epoch and slot within it.
#[derive(Debug, Clone, Copy, PartialEq, Eq, Structural)]
pub struct BlockDate {
    pub epoch: u32,
    pub slot_id: u32,
}

/// Where a fragment was included: the block's date and hash.
#[derive(Debug, Clone, PartialEq, Eq)]
pub struct BlockInclusion {
    pub date: BlockDate,
    pub block: String,
}

/// What a node's fragment log says of one fragment.
#[derive(Debug, Clone, PartialEq, Eq)]
pub enum FragmentStatus {
    Pending,
    Rejected { reason: String },
    InBlock { date: BlockDate, block: String },
}

/// One entry of a node's fragment log.
#[derive(Debug, Clone, PartialEq, Eq)]
pub struct FragmentLog {
    pub fragment_id: String,
    pub status: FragmentStatus,
}

/// Token of a submitted fragment: its id and the node it was submitted to.
#[derive(Debug, Clone, PartialEq, Eq)]
pub struct MemPoolCheck {
    fragment_id: String,
    node: String,
}

impl MemPoolCheck {
    pub closed spec fn fragment_id_view(&self) -> Seq<char> {
        self.fragment_id@
    }

    pub closed spec fn node_view(&self) -> Seq<char> {
        self.node@
    }

    pub fn new(fragment_id: String, node: String) -> (r: MemPoolCheck)
        ensures
            r.fragment_id_view() == fragment_id@,
            r.node_view() == node@,
    {
        MemPoolCheck { fragment_id, node }
    }

    pub fn fragment_id(&self) -> (r: String)
        ensures
            r@ == self.fragment_id_view(),
    {
        self.fragment_id.clone()
    }

    /// Alias of the node the fragment was submitted to.
    pub fn node(&self) -> (r: String)
        ensures
            r@ == self.node_view(),
    {
        self.node.clone()
    }
}

/// Index of the first log entry about fragment `id`.
pub open spec fn first_entry_of(logs: Seq<FragmentLog>, id: Seq<char>, i: int) -> bool {
    &&& 0 <= i < logs.len()
    &&& logs[i].fragment_id@ == id
    &&& forall|j: int| 0 <= j < i ==> (#[trigger] logs[j]).fragment_id@ != id
}

/// No log entry is about fragment `id`.
pub open spec fn absent_from(logs: Seq<FragmentLog>, id: Seq<char>) -> bool {
    forall|j: int| 0 <= j < logs.len() ==> (#[trigger] logs[j]).fragment_id@ != id
}

/// Index of the first log entry about fragment `id`, if any.
pub fn find_fragment(logs: &Vec<FragmentLog>, id: &String) -> (r: Option<usize>)
    ensures
        match r {
            Some(i) => first_entry_of(logs@, id@, i as int),
            None => absent_from(logs@, id@),
        },
{
    let mut i: usize = 0;
    while i < logs.len()
        invariant
            i <= logs@.len(),
            forall|j: int| 0 <= j < i ==> (#[trigger] logs@[j]).fragment_id@ != id@,
        decreases logs.len() - i,
    {
        if logs[i].fragment_id == *id {
            return Some(i);
        }
        i += 1;
    }
    None
}

/// The three failures that a poll of a fragment's status can end with.
pub open spec fn is_classified_fragment_error(e: Error) -> bool {
    ||| e is FragmentNotInMemPoolLogs
    ||| e is FragmentIsPendingForTooLong
    ||| e is FragmentRejected
}

/// Whether the fragment has been included in a block, or is to be polled again.
#[derive(Debug, Clone, PartialEq, Eq)]
pub enum FragmentProgress {
    InBlock(BlockInclusion),
    Retry,
}

/// Decision after one poll of `node`'s fragment logs, `elapsed_ms` after the
/// wait began. A fragment included in a block is done; a rejected one fails
/// at once; one that is absent or still pending fails once the timeout is
/// exceeded, and is polled again before that.
pub fn verify_poll(
    check: &MemPoolCheck,
    node: &Node,
    logs: &Vec<FragmentLog>,
    elapsed_ms: u64,
    timeout_ms: u64,
) -> (r: Result<FragmentProgress, Error>)
    ensures
        r is Err ==> is_classified_fragment_error(r->Err_0),
        absent_from(logs@, check.fragment_id_view()) ==> {
            &&& elapsed_ms > timeout_ms ==> (r matches Err(
                Error::FragmentNotInMemPoolLogs { alias, fragment_id, logs: l },
            ) && alias@ == node@.alias && fragment_id@ == check.fragment_id_view() && l@
                == node@.logs)
            &&& elapsed_ms <= timeout_ms ==> r == Ok::<FragmentProgress, Error>(
                FragmentProgress::Retry,
            )
        },
        forall|i: int|
            first_entry_of(logs@, check.fragment_id_view(), i) ==> match #[trigger] logs@[i].status {
                FragmentStatus::Pending => {
                    &&& elapsed_ms > timeout_ms ==> (r matches Err(
                        Error::FragmentIsPendingForTooLong { fragment_id, duration_ms, alias, logs: l },
                    ) && fragment_id@ == check.fragment_id_view() && duration_ms == elapsed_ms
                        && alias@ == node@.alias && l@ == node@.logs)
                    &&& elapsed_ms <= timeout_ms ==> r == Ok::<FragmentProgress, Error>(
                        FragmentProgress::Retry,
                    )
                },
                FragmentStatus::Rejected { reason } => r matches Err(
                    Error::FragmentRejected { alias, fragment_id, reason: m },
                ) && alias@ == node@.alias && fragment_id@ == check.fragment_id_view() && m
                    == reason,
                FragmentStatus::InBlock { date, block } => r matches Ok(
                    FragmentProgress::InBlock(b),
                ) && b.date == date && b.block == block,
            },
{
    match find_fragment(logs, &check.fragment_id) {
        None => {
            if elapsed_ms > timeout_ms {
                Err(Error::FragmentNotInMemPoolLogs {
                    alias: node.alias(),
                    fragment_id: check.fragment_id(),
                    logs: node.log_lines(),
                })
            } else {
                Ok(FragmentProgress::Retry)
            }
        },
        Some(i) => match &logs[i].status {
            FragmentStatus::Pending => {
                if elapsed_ms > timeout_ms {
                    Err(Error::FragmentIsPendingForTooLong {
                        fragment_id: check.fragment_id(),
                        duration_ms: elapsed_ms,
                        alias: node.alias(),
                        logs: node.log_lines(),
                    })
                } else {
                    Ok(FragmentProgress::Retry)
                }
            },
            FragmentStatus::Rejected { reason } => Err(Error::FragmentRejected {
                alias: node.alias(),
                fragment_id: check.fragment_id(),
                reason: reason.clone(),
            }),
            FragmentStatus::InBlock { date, block } => Ok(
                FragmentProgress::InBlock(BlockInclusion { date: *date, block: block.clone() }),
            ),
        },
    }
}

/// Two inclusions name the same block at the same date.
pub open spec fn same_inclusion(a: BlockInclusion, b: BlockInclusion) -> bool {
    a.date == b.date && a.block@ == b.block@
}

fn inclusion_eq(a: &BlockInclusion, b: &BlockInclusion) -> (r: bool)
    ensures
        r == same_inclusion(*a, *b),
{
    a.date == b.date && a.block == b.block
}

/// Result `i` is the first failure among `results`.
pub open spec fn first_failure_at(results: Seq<Result<BlockInclusion, Error>>, i: int) -> bool {
    &&& 0 <= i < results.len()
    &&& results[i] is Err
    &&& forall|j: int| 0 <= j < i ==> (#[trigger] results[j]) is Ok
}

/// Combines the outcome of the wait for a fragment on each of several nodes
/// (`aliases[i]` gave `results[i]`). The first failure is returned as it
/// is; when every node has the fragment in a block, they must all name the
/// same block, else the first node that differs from the first one is reported.
pub fn verify_in_block_on_all(
    check: &MemPoolCheck,
    aliases: &Vec<String>,
    results: Vec<Result<BlockInclusion, Error>>,
) -> (r: Result<BlockInclusion, Error>)
    requires
        aliases@.len() == results@.len(),
        results@.len() > 0,
    ensures
        (exists|i: int| first_failure_at(results@, i)) ==> exists|i: int|
            first_failure_at(results@, i) && r == results@[i],
        (forall|i: int| 0 <= i < results@.len() ==> (#[trigger] results@[i]) is Ok) ==> {
            &&& (forall|i: int|
                0 <= i < results@.len() ==> same_inclusion(
                    (#[trigger] results@[i])->Ok_0,
                    results@[0]->Ok_0,
                )) ==> r == results@[0]
            &&& (exists|k: int|
                0 <= k < results@.len() && !same_inclusion(
                    (#[trigger] results@[k])->Ok_0,
                    results@[0]->Ok_0,
                )) ==> exists|k: int|
                {
                    &&& 0 < k < results@.len()
                    &&& !same_inclusion(results@[k]->Ok_0, results@[0]->Ok_0)
                    &&& forall|j: int|
                        0 <= j < k ==> same_inclusion(
                            (#[trigger] results@[j])->Ok_0,
                            results@[0]->Ok_0,
                        )
                    &&& r matches Err(
                        Error::FragmentInDifferentBlocks { fragment_id, alias, other_alias },
                    ) && fragment_id@ == check.fragment_id_view() && alias@ == aliases@[0]@
                        && other_alias@ == aliases@[k]@
                }
        },
        r matches Ok(b) ==> forall|i: int|
            0 <= i < results@.len() ==> (#[trigger] results@[i]) is Ok && same_inclusion(
                results@[i]->Ok_0,
                b,
            ),
        (forall|i: int|
            0 <= i < results@.len() ==> (#[trigger] results@[i]) is Ok
                || is_classified_fragment_error(results@[i]->Err_0)) ==> r is Ok
            || is_classified_fragment_error(r->Err_0) || r->Err_0 is FragmentInDifferentBlocks,
{
    let mut rs = results;
    let ghost all = rs@;
    assert(all == results@);
    let n = rs.len();
    let mut i: usize = 0;
    while i < n
        invariant
            rs@ == all,
            all == results@,
            n == all.len(),
            i <= n,
            forall|j: int| 0 <= j < i ==> (#[trigger] all[j]) is Ok,
        decreases n - i,
    {
        if rs[i].is_err() {
            assert(first_failure_at(all, i as int));
            let failure = rs.remove(i);
            assert(failure == all[i as int]);
            assert(!(all[i as int] is Ok));
            return failure;
        }
        i += 1;
    }
    let mut k: usize = 1;
    while k < n
        invariant
            rs@ == all,
            all == results@,
            n == all.len(),
            aliases@.len() == n,
            1 <= k <= n,
            forall|j: int| 0 <= j < n ==> (#[trigger] all[j]) is Ok,
            forall|j: int| 0 <= j < k ==> same_inclusion((#[trigger] all[j])->Ok_0, all[0]->Ok_0),
        decreases n - k,
    {
        let same = match (&rs[k], &rs[0]) {
            (Ok(x), Ok(y)) => inclusion_eq(x, y),
            _ => false,
        };
        if !same {
            assert(!same_inclusion(all[k as int]->Ok_0, all[0]->Ok_0));
            return Err(Error::FragmentInDifferentBlocks {
                fragment_id: check.fragment_id(),
                alias: aliases[0].clone(),
                other_alias: aliases[k].clone(),
            });
        }
        k += 1;
    }
    assert(same_inclusion(all[0]->Ok_0, all[0]->Ok_0));
    rs.remove(0)
}

/// How a node answered the submission of one fragment of a batch.
#[derive(Debug, Clone, PartialEq, Eq)]
pub enum SubmissionOutcome {
    Accepted,
    Rejected(String),
}

/// A fragment of a batch that a node rejected, and why.
#[derive(Debug, Clone, PartialEq, Eq)]
pub struct RejectedFragment {
    pub fragment_id: String,
    pub reason: String,
}

/// Outcome of a batch submission: the fragments accepted and those rejected,
/// each in submission order.
#[derive(Debug, Clone, PartialEq, Eq)]
pub struct BatchSummary {
    pub accepted: Vec<String>,
    pub rejected: Vec<RejectedFragment>,
}

/// Outcome `i` is the first rejection.
pub open spec fn first_rejection_at(outcomes: Seq<SubmissionOutcome>, i: int) -> bool {
    &&& 0 <= i < outcomes.len()
    &&& outcomes[i] is Rejected
    &&& forall|j: int| 0 <= j < i ==> (#[trigger] outcomes[j]) is Accepted
}

/// How many submissions are processed: all of them, unless `fail_fast`
/// stops the batch right after the first rejection.
pub open spec fn processed_count(outcomes: Seq<SubmissionOutcome>, fail_fast: bool) -> int {
    if fail_fast && exists|i: int| first_rejection_at(outcomes, i) {
        (choose|i: int| first_rejection_at(outcomes, i)) + 1
    } else {
        outcomes.len() as int
    }
}

/// Ids of the accepted fragments among the first `n`.
pub open spec fn accepted_among(ids: Seq<String>, outcomes: Seq<SubmissionOutcome>, n: int) -> Seq<
    Seq<char>,
>
    decreases n,
{
    if n <= 0 {
        Seq::empty()
    } else {
        let p = accepted_among(ids, outcomes, n - 1);
        if outcomes[n - 1] is Accepted {
            p.push(ids[n - 1]@)
        } else {
            p
        }
    }
}

/// Ids and reasons of the rejected fragments among the first `n`.
pub open spec fn rejected_among(ids: Seq<String>, outcomes: Seq<SubmissionOutcome>, n: int) -> Seq<
    (Seq<char>, Seq<char>),
>
    decreases n,
{
    if n <= 0 {
        Seq::empty()
    } else {
        let p = rejected_among(ids, outcomes, n - 1);
        match outcomes[n - 1] {
            SubmissionOutcome::Rejected(reason) => p.push((ids[n - 1]@, reason@)),
            SubmissionOutcome::Accepted => p,
        }
    }
}

impl BatchSummary {
    /// The accepted ids.
    pub open spec fn accepted_view(&self) -> Seq<Seq<char>> {
        self.accepted@.map_values(|s: String| s@)
    }

    /// The rejected ids, each with its reason.
    pub open spec fn rejected_view(&self) -> Seq<(Seq<char>, Seq<char>)> {
        self.rejected@.map_values(|f: RejectedFragment| (f.fragment_id@, f.reason@))
    }
}

/// Summary of a batch whose fragments `ids[i]` got `outcomes[i]`, in
/// submission order. With `fail_fast` the batch stops at the first rejection;
/// without it every outcome is collected.
pub fn summarize_batch(ids: &Vec<String>, outcomes: &Vec<SubmissionOutcome>, fail_fast: bool) -> (r:
    BatchSummary)
    requires
        ids@.len() == outcomes@.len(),
    ensures
        r.accepted_view() == accepted_among(ids@, outcomes@, processed_count(outcomes@, fail_fast)),
        r.rejected_view() == rejected_among(ids@, outcomes@, processed_count(outcomes@, fail_fast)),
        !fail_fast ==> processed_count(outcomes@, fail_fast) == outcomes@.len(),
{
    let mut accepted: Vec<String> = Vec::new();
    let mut rejected: Vec<RejectedFragment> = Vec::new();
    let n = ids.len();
    let mut i: usize = 0;
    while i < n
        invariant_except_break
            forall|j: int| 0 <= j < i ==> (#[trigger] outcomes@[j]) is Accepted || !fail_fast,
        invariant
            n == ids@.len(),
            n == outcomes@.len(),
            i <= n,
            accepted@.map_values(|s: String| s@) == accepted_among(ids@, outcomes@, i as int),
            rejected@.map_values(|f: RejectedFragment| (f.fragment_id@, f.reason@)) == rejected_among(
                ids@,
                outcomes@,
                i as int,
            ),
        ensures
            i == processed_count(outcomes@, fail_fast),
        decreases n - i,
    {
        match &outcomes[i] {
            SubmissionOutcome::Accepted => {
                accepted.push(ids[i].clone());
                assert(accepted@.map_values(|s: String| s@) =~= accepted_among(
                    ids@,
                    outcomes@,
                    i + 1,
                ));
                assert(rejected_among(ids@, outcomes@, i + 1) == rejected_among(
                    ids@,
                    outcomes@,
                    i as int,
                ));
            },
            SubmissionOutcome::Rejected(reason) => {
                rejected.push(RejectedFragment { fragment_id: ids[i].clone(), reason: reason.clone() });
                assert(rejected@.map_values(|f: RejectedFragment| (f.fragment_id@, f.reason@))
                    =~= rejected_among(ids@, outcomes@, i + 1));
                assert(accepted_among(ids@, outcomes@, i + 1) == accepted_among(
                    ids@,
                    outcomes@,
                    i as int,
                ));
                if fail_fast {
                    assert(first_rejection_at(outcomes@, i as int));
                    assert forall|j: int| #[trigger] first_rejection_at(outcomes@, j) implies j
                        == i by {
                        if j < i {
                            assert(outcomes@[j] is Accepted);
                        } else if j > i {
                            assert(outcomes@[i as int] is Accepted);
                        }
                    }
                    i += 1;
                    break;
                }
            },
        }
        i += 1;
    }
    BatchSummary { accepted, rejected }
}

/// The ledger view of a wallet: its funds and how many transfers it has sent.
#[derive(Debug, Clone, PartialEq, Eq)]
pub struct Account {
    pub alias: String,
    pub value: u64,
    pub spending_counter: u32,
}

/// A transfer of `amount` from `from` to `to` can be applied.
pub open spec fn transfer_possible(from: Account, to: Account, amount: u64) -> bool {
    &&& from.value >= amount
    &&& to.value + amount <= u64::MAX
    &&& from.spending_counter < u32::MAX
}

/// Applies a transfer of `amount` from `from` to `to` when the sender has the
/// funds, the receiver's balance stays representable and the sender's counter
/// can advance; otherwise leaves both accounts as they are.
pub fn transfer(from: &mut Account, to: &mut Account, amount: u64) -> (r: bool)
    ensures
        r == transfer_possible(*old(from), *old(to), amount),
        r ==> final(from).value == old(from).value - amount && final(from).spending_counter
            == old(from).spending_counter + 1 && final(from).alias == old(from).alias,
        r ==> final(to).value == old(to).value + amount && final(to).spending_counter == old(
            to,
        ).spending_counter && final(to).alias == old(to).alias,
        !r ==> *final(from) == *old(from) && *final(to) == *old(to),
{
    if from.value < amount || to.value > u64::MAX - amount || from.spending_counter == u32::MAX {
        return false;
    }
    from.value = from.value - amount;
    from.spending_counter = from.spending_counter + 1;
    to.value = to.value + amount;
    true
}

/// Who sends in one transfer of a round trip between two wallets.
#[derive(Debug, Clone, Copy, PartialEq, Eq, Structural)]
pub enum Direction {
    /// The first wallet sends to the second.
    Forward,
    /// The second wallet sends back to the first.
    Backward,
}

/// Who sends in transfer `k` of a sequence of round trips.
pub open spec fn direction_at(k: int) -> Direction {
    if k % 2 == 0 {
        Direction::Forward
    } else {
        Direction::Backward
    }
}

/// The transfers of `n` round trips: forward, then back, `n` times.
pub fn round_trip_plan(n: usize) -> (r: Vec<Direction>)
    requires
        n <= usize::MAX / 2,
    ensures
        r@.len() == 2 * n,
        forall|k: int| 0 <= k < r@.len() ==> #[trigger] r@[k] == direction_at(k),
{
    let mut r: Vec<Direction> = Vec::new();
    let mut i: usize = 0;
    while i < n
        invariant
            i <= n,
            n <= usize::MAX / 2,
            r@.len() == 2 * i,
            forall|k: int| 0 <= k < r@.len() ==> #[trigger] r@[k] == direction_at(k),
        decreases n - i,
    {
        r.push(Direction::Forward);
        r.push(Direction::Backward);
        i += 1;
    }
    r
}

/// Every transfer of `n` round trips of `amount` between `a` and `b` can be applied.
pub open spec fn round_trip_possible(a: Account, b: Account, n: u32, amount: u64) -> bool {
    &&& a.value >= amount
    &&& b.value + amount <= u64::MAX
    &&& a.spending_counter + n <= u32::MAX
    &&& b.spending_counter + n <= u32::MAX
}

/// Applies `n` round trips of `amount` between `a` and `b`, sending first
/// from `a`, and returns how many transfers were made. When some transfer
/// could not be applied nothing is, and the result is `None`. A completed
/// round trip leaves both balances as they were and advances each
/// spending counter by `n`.
pub fn send_transactions_round_trip(n: u32, a: &mut Account, b: &mut Account, amount: u64) -> (r:
    Option<u64>)
    ensures
        r is Some <==> round_trip_possible(*old(a), *old(b), n, amount),
        r is Some ==> {
            &&& r->Some_0 == 2 * n
            &&& final(a).value == old(a).value
            &&& final(b).value == old(b).value
            &&& final(a).spending_counter == old(a).spending_counter + n
            &&& final(b).spending_counter == old(b).spending_counter + n
            &&& final(a).alias == old(a).alias
            &&& final(b).alias == old(b).alias
        },
        r is None ==> *final(a) == *old(a) && *final(b) == *old(b),
{
    if a.value < amount || b.value > u64::MAX - amount || a.spending_counter > u32::MAX - n
        || b.spending_counter > u32::MAX - n {
        return None;
    }
    let ghost a0 = *a;
    let ghost b0 = *b;
    let mut i: u32 = 0;
    while i < n
        invariant
            i <= n,
            round_trip_possible(a0, b0, n, amount),
            a.value == a0.value,
            b.value == b0.value,
            a.spending_counter == a0.spending_counter + i,
            b.spending_counter == b0.spending_counter + i,
            a.alias == a0.alias,
            b.alias == b0.alias,
        decreases n - i,
    {
        let sent = transfer(a, b, amount);
        assert(sent);
        let returned = transfer(b, a, amount);
        assert(returned);
        i += 1;
    }
    Some(2 * (n as u64))
}

/// `s` is a non-empty run of ASCII decimal digits.
pub open spec fn is_digits(s: Seq<u8>) -> bool {
    s.len() > 0 && forall|i: int| 0 <= i < s.len() ==> 48 <= #[trigger] s[i] <= 57
}

/// The number that the decimal digits `s` write.
pub open spec fn digits_value(s: Seq<u8>) -> int
    decreases s.len(),
{
    if s.len() == 0 {
        0
    } else {
        digits_value(s.drop_last()) * 10 + (s.last() as int - 48)
    }
}

/// `s` splits at the dot `k` into two runs of decimal digits.
pub open spec fn is_date_split(s: Seq<u8>, k: int) -> bool {
    &&& 0 <= k < s.len()
    &&& s[k] == 46
    &&& is_digits(s.take(k))
    &&& is_digits(s.skip(k + 1))
}

proof fn lemma_digits_value_grows(t: Seq<u8>, j: int)
    requires
        0 <= j <= t.len(),
        forall|i: int| 0 <= i < t.len() ==> 48 <= #[trigger] t[i] <= 57,
    ensures
        digits_value(t) >= digits_value(t.take(j)) >= 0,
    decreases t.len(),
{
    if t.len() > 0 {
        let u = t.drop_last();
        if j == t.len() {
            assert(t.take(j) == t);
            lemma_digits_value_grows(u, u.len() as int);
            assert(u.take(u.len() as int) == u);
        } else {
            lemma_digits_value_grows(u, j);
            assert(u.take(j) == t.take(j));
        }
    } else {
        assert(t.take(j) == t);
    }
}

/// The number written by the digits `s[a..b]`, when they are all digits and it fits in a `u32`.
fn parse_digits(s: &[u8], a: usize, b: usize) -> (r: Option<u32>)
    requires
        a <= b <= s@.len(),
    ensures
        match r {
            Some(v) => is_digits(s@.subrange(a as int, b as int)) && v == digits_value(
                s@.subrange(a as int, b as int),
            ),
            None => !is_digits(s@.subrange(a as int, b as int)) || digits_value(
                s@.subrange(a as int, b as int),
            ) > u32::MAX,
        },
{
    if a == b {
        return None;
    }
    let mut v: u32 = 0;
    let mut i: usize = a;
    while i < b
        invariant
            a <= i <= b <= s@.len(),
            forall|j: int| a <= j < i ==> 48 <= #[trigger] s@[j] <= 57,
            v == digits_value(s@.subrange(a as int, i as int)),
        decreases b - i,
    {
        let c = s[i];
        assert(s@.subrange(a as int, i + 1).drop_last() == s@.subrange(a as int, i as int));
        if c < 48 || c > 57 {
            assert(s@.subrange(a as int, b as int)[i - a] == c);
            return None;
        }
        let d = (c - 48) as u32;
        if v > (u32::MAX - d) / 10 {
            proof {
                let t = s@.subrange(a as int, b as int);
                if is_digits(t) {
                    lemma_digits_value_grows(t, i + 1 - a);
                    assert(t.take(i + 1 - a) == s@.subrange(a as int, i + 1));
                }
            }
            return None;
        }
        v = v * 10 + d;
        i += 1;
    }
    Some(v)
}

/// Reads a block date written `epoch.slot` in decimal.
pub fn parse_block_date(s: &[u8]) -> (r: Option<BlockDate>)
    ensures
        r matches Some(d) ==> exists|k: int|
            is_date_split(s@, k) && digits_value(s@.take(k)) == d.epoch && digits_value(s@.skip(k + 1))
                == d.slot_id,
        r is None ==> forall|k: int|
            #[trigger] is_date_split(s@, k) ==> digits_value(s@.take(k)) > u32::MAX || digits_value(
                s@.skip(k + 1),
            ) > u32::MAX,
{
    let n = s.len();
    let mut k: usize = 0;
    while k < n && s[k] != 46
        invariant
            n == s@.len(),
            k <= n,
            forall|j: int| 0 <= j < k ==> s@[j] != 46,
        decreases n - k,
    {
        k += 1;
    }
    assert forall|j: int| #[trigger] is_date_split(s@, j) implies j == k by {
        if j < k {
        } else if j > k {
            assert(s@.take(j)[k as int] == s@[k as int]);
        }
    }
    if k == n {
        return None;
    }
    assert(s@.subrange(0, k as int) == s@.take(k as int));
    assert(s@.subrange(k + 1, n as int) == s@.skip(k + 1));
    let epoch = parse_digits(s, 0, k);
    let slot_id = parse_digits(s, k + 1, n);
    match (epoch, slot_id) {
        (Some(epoch), Some(slot_id)) => {
            assert(is_date_split(s@, k as int));
            Some(BlockDate { epoch, slot_id })
        },
        _ => None,
    }
}

} // verus!
