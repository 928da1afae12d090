//! A fake wire-protocol peer: it answers from its configuration, records every
//! call it receives, and verifies predicates over that record once stopped.
use vstd::prelude::*;
use vstd::string::StringExecFns;
use crate::grpc::MockClientError;

verus! {

/// Length in bytes of a block or fragment id.
pub const HASH_LEN: usize = 32;

/// The remote procedures of the wire protocol.
#[derive(Debug, Clone, Copy, PartialEq, Eq, Structural)]
pub enum MethodType {
    Handshake,
    Tip,
    GetBlocks,
    GetHeaders,
    GetFragments,
    PullBlocks,
    PullBlocksToTip,
    PullHeaders,
    UploadBlocks,
    PushHeaders,
}

/// Protocol version a peer advertises in the handshake.
#[derive(Debug, Clone, Copy, PartialEq, Eq, Structural)]
pub enum ProtocolVersion {
    Bft,
    GenesisPraos,
}

impl ProtocolVersion {
    pub open spec fn code_spec(self) -> u32 {
        match self {
            ProtocolVersion::Bft => 0,
            ProtocolVersion::GenesisPraos => 1,
        }
    }

    /// The number that stands for this version on the wire.
    pub fn code(&self) -> (r: u32)
        ensures
            r == self.code_spec(),
    {
        match self {
            ProtocolVersion::Bft => 0,
            ProtocolVersion::GenesisPraos => 1,
        }
    }
}

/// One recorded call: which procedure, when, and its rank among the calls.
#[derive(Debug, Clone, Copy, PartialEq, Eq, Structural)]
pub struct CallLogEntry {
    pub method: MethodType,
    pub timestamp_ms: u64,
    pub ordinal: u64,
}

/// How many entries of `entries` are calls of `m`.
pub open spec fn calls_of(entries: Seq<CallLogEntry>, m: MethodType) -> nat
    decreases entries.len(),
{
    if entries.len() == 0 {
        0
    } else {
        calls_of(entries.drop_last(), m) + if entries.last().method == m {
            1nat
        } else {
            0nat
        }
    }
}

proof fn lemma_calls_of_bound(entries: Seq<CallLogEntry>, m: MethodType)
    ensures
        calls_of(entries, m) <= entries.len(),
    decreases entries.len(),
{
    if entries.len() > 0 {
        lemma_calls_of_bound(entries.drop_last(), m);
    }
}

/// A predicate over the record of calls.
#[derive(Debug, Clone, Copy, PartialEq, Eq, Structural)]
pub enum CallPredicate {
    ExecutedAtLeastOnce(MethodType),
    NeverExecuted(MethodType),
    ExecutedExactly(MethodType, u64),
}

/// Outcome of the verification of a mock's record of calls.
#[derive(Debug, Clone, Copy, PartialEq, Eq, Structural)]
pub enum MockExitCode {
    Success,
    Failure,
}

/// Whether `p` holds of the record `entries`.
pub open spec fn predicate_holds(entries: Seq<CallLogEntry>, p: CallPredicate) -> bool {
    match p {
        CallPredicate::ExecutedAtLeastOnce(m) => calls_of(entries, m) >= 1,
        CallPredicate::NeverExecuted(m) => calls_of(entries, m) == 0,
        CallPredicate::ExecutedExactly(m, n) => calls_of(entries, m) == n,
    }
}

/// The exit code that the verification of `p` over `entries` gives.
pub open spec fn verdict(entries: Seq<CallLogEntry>, p: CallPredicate) -> MockExitCode {
    if predicate_holds(entries, p) {
        MockExitCode::Success
    } else {
        MockExitCode::Failure
    }
}

/// Once a single Handshake has been recorded, "Handshake executed at least
/// once" verifies as a success; for a method never invoked the same
/// predicate verifies as a failure.
pub proof fn lemma_verify_executed_at_least_once(entries: Seq<CallLogEntry>, never_invoked: MethodType)
    requires
        calls_of(entries, MethodType::Handshake) == 1,
        calls_of(entries, never_invoked) == 0,
    ensures
        verdict(entries, CallPredicate::ExecutedAtLeastOnce(MethodType::Handshake))
            == MockExitCode::Success,
        verdict(entries, CallPredicate::ExecutedAtLeastOnce(never_invoked)) == MockExitCode::Failure,
{
}

/// The append-only record of the calls a mock received.
pub struct CallLog {
    entries: Vec<CallLogEntry>,
    closed: bool,
}

impl CallLog {
    pub closed spec fn entries_view(&self) -> Seq<CallLogEntry> {
        self.entries@
    }

    /// No call is recorded any more.
    pub closed spec fn is_closed(&self) -> bool {
        self.closed
    }

    pub fn new() -> (r: CallLog)
        ensures
            r.entries_view() == Seq::<CallLogEntry>::empty(),
            !r.is_closed(),
    {
        CallLog { entries: Vec::new(), closed: false }
    }

    /// Records a call of `method` at `timestamp_ms`, ranked after every call
    /// recorded so far, unless the log is closed; says whether it was recorded.
    pub fn record(&mut self, method: MethodType, timestamp_ms: u64) -> (r: bool)
        ensures
            r == !old(self).is_closed(),
            final(self).is_closed() == old(self).is_closed(),
            r ==> final(self).entries_view() == old(self).entries_view().push(
                CallLogEntry { method, timestamp_ms, ordinal: old(self).entries_view().len() as u64 },
            ),
            !r ==> final(self).entries_view() == old(self).entries_view(),
    {
        if self.closed {
            return false;
        }
        let ordinal = self.entries.len() as u64;
        self.entries.push(CallLogEntry { method, timestamp_ms, ordinal });
        true
    }

    /// Stops recording.
    pub fn close(&mut self)
        ensures
            final(self).is_closed(),
            final(self).entries_view() == old(self).entries_view(),
    {
        self.closed = true;
    }

    /// How many calls of `method` were recorded.
    pub fn count(&self, method: MethodType) -> (r: u64)
        ensures
            r == calls_of(self.entries_view(), method),
    {
        let mut c: u64 = 0;
        let mut i: usize = 0;
        while i < self.entries.len()
            invariant
                i <= self.entries@.len(),
                c == calls_of(self.entries@.take(i as int), method),
            decreases self.entries.len() - i,
        {
            proof {
                lemma_calls_of_bound(self.entries@.take(i as int), method);
                assert(self.entries@.take(i + 1).drop_last() == self.entries@.take(i as int));
            }
            if self.entries[i].method == method {
                c = c + 1;
            }
            i += 1;
        }
        assert(self.entries@.take(i as int) == self.entries@);
        c
    }

    pub fn method_executed_at_least_once(&self, method: MethodType) -> (r: bool)
        ensures
            r == (calls_of(self.entries_view(), method) >= 1),
    {
        self.count(method) >= 1
    }

    pub fn method_never_executed(&self, method: MethodType) -> (r: bool)
        ensures
            r == (calls_of(self.entries_view(), method) == 0),
    {
        self.count(method) == 0
    }

    /// Copy of the recorded calls, in the order received.
    pub fn entries(&self) -> (r: Vec<CallLogEntry>)
        ensures
            r@ == self.entries_view(),
    {
        let mut r: Vec<CallLogEntry> = Vec::new();
        let mut i: usize = 0;
        while i < self.entries.len()
            invariant
                i <= self.entries@.len(),
                r@ == self.entries@.take(i as int),
            decreases self.entries.len() - i,
        {
            r.push(self.entries[i]);
            i += 1;
            assert(r@ =~= self.entries@.take(i as int));
        }
        assert(self.entries@.take(i as int) =~= self.entries@);
        r
    }

    /// Stops recording and verifies `predicate` over the final record.
    pub fn finish_and_verify(&mut self, predicate: CallPredicate) -> (r: MockExitCode)
        ensures
            final(self).is_closed(),
            final(self).entries_view() == old(self).entries_view(),
            r == verdict(old(self).entries_view(), predicate),
    {
        self.close();
        let holds = match predicate {
            CallPredicate::ExecutedAtLeastOnce(m) => self.method_executed_at_least_once(m),
            CallPredicate::NeverExecuted(m) => self.method_never_executed(m),
            CallPredicate::ExecutedExactly(m, n) => self.count(m) == n,
        };
        if holds {
            MockExitCode::Success
        } else {
            MockExitCode::Failure
        }
    }
}

/// Lowercase hexadecimal digit of `n`, for `n < 16`.
pub open spec fn hex_digit(n: int) -> char {
    seq!['0', '1', '2', '3', '4', '5', '6', '7', '8', '9', 'a', 'b', 'c', 'd', 'e', 'f'][n]
}

/// `b` written as two lowercase hexadecimal digits per byte, high half first.
pub open spec fn hex_of(b: Seq<u8>) -> Seq<char>
    decreases b.len(),
{
    if b.len() == 0 {
        Seq::empty()
    } else {
        hex_of(b.drop_last()) + seq![hex_digit(b.last() as int / 16), hex_digit(b.last() as int % 16)]
    }
}

/// Relies on hex::encode: each byte becomes two lowercase hexadecimal
/// digits, the high half first.
#[verifier::external_body]
fn encode_hex(bytes: &Vec<u8>) -> (r: String)
    ensures
        r@ == hex_of(bytes@),
{
    hex::encode(bytes)
}

fn copy_bytes(b: &Vec<u8>) -> (r: Vec<u8>)
    ensures
        r@ == b@,
{
    let mut r: Vec<u8> = Vec::new();
    let mut i: usize = 0;
    while i < b.len()
        invariant
            i <= b@.len(),
            r@ == b@.take(i as int),
        decreases b.len() - i,
    {
        r.push(b[i]);
        i += 1;
        assert(r@ =~= b@.take(i as int));
    }
    assert(b@.take(i as int) =~= b@);
    r
}

fn bytes_eq(a: &Vec<u8>, b: &Vec<u8>) -> (r: bool)
    ensures
        r == (a@ == b@),
{
    if a.len() != b.len() {
        return false;
    }
    let mut i: usize = 0;
    while i < a.len()
        invariant
            a@.len() == b@.len(),
            i <= a@.len(),
            forall|j: int| 0 <= j < i ==> a@[j] == b@[j],
        decreases a.len() - i,
    {
        if a[i] != b[i] {
            return false;
        }
        i += 1;
    }
    assert(a@ =~= b@);
    true
}

/// Answer to a handshake: the advertised protocol version and genesis block hash.
#[derive(Debug, Clone, PartialEq, Eq)]
pub struct HandshakeResponse {
    pub version: u32,
    pub block0: Vec<u8>,
}

impl HandshakeResponse {
    /// The genesis block hash in hexadecimal.
    pub fn block0_hex(&self) -> (r: String)
        ensures
            r@ == hex_of(self.block0@),
    {
        encode_hex(&self.block0)
    }
}

/// What a mock answers with.
#[derive(Debug, Clone, PartialEq, Eq)]
pub struct MockConfig {
    pub port: u16,
    pub genesis_hash: Vec<u8>,
    pub genesis_header: Vec<u8>,
    pub protocol: ProtocolVersion,
    /// Header served as the tip; the genesis header when absent.
    pub tip_header: Option<Vec<u8>>,
}

/// A fragment a mock can hand out, by id.
#[derive(Debug, Clone, PartialEq, Eq)]
pub struct StoredFragment {
    pub id: Vec<u8>,
    pub content: Vec<u8>,
}

/// All ids of `ids` are `HASH_LEN` bytes long.
pub open spec fn ids_well_formed(ids: Seq<Vec<u8>>) -> bool {
    forall|i: int| 0 <= i < ids.len() ==> (#[trigger] ids[i])@.len() == HASH_LEN
}

/// Message of the error a stopped mock answers every call with.
pub open spec fn stopped_message() -> Seq<char> {
    "mock server stopped"@
}

/// Message of the error a request with a malformed id gets.
pub open spec fn malformed_id_message() -> Seq<char> {
    "malformed id"@
}

/// The contents of the fragments of `stored` whose id is among `ids`, in stored order.
pub open spec fn matching_fragments(stored: Seq<StoredFragment>, ids: Seq<Vec<u8>>) -> Seq<Seq<u8>>
    decreases stored.len(),
{
    if stored.len() == 0 {
        Seq::empty()
    } else {
        let p = matching_fragments(stored.drop_last(), ids);
        if exists|j: int| 0 <= j < ids.len() && ids[j]@ == stored.last().id@ {
            p.push(stored.last().content@)
        } else {
            p
        }
    }
}

/// A fake peer: its configuration, the fragments it serves and its record of calls.
pub struct MockServer {
    config: MockConfig,
    fragments: Vec<StoredFragment>,
    log: CallLog,
}

impl MockServer {
    pub closed spec fn config_spec(&self) -> MockConfig {
        self.config
    }

    pub closed spec fn fragments_spec(&self) -> Seq<StoredFragment> {
        self.fragments@
    }

    pub closed spec fn log_view(&self) -> Seq<CallLogEntry> {
        self.log.entries_view()
    }

    pub closed spec fn is_stopped(&self) -> bool {
        self.log.is_closed()
    }

    /// A mock that serves `fragments` and has recorded no call.
    pub fn new(config: MockConfig, fragments: Vec<StoredFragment>) -> (r: MockServer)
        ensures
            r.config_spec() == config,
            r.fragments_spec() == fragments@,
            r.log_view() == Seq::<CallLogEntry>::empty(),
            !r.is_stopped(),
    {
        MockServer { config, fragments, log: CallLog::new() }
    }

    /// Records an inbound call; a stopped mock refuses it.
    fn accept(&mut self, method: MethodType, now_ms: u64) -> (r: Result<(), MockClientError>)
        ensures
            final(self).config_spec() == old(self).config_spec(),
            final(self).fragments_spec() == old(self).fragments_spec(),
            final(self).is_stopped() == old(self).is_stopped(),
            !old(self).is_stopped() ==> r is Ok && final(self).log_view() == old(self).log_view().push(
                CallLogEntry { method, timestamp_ms: now_ms, ordinal: old(self).log_view().len() as u64 },
            ),
            old(self).is_stopped() ==> (r matches Err(MockClientError::InvalidRequest(m)) && m@
                == stopped_message()) && final(self).log_view() == old(self).log_view(),
    {
        if self.log.record(method, now_ms) {
            Ok(())
        } else {
            Err(MockClientError::InvalidRequest(String::from_str("mock server stopped")))
        }
    }

    /// Answers a handshake from the configuration, whatever the nonce.
    pub fn handshake(&mut self, nonce: &Vec<u8>, now_ms: u64) -> (r: Result<HandshakeResponse, MockClientError>)
        ensures
            final(self).config_spec() == old(self).config_spec(),
            final(self).fragments_spec() == old(self).fragments_spec(),
            final(self).is_stopped() == old(self).is_stopped(),
            !old(self).is_stopped() ==> final(self).log_view() == old(self).log_view().push(
                CallLogEntry {
                    method: MethodType::Handshake,
                    timestamp_ms: now_ms,
                    ordinal: old(self).log_view().len() as u64,
                },
            ) && (r matches Ok(h) && h.version == old(self).config_spec().protocol.code_spec() && h.block0@
                == old(self).config_spec().genesis_hash@),
            old(self).is_stopped() ==> (r matches Err(MockClientError::InvalidRequest(m)) && m@
                == stopped_message()) && final(self).log_view() == old(self).log_view(),
    {
        self.accept(MethodType::Handshake, now_ms)?;
        Ok(HandshakeResponse {
            version: self.config.protocol.code(),
            block0: copy_bytes(&self.config.genesis_hash),
        })
    }

    /// The configured tip header, or the genesis header when none is configured.
    pub fn tip(&mut self, now_ms: u64) -> (r: Result<Vec<u8>, MockClientError>)
        ensures
            final(self).config_spec() == old(self).config_spec(),
            final(self).fragments_spec() == old(self).fragments_spec(),
            final(self).is_stopped() == old(self).is_stopped(),
            !old(self).is_stopped() ==> final(self).log_view() == old(self).log_view().push(
                CallLogEntry {
                    method: MethodType::Tip,
                    timestamp_ms: now_ms,
                    ordinal: old(self).log_view().len() as u64,
                },
            ) && (r matches Ok(t) && t@ == match old(self).config_spec().tip_header {
                Some(h) => h@,
                None => old(self).config_spec().genesis_header@,
            }),
            old(self).is_stopped() ==> (r matches Err(MockClientError::InvalidRequest(m)) && m@
                == stopped_message()) && final(self).log_view() == old(self).log_view(),
    {
        self.accept(MethodType::Tip, now_ms)?;
        match &self.config.tip_header {
            Some(h) => Ok(copy_bytes(h)),
            None => Ok(copy_bytes(&self.config.genesis_header)),
        }
    }

    /// Records a call of one of the block and header procedures (`GetBlocks`,
    /// `GetHeaders`, `PullBlocks`, `PullBlocksToTip`, `PullHeaders`) naming
    /// `ids`, and answers with an empty stream, or with an error when an id is
    /// malformed.
    pub fn serve_range(&mut self, method: MethodType, ids: &Vec<Vec<u8>>, now_ms: u64) -> (r: Result<
        Vec<Vec<u8>>,
        MockClientError,
    >)
        ensures
            final(self).config_spec() == old(self).config_spec(),
            final(self).fragments_spec() == old(self).fragments_spec(),
            final(self).is_stopped() == old(self).is_stopped(),
            !old(self).is_stopped() ==> final(self).log_view() == old(self).log_view().push(
                CallLogEntry { method, timestamp_ms: now_ms, ordinal: old(self).log_view().len() as u64 },
            ),
            !old(self).is_stopped() && ids_well_formed(ids@) ==> (r matches Ok(v) && v@.len() == 0),
            !old(self).is_stopped() && !ids_well_formed(ids@) ==> (r matches Err(
                MockClientError::InvalidRequest(m),
            ) && m@ == malformed_id_message()),
            old(self).is_stopped() ==> (r matches Err(MockClientError::InvalidRequest(m)) && m@
                == stopped_message()) && final(self).log_view() == old(self).log_view(),
    {
        self.accept(method, now_ms)?;
        if !check_ids(ids) {
            return Err(MockClientError::InvalidRequest(String::from_str("malformed id")));
        }
        Ok(Vec::new())
    }

    /// The stored fragments whose id is requested, in stored order.
    pub fn get_fragments(&mut self, ids: &Vec<Vec<u8>>, now_ms: u64) -> (r: Result<
        Vec<Vec<u8>>,
        MockClientError,
    >)
        ensures
            final(self).config_spec() == old(self).config_spec(),
            final(self).fragments_spec() == old(self).fragments_spec(),
            final(self).is_stopped() == old(self).is_stopped(),
            !old(self).is_stopped() ==> final(self).log_view() == old(self).log_view().push(
                CallLogEntry {
                    method: MethodType::GetFragments,
                    timestamp_ms: now_ms,
                    ordinal: old(self).log_view().len() as u64,
                },
            ),
            !old(self).is_stopped() && ids_well_formed(ids@) ==> (r matches Ok(v) && v@.map_values(
                |c: Vec<u8>| c@,
            ) == matching_fragments(old(self).fragments_spec(), ids@)),
            !old(self).is_stopped() && !ids_well_formed(ids@) ==> (r matches Err(
                MockClientError::InvalidRequest(m),
            ) && m@ == malformed_id_message()),
            old(self).is_stopped() ==> (r matches Err(MockClientError::InvalidRequest(m)) && m@
                == stopped_message()) && final(self).log_view() == old(self).log_view(),
    {
        self.accept(MethodType::GetFragments, now_ms)?;
        if !check_ids(ids) {
            return Err(MockClientError::InvalidRequest(String::from_str("malformed id")));
        }
        let mut out: Vec<Vec<u8>> = Vec::new();
        let mut i: usize = 0;
        while i < self.fragments.len()
            invariant
                i <= self.fragments@.len(),
                out@.map_values(|c: Vec<u8>| c@) == matching_fragments(
                    self.fragments@.take(i as int),
                    ids@,
                ),
            decreases self.fragments.len() - i,
        {
            let wanted = contains_id(ids, &self.fragments[i].id);
            assert(self.fragments@.take(i + 1).drop_last() == self.fragments@.take(i as int));
            if wanted {
                out.push(copy_bytes(&self.fragments[i].content));
            }
            i += 1;
            assert(out@.map_values(|c: Vec<u8>| c@) =~= matching_fragments(
                self.fragments@.take(i as int),
                ids@,
            ));
        }
        assert(self.fragments@.take(i as int) == self.fragments@);
        Ok(out)
    }

    /// Records an upload of blocks or a push of headers and acknowledges it.
    pub fn acknowledge(&mut self, method: MethodType, now_ms: u64) -> (r: Result<(), MockClientError>)
        ensures
            final(self).config_spec() == old(self).config_spec(),
            final(self).fragments_spec() == old(self).fragments_spec(),
            final(self).is_stopped() == old(self).is_stopped(),
            !old(self).is_stopped() ==> r is Ok && final(self).log_view() == old(self).log_view().push(
                CallLogEntry { method, timestamp_ms: now_ms, ordinal: old(self).log_view().len() as u64 },
            ),
            old(self).is_stopped() ==> (r matches Err(MockClientError::InvalidRequest(m)) && m@
                == stopped_message()) && final(self).log_view() == old(self).log_view(),
    {
        self.accept(method, now_ms)
    }

    /// Serves `header` as the tip from now on.
    pub fn set_tip_block(&mut self, header: Vec<u8>)
        ensures
            final(self).config_spec() == (MockConfig { tip_header: Some(header), ..old(self).config_spec() }),
            final(self).fragments_spec() == old(self).fragments_spec(),
            final(self).log_view() == old(self).log_view(),
            final(self).is_stopped() == old(self).is_stopped(),
    {
        self.config.tip_header = Some(header);
    }

    pub fn config(&self) -> (r: &MockConfig)
        ensures
            *r == self.config_spec(),
    {
        &self.config
    }

    /// Copy of the record of calls.
    pub fn calls(&self) -> (r: Vec<CallLogEntry>)
        ensures
            r@ == self.log_view(),
    {
        self.log.entries()
    }

    /// Stops accepting calls and verifies `predicate` over the record.
    pub fn finish_and_verify(&mut self, predicate: CallPredicate) -> (r: MockExitCode)
        ensures
            final(self).config_spec() == old(self).config_spec(),
            final(self).fragments_spec() == old(self).fragments_spec(),
            final(self).is_stopped(),
            final(self).log_view() == old(self).log_view(),
            r == verdict(old(self).log_view(), predicate),
    {
        self.log.finish_and_verify(predicate)
    }
}

/// Whether every id is `HASH_LEN` bytes long.
fn check_ids(ids: &Vec<Vec<u8>>) -> (r: bool)
    ensures
        r == ids_well_formed(ids@),
{
    let mut i: usize = 0;
    while i < ids.len()
        invariant
            i <= ids@.len(),
            forall|j: int| 0 <= j < i ==> (#[trigger] ids@[j])@.len() == HASH_LEN,
        decreases ids.len() - i,
    {
        if ids[i].len() != HASH_LEN {
            return false;
        }
        i += 1;
    }
    true
}

/// Whether `id` is among `ids`.
fn contains_id(ids: &Vec<Vec<u8>>, id: &Vec<u8>) -> (r: bool)
    ensures
        r == exists|j: int| 0 <= j < ids@.len() && ids@[j]@ == id@,
{
    let mut i: usize = 0;
    while i < ids.len()
        invariant
            i <= ids@.len(),
            forall|j: int| 0 <= j < i ==> (#[trigger] ids@[j])@ != id@,
        decreases ids.len() - i,
    {
        if bytes_eq(&ids[i], id) {
            return true;
        }
        i += 1;
    }
    false
}

} // verus!
