//! Blocks, headers, attestations and the labels a block carries in the chain.

use vstd::prelude::*;

verus! {

/// A 32-byte digest.
pub type Hash = [u8; 32];

/// A compressed BLS signature.
#[derive(Clone, Copy, Debug, PartialEq, Eq)]
pub struct Signature(pub [u8; 48]);

impl View for Signature {
    type V = Seq<u8>;

    open spec fn view(&self) -> Seq<u8> {
        self.0@
    }
}

impl Signature {
    pub fn inner(&self) -> (b: &[u8; 48])
        ensures
            b@ == self@,
    {
        &self.0
    }
}

/// The per-block randomness that feeds sortition.
#[derive(Clone, Copy, Debug, PartialEq, Eq)]
pub struct Seed(pub [u8; 48]);

impl View for Seed {
    type V = Seq<u8>;

    open spec fn view(&self) -> Seq<u8> {
        self.0@
    }
}

impl Seed {
    pub fn inner(&self) -> (b: &[u8; 48])
        ensures
            b@ == self@,
    {
        &self.0
    }
}

/// The compressed encoding of a BLS public key. Members of the validator set
/// are identified, compared and ordered by these bytes.
#[derive(Clone, Copy, Debug, PartialEq, Eq)]
pub struct PublicKeyBytes(pub [u8; 96]);

impl View for PublicKeyBytes {
    type V = Seq<u8>;

    open spec fn view(&self) -> Seq<u8> {
        self.0@
    }
}

impl PublicKeyBytes {
    pub fn inner(&self) -> (b: &[u8; 96])
        ensures
            b@ == self@,
    {
        &self.0
    }
}

/// What a committee member voted for.
#[derive(Clone, Copy, Debug, PartialEq, Eq)]
pub enum Vote {
    NoCandidate,
    Valid(Hash),
    Invalid(Hash),
    NoQuorum,
}

pub enum VoteView {
    NoCandidate,
    Valid(Seq<u8>),
    Invalid(Seq<u8>),
    NoQuorum,
}

impl View for Vote {
    type V = VoteView;

    open spec fn view(&self) -> VoteView {
        match *self {
            Vote::NoCandidate => VoteView::NoCandidate,
            Vote::Valid(h) => VoteView::Valid(h@),
            Vote::Invalid(h) => VoteView::Invalid(h@),
            Vote::NoQuorum => VoteView::NoQuorum,
        }
    }
}

/// The aggregated votes of one step: who signed, and the aggregate signature.
#[derive(Clone, Copy, Debug, PartialEq, Eq)]
pub struct StepVotes {
    pub bitset: u64,
    pub aggregate_signature: Signature,
}

pub struct StepVotesView {
    pub bitset: u64,
    pub aggregate_signature: Seq<u8>,
}

impl View for StepVotes {
    type V = StepVotesView;

    open spec fn view(&self) -> StepVotesView {
        StepVotesView { bitset: self.bitset, aggregate_signature: self.aggregate_signature@ }
    }
}

impl Default for StepVotes {
    /// No voter and an all-zero signature.
    fn default() -> (sv: StepVotes)
        ensures
            sv.bitset == 0,
            sv.aggregate_signature@ == Seq::new(48, |i: int| 0u8),
    {
        let sv = StepVotes { bitset: 0, aggregate_signature: Signature([0u8; 48]) };
        assert(sv.aggregate_signature@ =~= Seq::new(48, |i: int| 0u8));
        sv
    }
}

impl StepVotes {
    pub fn new(aggregate_signature: [u8; 48], bitset: u64) -> (sv: StepVotes)
        ensures
            sv.bitset == bitset,
            sv.aggregate_signature@ == aggregate_signature@,
    {
        StepVotes { bitset, aggregate_signature: Signature(aggregate_signature) }
    }

    pub fn aggregate_signature(&self) -> (s: &Signature)
        ensures
            *s == self.aggregate_signature,
    {
        &self.aggregate_signature
    }
}

/// How the ratification step of an iteration ended.
#[derive(Clone, Copy, Debug, PartialEq, Eq)]
pub enum RatificationResult {
    Fail(Vote),
    Success(Vote),
}

pub enum RatificationResultView {
    Fail(VoteView),
    Success(VoteView),
}

impl View for RatificationResult {
    type V = RatificationResultView;

    open spec fn view(&self) -> RatificationResultView {
        match *self {
            RatificationResult::Fail(v) => RatificationResultView::Fail(v@),
            RatificationResult::Success(v) => RatificationResultView::Success(v@),
        }
    }
}

impl RatificationResultView {
    /// The vote that the result is about.
    pub open spec fn vote(self) -> VoteView {
        match self {
            RatificationResultView::Fail(v) => v,
            RatificationResultView::Success(v) => v,
        }
    }
}

impl RatificationResult {
    pub fn vote(&self) -> (v: &Vote)
        ensures
            match *self {
                RatificationResult::Fail(w) => *v == w,
                RatificationResult::Success(w) => *v == w,
            },
    {
        match self {
            RatificationResult::Fail(v) => v,
            RatificationResult::Success(v) => v,
        }
    }
}

/// Proof that an iteration ended with a quorum in both voting steps.
#[derive(Clone, Copy, Debug, PartialEq, Eq)]
pub struct Attestation {
    pub result: RatificationResult,
    pub validation: StepVotes,
    pub ratification: StepVotes,
}

impl Default for Attestation {
    /// A failure without a candidate and without votes.
    fn default() -> (att: Attestation)
        ensures
            att.result == RatificationResult::Fail(Vote::NoCandidate),
            att.validation.bitset == 0,
            att.ratification.bitset == 0,
    {
        Attestation {
            result: RatificationResult::Fail(Vote::NoCandidate),
            validation: StepVotes::default(),
            ratification: StepVotes::default(),
        }
    }
}

/// The name under which an attestation travels inside a block.
pub type Certificate = Attestation;

pub struct AttestationView {
    pub result: RatificationResultView,
    pub validation: StepVotesView,
    pub ratification: StepVotesView,
}

impl View for Attestation {
    type V = AttestationView;

    open spec fn view(&self) -> AttestationView {
        AttestationView {
            result: self.result@,
            validation: self.validation@,
            ratification: self.ratification@,
        }
    }
}

/// For each failed iteration before the one that produced the block: the
/// attestation of the failure and the generator that missed it, if known.
#[derive(Clone, Debug, PartialEq, Eq)]
pub struct IterationsInfo {
    pub cert_list: Vec<Option<(Certificate, PublicKeyBytes)>>,
}

pub struct IterationsInfoView {
    pub cert_list: Seq<Option<(AttestationView, Seq<u8>)>>,
}

pub open spec fn iteration_entry_view(e: Option<(Certificate, PublicKeyBytes)>) -> Option<
    (AttestationView, Seq<u8>),
> {
    match e {
        Some((c, pk)) => Some((c@, pk@)),
        None => None,
    }
}

pub open spec fn iteration_entries_view(l: Seq<Option<(Certificate, PublicKeyBytes)>>) -> Seq<
    Option<(AttestationView, Seq<u8>)>,
> {
    Seq::new(l.len(), |i: int| iteration_entry_view(l[i]))
}

impl View for IterationsInfo {
    type V = IterationsInfoView;

    open spec fn view(&self) -> IterationsInfoView {
        IterationsInfoView { cert_list: iteration_entries_view(self.cert_list@) }
    }
}

/// Where a block stands on the way to finality.
#[derive(Clone, Copy, Debug, PartialEq, Eq, Structural)]
pub enum Label {
    Accepted,
    Attested,
    Final,
}

impl Label {
    /// How far the label is on the way to finality.
    pub open spec fn rank(self) -> nat {
        match self {
            Label::Accepted => 0,
            Label::Attested => 1,
            Label::Final => 2,
        }
    }

    /// Whether a block with this label may get the label `next`: a label
    /// may stay or move towards finality, never back.
    pub open spec fn spec_may_become(self, next: Label) -> bool {
        self.rank() <= next.rank()
    }

    pub fn may_become(&self, next: Label) -> (ok: bool)
        ensures
            ok == self.spec_may_become(next),
    {
        match (self, next) {
            (Label::Accepted, _) => true,
            (Label::Attested, Label::Accepted) => false,
            (Label::Attested, _) => true,
            (Label::Final, Label::Final) => true,
            (Label::Final, _) => false,
        }
    }

    pub fn is_final(&self) -> (f: bool)
        ensures
            f == (*self == Label::Final),
    {
        match self {
            Label::Final => true,
            _ => false,
        }
    }
}

/// The header of a block. `hash` is the digest of the fields before `att`.
#[derive(Clone, Debug, PartialEq, Eq)]
pub struct Header {
    pub version: u8,
    pub height: u64,
    pub timestamp: u64,
    pub prev_block_hash: Hash,
    pub seed: Seed,
    pub state_hash: Hash,
    pub event_hash: Hash,
    pub generator_bls_pubkey: PublicKeyBytes,
    pub txroot: Hash,
    pub gas_limit: u64,
    pub iteration: u8,
    pub prev_block_cert: Attestation,
    pub failed_iterations: IterationsInfo,
    pub hash: Hash,
    pub att: Attestation,
}

pub struct HeaderView {
    pub version: u8,
    pub height: u64,
    pub timestamp: u64,
    pub prev_block_hash: Seq<u8>,
    pub seed: Seq<u8>,
    pub state_hash: Seq<u8>,
    pub event_hash: Seq<u8>,
    pub generator_bls_pubkey: Seq<u8>,
    pub txroot: Seq<u8>,
    pub gas_limit: u64,
    pub iteration: u8,
    pub prev_block_cert: AttestationView,
    pub failed_iterations: IterationsInfoView,
    pub hash: Seq<u8>,
    pub att: AttestationView,
}

impl View for Header {
    type V = HeaderView;

    open spec fn view(&self) -> HeaderView {
        HeaderView {
            version: self.version,
            height: self.height,
            timestamp: self.timestamp,
            prev_block_hash: self.prev_block_hash@,
            seed: self.seed@,
            state_hash: self.state_hash@,
            event_hash: self.event_hash@,
            generator_bls_pubkey: self.generator_bls_pubkey@,
            txroot: self.txroot@,
            gas_limit: self.gas_limit,
            iteration: self.iteration,
            prev_block_cert: self.prev_block_cert@,
            failed_iterations: self.failed_iterations@,
            hash: self.hash@,
            att: self.att@,
        }
    }
}

/// A transaction as the ledger carries it: a version, a type and the encoded
/// payload, which the ledger does not look into.
#[derive(Clone, Debug, PartialEq, Eq)]
pub struct Transaction {
    pub version: u32,
    pub tx_type: u32,
    pub inner: Vec<u8>,
}

pub struct TransactionView {
    pub version: u32,
    pub tx_type: u32,
    pub inner: Seq<u8>,
}

impl View for Transaction {
    type V = TransactionView;

    open spec fn view(&self) -> TransactionView {
        TransactionView { version: self.version, tx_type: self.tx_type, inner: self.inner@ }
    }
}

/// Who paid for a contract call, and how much.
#[derive(Clone, Copy, Debug, PartialEq, Eq, Structural)]
pub enum EconomicMode {
    /// The contract pays for the call, up to the given allowance.
    Allowance(u64),
    /// The contract charges the caller the given amount.
    Charge(u64),
    /// Nothing out of the ordinary: the caller pays the gas.
    Plain,
    /// A mode that this version does not know.
    Unknown,
}

/// A transaction after execution.
#[derive(Clone, Debug, PartialEq, Eq)]
pub struct SpentTransaction {
    pub inner: Transaction,
    pub block_height: u64,
    pub gas_spent: u64,
    pub economic_mode: EconomicMode,
    pub err: Option<String>,
}

pub struct SpentTransactionView {
    pub inner: TransactionView,
    pub block_height: u64,
    pub gas_spent: u64,
    pub economic_mode: EconomicMode,
    pub err: Option<Seq<char>>,
}

impl View for SpentTransaction {
    type V = SpentTransactionView;

    open spec fn view(&self) -> SpentTransactionView {
        SpentTransactionView {
            inner: self.inner@,
            block_height: self.block_height,
            gas_spent: self.gas_spent,
            economic_mode: self.economic_mode,
            err: match self.err {
                Some(e) => Some(e@),
                None => None,
            },
        }
    }
}

/// A header and the transactions it commits to.
#[derive(Clone, Debug, PartialEq, Eq)]
pub struct Block {
    pub header: Header,
    pub txs: Vec<Transaction>,
}

pub struct BlockView {
    pub header: HeaderView,
    pub txs: Seq<TransactionView>,
}

pub open spec fn transactions_view(l: Seq<Transaction>) -> Seq<TransactionView> {
    Seq::new(l.len(), |i: int| l[i]@)
}

impl View for Block {
    type V = BlockView;

    open spec fn view(&self) -> BlockView {
        BlockView { header: self.header@, txs: transactions_view(self.txs@) }
    }
}

impl Block {
    pub fn header(&self) -> (h: &Header)
        ensures
            *h == self.header,
    {
        &self.header
    }

    pub fn txs(&self) -> (t: &Vec<Transaction>)
        ensures
            *t == self.txs,
    {
        &self.txs
    }
}

/// A block together with its standing in the chain.
#[derive(Clone, Debug, PartialEq, Eq)]
pub struct BlockWithLabel {
    pub blk: Block,
    pub label: Label,
}

impl BlockWithLabel {
    pub fn new_with_label(blk: Block, label: Label) -> (b: BlockWithLabel)
        ensures
            b.blk == blk,
            b.label == label,
    {
        BlockWithLabel { blk, label }
    }

    pub fn inner(&self) -> (b: &Block)
        ensures
            *b == self.blk,
    {
        &self.blk
    }

    pub fn label(&self) -> (l: Label)
        ensures
            l == self.label,
    {
        self.label
    }

    pub fn is_final(&self) -> (f: bool)
        ensures
            f == (self.label == Label::Final),
    {
        self.label.is_final()
    }

    /// Gives the block the label `label` if that is no step back, and says
    /// whether it did.
    pub fn relabel(&mut self, label: Label) -> (done: bool)
        ensures
            done == old(self).label.spec_may_become(label),
            final(self).blk == old(self).blk,
            final(self).label == (if done {
                label
            } else {
                old(self).label
            }),
    {
        if self.label.may_become(label) {
            self.label = label;
            true
        } else {
            false
        }
    }
}

/// The label of a block after it was relabelled with each of `labels` in
/// turn.
pub open spec fn relabelled(start: Label, labels: Seq<Label>) -> Label
    decreases labels.len(),
{
    if labels.len() == 0 {
        start
    } else {
        let before = relabelled(start, labels.drop_last());
        if before.spec_may_become(labels.last()) {
            labels.last()
        } else {
            before
        }
    }
}

/// Whatever labels a block is given in turn: its label never steps back,
/// and a block that was final stays final.
pub proof fn law_labels_are_monotone(start: Label, labels: Seq<Label>)
    ensures
        start.spec_may_become(relabelled(start, labels)),
        start == Label::Final ==> relabelled(start, labels) == Label::Final,
        forall|k: int|
            0 <= k <= labels.len() ==> (#[trigger] relabelled(start, labels.take(k))).spec_may_become(
                relabelled(start, labels),
            ),
    decreases labels.len(),
{
    if labels.len() > 0 {
        let front = labels.drop_last();
        law_labels_are_monotone(start, front);
        assert forall|k: int| 0 <= k <= labels.len() implies (#[trigger] relabelled(
            start,
            labels.take(k),
        )).spec_may_become(relabelled(start, labels)) by {
            if k == labels.len() {
                assert(labels.take(k) =~= labels);
            } else {
                assert(labels.take(k) =~= front.take(k));
                assert(relabelled(start, front.take(k)).spec_may_become(
                    relabelled(start, front),
                ));
            }
        }
    } else {
        assert forall|k: int| 0 <= k <= labels.len() implies (#[trigger] relabelled(
            start,
            labels.take(k),
        )).spec_may_become(relabelled(start, labels)) by {
            assert(labels.take(k) =~= labels);
        }
    }
}

} // verus!
