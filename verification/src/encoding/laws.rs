//! What holds of the wire format as a whole: what was written is read back
//! as it was.

use vstd::prelude::*;
use vstd::utf8::encode_utf8;
use crate::codec::DecodeError;
use crate::encoding::attestation::iteration_entry_wf;
use crate::encoding::block::zero_hash;
use crate::ledger::{
    Attestation, AttestationView, Block, BlockView, Header, HeaderView, IterationsInfo,
    IterationsInfoView, RatificationResult, RatificationResultView, SpentTransaction,
    SpentTransactionView, Transaction, TransactionView,
};
use crate::message::{
    Candidate, CandidateView, ConsensusHeader, ConsensusHeaderView, Message, MessageView,
    Payload, Ratification, RatificationView, Validation, ValidationView,
};

verus! {

/// A ratification result is read back as it was written.
pub proof fn law_ratification_result_round_trip(x: RatificationResult)
    ensures
        RatificationResultView::parse(x@.encode()) == Ok::<
            (RatificationResultView, Seq<u8>),
            DecodeError,
        >((x@, Seq::empty())),
{
    x@.lemma_round_trip(Seq::empty());
    assert(x@.encode() + Seq::<u8>::empty() =~= x@.encode());
}

/// A certificate is read back as it was written.
pub proof fn law_certificate_round_trip(x: Attestation)
    ensures
        AttestationView::parse(x@.encode()) == Ok::<(AttestationView, Seq<u8>), DecodeError>(
            (x@, Seq::empty()),
        ),
{
    x@.lemma_round_trip(Seq::empty());
    assert(x@.encode() + Seq::<u8>::empty() =~= x@.encode());
}

/// The views of values that code can hold are well formed.
pub proof fn lemma_iterations_info_wf(x: IterationsInfo)
    ensures
        forall|i: int|
            0 <= i < x@.cert_list.len() ==> iteration_entry_wf(#[trigger] x@.cert_list[i]),
{
    assert forall|i: int| 0 <= i < x@.cert_list.len() implies iteration_entry_wf(
        #[trigger] x@.cert_list[i],
    ) by {
        match x.cert_list@[i] {
            Some((c, pk)) => {
                assert(c@.wf());
                assert(pk@.len() == 96);
            },
            None => {},
        }
    }
}

/// A list of no more than 255 failed iterations is read back as it was
/// written. A longer list cannot be written.
pub proof fn law_iterations_info_round_trip(x: IterationsInfo)
    requires
        x.cert_list@.len() <= u8::MAX,
    ensures
        IterationsInfoView::parse(x@.encode()) == Ok::<
            (IterationsInfoView, Seq<u8>),
            DecodeError,
        >((x@, Seq::empty())),
{
    lemma_iterations_info_wf(x);
    x@.lemma_round_trip(Seq::empty());
    assert(x@.encode() + Seq::<u8>::empty() =~= x@.encode());
}

/// A header with no more than 255 failed iterations is read back as it was
/// written.
pub proof fn law_header_round_trip(x: Header)
    requires
        x.failed_iterations.cert_list@.len() <= u8::MAX,
    ensures
        HeaderView::parse(x@.encode()) == Ok::<(HeaderView, Seq<u8>), DecodeError>(
            (x@, Seq::empty()),
        ),
{
    lemma_iterations_info_wf(x.failed_iterations);
    x@.lemma_round_trip(Seq::empty());
    assert(x@.encode() + Seq::<u8>::empty() =~= x@.encode());
}

/// The header of a consensus message is read back as it was written.
pub proof fn law_consensus_header_round_trip(x: ConsensusHeader)
    ensures
        ConsensusHeaderView::parse(x@.encode()) == Ok::<
            (ConsensusHeaderView, Seq<u8>),
            DecodeError,
        >((x@, Seq::empty())),
{
    x@.lemma_round_trip(Seq::empty());
    assert(x@.encode() + Seq::<u8>::empty() =~= x@.encode());
}

/// A transaction whose payload is no longer than a `u32` can say is read
/// back as it was written.
pub proof fn law_transaction_round_trip(x: Transaction)
    requires
        x.inner@.len() <= u32::MAX,
    ensures
        TransactionView::parse(x@.encode()) == Ok::<(TransactionView, Seq<u8>), DecodeError>(
            (x@, Seq::empty()),
        ),
{
    x@.lemma_round_trip(Seq::empty());
    assert(x@.encode() + Seq::<u8>::empty() =~= x@.encode());
}

/// A spent transaction is read back as it was written, if its lengths fit
/// and its error is not the empty text. The reader stops before the last
/// four bytes where there is no error.
pub proof fn law_spent_transaction_round_trip(x: SpentTransaction)
    requires
        x.inner.inner@.len() <= u32::MAX,
        x.err matches Some(e) ==> 0 < e@.len() && encode_utf8(e@).len() <= u32::MAX,
    ensures
        SpentTransactionView::parse(x@.encode()) matches Ok((v, _)) && v == x@,
{
    x@.lemma_round_trip(Seq::empty());
    assert(x@.encode() + Seq::<u8>::empty() =~= x@.encode());
}

/// What can be written of a block is well formed.
pub proof fn lemma_block_wf(x: Block)
    requires
        x@.encodable(),
    ensures
        x@.wf(),
{
    lemma_iterations_info_wf(x.header.failed_iterations);
}

/// A block that can be written is read back as it was written, if its hash
/// is not left at zero.
pub proof fn law_block_round_trip(x: Block)
    requires
        x@.encodable(),
        x.header.hash@ != zero_hash(),
    ensures
        BlockView::parse(x@.encode()) == Ok::<(BlockView, Seq<u8>), DecodeError>(
            (x@, Seq::empty()),
        ),
{
    lemma_block_wf(x);
    x@.lemma_round_trip(Seq::empty());
    assert(x@.encode() + Seq::<u8>::empty() =~= x@.encode());
}

/// A candidate whose block can be written is read back as it was written,
/// if the hash of the block is not left at zero.
pub proof fn law_candidate_round_trip(x: Candidate)
    requires
        x.candidate@.encodable(),
        x.candidate.header.hash@ != zero_hash(),
    ensures
        CandidateView::parse(x@.encode()) == Ok::<(CandidateView, Seq<u8>), DecodeError>(
            (x@, Seq::empty()),
        ),
{
    lemma_block_wf(x.candidate);
    x@.lemma_round_trip(Seq::empty());
    assert(x@.encode() + Seq::<u8>::empty() =~= x@.encode());
}

/// A validation vote is read back as it was written.
pub proof fn law_validation_round_trip(x: Validation)
    ensures
        ValidationView::parse(x@.encode()) == Ok::<(ValidationView, Seq<u8>), DecodeError>(
            (x@, Seq::empty()),
        ),
{
    x@.lemma_round_trip(Seq::empty());
    assert(x@.encode() + Seq::<u8>::empty() =~= x@.encode());
}

/// A ratification vote is read back as it was written.
pub proof fn law_ratification_round_trip(x: Ratification)
    ensures
        RatificationView::parse(x@.encode()) == Ok::<(RatificationView, Seq<u8>), DecodeError>(
            (x@, Seq::empty()),
        ),
{
    x@.lemma_round_trip(Seq::empty());
    assert(x@.encode() + Seq::<u8>::empty() =~= x@.encode());
}

/// The frame of a message is read back as the message and the bytes that
/// the sender chose, provided the message can be written and, if it carries
/// a block, the block has its hash.
pub proof fn law_frame_round_trip(x: Message, reserved: u64)
    requires
        x@.payload.encodable(),
        x.payload matches Payload::Candidate(c) ==> c.candidate.header.hash@ != zero_hash(),
    ensures
        MessageView::parse_frame(x@.encode_frame(reserved)) == Ok::<
            ((u64, MessageView), Seq<u8>),
            DecodeError,
        >(((reserved, x@), Seq::empty())),
{
    match x.payload {
        Payload::Candidate(c) => lemma_block_wf(c.candidate),
        Payload::GetResource(g) => {
            assert forall|i: int| 0 <= i < g@.inventory.len() implies (
            #[trigger] g@.inventory[i]).len() == 32 by {
                assert(g@.inventory[i] == g.inventory@[i]@);
            }
        },
        _ => {},
    }
    x@.lemma_frame_round_trip(reserved, Seq::empty());
    assert(x@.encode_frame(reserved) + Seq::<u8>::empty() =~= x@.encode_frame(reserved));
}

} // verus!
