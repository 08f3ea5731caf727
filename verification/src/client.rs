//! What the client decides: the transactions and requests that stand for a
//! deployment, a call and a send, the life cycle of a pending transaction,
//! and the wait for its receipt.

use vstd::prelude::*;
use crate::abi::{all_fit, encoded, models, AbiModel, AbiType, AbiValue, EncodingError};
use crate::abi_decode::DecodingError;
use crate::abi_encode::{append_bytes, encode_values};
use crate::interface::{decoded_result, encoded_call, ContractInterface, FunctionModel};
use crate::resolver::{
    lemma_resolved_is_complete, next_after, resolved, Answers, Queries, ResolutionError, Resolver,
};
use crate::signer::{address_of_key, signing_of, Signer, SigningError};
use crate::types::{
    Address, SignedModel, SignedTransaction, TransactionModel, TransactionReceipt, TransportError,
    UnsignedTransaction,
};
use crate::word::U256;

verus! {

/// Where a pending transaction stands.
#[derive(Clone, Copy, Debug, PartialEq, Eq, Structural)]
pub enum Stage {
    Prepared,
    Signed,
    Submitted,
    MinedSuccess,
    MinedFailure,
    TimedOut,
}

/// What happened to a pending transaction.
#[derive(Clone, Copy, Debug, PartialEq, Eq, Structural)]
pub enum Event {
    /// The signer signed it.
    Signed,
    /// The node took it.
    Submitted,
    /// A receipt with a block number came.
    Mined { success: bool },
    /// No such receipt came in time.
    TimedOut,
}

/// How far along a stage is: later stages have higher ranks.
pub open spec fn rank(s: Stage) -> nat {
    match s {
        Stage::Prepared => 0,
        Stage::Signed => 1,
        Stage::Submitted => 2,
        _ => 3,
    }
}

/// Whether a stage is one of the three in which a transaction ends.
pub open spec fn is_final(s: Stage) -> bool {
    s is MinedSuccess || s is MinedFailure || s is TimedOut
}

/// The stage that an event leads to; none where the event cannot happen at
/// that stage.
pub open spec fn next_stage(s: Stage, e: Event) -> Option<Stage> {
    match (s, e) {
        (Stage::Prepared, Event::Signed) => Some(Stage::Signed),
        (Stage::Signed, Event::Submitted) => Some(Stage::Submitted),
        (Stage::Submitted, Event::Mined { success }) => Some(
            if success {
                Stage::MinedSuccess
            } else {
                Stage::MinedFailure
            },
        ),
        (Stage::Submitted, Event::TimedOut) => Some(Stage::TimedOut),
        _ => None,
    }
}

/// The stage that an event leads to; none where the event cannot happen at
/// that stage.
pub fn advance(s: Stage, e: Event) -> (r: Option<Stage>)
    ensures
        r == next_stage(s, e),
{
    match (s, e) {
        (Stage::Prepared, Event::Signed) => Some(Stage::Signed),
        (Stage::Signed, Event::Submitted) => Some(Stage::Submitted),
        (Stage::Submitted, Event::Mined { success }) => Some(
            if success {
                Stage::MinedSuccess
            } else {
                Stage::MinedFailure
            },
        ),
        (Stage::Submitted, Event::TimedOut) => Some(Stage::TimedOut),
        _ => None,
    }
}

/// A transaction only moves forward, one stage at a time, and stays where it ended.
pub proof fn lemma_stages_move_forward(s: Stage, e: Event)
    ensures
        is_final(s) ==> next_stage(s, e) is None,
        next_stage(s, e) matches Some(t) ==> rank(t) == rank(s) + 1,
        next_stage(s, e) matches Some(t) ==> (is_final(t) <==> s is Submitted),
{
}

/// The wait for the receipt of one transaction. Times are in milliseconds.
#[derive(Clone, Copy, Debug, PartialEq, Eq)]
pub struct ReceiptWait {
    pub hash: [u8; 32],
    /// How long to sleep between two polls.
    pub poll_interval: u64,
    /// How long to wait in all.
    pub timeout: u64,
}

/// Why a wait ended without a receipt.
#[derive(Clone, Debug, PartialEq, Eq)]
pub enum WaitError {
    /// No receipt with a block number came in time.
    Timeout,
    /// The node could not answer; the cause is kept as it came.
    Transport(TransportError),
}

/// What to do after a poll.
#[derive(Clone, Debug, PartialEq, Eq)]
pub enum PollOutcome {
    /// The transaction is mined: the wait is over.
    Mined(TransactionReceipt),
    /// Sleep for so long, then poll again.
    Retry { sleep: u64 },
    /// The wait is over without a receipt.
    Failed(WaitError),
}

/// What the node answered to a poll: a receipt, none yet, or no answer.
pub type PollAnswer = Result<Option<TransactionReceipt>, TransportError>;

/// Whether an answer holds no receipt of a mined transaction, and no error either.
pub open spec fn is_pending(answer: PollAnswer) -> bool {
    match answer {
        Ok(Some(receipt)) => receipt.block_number is None,
        Ok(None) => true,
        Err(_) => false,
    }
}

/// How long to sleep before the next poll: the interval, but not beyond the deadline.
pub open spec fn sleep_after(w: ReceiptWait, elapsed: u64) -> u64 {
    if elapsed >= w.timeout {
        0
    } else if w.timeout - elapsed < w.poll_interval {
        (w.timeout - elapsed) as u64
    } else {
        w.poll_interval
    }
}

/// What follows from the answer to a poll made `elapsed` milliseconds into the wait.
pub open spec fn poll_outcome(w: ReceiptWait, elapsed: u64, answer: PollAnswer) -> PollOutcome {
    match answer {
        Err(e) => PollOutcome::Failed(WaitError::Transport(e)),
        Ok(Some(receipt)) if receipt.block_number is Some => PollOutcome::Mined(receipt),
        _ => if elapsed >= w.timeout {
            PollOutcome::Failed(WaitError::Timeout)
        } else {
            PollOutcome::Retry { sleep: sleep_after(w, elapsed) }
        },
    }
}

impl ReceiptWait {
    /// Decides what follows from the answer to a poll made `elapsed`
    /// milliseconds into the wait.
    ///
    /// A receipt with a block number ends the wait, and so does a failure of
    /// the transport. Otherwise the wait goes on until the deadline, and
    /// never sleeps beyond it.
    pub fn on_answer(&self, elapsed: u64, answer: PollAnswer) -> (r: PollOutcome)
        ensures
            r == poll_outcome(*self, elapsed, answer),
    {
        match answer {
            Err(e) => PollOutcome::Failed(WaitError::Transport(e)),
            Ok(found) => {
                match found {
                    Some(receipt) => {
                        if receipt.block_number.is_some() {
                            return PollOutcome::Mined(receipt);
                        }
                    },
                    None => {},
                }
                if elapsed >= self.timeout {
                    PollOutcome::Failed(WaitError::Timeout)
                } else if self.timeout - elapsed < self.poll_interval {
                    PollOutcome::Retry { sleep: self.timeout - elapsed }
                } else {
                    PollOutcome::Retry { sleep: self.poll_interval }
                }
            },
        }
    }
}

/// What a poll's outcome means for the transaction's stage: the event that
/// ends the wait, or none while the wait goes on or the node gave no answer.
pub open spec fn event_of(outcome: PollOutcome) -> Option<Event> {
    match outcome {
        PollOutcome::Mined(receipt) => Some(Event::Mined { success: receipt.success }),
        PollOutcome::Failed(WaitError::Timeout) => Some(Event::TimedOut),
        _ => None,
    }
}

impl PollOutcome {
    /// The event that ends the wait, if the outcome is one.
    pub fn event(&self) -> (r: Option<Event>)
        ensures
            r == event_of(*self),
    {
        match self {
            PollOutcome::Mined(receipt) => Some(Event::Mined { success: receipt.success }),
            PollOutcome::Failed(WaitError::Timeout) => Some(Event::TimedOut),
            _ => None,
        }
    }
}

/// The time of the poll with number `k`, counted from 0, where no poll
/// finds a receipt and every sleep lasts as long as asked.
pub open spec fn polled_at(w: ReceiptWait, k: nat) -> nat
    decreases k,
{
    if k == 0 {
        0
    } else {
        let before = polled_at(w, (k - 1) as nat);
        if before >= w.timeout {
            before
        } else {
            (before + sleep_after(w, before as u64)) as nat
        }
    }
}

/// The time of a poll is the number of intervals slept, cut at the deadline.
pub proof fn lemma_polled_at(w: ReceiptWait, k: nat)
    ensures
        polled_at(w, k) == if k * w.poll_interval < w.timeout {
            k * w.poll_interval
        } else {
            w.timeout as int
        },
    decreases k,
{
    if k > 0 {
        lemma_polled_at(w, (k - 1) as nat);
        assert(k * w.poll_interval == (k - 1) * w.poll_interval + w.poll_interval)
            by (nonlinear_arith);
        assert((k - 1) * w.poll_interval >= 0) by (nonlinear_arith)
            requires
                k >= 1,
        ;
    } else {
        assert(0 * w.poll_interval == 0);
    }
}

/// A wait that finds no receipt ends in `Timeout`, and in time: with an
/// interval above zero, the poll with number `timeout / poll_interval + 1`
/// is made at the deadline, not later, and every pending answer to a poll at
/// the deadline ends the wait. No poll is made after the deadline.
pub proof fn lemma_unanswered_wait_times_out(w: ReceiptWait, answer: PollAnswer, k: nat)
    requires
        w.poll_interval > 0,
        is_pending(answer),
    ensures
        polled_at(w, k) <= w.timeout,
        polled_at(w, (w.timeout / w.poll_interval + 1) as nat) == w.timeout,
        poll_outcome(w, w.timeout, answer) == PollOutcome::Failed(WaitError::Timeout),
{
    lemma_polled_at(w, k);
    let last = (w.timeout / w.poll_interval + 1) as nat;
    lemma_polled_at(w, last);
    assert(last * w.poll_interval >= w.timeout) by (nonlinear_arith)
        requires
            last == w.timeout / w.poll_interval + 1,
            w.poll_interval > 0,
    ;
}

/// Why a deployment gave no contract.
#[derive(Clone, Copy, Debug, PartialEq, Eq, Structural)]
pub enum DeploymentError {
    /// The receipt names no contract address.
    MissingContractAddress,
}

/// A read-only execution: nothing is signed or submitted for it, and no
/// nonce is used.
#[derive(Clone, Debug, PartialEq, Eq)]
pub struct CallRequest {
    pub to: Address,
    pub data: Vec<u8>,
}

/// The transaction that creates a contract: to nobody, without value, with
/// the bytecode and behind it the block of the constructor's arguments.
/// Everything else is left to be filled in.
pub fn deployment(bytecode: &[u8], parameters: &[AbiType], args: &[AbiValue]) -> (r: Result<
    UnsignedTransaction,
    EncodingError,
>)
    ensures
        match r {
            Ok(tx) => {
                &&& all_fit(parameters@, models(args@))
                &&& tx.data@ == bytecode@ + encoded(models(args@))
                &&& tx.to is None
                &&& tx.value.value() == 0
                &&& tx.from is None
                &&& tx.nonce is None
                &&& tx.gas_limit is None
                &&& tx.gas is None
                &&& tx.chain_id is None
            },
            Err(EncodingError::ArityMismatch) => parameters@.len() != args@.len(),
            Err(EncodingError::TypeMismatch) => parameters@.len() == args@.len() && !all_fit(
                parameters@,
                models(args@),
            ),
            Err(EncodingError::TooLarge) => all_fit(parameters@, models(args@)) && bytecode@.len()
                + encoded(models(args@)).len() > usize::MAX,
            Err(EncodingError::UnknownFunction) => false,
        },
{
    let mut block = match encode_values(parameters, args) {
        Ok(block) => block,
        Err(e) => {
            return Err(e);
        },
    };
    if block.len() > usize::MAX - bytecode.len() {
        return Err(EncodingError::TooLarge);
    }
    let mut data: Vec<u8> = Vec::new();
    append_bytes(&mut data, bytecode);
    data.append(&mut block);
    Ok(UnsignedTransaction::new(None, U256::zero(), data))
}

/// A contract at its address, with the interface that its calls go by.
#[derive(Debug)]
pub struct ContractHandle {
    address: Address,
    interface: ContractInterface,
}

impl ContractHandle {
    pub closed spec fn spec_address(&self) -> Address {
        self.address
    }

    /// The functions of the contract.
    pub closed spec fn functions(&self) -> Seq<FunctionModel> {
        self.interface@
    }

    /// The contract that stands at `address`.
    pub fn attach(address: Address, interface: ContractInterface) -> (r: ContractHandle)
        ensures
            r.spec_address() == address,
            r.functions() == interface@,
    {
        ContractHandle { address, interface }
    }

    /// The contract that a mined deployment created: the one at the address
    /// that the receipt names. Without such an address there is no contract.
    pub fn deployed(receipt: &TransactionReceipt, interface: ContractInterface) -> (r: Result<
        ContractHandle,
        DeploymentError,
    >)
        ensures
            match r {
                Ok(handle) => receipt.contract_address == Some(handle.spec_address())
                    && handle.functions() == interface@,
                Err(_) => receipt.contract_address is None,
            },
    {
        match receipt.contract_address {
            Some(address) => Ok(ContractHandle { address, interface }),
            None => Err(DeploymentError::MissingContractAddress),
        }
    }

    #[verifier::when_used_as_spec(spec_address)]
    pub fn address(&self) -> (r: Address)
        ensures
            r == self.spec_address(),
    {
        self.address
    }

    pub fn interface(&self) -> (r: &ContractInterface)
        ensures
            r@ == self.functions(),
    {
        &self.interface
    }

    /// The read-only execution of a function: to the contract, with the call's bytes.
    pub fn call(&self, function: &str, args: &[AbiValue]) -> (r: Result<
        CallRequest,
        EncodingError,
    >)
        ensures
            match r {
                Ok(request) => request.to == self.address() && encoded_call(
                    self.functions(),
                    function@,
                    models(args@),
                ) == Ok::<Seq<u8>, EncodingError>(request.data@),
                Err(e) => encoded_call(self.functions(), function@, models(args@)) == Err::<
                    Seq<u8>,
                    EncodingError,
                >(e),
            },
    {
        match self.interface.encode_call(function, args) {
            Ok(data) => Ok(CallRequest { to: self.address, data }),
            Err(e) => Err(e),
        }
    }

    /// The values that a read-only execution of a function returned.
    pub fn returned(&self, function: &str, data: &[u8]) -> (r: Result<Vec<AbiValue>, DecodingError>)
        ensures
            match r {
                Ok(vals) => decoded_result(self.functions(), function@, data@) == Ok::<
                    Seq<AbiModel>,
                    DecodingError,
                >(models(vals@)),
                Err(e) => decoded_result(self.functions(), function@, data@) == Err::<
                    Seq<AbiModel>,
                    DecodingError,
                >(e),
            },
    {
        self.interface.decode_result(function, data)
    }

    /// The transaction that sends a call of a function: to the contract,
    /// without value, with the call's bytes. Everything else is left to be
    /// filled in.
    pub fn send(&self, function: &str, args: &[AbiValue]) -> (r: Result<
        UnsignedTransaction,
        EncodingError,
    >)
        ensures
            match r {
                Ok(tx) => {
                    &&& encoded_call(self.functions(), function@, models(args@)) == Ok::<
                        Seq<u8>,
                        EncodingError,
                    >(tx.data@)
                    &&& tx.to == Some(self.address())
                    &&& tx.value.value() == 0
                    &&& tx.from is None
                    &&& tx.nonce is None
                    &&& tx.gas_limit is None
                    &&& tx.gas is None
                    &&& tx.chain_id is None
                },
                Err(e) => encoded_call(self.functions(), function@, models(args@)) == Err::<
                    Seq<u8>,
                    EncodingError,
                >(e),
            },
    {
        match self.interface.encode_call(function, args) {
            Ok(data) => Ok(UnsignedTransaction::new(Some(self.address), U256::zero(), data)),
            Err(e) => Err(e),
        }
    }
}

/// Why a transaction was not made ready for submission.
#[derive(Clone, Debug, PartialEq, Eq)]
pub enum PrepareError {
    Resolution(ResolutionError),
    Signing(SigningError),
}

/// What making a transaction ready gives: it is resolved, then signed.
pub open spec fn prepared(
    key: Seq<u8>,
    account: Address,
    chain_id: u64,
    next: u64,
    tx: TransactionModel,
    answers: Answers,
) -> Result<SignedModel, PrepareError> {
    match resolved(account, chain_id, next, tx, answers) {
        Err(e) => Err(PrepareError::Resolution(e)),
        Ok(full) => match signing_of(key, full) {
            Err(e) => Err(PrepareError::Signing(e)),
            Ok(signed) => Ok(signed),
        },
    }
}

/// Resolving comes strictly before signing and leaves nothing for signing
/// to default: making a transaction ready never fails for want of a field.
pub proof fn lemma_prepared_lacks_no_field(
    key: Seq<u8>,
    account: Address,
    chain_id: u64,
    next: u64,
    tx: TransactionModel,
    answers: Answers,
)
    ensures
        prepared(key, account, chain_id, next, tx, answers) matches Err(PrepareError::Signing(e))
            ==> e == SigningError::Failed,
{
    if resolved(account, chain_id, next, tx, answers) is Ok {
        lemma_resolved_is_complete(account, chain_id, next, tx, answers);
    }
}

/// One account's client: its signer, and the resolver for its address.
pub struct Client {
    signer: Signer,
    resolver: Resolver,
}

impl Client {
    #[verifier::type_invariant]
    spec fn resolves_for_the_signer(self) -> bool {
        address_of_key(self.signer.key()) == Some(self.resolver.account()@)
    }

    /// The bytes of the private key.
    pub closed spec fn key(&self) -> Seq<u8> {
        self.signer.key()
    }

    pub closed spec fn spec_address(&self) -> Address {
        self.resolver.account()
    }

    pub closed spec fn spec_chain_id(&self) -> u64 {
        self.resolver.chain_id()
    }

    /// The lowest nonce that the client has not handed out.
    pub closed spec fn spec_next_nonce(&self) -> u64 {
        self.resolver.next_nonce()
    }

    /// The client of an account on the chain `chain_id`, with no nonce handed out yet.
    pub fn new(signer: Signer, chain_id: u64) -> (r: Client)
        ensures
            r.key() == signer.key(),
            address_of_key(signer.key()) == Some(r.spec_address()@),
            r.spec_chain_id() == chain_id,
            r.spec_next_nonce() == 0,
    {
        let resolver = Resolver::new(signer.address(), chain_id);
        Client { signer, resolver }
    }

    #[verifier::when_used_as_spec(spec_address)]
    pub fn address(&self) -> (r: Address)
        ensures
            r == self.spec_address(),
            address_of_key(self.key()) == Some(r@),
    {
        proof {
            use_type_invariant(self);
        }
        self.resolver.account()
    }

    #[verifier::when_used_as_spec(spec_chain_id)]
    pub fn chain_id(&self) -> (r: u64)
        ensures
            r == self.spec_chain_id(),
    {
        self.resolver.chain_id()
    }

    #[verifier::when_used_as_spec(spec_next_nonce)]
    pub fn next_nonce(&self) -> (r: u64)
        ensures
            r == self.spec_next_nonce(),
    {
        self.resolver.next_nonce()
    }

    /// Which questions the node has to be asked before `tx` can be made ready.
    pub fn needs(&self, tx: &UnsignedTransaction) -> (r: Queries)
        ensures
            r.nonce == (tx.nonce is None),
            r.gas_limit == (tx.gas_limit is None),
            r.gas_price == (tx.gas is None),
    {
        self.resolver.needs(tx)
    }

    /// Makes a transaction ready for submission: resolves it, then signs it.
    ///
    /// On success the nonce of the transaction and all below it count as
    /// handed out. On failure no nonce is used up.
    pub fn prepare(&mut self, tx: &UnsignedTransaction, answers: Answers) -> (r: Result<
        SignedTransaction,
        PrepareError,
    >)
        ensures
            final(self).key() == old(self).key(),
            final(self).address() == old(self).address(),
            final(self).chain_id() == old(self).chain_id(),
            match r {
                Ok(signed) => prepared(
                    old(self).key(),
                    old(self).address(),
                    old(self).chain_id(),
                    old(self).next_nonce(),
                    tx@,
                    answers,
                ) == Ok::<SignedModel, PrepareError>(signed@) && final(self).next_nonce()
                    == next_after(old(self).next_nonce(), signed.tx.nonce->Some_0),
                Err(e) => prepared(
                    old(self).key(),
                    old(self).address(),
                    old(self).chain_id(),
                    old(self).next_nonce(),
                    tx@,
                    answers,
                ) == Err::<SignedModel, PrepareError>(e) && final(self).next_nonce() == old(
                    self,
                ).next_nonce(),
            },
    {
        proof {
            use_type_invariant(&*self);
        }
        let full = match self.resolver.plan(tx, answers) {
            Ok(full) => full,
            Err(e) => {
                return Err(PrepareError::Resolution(e));
            },
        };
        match self.signer.sign(&full) {
            Ok(signed) => {
                self.resolver.commit(full.nonce.unwrap());
                Ok(signed)
            },
            Err(e) => Err(PrepareError::Signing(e)),
        }
    }
}

} // verus!
