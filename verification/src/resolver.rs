//! The resolver: fills in what a transaction still lacks from what the node
//! answered, and hands out each nonce of its account once.

use vstd::prelude::*;
use crate::signer::first_missing;
use crate::types::{Address, GasPricing, TransactionModel, TransportError, UnsignedTransaction};

verus! {

/// Which questions the node has to be asked for a transaction.
#[derive(Clone, Copy, Debug, PartialEq, Eq, Structural)]
pub struct Queries {
    /// The number of transactions that the account has sent.
    pub nonce: bool,
    /// The estimate of the gas that the transaction takes.
    pub gas_limit: bool,
    /// The gas price that the network suggests.
    pub gas_price: bool,
}

/// What the node answered; `None` where a question was not asked.
#[derive(Clone, Debug, PartialEq, Eq)]
pub struct Answers {
    pub nonce: Option<Result<u64, TransportError>>,
    pub gas_limit: Option<Result<u64, TransportError>>,
    pub gas_price: Option<Result<u128, TransportError>>,
}

/// A field that the resolver fills in from an answer.
#[derive(Clone, Copy, Debug, PartialEq, Eq, Structural)]
pub enum Field {
    Nonce,
    GasLimit,
    GasPrice,
}

/// Why a transaction was not resolved.
#[derive(Clone, Debug, PartialEq, Eq)]
pub enum ResolutionError {
    /// The transaction names a sender that is not the resolver's account.
    WrongAccount,
    /// The node could not answer; the cause is kept as it came.
    Transport(Field, TransportError),
    /// A field is absent and the question for it was not asked.
    Unanswered(Field),
    /// The account has no nonce left.
    NonceExhausted,
}

/// The nonce for the next transaction: the count that the node reports,
/// unless nonces from there on have been handed out already.
pub open spec fn assigned_nonce(next: u64, count: u64) -> u64 {
    if count > next {
        count
    } else {
        next
    }
}

/// The lowest nonce that is still free once `nonce` is taken. After the last
/// nonce that there is, none is free: the last one stands for that.
pub open spec fn next_after(next: u64, nonce: u64) -> u64 {
    if nonce < next || nonce == u64::MAX {
        next
    } else {
        (nonce + 1) as u64
    }
}

/// The value for a field: the one that the transaction has, else the one
/// that the node answered.
pub open spec fn filled<T>(field: Field, present: Option<T>, answer: Option<Result<T, TransportError>>) -> Result<
    T,
    ResolutionError,
> {
    match present {
        Some(v) => Ok(v),
        None => match answer {
            None => Err(ResolutionError::Unanswered(field)),
            Some(Err(e)) => Err(ResolutionError::Transport(field, e)),
            Some(Ok(v)) => Ok(v),
        },
    }
}

/// The nonce of the resolved transaction, or why there is none.
pub open spec fn resolved_nonce(next: u64, tx: TransactionModel, answers: Answers) -> Result<
    u64,
    ResolutionError,
> {
    match tx.nonce {
        Some(n) => Ok(n),
        None => match filled(Field::Nonce, None, answers.nonce) {
            Ok(count) => Ok(assigned_nonce(next, count)),
            Err(e) => Err(e),
        },
    }
}

/// How the resolved transaction pays for its gas, or why it is not known:
/// as the transaction says, else one price, the one that the node suggests.
pub open spec fn resolved_gas(tx: TransactionModel, answers: Answers) -> Result<
    GasPricing,
    ResolutionError,
> {
    match tx.gas {
        Some(g) => Ok(g),
        None => match filled(Field::GasPrice, None, answers.gas_price) {
            Ok(gas_price) => Ok(GasPricing::Legacy { gas_price }),
            Err(e) => Err(e),
        },
    }
}

/// What resolving gives: the transaction with every field filled in, or why
/// there is none. The first cause in the order sender, nonce, gas limit, gas
/// price is the error.
pub open spec fn resolved(
    account: Address,
    chain_id: u64,
    next: u64,
    tx: TransactionModel,
    answers: Answers,
) -> Result<TransactionModel, ResolutionError> {
    if tx.from is Some && tx.from->Some_0 != account {
        Err(ResolutionError::WrongAccount)
    } else {
        match resolved_nonce(next, tx, answers) {
            Err(e) => Err(e),
            Ok(nonce) => if nonce == u64::MAX {
                Err(ResolutionError::NonceExhausted)
            } else {
                match filled(Field::GasLimit, tx.gas_limit, answers.gas_limit) {
                    Err(e) => Err(e),
                    Ok(gas_limit) => match resolved_gas(tx, answers) {
                        Err(e) => Err(e),
                        Ok(gas) => Ok(
                            TransactionModel {
                                from: Some(account),
                                to: tx.to,
                                value: tx.value,
                                data: tx.data,
                                nonce: Some(nonce),
                                gas_limit: Some(gas_limit),
                                gas: Some(gas),
                                chain_id: Some(
                                    match tx.chain_id {
                                        Some(c) => c,
                                        None => chain_id,
                                    },
                                ),
                            },
                        ),
                    },
                }
            },
        }
    }
}

/// The resolver of one account on one chain.
#[derive(Debug)]
pub struct Resolver {
    account: Address,
    chain_id: u64,
    next_nonce: u64,
}

impl Resolver {
    pub closed spec fn spec_account(&self) -> Address {
        self.account
    }

    pub closed spec fn spec_chain_id(&self) -> u64 {
        self.chain_id
    }

    /// The lowest nonce that the resolver has not handed out.
    pub closed spec fn spec_next_nonce(&self) -> u64 {
        self.next_nonce
    }

    /// A resolver that has handed out no nonce yet.
    pub fn new(account: Address, chain_id: u64) -> (r: Resolver)
        ensures
            r.spec_account() == account,
            r.spec_chain_id() == chain_id,
            r.spec_next_nonce() == 0,
    {
        Resolver { account, chain_id, next_nonce: 0 }
    }

    #[verifier::when_used_as_spec(spec_account)]
    pub fn account(&self) -> (r: Address)
        ensures
            r == self.spec_account(),
    {
        self.account
    }

    #[verifier::when_used_as_spec(spec_chain_id)]
    pub fn chain_id(&self) -> (r: u64)
        ensures
            r == self.spec_chain_id(),
    {
        self.chain_id
    }

    #[verifier::when_used_as_spec(spec_next_nonce)]
    pub fn next_nonce(&self) -> (r: u64)
        ensures
            r == self.spec_next_nonce(),
    {
        self.next_nonce
    }

    /// Which questions have to be asked: one for each field that is absent.
    pub fn needs(&self, tx: &UnsignedTransaction) -> (r: Queries)
        ensures
            r.nonce == (tx.nonce is None),
            r.gas_limit == (tx.gas_limit is None),
            r.gas_price == (tx.gas is None),
    {
        Queries {
            nonce: tx.nonce.is_none(),
            gas_limit: tx.gas_limit.is_none(),
            gas_price: tx.gas.is_none(),
        }
    }

    /// The transaction with every field filled in, as `resolved` says. No
    /// nonce counts as handed out yet.
    pub fn plan(&self, tx: &UnsignedTransaction, answers: Answers) -> (r: Result<
        UnsignedTransaction,
        ResolutionError,
    >)
        ensures
            match r {
                Ok(full) => resolved(
                    self.account(),
                    self.chain_id(),
                    self.next_nonce(),
                    tx@,
                    answers,
                ) == Ok::<TransactionModel, ResolutionError>(full@),
                Err(e) => resolved(
                    self.account(),
                    self.chain_id(),
                    self.next_nonce(),
                    tx@,
                    answers,
                ) == Err::<TransactionModel, ResolutionError>(e),
            },
    {
        if let Some(from) = tx.from {
            if !from.same(&self.account) {
                return Err(ResolutionError::WrongAccount);
            }
        }
        let nonce: u64 = match tx.nonce {
            Some(n) => n,
            None => match answers.nonce {
                None => {
                    return Err(ResolutionError::Unanswered(Field::Nonce));
                },
                Some(Err(e)) => {
                    return Err(ResolutionError::Transport(Field::Nonce, e));
                },
                Some(Ok(count)) => if count > self.next_nonce {
                    count
                } else {
                    self.next_nonce
                },
            },
        };
        if nonce == u64::MAX {
            return Err(ResolutionError::NonceExhausted);
        }
        let gas_limit: u64 = match tx.gas_limit {
            Some(g) => g,
            None => match answers.gas_limit {
                None => {
                    return Err(ResolutionError::Unanswered(Field::GasLimit));
                },
                Some(Err(e)) => {
                    return Err(ResolutionError::Transport(Field::GasLimit, e));
                },
                Some(Ok(g)) => g,
            },
        };
        let gas = match tx.gas {
            Some(g) => g,
            None => match answers.gas_price {
                None => {
                    return Err(ResolutionError::Unanswered(Field::GasPrice));
                },
                Some(Err(e)) => {
                    return Err(ResolutionError::Transport(Field::GasPrice, e));
                },
                Some(Ok(gas_price)) => GasPricing::Legacy { gas_price },
            },
        };
        let chain_id: u64 = match tx.chain_id {
            Some(c) => c,
            None => self.chain_id,
        };
        let mut full = tx.duplicate();
        full.from = Some(self.account);
        full.nonce = Some(nonce);
        full.gas_limit = Some(gas_limit);
        full.gas = Some(gas);
        full.chain_id = Some(chain_id);
        Ok(full)
    }

    /// Counts `nonce` and every nonce below it as handed out.
    pub fn commit(&mut self, nonce: u64)
        ensures
            final(self).account() == old(self).account(),
            final(self).chain_id() == old(self).chain_id(),
            final(self).next_nonce() == next_after(old(self).next_nonce(), nonce),
        no_unwind
    {
        if nonce >= self.next_nonce && nonce < u64::MAX {
            self.next_nonce = nonce + 1;
        }
    }

    /// Fills in every field that is absent, or nothing at all.
    ///
    /// On success the transaction is `resolved`, and its nonce and all below
    /// it count as handed out. On failure the resolver is as it was.
    pub fn resolve(&mut self, tx: &UnsignedTransaction, answers: Answers) -> (r: Result<
        UnsignedTransaction,
        ResolutionError,
    >)
        ensures
            final(self).account() == old(self).account(),
            final(self).chain_id() == old(self).chain_id(),
            match r {
                Ok(full) => resolved(
                    old(self).account(),
                    old(self).chain_id(),
                    old(self).next_nonce(),
                    tx@,
                    answers,
                ) == Ok::<TransactionModel, ResolutionError>(full@) && final(self).next_nonce()
                    == next_after(old(self).next_nonce(), full.nonce->Some_0),
                Err(e) => resolved(
                    old(self).account(),
                    old(self).chain_id(),
                    old(self).next_nonce(),
                    tx@,
                    answers,
                ) == Err::<TransactionModel, ResolutionError>(e) && final(self).next_nonce()
                    == old(self).next_nonce(),
            },
    {
        match self.plan(tx, answers) {
            Ok(full) => {
                self.commit(full.nonce.unwrap());
                Ok(full)
            },
            Err(e) => Err(e),
        }
    }
}

/// A resolved transaction lacks nothing that signing needs. It names the
/// resolver's account as its sender, its nonce is not the last one that
/// there is, and its target, value and data are as they were.
pub proof fn lemma_resolved_is_complete(
    account: Address,
    chain_id: u64,
    next: u64,
    tx: TransactionModel,
    answers: Answers,
)
    requires
        resolved(account, chain_id, next, tx, answers) is Ok,
    ensures
        ({
            let full = resolved(account, chain_id, next, tx, answers)->Ok_0;
            &&& first_missing(full) is None
            &&& full.from == Some(account)
            &&& full.nonce->Some_0 < u64::MAX
            &&& full.to == tx.to
            &&& full.value == tx.value
            &&& full.data == tx.data
        }),
{
}

/// The nonces that successive transactions without a nonce of their own
/// get, where the lowest free nonce is `next` and the node reports
/// `counts[i]` transactions sent when the one at index `i` is resolved.
pub open spec fn handed_out(next: u64, counts: Seq<u64>) -> Seq<u64>
    decreases counts.len(),
{
    if counts.len() == 0 {
        Seq::empty()
    } else {
        let nonce = assigned_nonce(next, counts[0]);
        seq![nonce] + handed_out(next_after(next, nonce), counts.drop_first())
    }
}

/// Whether none of the nonces handed out is the last one that there is.
pub open spec fn none_exhausted(next: u64, counts: Seq<u64>) -> bool {
    forall|i: int| 0 <= i < counts.len() ==> #[trigger] handed_out(next, counts)[i] < u64::MAX
}

/// One nonce is handed out for each transaction.
pub proof fn lemma_handed_out_len(next: u64, counts: Seq<u64>)
    ensures
        handed_out(next, counts).len() == counts.len(),
    decreases counts.len(),
{
    if counts.len() > 0 {
        let nonce = assigned_nonce(next, counts[0]);
        lemma_handed_out_len(next_after(next, nonce), counts.drop_first());
    }
}

/// The nonces after the first are those handed out for the transactions after the first.
proof fn lemma_handed_out_rest(next: u64, counts: Seq<u64>)
    requires
        counts.len() > 0,
    ensures
        handed_out(next, counts).len() == counts.len(),
        handed_out(next, counts)[0] == assigned_nonce(next, counts[0]),
        forall|k: int|
            0 <= k < counts.len() - 1 ==> #[trigger] handed_out(
                next_after(next, assigned_nonce(next, counts[0])),
                counts.drop_first(),
            )[k] == handed_out(next, counts)[k + 1],
{
    let nonce = assigned_nonce(next, counts[0]);
    lemma_handed_out_len(next, counts);
    lemma_handed_out_len(next_after(next, nonce), counts.drop_first());
}

/// No nonce is handed out below the lowest free one.
pub proof fn lemma_handed_out_from_next(next: u64, counts: Seq<u64>)
    requires
        none_exhausted(next, counts),
    ensures
        forall|i: int| 0 <= i < counts.len() ==> #[trigger] handed_out(next, counts)[i] >= next,
    decreases counts.len(),
{
    if counts.len() > 0 {
        lemma_handed_out_rest(next, counts);
        let all = handed_out(next, counts);
        let nonce = assigned_nonce(next, counts[0]);
        let rest = handed_out(next_after(next, nonce), counts.drop_first());
        assert(all[0] == nonce);
        assert forall|i: int| 0 <= i < counts.len() - 1 implies #[trigger] rest[i] < u64::MAX by {
            assert(all[i + 1] == rest[i]);
        }
        lemma_handed_out_from_next(next_after(next, nonce), counts.drop_first());
        assert forall|i: int| 0 <= i < counts.len() implies #[trigger] all[i] >= next by {
            if i > 0 {
                assert(all[i] == rest[i - 1]);
            }
        }
    }
}

/// No nonce is handed out twice: each one is above all that came before.
pub proof fn lemma_nonces_increase(next: u64, counts: Seq<u64>, i: int, j: int)
    requires
        none_exhausted(next, counts),
        0 <= i < j < counts.len(),
    ensures
        handed_out(next, counts)[i] < handed_out(next, counts)[j],
    decreases counts.len(),
{
    let all = handed_out(next, counts);
    let nonce = assigned_nonce(next, counts[0]);
    let after = next_after(next, nonce);
    let tail = counts.drop_first();
    let rest = handed_out(after, tail);
    lemma_handed_out_rest(next, counts);
    assert(all[0] == nonce);
    assert forall|k: int| 0 <= k < tail.len() implies #[trigger] rest[k] < u64::MAX by {
        assert(all[k + 1] == rest[k]);
    }
    lemma_handed_out_from_next(after, tail);
    assert(all[j] == rest[j - 1]);
    if i == 0 {
        assert(rest[j - 1] >= after);
    } else {
        assert(all[i] == rest[i - 1]);
        lemma_nonces_increase(after, tail, i - 1, j - 1);
    }
}

/// While the node does not report more transactions than the resolver has
/// handed out nonces for, the nonces handed out are consecutive.
pub proof fn lemma_nonces_consecutive(next: u64, counts: Seq<u64>, i: int)
    requires
        none_exhausted(next, counts),
        0 <= i < counts.len(),
        forall|k: int| 0 < k < counts.len() ==> #[trigger] counts[k] <= assigned_nonce(
            next,
            counts[0],
        ) + k,
    ensures
        handed_out(next, counts)[i] == assigned_nonce(next, counts[0]) + i,
    decreases counts.len(),
{
    let all = handed_out(next, counts);
    let nonce = assigned_nonce(next, counts[0]);
    let after = next_after(next, nonce);
    let tail = counts.drop_first();
    let rest = handed_out(after, tail);
    lemma_handed_out_rest(next, counts);
    assert(all[0] == nonce);
    if i > 0 {
        assert forall|k: int| 0 <= k < tail.len() implies #[trigger] rest[k] < u64::MAX by {
            assert(all[k + 1] == rest[k]);
        }
        assert(tail[0] == counts[1]);
        assert(assigned_nonce(after, tail[0]) == nonce + 1);
        assert forall|k: int| 0 < k < tail.len() implies #[trigger] tail[k] <= assigned_nonce(
            after,
            tail[0],
        ) + k by {
            assert(tail[k] == counts[k + 1]);
        }
        lemma_nonces_consecutive(after, tail, i - 1);
        assert(all[i] == rest[i - 1]);
    }
}

} // verus!
