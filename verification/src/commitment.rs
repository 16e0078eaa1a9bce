//! The purchase-commitment tracker: one commitment per instance, created
//! once by the buyer and fulfilled by sellers retiring (burning) credits
//! against it.
use crate::ledger::TokenContract;
use crate::AccountId;
use crate::Error;
use vstd::prelude::*;

verus! {

/// The persisted commitment record.
#[derive(Clone, Copy, Debug, PartialEq, Eq, Structural)]
pub struct ContractData {
    pub buyer: AccountId,
    pub price_per_token: u32,
    /// Total number of tokens required by the commitment.
    pub total_value: i128,
    /// Number of tokens already assigned (retired) against it.
    pub assigned_tokens: i128,
}

/// Lifecycle of a commitment tracker instance. `Fulfilled` is terminal.
#[derive(Clone, Copy, Debug, PartialEq, Eq, Structural)]
pub enum CommitmentState {
    Uninitialized,
    Active,
    Fulfilled,
}

/// An observable fact emitted by the commitment tracker.
#[derive(Clone, Copy, Debug, PartialEq, Eq, Structural)]
pub enum CreditEvent {
    CommitmentCreated { buyer: AccountId, price_per_token: u32, total_value: i128 },
    TokensAssigned { seller: AccountId, amount: i128, outstanding: i128 },
}

/// One commitment tracker instance: the commitment record, if one was
/// created yet, plus the log of facts it has emitted so far.
#[derive(Debug)]
pub struct CarbonCreditContract {
    pub data: Option<ContractData>,
    pub events: Vec<CreditEvent>,
}

/// Commitment bounds law: in every well-formed tracker state the assigned
/// quantity lies between zero and the required total, so the outstanding
/// quantity is never negative. Together with the guarantee of
/// `assign_tokens` that the assigned quantity never decreases, this is the
/// monotonicity of fulfillment.
pub proof fn lemma_commitment_bounds(c: CarbonCreditContract)
    requires
        c.wf(),
    ensures
        c.data matches Some(d) ==> (0 <= d.assigned_tokens && d.assigned_tokens <= d.total_value),
        c.outstanding() >= 0,
{
}

impl CarbonCreditContract {
    /// Facts emitted so far, in order.
    pub open spec fn log(self) -> Seq<CreditEvent> {
        self.events@
    }

    /// Well-formedness: if a commitment exists, its price and required
    /// total are positive and the assigned quantity lies between zero and
    /// the required total.
    pub open spec fn wf(self) -> bool {
        match self.data {
            Some(d) => {
                &&& d.price_per_token > 0
                &&& d.total_value > 0
                &&& 0 <= d.assigned_tokens <= d.total_value
            },
            None => true,
        }
    }

    /// Outstanding quantity: required total minus assigned so far; zero
    /// while no commitment exists.
    pub open spec fn outstanding(self) -> int {
        match self.data {
            Some(d) => d.total_value - d.assigned_tokens,
            None => 0,
        }
    }

    /// The lifecycle state the instance is in.
    pub open spec fn spec_state(self) -> CommitmentState {
        match self.data {
            None => CommitmentState::Uninitialized,
            Some(d) => if d.assigned_tokens == d.total_value {
                CommitmentState::Fulfilled
            } else {
                CommitmentState::Active
            },
        }
    }

    /// A fresh tracker instance with no commitment yet.
    pub fn new() -> (r: CarbonCreditContract)
        ensures
            r.wf(),
            r.data is None,
            r.log() == Seq::<CreditEvent>::empty(),
    {
        let r = CarbonCreditContract { data: None, events: Vec::new() };
        proof {
            assert(r.log() =~= Seq::<CreditEvent>::empty());
        }
        r
    }

    /// Create the commitment for this instance: `buyer` commits to the
    /// retirement of `total_value` tokens at `price_per_token` each.
    ///
    /// `buyer_authorized` reports whether the external authorization
    /// collaborator accepted the caller as `buyer`. Fails with
    /// `AlreadyExists` on a second creation, `InvalidParameters` on a
    /// non-positive price or total, and `Unauthorized` when authorization
    /// was not granted; a failed call leaves the state unchanged.
    pub fn create(
        &mut self,
        buyer: AccountId,
        price_per_token: u32,
        total_value: i128,
        buyer_authorized: bool,
    ) -> (r: Result<(), Error>)
        requires
            old(self).wf(),
        ensures
            final(self).wf(),
            r == (if old(self).data is Some {
                Err::<(), Error>(Error::AlreadyExists)
            } else if price_per_token == 0 || total_value <= 0 {
                Err::<(), Error>(Error::InvalidParameters)
            } else if !buyer_authorized {
                Err::<(), Error>(Error::Unauthorized)
            } else {
                Ok::<(), Error>(())
            }),
            r is Err ==> final(self).data == old(self).data && final(self).log() == old(
                self,
            ).log(),
            r is Ok ==> final(self).data == Some(
                (ContractData { buyer, price_per_token, total_value, assigned_tokens: 0 }),
            ),
            r is Ok ==> final(self).log() == old(self).log().push(
                (CreditEvent::CommitmentCreated { buyer, price_per_token, total_value }),
            ),
    {
        if self.data.is_some() {
            return Err(Error::AlreadyExists);
        }
        if price_per_token == 0 || total_value <= 0 {
            return Err(Error::InvalidParameters);
        }
        if !buyer_authorized {
            return Err(Error::Unauthorized);
        }
        self.data = Some(ContractData { buyer, price_per_token, total_value, assigned_tokens: 0 });
        self.events.push(CreditEvent::CommitmentCreated { buyer, price_per_token, total_value });
        Ok(())
    }

    /// Assign `token_amount` tokens to the commitment: burn them from
    /// `seller` on the referenced `ledger` and count them toward the
    /// required total. The burn and the bookkeeping commit together or not
    /// at all: overshoot is checked before the burn is attempted.
    ///
    /// `seller_authorized` reports whether the external authorization
    /// collaborator accepted the caller as `seller`. Fails with `NotFound`
    /// while no commitment exists, `InvalidParameters` on a non-positive
    /// amount or one exceeding the outstanding quantity (in particular, on
    /// any amount once the commitment is fulfilled), `Unauthorized` when
    /// authorization was not granted, and `InsufficientBalance` from the
    /// burn; a failed call leaves the tracker and the ledger unchanged.
    pub fn assign_tokens(
        &mut self,
        seller: AccountId,
        ledger: &mut TokenContract,
        token_amount: i128,
        seller_authorized: bool,
    ) -> (r: Result<(), Error>)
        requires
            old(self).wf(),
            old(ledger).wf(),
        ensures
            final(self).wf(),
            final(ledger).wf(),
            r == (if old(self).data is None {
                Err::<(), Error>(Error::NotFound)
            } else if token_amount <= 0 {
                Err::<(), Error>(Error::InvalidParameters)
            } else if !seller_authorized {
                Err::<(), Error>(Error::Unauthorized)
            } else if token_amount > old(self).outstanding() {
                Err::<(), Error>(Error::InvalidParameters)
            } else if old(ledger).balance(seller) < token_amount {
                Err::<(), Error>(Error::InsufficientBalance)
            } else {
                Ok::<(), Error>(())
            }),
            r is Err ==> final(self).data == old(self).data && final(self).log() == old(
                self,
            ).log(),
            r is Err ==> final(ledger).supply() == old(ledger).supply() && final(ledger).balances()
                == old(ledger).balances(),
            final(ledger).log() == old(ledger).log(),
            r is Ok ==> (old(self).data matches Some(d) && final(self).data == Some(
                (ContractData {
                    buyer: d.buyer,
                    price_per_token: d.price_per_token,
                    total_value: d.total_value,
                    assigned_tokens: (d.assigned_tokens + token_amount) as i128,
                }),
            )),
            r is Ok ==> final(self).log() == old(self).log().push(
                (CreditEvent::TokensAssigned {
                    seller,
                    amount: token_amount,
                    outstanding: (old(self).outstanding() - token_amount) as i128,
                }),
            ),
            r is Ok ==> final(ledger).supply() == old(ledger).supply() - token_amount,
            r is Ok ==> final(ledger).balance(seller) == old(ledger).balance(seller)
                - token_amount,
            r is Ok ==> forall|a: AccountId|
                a != seller ==> final(ledger).balance(a) == old(ledger).balance(a),
            old(self).data matches Some(d) ==> (final(self).data matches Some(nd)
                && d.assigned_tokens <= nd.assigned_tokens <= nd.total_value),
    {
        let d = match self.data {
            Some(d) => d,
            None => {
                return Err(Error::NotFound);
            },
        };
        if token_amount <= 0 {
            return Err(Error::InvalidParameters);
        }
        if !seller_authorized {
            return Err(Error::Unauthorized);
        }
        let outstanding = d.total_value - d.assigned_tokens;
        if token_amount > outstanding {
            return Err(Error::InvalidParameters);
        }
        let amount: u128 = token_amount as u128;
        match ledger.burn(seller, amount) {
            Ok(()) => {},
            Err(e) => {
                return Err(e);
            },
        }
        let assigned_tokens = d.assigned_tokens + token_amount;
        self.data = Some(
            ContractData {
                buyer: d.buyer,
                price_per_token: d.price_per_token,
                total_value: d.total_value,
                assigned_tokens,
            },
        );
        self.events.push(
            CreditEvent::TokensAssigned {
                seller,
                amount: token_amount,
                outstanding: d.total_value - assigned_tokens,
            },
        );
        Ok(())
    }

    /// The lifecycle state. A pure read.
    pub fn state(&self) -> (r: CommitmentState)
        ensures
            r == self.spec_state(),
    {
        match self.data {
            None => CommitmentState::Uninitialized,
            Some(d) => if d.assigned_tokens == d.total_value {
                CommitmentState::Fulfilled
            } else {
                CommitmentState::Active
            },
        }
    }

    /// The commitment record. A pure read; fails with `NotFound` while no
    /// commitment exists.
    pub fn get_contract_data(&self) -> (r: Result<ContractData, Error>)
        ensures
            r == match self.data {
                Some(d) => Ok::<ContractData, Error>(d),
                None => Err::<ContractData, Error>(Error::NotFound),
            },
    {
        match self.data {
            Some(d) => Ok(d),
            None => Err(Error::NotFound),
        }
    }
}

} // verus!
