//! What an operation is called with and what it hands back to the host.

use vstd::prelude::*;
use crate::error::{ContractError, ContractErrorView};
use crate::state::Timestamp;

verus! {

/// An amount of a native currency.
#[derive(Debug, PartialEq)]
pub struct Coin {
    pub denom: String,
    pub amount: u128,
}

/// What a `Coin` holds, as values.
pub struct CoinView {
    pub denom: Seq<char>,
    pub amount: u128,
}

impl View for Coin {
    type V = CoinView;

    open spec fn view(&self) -> CoinView {
        CoinView { denom: self.denom@, amount: self.amount }
    }
}

/// The views of a sequence of coins.
pub open spec fn coins_view(coins: Seq<Coin>) -> Seq<CoinView> {
    coins.map_values(|c: Coin| c@)
}

/// A copy of a list of coins.
pub fn duplicate_coins(coins: &Vec<Coin>) -> (c: Vec<Coin>)
    ensures
        coins_view(c@) == coins_view(coins@),
{
    let mut c: Vec<Coin> = Vec::new();
    let mut i: usize = 0;
    while i < coins.len()
        invariant
            i <= coins.len(),
            c.len() == i,
            forall|j: int| 0 <= j < i ==> c[j]@ == coins[j]@,
        decreases coins.len() - i,
    {
        c.push(Coin { denom: coins[i].denom.clone(), amount: coins[i].amount });
        i += 1;
    }
    c
}

/// The block in which an operation runs.
#[derive(Debug, PartialEq)]
pub struct Env {
    pub block_time: Timestamp,
    /// The address that holds the staked tokens.
    pub contract_address: String,
}

/// Who calls an operation, and with which funds.
#[derive(Debug, PartialEq)]
pub struct MessageInfo {
    pub sender: String,
    pub funds: Vec<Coin>,
}

/// A transfer that the host is asked to carry out once the operation has
/// committed.
#[derive(Debug, PartialEq)]
pub enum Transfer {
    /// Tokens move from `owner` to `recipient` on the token contract.
    TokenTransferFrom { token_contract: String, owner: String, recipient: String, amount: u128 },
    /// Tokens held by the ledger move to `recipient` on the token contract.
    TokenTransfer { token_contract: String, recipient: String, amount: u128 },
    /// Native funds move to `to_address`.
    BankSend { to_address: String, funds: Vec<Coin> },
}

/// What a `Transfer` asks for, as values.
pub enum TransferView {
    TokenTransferFrom {
        token_contract: Seq<char>,
        owner: Seq<char>,
        recipient: Seq<char>,
        amount: u128,
    },
    TokenTransfer { token_contract: Seq<char>, recipient: Seq<char>, amount: u128 },
    BankSend { to_address: Seq<char>, funds: Seq<CoinView> },
}

impl View for Transfer {
    type V = TransferView;

    open spec fn view(&self) -> TransferView {
        match self {
            Transfer::TokenTransferFrom {
                token_contract,
                owner,
                recipient,
                amount,
            } => TransferView::TokenTransferFrom {
                token_contract: token_contract@,
                owner: owner@,
                recipient: recipient@,
                amount: *amount,
            },
            Transfer::TokenTransfer { token_contract, recipient, amount } => TransferView::TokenTransfer {
                token_contract: token_contract@,
                recipient: recipient@,
                amount: *amount,
            },
            Transfer::BankSend { to_address, funds } => TransferView::BankSend {
                to_address: to_address@,
                funds: coins_view(funds@),
            },
        }
    }
}

/// What an attribute of a response says.
#[derive(Debug, PartialEq)]
pub enum AttributeValue {
    Text(String),
    Amount(u128),
    Time(Timestamp),
}

/// What an `AttributeValue` says, as values.
pub enum AttributeValueView {
    Text(Seq<char>),
    Amount(u128),
    Time(Timestamp),
}

impl View for AttributeValue {
    type V = AttributeValueView;

    open spec fn view(&self) -> AttributeValueView {
        match self {
            AttributeValue::Text(s) => AttributeValueView::Text(s@),
            AttributeValue::Amount(a) => AttributeValueView::Amount(*a),
            AttributeValue::Time(t) => AttributeValueView::Time(*t),
        }
    }
}

/// A key and what is reported under it.
#[derive(Debug, PartialEq)]
pub struct Attribute {
    pub key: String,
    pub value: AttributeValue,
}

/// What an `Attribute` holds, as values.
pub struct AttributeView {
    pub key: Seq<char>,
    pub value: AttributeValueView,
}

impl View for Attribute {
    type V = AttributeView;

    open spec fn view(&self) -> AttributeView {
        AttributeView { key: self.key@, value: self.value@ }
    }
}

/// The sentence that a successful operation reports, with its amount.
#[derive(Clone, Copy, Debug, PartialEq, Eq, Structural)]
pub enum Receipt {
    ClubFeesReceived(u128),
    ClubStakeReceived(u128),
    StakesAssigned(u128),
    AmountBonded(u128),
    AmountTransferred(u128),
}

/// What a successful operation hands back to the host.
#[derive(Debug, PartialEq)]
pub struct Response {
    pub messages: Vec<Transfer>,
    pub attributes: Vec<Attribute>,
    pub data: Option<Receipt>,
}

/// What a `Response` holds, as values.
pub struct ResponseView {
    pub messages: Seq<TransferView>,
    pub attributes: Seq<AttributeView>,
    pub data: Option<Receipt>,
}

impl View for Response {
    type V = ResponseView;

    open spec fn view(&self) -> ResponseView {
        ResponseView {
            messages: self.messages@.map_values(|m: Transfer| m@),
            attributes: self.attributes@.map_values(|a: Attribute| a@),
            data: self.data,
        }
    }
}

/// The response without transfers, attributes or receipt.
pub open spec fn empty_response() -> ResponseView {
    ResponseView { messages: Seq::empty(), attributes: Seq::empty(), data: None }
}

/// An attribute that reports a text.
pub open spec fn text_attr(key: Seq<char>, value: Seq<char>) -> AttributeView {
    AttributeView { key, value: AttributeValueView::Text(value) }
}

/// An attribute that reports an amount.
pub open spec fn amount_attr(key: Seq<char>, value: u128) -> AttributeView {
    AttributeView { key, value: AttributeValueView::Amount(value) }
}

/// An attribute that reports a point in time.
pub open spec fn time_attr(key: Seq<char>, value: Timestamp) -> AttributeView {
    AttributeView { key, value: AttributeValueView::Time(value) }
}

impl Response {
    /// The response without transfers, attributes or receipt.
    pub fn new() -> (r: Response)
        ensures
            r@ == empty_response(),
    {
        let r = Response { messages: Vec::new(), attributes: Vec::new(), data: None };
        assert(r@.messages =~= Seq::empty());
        assert(r@.attributes =~= Seq::empty());
        r
    }

    /// Appends a transfer for the host to carry out.
    pub fn add_message(&mut self, m: Transfer)
        ensures
            final(self)@ == (ResponseView { messages: old(self)@.messages.push(m@), ..old(self)@ }),
    {
        self.messages.push(m);
        assert(self@.messages =~= old(self)@.messages.push(m@));
    }

    /// Appends an attribute that reports a text.
    pub fn add_text(&mut self, key: &str, value: &String)
        ensures
            final(self)@ == (ResponseView {
                attributes: old(self)@.attributes.push(text_attr(key@, value@)),
                ..old(self)@
            }),
    {
        self.attributes.push(
            Attribute { key: key.to_owned(), value: AttributeValue::Text(value.clone()) },
        );
        assert(self@.attributes =~= old(self)@.attributes.push(text_attr(key@, value@)));
    }

    /// Appends an attribute that reports an amount.
    pub fn add_amount(&mut self, key: &str, value: u128)
        ensures
            final(self)@ == (ResponseView {
                attributes: old(self)@.attributes.push(amount_attr(key@, value)),
                ..old(self)@
            }),
    {
        self.attributes.push(Attribute { key: key.to_owned(), value: AttributeValue::Amount(value) });
        assert(self@.attributes =~= old(self)@.attributes.push(amount_attr(key@, value)));
    }

    /// Appends an attribute that reports a point in time.
    pub fn add_time(&mut self, key: &str, value: Timestamp)
        ensures
            final(self)@ == (ResponseView {
                attributes: old(self)@.attributes.push(time_attr(key@, value)),
                ..old(self)@
            }),
    {
        self.attributes.push(Attribute { key: key.to_owned(), value: AttributeValue::Time(value) });
        assert(self@.attributes =~= old(self)@.attributes.push(time_attr(key@, value)));
    }

    /// Sets the receipt.
    pub fn set_data(&mut self, receipt: Receipt)
        ensures
            final(self)@ == (ResponseView { data: Some(receipt), ..old(self)@ }),
    {
        self.data = Some(receipt);
    }
}

/// The view of what an operation returns.
pub open spec fn result_view(r: Result<Response, ContractError>) -> Result<
    ResponseView,
    ContractErrorView,
> {
    match r {
        Ok(response) => Ok(response@),
        Err(e) => Err(e@),
    }
}

/// The native funds of a call, sent on to `to_address`.
pub open spec fn bank_send(to_address: Seq<char>, funds: Seq<CoinView>) -> TransferView {
    TransferView::BankSend { to_address, funds }
}

/// The native funds of a call, sent on to `to_address`.
pub fn forward_funds(to_address: &String, funds: &Vec<Coin>) -> (t: Transfer)
    ensures
        t@ == bank_send(to_address@, coins_view(funds@)),
{
    Transfer::BankSend { to_address: to_address.clone(), funds: duplicate_coins(funds) }
}

} // verus!
