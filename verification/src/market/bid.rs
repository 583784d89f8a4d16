//! A bid: an offer by an agent to acquire a resource at a stated amount.

use crate::agent::AgentId;
use crate::binary64::Binary64;
use vstd::prelude::*;

verus! {

/// A bid in an auction. It does not change once it is made.
#[derive(Clone, Debug)]
pub struct Bid {
    bidder: AgentId,
    amount: Binary64,
    resource: String,
}

/// What a bid holds.
pub struct BidView {
    pub bidder: AgentId,
    pub amount: Binary64,
    pub resource: Seq<char>,
}

impl View for Bid {
    type V = BidView;

    closed spec fn view(&self) -> BidView {
        BidView { bidder: self.bidder, amount: self.amount, resource: self.resource@ }
    }
}

impl Bid {
    /// The bid of `bidder` for `resource` at `amount`.
    pub fn new(bidder: AgentId, amount: Binary64, resource: &str) -> (bid: Bid)
        ensures
            bid@ == (BidView { bidder, amount, resource: resource@ }),
    {
        Bid { bidder, amount, resource: resource.to_owned() }
    }

    /// The agent that made the bid.
    pub fn bidder(&self) -> (bidder: &AgentId)
        ensures
            *bidder == self@.bidder,
    {
        &self.bidder
    }

    /// The amount offered.
    pub fn amount(&self) -> (amount: Binary64)
        ensures
            amount == self@.amount,
    {
        self.amount
    }

    /// The resource the bid is for.
    pub fn resource(&self) -> (resource: &str)
        ensures
            resource@ == self@.resource,
    {
        self.resource.as_str()
    }
}

} // verus!
