//! A market: auctions and the allocation that results from them.

use crate::market::allocation::{Allocation, AllocationView};
use crate::market::auction::{Auction, AuctionView};
use vstd::prelude::*;

verus! {

/// The auctions as plain values.
pub open spec fn auctions_view(auctions: Seq<Auction>) -> Seq<AuctionView> {
    auctions.map_values(|auction: Auction| auction@)
}

/// A market. Its auctions stand in the order in which they were added.
#[derive(Clone, Debug)]
pub struct Market {
    name: String,
    auctions: Vec<Auction>,
    allocation: Allocation,
}

/// What a market holds.
pub struct MarketView {
    pub name: Seq<char>,
    pub auctions: Seq<AuctionView>,
    pub allocation: AllocationView,
}

impl View for Market {
    type V = MarketView;

    closed spec fn view(&self) -> MarketView {
        MarketView {
            name: self.name@,
            auctions: auctions_view(self.auctions@),
            allocation: self.allocation@,
        }
    }
}

impl Market {
    /// The market with the given name, without auctions and with nothing
    /// allocated.
    pub fn new(name: &str) -> (market: Market)
        ensures
            market@ == (MarketView {
                name: name@,
                auctions: Seq::empty(),
                allocation: AllocationView { allocations: Seq::empty() },
            }),
    {
        let market = Market {
            name: name.to_owned(),
            auctions: Vec::new(),
            allocation: Allocation::new(),
        };
        assert(market@.auctions =~= Seq::empty());
        market
    }

    /// Adds `auction` after the auctions there are.
    pub fn add_auction(&mut self, auction: Auction)
        ensures
            final(self)@ == (MarketView {
                auctions: old(self)@.auctions.push(auction@),
                ..old(self)@
            }),
    {
        self.auctions.push(auction);
        assert(self@.auctions =~= old(self)@.auctions.push(auction@));
    }

    /// The name of the market.
    pub fn name(&self) -> (name: &str)
        ensures
            name@ == self@.name,
    {
        self.name.as_str()
    }

    /// The auctions, in the order in which they were added.
    pub fn auctions(&self) -> (auctions: &[Auction])
        ensures
            auctions_view(auctions@) == self@.auctions,
    {
        self.auctions.as_slice()
    }

    /// The allocation.
    pub fn allocation(&self) -> (allocation: &Allocation)
        ensures
            allocation@ == self@.allocation,
    {
        &self.allocation
    }

    /// The allocation, to be changed in place. Name and auctions stay as
    /// they are.
    pub fn allocation_mut(&mut self) -> (allocation: &mut Allocation)
        ensures
            allocation@ == old(self)@.allocation,
            final(self)@ == (MarketView { allocation: final(allocation)@, ..old(self)@ }),
    {
        &mut self.allocation
    }
}

} // verus!
