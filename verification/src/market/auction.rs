//! An auction: the bids made for one resource, and the rule that picks the
//! winner among them under an optional reserve price.

use crate::binary64::Binary64;
use crate::market::bid::{Bid, BidView};
use vstd::prelude::*;

verus! {

/// The kind of an auction. It is recorded with the auction; the winner is
/// picked in the same way for every kind.
#[derive(Clone, Copy, Debug, PartialEq, Eq, Structural)]
pub enum AuctionType {
    /// Ascending price.
    English,
    /// Descending price.
    Dutch,
    /// Sealed bids.
    SealedBid,
    /// Sealed bids, second price.
    Vickrey,
}

/// An auction for one resource.
///
/// Bids are kept in the order in which they were added. An agent may bid
/// more than once; a later bid does not replace an earlier one. The resource
/// named by a bid is not compared with that of the auction.
#[derive(Clone, Debug)]
pub struct Auction {
    auction_type: AuctionType,
    resource: String,
    bids: Vec<Bid>,
    reserve_price: Option<Binary64>,
}

/// What an auction holds.
pub struct AuctionView {
    pub auction_type: AuctionType,
    pub resource: Seq<char>,
    pub bids: Seq<BidView>,
    pub reserve_price: Option<Binary64>,
}

/// The bids as plain values.
pub open spec fn bids_view(bids: Seq<Bid>) -> Seq<BidView> {
    bids.map_values(|bid: Bid| bid@)
}

/// Bid `i` is the highest among the first `n` bids: its amount is a number,
/// none of the `n` amounts is greater, and every amount before it that is a
/// number is smaller. Bids whose amount is not a number take no part.
pub open spec fn highest_among(bids: Seq<BidView>, n: int, i: int) -> bool {
    &&& 0 <= i < n <= bids.len()
    &&& !bids[i].amount.is_nan()
    &&& forall|j: int| 0 <= j < n ==> !bids[i].amount.lt(#[trigger] bids[j].amount)
    &&& forall|j: int|
        0 <= j < i ==> (#[trigger] bids[j]).amount.is_nan() || bids[j].amount.lt(bids[i].amount)
}

/// Bid `i` is the highest of all: the first of the bids that carry the
/// greatest amount.
pub open spec fn is_highest(bids: Seq<BidView>, i: int) -> bool {
    highest_among(bids, bids.len() as int, i)
}

impl AuctionView {
    /// The position of the highest bid, if some bid's amount is a number.
    pub open spec fn highest(self) -> Option<int> {
        if exists|i: int| is_highest(self.bids, i) {
            Some(choose|i: int| is_highest(self.bids, i))
        } else {
            None
        }
    }

    /// The winning bid: the highest bid, unless a reserve price is set and
    /// the highest amount is less than it.
    pub open spec fn winner(self) -> Option<BidView> {
        match self.highest() {
            Some(i) => match self.reserve_price {
                Some(reserve) if self.bids[i].amount.lt(reserve) => None,
                _ => Some(self.bids[i]),
            },
            None => None,
        }
    }
}

/// At most one bid is the highest among the first `n`.
pub proof fn lemma_highest_unique(bids: Seq<BidView>, n: int, i: int, j: int)
    requires
        highest_among(bids, n, i),
        highest_among(bids, n, j),
    ensures
        i == j,
{
    if i < j {
        assert(bids[i].amount.is_nan() || bids[i].amount.lt(bids[j].amount));
        assert(!bids[i].amount.lt(bids[j].amount));
    } else if j < i {
        assert(bids[j].amount.is_nan() || bids[j].amount.lt(bids[i].amount));
        assert(!bids[j].amount.lt(bids[i].amount));
    }
}

/// Among the first `n` bids there is a highest one as soon as one of their
/// amounts is a number.
pub proof fn lemma_highest_exists(bids: Seq<BidView>, n: int) -> (i: int)
    requires
        0 <= n <= bids.len(),
        exists|j: int| 0 <= j < n && !(#[trigger] bids[j]).amount.is_nan(),
    ensures
        highest_among(bids, n, i),
    decreases n,
{
    if exists|j: int| 0 <= j < n - 1 && !(#[trigger] bids[j]).amount.is_nan() {
        let b = lemma_highest_exists(bids, n - 1);
        if bids[n - 1].amount.is_nan() || !bids[b].amount.lt(bids[n - 1].amount) {
            b
        } else {
            n - 1
        }
    } else {
        n - 1
    }
}

/// The winner is one of the bids, its amount is a number that no other
/// amount exceeds, and it is not less than the reserve price.
pub proof fn lemma_winner_is_highest(auction: AuctionView)
    ensures
        match auction.winner() {
            Some(w) => {
                &&& exists|i: int| is_highest(auction.bids, i) && auction.bids[i] == w
                &&& !w.amount.is_nan()
                &&& forall|j: int|
                    0 <= j < auction.bids.len() ==> (#[trigger] auction.bids[j]).amount.is_nan()
                        || auction.bids[j].amount.key() <= w.amount.key()
                &&& auction.reserve_price matches Some(reserve) ==> !w.amount.lt(reserve)
            },
            None => true,
        },
{
    if auction.winner().is_some() {
        let i = auction.highest().unwrap();
        assert(is_highest(auction.bids, i));
        assert forall|j: int| 0 <= j < auction.bids.len() implies (#[trigger] auction.bids[j]).amount.is_nan()
            || auction.bids[j].amount.key() <= auction.bids[i].amount.key() by {
            assert(!auction.bids[i].amount.lt(auction.bids[j].amount));
        }
    }
}

/// With no reserve price, there is a winner exactly when some bid's amount
/// is a number, and the winner's amount is then the greatest of the amounts.
pub proof fn lemma_winner_without_reserve(auction: AuctionView)
    requires
        auction.reserve_price.is_none(),
    ensures
        auction.winner().is_some() <==> exists|j: int|
            0 <= j < auction.bids.len() && !(#[trigger] auction.bids[j]).amount.is_nan(),
        auction.winner() matches Some(w) ==> auction.bids.contains(w) && forall|j: int|
            0 <= j < auction.bids.len() ==> (#[trigger] auction.bids[j]).amount.is_nan()
                || auction.bids[j].amount.key() <= w.amount.key(),
{
    lemma_winner_is_highest(auction);
    if exists|j: int| 0 <= j < auction.bids.len() && !(#[trigger] auction.bids[j]).amount.is_nan() {
        let i = lemma_highest_exists(auction.bids, auction.bids.len() as int);
        assert(is_highest(auction.bids, i));
    }
    if auction.winner().is_some() {
        let i = auction.highest().unwrap();
        assert(is_highest(auction.bids, i));
        assert(!auction.bids[i].amount.is_nan());
    }
}

/// Where every amount that is a number is less than the reserve price,
/// there is no winner.
pub proof fn lemma_no_winner_below_reserve(auction: AuctionView, reserve: Binary64)
    requires
        auction.reserve_price == Some(reserve),
        forall|j: int|
            0 <= j < auction.bids.len() ==> (#[trigger] auction.bids[j]).amount.is_nan()
                || auction.bids[j].amount.lt(reserve),
    ensures
        auction.winner().is_none(),
{
    if auction.highest().is_some() {
        let i = auction.highest().unwrap();
        assert(is_highest(auction.bids, i));
        assert(auction.bids[i].amount.is_nan() || auction.bids[i].amount.lt(reserve));
    }
}

/// An auction without bids has no winner, whatever its reserve price.
pub proof fn lemma_no_winner_without_bids(auction: AuctionView)
    requires
        auction.bids.len() == 0,
    ensures
        auction.winner().is_none(),
{
}

impl View for Auction {
    type V = AuctionView;

    closed spec fn view(&self) -> AuctionView {
        AuctionView {
            auction_type: self.auction_type,
            resource: self.resource@,
            bids: bids_view(self.bids@),
            reserve_price: self.reserve_price,
        }
    }
}

impl Auction {
    /// An auction of the given kind for `resource`, with no bids and no
    /// reserve price.
    pub fn new(auction_type: AuctionType, resource: &str) -> (auction: Auction)
        ensures
            auction@ == (AuctionView {
                auction_type,
                resource: resource@,
                bids: Seq::empty(),
                reserve_price: None,
            }),
    {
        let auction = Auction {
            auction_type,
            resource: resource.to_owned(),
            bids: Vec::new(),
            reserve_price: None,
        };
        assert(auction@.bids =~= Seq::empty());
        auction
    }

    /// The same auction with the reserve price set to `price`.
    pub fn with_reserve_price(self, price: Binary64) -> (auction: Auction)
        ensures
            auction@ == (AuctionView { reserve_price: Some(price), ..self@ }),
    {
        let mut auction = self;
        auction.reserve_price = Some(price);
        auction
    }

    /// Adds a bid after those already made.
    pub fn add_bid(&mut self, bid: Bid)
        ensures
            final(self)@ == (AuctionView { bids: old(self)@.bids.push(bid@), ..old(self)@ }),
    {
        self.bids.push(bid);
        assert(self@.bids =~= old(self)@.bids.push(bid@));
    }

    /// The winning bid, if there is one.
    ///
    /// The winner is the bid with the greatest amount, the first such bid
    /// where several carry that amount. There is no winner when no bid's
    /// amount is a number, nor when a reserve price is set and the greatest
    /// amount is less than it.
    pub fn winner(&self) -> (r: Option<&Bid>)
        ensures
            match r {
                Some(bid) => self@.winner() == Some(bid@),
                None => self@.winner().is_none(),
            },
    {
        let n: usize = self.bids.len();
        let mut best: Option<usize> = None;
        let mut i: usize = 0;
        while i < n
            invariant
                n == self.bids.len(),
                n == self@.bids.len(),
                i <= n,
                match best {
                    Some(b) => highest_among(self@.bids, i as int, b as int),
                    None => forall|j: int| 0 <= j < i ==> (#[trigger] self@.bids[j]).amount.is_nan(),
                },
            decreases n - i,
        {
            let amount: Binary64 = self.bids[i].amount();
            if !amount.is_not_a_number() {
                match best {
                    None => {
                        best = Some(i);
                    },
                    Some(b) => {
                        if self.bids[b].amount().less_than(amount) {
                            best = Some(i);
                        }
                    },
                }
            }
            i += 1;
        }
        match best {
            None => {
                assert(forall|k: int| !is_highest(self@.bids, k));
                None
            },
            Some(b) => {
                proof {
                    assert(is_highest(self@.bids, b as int));
                    let k: int = choose|k: int| is_highest(self@.bids, k);
                    lemma_highest_unique(self@.bids, n as int, k, b as int);
                }
                let bid: &Bid = &self.bids[b];
                match self.reserve_price {
                    Some(reserve) => {
                        if bid.amount().less_than(reserve) {
                            None
                        } else {
                            Some(bid)
                        }
                    },
                    None => Some(bid),
                }
            },
        }
    }

    /// The kind of the auction.
    pub fn auction_type(&self) -> (auction_type: AuctionType)
        ensures
            auction_type == self@.auction_type,
    {
        self.auction_type
    }

    /// The resource being auctioned.
    pub fn resource(&self) -> (resource: &str)
        ensures
            resource@ == self@.resource,
    {
        self.resource.as_str()
    }

    /// The bids, in the order in which they were added.
    pub fn bids(&self) -> (bids: &[Bid])
        ensures
            bids_view(bids@) == self@.bids,
    {
        self.bids.as_slice()
    }
}

} // verus!
