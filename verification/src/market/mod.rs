//! Market-based coordination: bids, auctions, allocations and markets.

pub mod allocation;
pub mod auction;
pub mod bid;
pub mod market;

pub use allocation::{Allocation, AllocationView};
pub use auction::{Auction, AuctionType, AuctionView};
pub use bid::{Bid, BidView};
pub use market::{Market, MarketView};
