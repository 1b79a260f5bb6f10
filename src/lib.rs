//! A feed aggregation engine: stable feed identities, an item store kept in
//! publish order, and a refresh protocol with an optimistic commit.
pub mod adapter;
pub mod assoc;
pub mod database;
pub mod date;
pub mod feed;
pub mod filter;
pub mod lookup;
pub mod model;
pub mod order;
pub mod refresh;
pub mod store;
pub mod text;
pub mod titles;

pub use database::Database;
pub use feed::Feed;
pub use lookup::FeedId;
pub use model::{FeedHeader, FeedHeaderMeta, FeedItem, FeedItemMeta};
