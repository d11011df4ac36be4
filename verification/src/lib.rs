//! An off-chain indexer core that replays a strictly ordered stream of
//! chain-embedded inscriptions into derived state: NFT holders, transfer
//! chains, collections, token balances and a content-dedup index. A block's
//! inscriptions are validated in order against a transactional store model,
//! and the block's effects are committed atomically.

pub mod collection;
pub mod commit;
pub mod context;
pub mod json;
pub mod laws;
pub mod digest;
pub mod store;
pub mod types;
pub mod worker;

pub use types::Inscription;
pub use types::InscribeFilter;
pub use types::InscribeFilterConfig;
pub use types::MimeCategory;
pub use types::Token;
pub use types::VerifiedStatus;
