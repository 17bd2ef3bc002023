//! A marketplace ledger for single-unit service certificates.
//!
//! A vendor lists a service and receives the one unit of a fresh ownership
//! token. The token is then sold on against payment; on every resale a royalty
//! goes back to the vendor who listed the service.

pub mod error;
pub mod identity;
pub mod laws;
pub mod ledger;
pub mod market;
pub mod plan;
pub mod record;
pub mod registry;
pub mod royalty;
pub mod state;

pub use error::MarketError;
pub use identity::{Identity, Party};
pub use ledger::Ledger;
pub use market::{
    initialize, list_service, purchase_service, resale_service, Initialize, ListService,
    PurchaseService, ResaleService,
};
pub use record::ServiceAccount;
pub use registry::Registry;
pub use state::Step;
