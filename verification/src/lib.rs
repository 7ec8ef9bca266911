//! Summarising IPv4 routes: parsing addresses and masks, and computing the
//! smallest network prefix shared by a set of addresses.

pub mod address;
pub mod decimal;
pub mod error;
pub mod mask;
pub mod octets;
pub mod route;
pub mod summary;
pub mod text;

pub use address::IPv4Address;
pub use error::RouteError;
pub use mask::IPv4Mask;
pub use octets::parse_octets;
pub use route::{parse_route, route_pair, route_string, RoutePair};
pub use summary::{create_summary_route, try_create_summary_route};
