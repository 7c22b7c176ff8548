//! Zero-knowledge password authentication with the Chaum-Pedersen sigma
//! protocol: big natural numbers, the protocol engine, the user registry, the
//! challenge store and the authentication service that ties them together.

pub mod bignat;
pub mod challenges;
pub mod chaum_pedersen;
pub mod error;
pub mod params;
pub mod proto;
pub mod registry;
pub mod service;
pub mod soundness;
pub mod table;

pub use bignat::BigNat;
pub use challenges::{ChallengeStore, PendingChallenge};
pub use chaum_pedersen::{mod_sub, ChaumPedersen};
pub use error::AuthError;
pub use params::{big_unit_of_entry, get_big_unit, group_from_parameters, parse_columnar_hex, ParamError};
pub use proto::{BigUintExt, Vecu8Ext};
pub use registry::{User, UserRegistry};
pub use service::{AuthService, Session};
