//! Verified core of the gasless meta-transaction contracts: the trusted
//! forwarder's replay guard, the token and voucher paymasters, the gas
//! estimator, and the smart-account wallet's passkey and session-key checks.
//!
//! Every contract's ledger storage is modelled by a plain in-memory state
//! type whose methods are the contract's entry points. A host binding loads
//! the storage entries an entry point touches into that type, runs the
//! method, and stores back the entries it may have changed; the decision each
//! entry point takes on the values it reads is also a standalone function.

use vstd::prelude::*;

pub mod host;
pub mod bytes;
pub mod table;
pub mod base64;
pub mod forwarder;
pub mod gas_estimator;
pub mod token_paymaster;
pub mod voucher;
pub mod curve;
pub mod passkey;
pub mod session;
pub mod wallet;
