//! A dynamic-DNS updater without I/O of its own.
//!
//! The library decides; its caller performs. [`updater::Updater`] is a state
//! machine that hands out one [`updater::Action`] at a time (look up the
//! discovery service, query it, send a request, sleep) and is resumed with the
//! [`updater::Event`] that reports how the action went. Everything between two
//! actions is verified: which records are updated, with which content, in which
//! order, and what a failure leaves behind.
//!
//! - [`updater`]: the loop, and what it asks of a provider and of a record.
//! - [`cloudflare`]: Cloudflare as the provider.
//! - [`address`], [`address_text`], [`address_format`]: addresses, read from
//!   text and written as text; [`address_laws`]: what is written reads back.
//! - [`headers`]: the headers of a request, held as `reqwest` holds them.
//! - [`text`]: digits, numbers and separators.

pub mod address;
pub mod address_format;
pub mod address_laws;
pub mod address_text;
pub mod cloudflare;
pub mod headers;
pub mod text;
pub mod updater;
