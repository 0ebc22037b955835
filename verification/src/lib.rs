//! A verified core for a small relay of economic time series: observations
//! fetched per series from an upstream statistics API are aggregated by
//! series code and forwarded once, as one JSON payload, to a downstream
//! endpoint.
//!
//! The library holds everything that can be decided without a network:
//! the data model and its invariants ([`data`]), the exact JSON text of
//! the payload and its serializer ([`json_text`]), the parser and what
//! every input means ([`json_parse`]), the proof that parsing inverts
//! serialization ([`codec_laws`]), the interpretation of HTTP responses
//! ([`collector`], [`forwarder`]), and the state machine of one run
//! ([`driver`]). The HTTP calls themselves stay outside; callers perform
//! the action the driver asks for and feed the outcome back.

pub mod codec_laws;
pub mod collector;
pub mod data;
pub mod driver;
pub mod forwarder;
pub mod json_parse;
pub mod json_text;
