//! Message ingestion and job-dispatch core of a satellite ground-station
//! backend.
//!
//! Ground stations publish messages to a broker under slash-delimited topics.
//! This library routes each inbound message by topic ([`router`]), decodes the
//! fixed-layout binary payloads carried inside ([`codec`]), and tracks the
//! lifecycle of dispatched jobs as stations report status ([`tracker`]).  The
//! [`session`] module holds the decision logic of the long-lived broker
//! session: which events are dispatched, how connection failures are retried,
//! and how a shutdown signal stops the loop.  All broker, database and HTTP
//! I/O lives outside this crate; callers hand in plain values and take plain
//! values back.

pub mod codec;
pub mod commands;
pub mod dispatch;
pub mod entities;
pub mod requests;
pub mod router;
pub mod service;
pub mod session;
pub mod tracker;
