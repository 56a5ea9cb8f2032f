//! postbud: the delivery policy of a self-hosted transactional mail
//! service, verified.
//!
//! Everything here is a decision or a transform on plain values: address
//! handling, the retry schedule, bounce (DSN) reading, DMARC report
//! reading, DNS-record evaluation, queue snapshots and the request
//! validation the HTTP surface applies. The I/O around it (database,
//! network, SMTP, IMAP) lives outside this crate.

pub mod text;
pub mod classification;
pub mod dsn;
pub mod address;
pub mod authz;
pub mod retry;
pub mod relayqueue;
pub mod showq;
pub mod silence;
pub mod dnscheck;
pub mod rdns;
pub mod apikey;
pub mod volume;
pub mod dmarc;
pub mod api;
pub mod registry;
pub mod submit;
pub mod relay;
pub mod poller;
pub mod ledger;
pub mod oidc;
pub mod settings;
pub mod worker;
pub mod queuereport;
