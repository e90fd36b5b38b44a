//! A programmable forwarding DNS server's core: domain matchers, plugins and
//! the query executor that drives a query through a plugin chain.

pub mod app;
pub mod cache;
pub mod executor;
pub mod forward;
pub mod hosts;
pub mod kmp;
pub mod labels;
pub mod matcher;
pub mod plugin;
pub mod record;
pub mod rule;
pub mod sequence;
pub mod text;
pub mod tls;
