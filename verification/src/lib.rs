//! Shared logic of the rail status services: which catalogue lines an
//! incident affects, metric naming, the outbound-endpoint guard and the
//! OAuth token-cache decisions.

pub mod metrics;
pub mod text;
pub mod catalogue;
pub mod matcher;
pub mod matcher_laws;
pub mod endpoint_guard;
pub mod oauth;
