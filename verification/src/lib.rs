//! A policy engine for a filtering HTTP proxy: rule evaluation over domains,
//! paths and client addresses, domain tags, access sessions, search-history
//! capture and the decisions of the management console.
pub mod text;
pub mod url;
pub mod policy;
pub mod log;
pub mod handlers;
pub mod proxy;
pub mod auth;
pub mod numbers;
pub mod limit;
pub mod tui_app;
pub mod report;

pub use handlers::{DomainHandlers, GoogleSearchHandler, HandlerContext, RequestHandler};
pub use limit::LimitRule;
pub use log::{AccessLogger, AccessSession, LogEntry, LogStatus};
pub use policy::{Action, DomainTag, Policy, Rule, RuleData};
pub use url::{extract_domain, extract_path, extract_sld};
