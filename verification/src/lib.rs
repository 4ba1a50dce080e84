//! Verified core of the Orion proxy library.

pub mod filter_state;
pub mod keyed;
pub mod format_string;
pub mod text;
pub mod retry_policy;
pub mod headers;
pub mod http_parts;
pub mod mutation;
pub mod load_assignment;
pub mod clusters;
pub mod original_dst;
pub mod clock;
pub mod drain;
pub mod lds;
pub mod ag_ext_proc;
pub mod set_filter_state;
pub mod filter_decision;
pub mod ext_proc;
pub mod hcm;
pub mod listener;
pub mod worker;
pub mod processing;
pub mod routing;
pub mod upstream;
pub mod override_host;
pub mod route_filters;
pub mod endpoint_order;
