//! The diagnostic engine: probes, their reading, and the verdict.

pub mod bypass;
pub mod censorship;
pub mod cert;
pub mod checks;
pub mod dns;
pub mod http;
pub mod icmp;
pub mod inquiry;
pub mod l1_l2;
pub mod names;
pub mod ping;
pub mod pipeline;
pub mod probe;
pub mod route;
pub mod speed;
pub mod survey;
pub mod tls;
pub mod trace;
pub mod verdict;
