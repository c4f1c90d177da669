//! Verified core of the AnduinOS swap-control and firewall tools: parsers for
//! the kernel and configuration files they read, the privileged operations
//! they request, and the decisions their user interfaces take.
pub mod swap;
pub mod text;
pub mod ufw;
