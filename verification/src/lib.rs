//! Greedy nearest-neighbour routing over a travel matrix, with the request
//! checks and service-health decisions of the routing server around it.

pub mod api_err;
pub mod gnn;
pub mod http_status;
pub mod ors;
pub mod server;
pub mod structs;
pub mod text;
pub mod vrm;
