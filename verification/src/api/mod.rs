pub mod client;
pub mod request_laws;
