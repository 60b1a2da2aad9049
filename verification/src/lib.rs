pub mod cache;
pub mod clients;
pub mod parser;
pub mod pep_types;
pub mod pep_version;
pub mod pep_version_req;
pub mod pool;
pub mod scheme;
pub mod text;
pub mod tools;
pub mod util;
pub mod vecs;
pub mod version;
pub mod version_req;
