//! Static extraction of architectural facts (endpoints, REST calls, message
//! edges, entities) from Go and Java source text.
pub mod text;
pub mod model;
pub mod sorting;
pub mod go;
pub mod bindings;
pub mod java;
pub mod regexes;
pub mod hashing;
