pub mod text;
pub mod order;
pub mod error;
pub mod models;
pub mod paths;
pub mod variables;
pub mod documents;
pub mod imports;
pub mod workspace;
pub mod tree;
pub mod secrets;
pub mod history;
pub mod http_client;
