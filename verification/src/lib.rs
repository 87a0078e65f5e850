pub mod assoc;
pub mod audit;
pub mod auth;
pub mod backup;
pub mod branching;
pub mod btree;
pub mod bytes;
pub mod catalog;
pub mod control_plane;
pub mod crypto;
pub mod encoding;
pub mod engine;
pub mod error;
pub mod exec;
pub mod extensions;
pub mod fdw;
pub mod functions;
pub mod graphql;
pub mod http;
pub mod metrics;
pub mod migration;
pub mod plan;
pub mod repl;
pub mod replica;
pub mod sdk;
pub mod sql;
pub mod storage;
pub mod text;
pub mod time;
pub mod types;

pub use sdk::auth::{AuthClient, AuthResponse, Session, User};
pub use sdk::functions::FunctionsClient;
pub use sdk::postgrest::{PostgrestClient, QueryBuilder};
pub use sdk::realtime::{RealtimeChannel, RealtimeClient};
pub use sdk::storage::{BucketClient, StorageClient};
pub use sdk::{create_client, ChocoClient};
