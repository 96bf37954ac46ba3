pub mod abci;
pub mod address;
pub mod auth;
pub mod bytes;
pub mod bytemap;
pub mod codec;
pub mod hash;
pub mod helpers;
pub mod indexes;
pub mod msg;
pub mod paginate;
pub mod pending;
pub mod prefix;
pub mod share;
pub mod state;
pub mod storage;
pub mod strmap;
