//! The resource cache and the chain of cached processing stages.

pub mod manager;
pub mod processor;
pub mod text;
pub mod value;

pub use manager::{LoadStep, ResourceMgr, Timestamp};
pub use processor::{AnyProcesser, ResProcesser};
pub use text::{CharArrRes, TextRes, CHAR_ARR_RES, TEXT_RES};
pub use value::{ResModel, ResValue, BYTES_TYPE, CHARS_TYPE, TEXT_TYPE};
