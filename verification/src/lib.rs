//! A verified parser for the Dalvik Executable (DEX) container format.
//!
//! The crate decodes a DEX byte image held in memory: the fixed header, the
//! map list, the fixed index tables (strings, types, prototypes, fields,
//! methods, class definitions) and the variable data sections (class data,
//! code items, debug info, annotations, encoded values, MUTF-8 string data).
//! Every reader works on a plain byte slice and an explicit position; opening
//! the file is the caller's business.

pub mod annotations;
pub mod class_data;
pub mod code;
pub mod cursor;
pub mod encoded_value;
pub mod err;
pub mod header;
pub mod image;
pub mod leb128;
pub mod m_utf8;
pub mod sections;
pub mod tables;
