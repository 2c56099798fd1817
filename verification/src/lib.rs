//! Reading and editing EA Sports FC squad save files.
pub mod backup;
pub mod checks;
pub mod codec;
pub mod crc;
pub mod csv;
pub mod csv_reimport;
pub mod domains;
pub mod edit;
pub mod editor;
pub mod error;
pub mod export;
pub mod fifa_history;
pub mod format_laws;
pub mod guards;
pub mod fields;
pub mod huffman;
pub mod laws;
pub mod listing;
pub mod meta;
pub mod model;
pub mod parse;
pub mod reimport;
pub mod resources;
pub mod session;
pub mod squad;
pub mod strmap;
pub mod text;
pub mod tsv;

pub use error::{Result, SquadError};
pub use meta::MetaMap;
pub use model::{FieldDescriptor, FieldType, FieldValue, TableInfo};
pub use squad::SquadFile;
pub use tsv::ImportReport;
