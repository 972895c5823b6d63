//! Parsing of `.dol` executable containers, with recovery of the linker's
//! copy and zero-fill tables, and decoding of JIS X 0201 text.
pub mod bytes;
pub mod dol;
pub mod jis_x_0201;
pub mod recovery;

pub use dol::{from_bytes, section_name, to_bytes, DeserializeError, Dol, Header, Section, SectionKind};
pub use jis_x_0201::{Decoder, DecodingError, IteratorExt, JisX0201};
pub use recovery::{bss_init_info_search, rom_copy_info_search, BssInitInfo, RomCopyInfo};
