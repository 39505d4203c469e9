//! Variant-record headers and the engine that moves records between them.
//!
//! A header holds three dictionaries (contigs, samples, field definitions)
//! whose dense ids records use in place of names. Records can be translated
//! from one header's numbering to another's, subset to the samples of a
//! derived header, and trimmed of alleles no genotype calls; readers and
//! writers stream them in order.

pub mod definition;
pub mod dictionary;
pub mod header;
pub mod record;
pub mod stream;

pub use header::{Header, HeaderView};
pub use record::Record;
pub use stream::{ReadError, Reader, Records, Writer};
