//! TrueType table structures.

pub mod head;
pub mod hhea;
pub mod maxp;
pub mod cmap;
pub mod loca;
pub mod glyf;
pub mod hmtx;
pub mod otl;
pub mod gpos;
pub mod kern;
