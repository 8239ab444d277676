pub use crate::binary_archive::common::{SparseSegment, SparseU32List};
