pub use crate::document::FaceIter;
