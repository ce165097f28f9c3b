/// Greedy packing of images into columns of equal width.
pub mod grid;
/// How far a layout misses the canvas height.
pub mod score;
/// The choice of column count.
pub mod search;
/// Where each image of the chosen layout is drawn, padding included.
pub mod plan;
/// The order in which images are packed.
pub mod order;
/// Which files are read as photographs.
pub mod source;
