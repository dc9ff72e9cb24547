pub mod contract;
pub mod segmentation;
pub mod analysis;
pub mod folding;
