//! A rectangle packer: empty-space bookkeeping, rectangle splitting, and
//! a shrinking search for the smallest bin that holds a set of rectangles.
pub mod best_bin_finder;
pub mod empty_spaces;
pub mod finders_interface;
pub mod insert_and_split;
pub mod rect_structs;
