//! A single-table record store: a fixed-width row codec, a page store with a
//! bounded number of pages, a table that appends rows and scans them in order,
//! and the image of the backing file that the table is saved to and rebuilt from.
pub mod input_buffer;
pub mod meta_command;
pub mod page;
pub mod pager;
pub mod row;
