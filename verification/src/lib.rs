//! Sorted partition ingest for timestamped feature samples.
//!
//! Producers stream unordered batches of rows; every batch is merged through
//! a bounded window heap and leaves it in sample-key order. The modules
//! follow the data from the leaves up:
//!
//! - `sample_key`, `grid`, `grid_sample`: keys, batches of rows, and handles
//!   to single rows;
//! - `min_heap`, `window_heap`, `window_laws`: the bounded sort buffer and
//!   what holds of it;
//! - `partition`, `grid_sinker`, `sinker_laws`: which partition a batch
//!   belongs to, the requests that send it there, and what holds of a
//!   sinker's whole run;
//! - `sample_saver`, `merge_sort`, `request_handler`, `saver_laws`: the
//!   storage node's workers, its final merge, what it decides on a request,
//!   and what holds of a whole partition;
//! - `meta_info`, `id_mapping`, `feature_info`, `gridbuffer_reader`: paths,
//!   ids, feature configs, and reading samples back.
//!
//! Nothing here opens a file or a socket. A component that has to wait for
//! the outside world is written as a machine that is told what happened and
//! tells what to do next.
pub mod bag;
pub mod error;
pub mod feature_info;
pub mod feature_sinker;
pub mod grid;
pub mod grid_sample;
pub mod grid_sinker;
pub mod gridbuffer_reader;
pub mod hints;
pub mod id_mapping;
pub mod local_file_reader;
pub mod merge_sort;
pub mod meta_info;
pub mod min_heap;
pub mod partition;
pub mod request_handler;
pub mod sample_key;
pub mod sample_saver;
pub mod saver_laws;
pub mod sinker_laws;
pub mod sinker_set;
pub mod text;
pub mod tool;
pub mod window_heap;
pub mod window_laws;
