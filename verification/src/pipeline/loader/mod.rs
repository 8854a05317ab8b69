mod vec;
pub use vec::copies_of;
pub use vec::VecLoader;
mod range;
pub use range::range_to;
pub use range::CreateRange;
mod segments;
pub use segments::count_examples;
pub use segments::examples_in;
pub use segments::lemma_examples_grow;
pub use segments::lemma_split_from_len;
pub use segments::matches_at;
pub use segments::occurrences;
pub use segments::split_by;
pub use segments::split_from;
pub use segments::split_text;
mod reading;
pub use reading::after_line;
pub use reading::after_lines;
pub use reading::after_piece;
pub use reading::after_pieces;
pub use reading::load_text_segments;
pub use reading::Reading;
mod file;
pub use file::paired;
pub use file::FileLoader;
mod keyed;
pub use keyed::examples_before;
pub use keyed::KeyedLoader;
mod random;
pub use random::block_end;
pub use random::block_of;
pub use random::block_starts;
pub use random::counts_in;
pub use random::total_in;
pub use random::examples_of;
pub use random::examples_scan;
pub use random::lemma_blocks_cover;
pub use random::lemma_examples_counted;
pub use random::load_examples;
pub use random::sorted_numbers;
pub use random::picked_examples;
pub use random::read_examples;
pub use random::ascend;
pub use random::file_examples;
pub use random::firsts;
pub use random::picked_from_files;
pub use random::shuffled_order;
pub use random::RandomLoader;
pub use random::BLOCK_SIZE;
