mod batch;
pub use batch::array_views;
pub use batch::batch_views;
pub use batch::chunks;
pub use batch::lemma_chunks_arity;
pub use batch::lemma_whole_chunks_arity;
pub use batch::whole_chunks;
pub use batch::ArrayBatch;
pub use batch::Batch;
mod either;
pub use either::Either;
mod map;
pub use map::accepts_each;
pub use map::lemma_map_keeps_arity;
pub use map::maps_to;
pub use map::kept;
pub use map::lemma_somes_come_from;
pub use map::somes;
pub use map::ExtendNodeMap;
pub use map::Filter;
pub use map::FilterMap;
pub use map::MapNode;
mod stateful;
pub use stateful::counted;
pub use stateful::counts;
pub use stateful::identity_remaining;
pub use stateful::PassThrough;
pub use stateful::Stateful;
mod stateless;
pub use stateless::Stateless;
mod shuffle;
pub use shuffle::Shuffle;
mod sort;
pub use sort::is_sorted;
pub use sort::is_total_order;
pub use sort::order_for;
pub use sort::order_of;
pub use sort::stably_sorted;
pub use sort::ties_with;
pub use sort::Order;
pub use sort::Sort;
mod mapreduce;
pub use mapreduce::emits;
pub use mapreduce::joined;
pub use mapreduce::lemma_joined_push;
pub use mapreduce::reduces;
pub use mapreduce::reduces_group;
pub use mapreduce::MapReduce;
pub use mapreduce::group;
pub use mapreduce::group_views;
pub use mapreduce::grouped;
pub use mapreduce::insert_pair;
mod keys;
pub use keys::key_order_of;
pub use keys::keys_are_ordered;
pub use keys::keys_are_strict;
mod selector;
pub use selector::clip;
pub use selector::handed_out;
pub use selector::lemma_handed_out_bounds;
pub use selector::lemma_sum_bounds;
pub use selector::remaining_counts;
pub use selector::share;
pub use selector::sum;
pub use selector::epoch_counts;
pub use selector::BalancedSelector;
mod order_independence;
pub use order_independence::flat_pairs;
pub use order_independence::group_reduce;
pub use order_independence::groups_agree;
pub use order_independence::ignores_order;
pub use order_independence::lemma_flat_pairs_rearranged;
pub use order_independence::lemma_group_reduce_is_order_independent;
pub use order_independence::lemma_grouping_is_order_independent;
pub use order_independence::lemma_mapped_rearranged;
pub use order_independence::reduced;
mod grouping;
pub use grouping::groups_of;
pub use grouping::has_key;
pub use grouping::key_at;
pub use grouping::keys_ascend;
pub use grouping::lemma_grouped_are_groups;
pub use grouping::splits_at;
pub use grouping::values_of;
