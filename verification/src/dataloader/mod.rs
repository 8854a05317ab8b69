mod dataloader;
pub use dataloader::conserves;
pub use dataloader::load_size;
pub use dataloader::loads;
pub use dataloader::loads_in_vain;
pub use dataloader::sustains;
pub use dataloader::Dataloader;
pub use dataloader::Step;
pub use dataloader::load_block;
pub use dataloader::LenIterDataloader;
mod laws;
pub use laws::lemma_create_range_conserves;
pub use laws::lemma_create_range_sustains;
pub use laws::lemma_vec_loader_conserves;
pub use laws::lemma_vec_loader_sustains;
pub use laws::conserving_run;
pub use laws::lemma_epoch_hands_out_its_total;
pub use laws::lemma_next_epoch_is_as_long;
pub use laws::one_epoch;
pub use laws::run_of_pulls;
mod chains;
pub use chains::keeps_counts;
pub use chains::lemma_batched_source_sustains;
pub use chains::lemma_chain_conserves;
pub use chains::lemma_chain_sustains;
pub use chains::lemma_chain_takes_requests;
pub use chains::lemma_create_range_takes_requests;
pub use chains::lemma_lifted_function_keeps_counts;
pub use chains::lemma_lifted_function_stays;
pub use chains::lemma_shuffle_keeps_counts;
pub use chains::lemma_vec_loader_takes_requests;
pub use chains::takes_requests;
