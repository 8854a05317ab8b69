pub use crate::dataloader::Dataloader;
pub use crate::dataloader::LenIterDataloader;
pub use crate::pipeline::ArrayBatch;
pub use crate::pipeline::BalancedSelector;
pub use crate::pipeline::Batch;
pub use crate::pipeline::Duplicator;
pub use crate::pipeline::Either;
pub use crate::pipeline::ExtendNode;
pub use crate::pipeline::ExtendNodeMap;
pub use crate::pipeline::ExtendNodePair;
pub use crate::pipeline::ExtendNodeSplit;
pub use crate::pipeline::Filter;
pub use crate::pipeline::FilterMap;
pub use crate::pipeline::MapNode;
pub use crate::pipeline::MapReduce;
pub use crate::pipeline::Node;
pub use crate::pipeline::Order;
pub use crate::pipeline::Pair;
pub use crate::pipeline::Pipeline;
pub use crate::pipeline::Shuffle;
pub use crate::pipeline::Sort;
pub use crate::pipeline::Stateful;
pub use crate::pipeline::Stateless;
pub use crate::pipeline::VecLoader;
