pub mod block;
pub mod chunk;
pub mod generation;
pub mod greedy;
pub mod meshing;
pub mod streaming;
pub mod upload_queue;
