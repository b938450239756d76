//! Coordination core of a content-extraction platform: compute graphs and
//! their validation, the replicated state machine that holds namespaces,
//! graphs, content, tasks and executors, the scheduler that expands graphs
//! into tasks, the task allocator, executor liveness and gateway decisions,
//! the content stream, and the decisions taken at upload.
pub mod model;
pub mod graph;
pub mod allocator;
pub mod liveness;
pub mod state;
pub mod laws;
pub mod scheduler;
pub mod gateway;
pub mod stream;
pub mod ids;
pub mod ingest;
pub mod test_objects;
