pub mod event;
pub mod notifier_event;
pub mod pipeline;
pub mod pipeline_laws;
pub mod registry;
pub mod run;
pub mod flume_bus;
pub mod flume_channel;
pub mod tokio_bus;
pub mod tokio_channel;
pub mod uuidv7;
