pub mod arg;
pub mod backend;
pub mod config;
pub mod ext;
pub mod filter;
pub mod formatter;
pub mod frontend;
pub mod level;
pub mod logger;
pub mod message;
pub mod metadata;
pub mod queue;
pub mod queue_laws;
pub mod ring;
pub mod sink;
pub mod sinks;
pub mod text;
pub mod thread_context;
pub mod timestamp;

pub use backend::{Backend, BackendOptions};
pub use filter::{Filter, LevelFilter};
pub use frontend::Frontend;
pub use level::LogLevel;
pub use logger::Logger;
pub use metadata::Metadata;
pub use sink::Sink;
pub use sinks::NullSink;
pub use timestamp::{now, to_display_nanos};
