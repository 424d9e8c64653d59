//! A tick-driven contact-centre simulator: requests arrive into a waiting
//! queue, compete for a pool of servers and are either answered or abandon,
//! and a metric aggregator folds the per-request outcomes.
//!
//! All times are durations counted in whole nanoseconds from an epoch of zero.

pub mod aggregator;
pub mod attribute;
pub mod client;
pub mod metric;
pub mod min_queue;
pub mod random;
pub mod request;
pub mod request_queue;
pub mod routing;
pub mod server;
pub mod server_queue;
pub mod simulation;

pub use aggregator::Aggregator;
pub use attribute::Attribute;
pub use client::Client;
pub use metric::{
    Count, MeanDuration, Metric, MetricError, MetricType, Percent, Target, TargetCondition, Value,
};
pub use min_queue::MinQueue;
pub use random::RandomSource;
pub use request::{Data, Request, Status};
pub use request_queue::RequestQueue;
pub use routing::{route_requests, RequestData, ServerData};
pub use server::{QueueableServer, Server};
pub use server_queue::ServerQueue;
pub use simulation::{Config, Error, Simulation};
