//! A reverse-proxy core: backend pools with pluggable selection strategies,
//! hysteresis-based health tracking, a cancellable background health-check
//! loop, and the per-request filter-chain pipeline a proxy drives.
pub mod backend;
pub mod background;
pub mod health;
pub mod load_balancer;
pub mod pipeline;
pub mod service;
pub mod strategy;

pub use backend::Backend;
pub use backend::BackendModel;
pub use background::loop_step;
pub use background::LoopStep;
pub use health::Health;
pub use health::HealthCheck;
pub use health::NoHealthCheck;
pub use health::status_is_success;
pub use load_balancer::LoadBalancer;
pub use pipeline::advance;
pub use pipeline::initial_stage;
pub use pipeline::synthesized_status;
pub use pipeline::Outcome;
pub use pipeline::PipelineEvent;
pub use pipeline::PipelineStage;
pub use service::TcpService;
pub use strategy::Random;
pub use strategy::RoundRobin;
pub use strategy::Strategy;
pub use strategy::WeightedRandom;
pub use strategy::WeightedRoundRobin;
