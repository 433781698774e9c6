//! Bridge between MQTT brokers and a bounded per-topic history store.
//!
//! The modules hold the decisions of the bridge: configuration checks, the
//! retention store, the broker connection state machine, routing of inbound
//! events, the bounded publish retry and upload progress bookkeeping. The
//! network, disk and timer work that carries them out lives outside.

pub mod models;
pub mod config;
pub mod store;
pub mod connection;
pub mod dispatch;
pub mod publish;
pub mod progress;
pub mod text;
pub mod parse;
pub mod api;

pub use models::{Broker, Subscription, Topic};
pub use api::{action_response, welcome_response, ApiResponse, Cors, ANY_ORIGIN};
pub use config::{Config, ConfigError, RawSettings};
pub use connection::{
    client_id_from, new_client_id, ClientState, ConnAction, ConnEvent, ConnectionManager, MqttConfig, StopReason};
pub use dispatch::{payload_to_text, route_event, InboundEvent, Route, WILDCARD_TOPIC};
pub use progress::{percentage_hundredths, ProgressReport, ProgressTracker, TaskProgressRegistry};
pub use text::{
    analytics_payload, log_payload, progress_payload, running_payload, shutdown_payload,
    signal_failure_payload, status_payload,
};
pub use parse::{parse_bool, parse_i32, parse_unsigned};
pub use publish::{PublishOutcome, PublishRetry, PublishStep, PUBLISH_ATTEMPTS, PUBLISH_RETRY_DELAY_MS};
pub use store::{DatabaseService, StoreError, StoredValue, DEFAULT_VALUES_LIMIT};
