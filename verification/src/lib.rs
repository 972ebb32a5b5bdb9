//! The wire side of the Volant broker's Kafka listener.

pub mod acl;
pub mod acl_api;
pub mod admin;
pub mod api;
pub mod buffer;
pub mod cluster_admin;
pub mod codec;
pub mod compress;
pub mod configs;
pub mod consumer_protocol;
pub mod credentials;
pub mod delete_records;
pub mod error;
pub mod fetch;
pub mod fetch_response;
pub mod fetch_session;
pub mod glob;
pub mod group_admin;
pub mod handler;
pub mod hex;
pub mod layouts;
pub mod list_offsets;
pub mod membership;
pub mod message;
pub mod metadata;
pub mod model;
pub mod offsets;
pub mod outcomes;
pub mod produce;
pub mod reassignment;
pub mod records;
pub mod requests;
pub mod roundtrip;
pub mod sasl;
pub mod schema;
pub mod session_manager;
pub mod stored_session;
pub mod table;
pub mod text;
pub mod topic_admin;
pub mod topic_id;
pub mod transactions;
pub mod verdicts;
pub mod wire;

