//! The verified core of a rosbridge server: the bridge between WebSocket clients that
//! speak the rosbridge v2.1 protocol and ROS 2.
//!
//! * Interfaces and messages: [`datatype`], [`interface`], [`parser`], [`wrapped`],
//!   [`registry`] and [`defs`] hold what is known of message types; [`cdr`], [`wide`],
//!   [`wire`] and [`codec`] convert messages between JSON and the ROS 2 wire format. The
//!   laws of definitions are in [`type_laws`], [`declaration_laws`] and [`parser_laws`],
//!   those of messages in [`message_laws`], [`plain_laws`], [`layout_laws`], [`wire_laws`]
//!   and [`nesting`]. That every bundled definition is registered is proved in
//!   [`loadable`], [`defs_loadable`] and [`defs_laws`].
//! * Protocol: [`incoming`], [`outgoing`] and [`qos`] are the operations; [`json`],
//!   [`document`], [`compression`], [`encoding`] and [`fragment`] are how they travel,
//!   with laws in [`frame_laws`].
//! * Sessions: [`session`], [`topics`], [`services`], [`actions`], [`stamp`],
//!   [`subscription`], [`forwarder`] and [`dispatch`] decide what becomes of a client's
//!   operations and say so as an [`effect::Effect`]. What each operation does is stated in
//!   [`operation_laws`], what holds of a session over several of them in [`session_laws`].
//! * Server and backends: [`config`] and the qualities of service with laws in
//!   [`settings_laws`], [`glob`] with its laws in [`glob_laws`], [`server`], [`backend`],
//!   [`dds`], [`loopback`] and [`uuid`].
//! * [`text`], [`dict`] and [`float`], with laws in [`float_laws`], are what the rest is
//!   built on.
pub mod actions;
pub mod backend;
pub mod cdr;
pub mod codec;
pub mod compression;
pub mod config;
pub mod datatype;
pub mod dds;
pub mod declaration_laws;
pub mod defs;
pub mod defs_laws;
pub mod defs_loadable;
pub mod dict;
pub mod dispatch;
pub mod document;
pub mod effect;
pub mod encoding;
pub mod float;
pub mod float_laws;
pub mod forwarder;
pub mod fragment;
pub mod frame_laws;
pub mod glob;
pub mod glob_laws;
pub mod incoming;
pub mod interface;
pub mod json;
pub mod layout_laws;
pub mod loadable;
pub mod loopback;
pub mod message_laws;
pub mod nesting;
pub mod operation_laws;
pub mod outgoing;
pub mod parser;
pub mod parser_laws;
pub mod plain_laws;
pub mod qos;
pub mod registry;
pub mod server;
pub mod services;
pub mod session;
pub mod session_laws;
pub mod settings_laws;
pub mod stamp;
pub mod subscription;
pub mod text;
pub mod topics;
pub mod type_laws;
pub mod uuid;
pub mod wide;
pub mod wire;
pub mod wire_laws;
pub mod wrapped;
