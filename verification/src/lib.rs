//! Watch and control a bot's game session through a local reflection proxy.
//!
//! The proxy owns the one real connection to the target server. A bot connects
//! to the proxy locally and becomes the controller; game clients that join at
//! the same address become viewers, see the bot as a live player entity, and
//! can take over with `,acquire`.
//!
//! This crate is the proxy without its sockets: what is kept of the world, who
//! is sent what, who is in control, and how bytes become frames. It is told
//! what arrives and says what is to be sent.

pub mod ambience;
pub mod arrival;
pub mod bossbar;
pub mod builder;
pub mod cache;
pub mod clock;
pub mod control_laws;
pub mod entities;
pub mod entity_laws;
pub mod events;
pub mod filing;
pub mod hud;
pub mod ids;
pub mod inventory_laws;
pub mod local_server;
pub mod login_laws;
pub mod maps;
pub mod packet;
pub mod plugin;
pub mod reflect;
pub mod reflect_laws;
pub mod relay;
pub mod roster;
pub mod run_laws;
pub mod scene_laws;
pub mod scoreboard;
pub mod session;
pub mod session_laws;
pub mod snapshot;
pub mod stages;
pub mod table;
pub mod terrain;
pub mod text;
pub mod text_laws;
pub mod upstream;
pub mod views;
pub mod wire;
pub mod world_laws;

pub use builder::ProxyBuilder;
pub use events::{ClientId, ProxyEvent};
pub use plugin::{Frame, Pipeline, ProxyPlugin, Verdict};
