//! A tick-driven simulation core: mailboxes and broadcasters that carry
//! deferred messages, a capability registry, and an axis-aligned box physics
//! engine that consumes and produces messages once per tick.
pub mod event;
pub mod physics;
pub mod events;
pub mod component;
pub mod scene;
pub mod element;
pub mod sprite;
pub mod instance;
