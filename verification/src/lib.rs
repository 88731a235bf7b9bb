//! The rules of a host for workspaces and terminal sessions.
//!
//! A server for coding agents keeps workspaces, on the host or in containers
//! entered with `systemd-nspawn`, lets dashboards attach terminals to them
//! over WebSocket, streams virtual displays, moves files, and runs shell
//! commands. This crate holds what such a server decides: every function
//! takes plain values and returns plain values, and states in its contract
//! what it returns. Sockets, child processes and files are the caller's.
//!
//! - [`workspace`]: workspaces, their store, orphan recovery, builds, and the
//!   directories of missions.
//! - [`nspawn`]: container roots and the commands that make and enter them.
//! - [`console`]: the pool of reconnectable terminal sessions, session keys,
//!   client frames, and the commands of new sessions.
//! - [`desktop_stream`]: cadence, quality and control of a display stream.
//! - [`fs`]: safe path components, the guard against requests to internal
//!   targets, uploads in chunks, and destinations.
//! - [`terminal`]: the command denylist, options, output, and invocations.
//! - [`projection`], [`skills`]: the configuration and skill files that a
//!   mission directory holds.
//! - [`mission`]: which missions are interrupted when the server stops.
//! - [`json`], [`text`]: reading JSON members; searching and formatting text.
//! - [`budget`], [`llm`], [`library`], [`auth`], [`tools`]: records shared
//!   with the parts of the server that talk to models and to the library of
//!   skills.

pub mod auth;
pub mod budget;
pub mod console;
pub mod desktop_stream;
pub mod fs;
pub mod json;
pub mod library;
pub mod llm;
pub mod mission;
pub mod nspawn;
pub mod projection;
pub mod skills;
pub mod terminal;
pub mod text;
pub mod tools;
pub mod workspace;
