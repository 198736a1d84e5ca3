//! Verified core of a desktop system monitor and of its node agent.
//!
//! The crate holds everything the monitor decides or computes from plain
//! values: the text formats it reads, the documents it exchanges with the node
//! agents, the WebSocket framing, the process table, the installer protocol and
//! the state of the panel applet. Sockets, files, child processes, threads,
//! floating-point arithmetic and the widgets live in the surrounding program.
pub mod agent;
pub mod applet;
pub mod cache;
pub mod commands;
pub mod config;
pub mod digest;
pub mod engines;
pub mod exchange;
pub mod hardware;
pub mod http;
pub mod ieee;
pub mod install;
pub mod json;
pub mod layout;
pub mod link;
pub mod order;
pub mod pages;
pub mod panel;
pub mod pieces;
pub mod procfs;
pub mod procs;
pub mod remote;
pub mod sensors;
pub mod snapshot;
pub mod sockets;
pub mod spark;
pub mod startup;
pub mod summary;
pub mod text;
pub mod websocket;
