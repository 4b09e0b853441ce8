pub mod controller;
pub mod domain;
pub mod error;
pub mod graph;
pub mod mixed;
pub mod name_map;
pub mod net;
pub mod reference;
pub mod registry;
pub mod socks5;
pub mod topo;
