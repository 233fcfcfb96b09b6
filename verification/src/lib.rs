//! The verified core of the plasmoid particle runtime.

pub mod assoc;
pub mod text;
pub mod pid;
pub mod message;
pub mod mailbox;
pub mod policy;
pub mod particle;
pub mod registry;
pub mod exit_laws;
pub mod signal_laws;
pub mod counter_laws;
pub mod supervisor;
pub mod supervisor_laws;
pub mod recovery_laws;
pub mod supervise;
pub mod driver_laws;
pub mod transport;
pub mod cluster;
pub mod partitions;
pub mod wire;
pub mod signals;
pub mod death_laws;
pub mod protocol;
pub mod host;
pub mod host_laws;
pub mod peer_laws;
pub mod crossing_laws;
pub mod partition_laws;
pub mod registry_laws;
pub mod invoke;
pub mod app;
pub mod global;
pub mod doc_registry;
pub mod gossip;
pub mod name_laws;
pub mod bystander_laws;
pub mod cli;
pub mod cli_laws;
pub mod scaffold;
pub mod text_laws;
pub mod gen_server;
pub mod ring;
pub mod supervised;
pub mod server_laws;
pub mod actors;
pub mod view_laws;
