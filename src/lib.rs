//! Discovery of bridge servers on the local network and the configuration
//! fingerprint check of every node of a CAN network, with the settings and
//! trace decisions of the command line tool around them.
pub mod fingerprint;
pub mod prober;
pub mod discovery;
pub mod errors;
pub mod appdata;
pub mod config;
pub mod repo;
pub mod trace;
