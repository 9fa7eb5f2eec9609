//! Interactive exploration engine for record-oriented binary data.
//!
//! A record set is a list of byte sequences. The engine keeps a cursor over
//! the records, interprets bytes under a selectable field type, lets the
//! analyst pin typed byte ranges, and derives a drawable model of the
//! current view.
//!
//! The engine touches no terminal and no file. Its state is modelled as
//! plain values in `model`, every action is a function on that model, and
//! `interactive` holds the state and performs the actions; `laws` states
//! what holds over all states. `datatype`, `locks`, `lockfile`, `frequency`
//! and `render` are the parts the engine is made of. `framing`, `analysis`,
//! `records`, `tables` and `boundaries` serve the reports on a record set,
//! `config` and `preset` the presets and their detection. `outside` holds
//! the calls into other crates that are taken on trust.

pub mod analysis;
pub mod base85_charsets;
pub mod boundaries;
pub mod config;
pub mod datatype;
pub mod framing;
pub mod frequency;
pub mod interactive;
pub mod keys;
pub mod laws;
pub mod lockfile;
pub mod locks;
pub mod messages;
pub mod model;
pub mod outside;
pub mod paths;
pub mod preset;
pub mod records;
pub mod render;
pub mod sampling;
pub mod scan;
pub mod tables;
pub mod text;
