//! A local-first, encrypted secret registry: projects, environments, secrets and their values.
//!
//! The registry is a set of tables (`tables`) in a `store`, which answers `requests`. Values are
//! encrypted under a master key (`crypto`, `keys`). Every change is logged as an operation that
//! other devices replay (`change`, `replay`, `sync`, `exchange`); `laws`, `convergence`,
//! `imports`, `draws` and `listing` say what holds of the store, its log and its lists.
//! `commands`, `entity_commands`, `dotenv`, `manifest`, `runner` and `tui` are what the program
//! does with a store, up to printing and drawing.
//!
//! What all of this comes to, as it shows from outside, is stated in laws of its own: what a
//! request, a replayed operation, a command, an import and a bundle do to the names, values and
//! assignments that a reader finds (`effects`, `requested`, `replaying`, `commanded`,
//! `importing`, `exchanged`), what they write (`written`), what reading gives and what is told of
//! it (`reading`, `judging`, `told`), what is kept and sealed (`stored`, `sealing`), and, over the
//! functions themselves, what every call does and answers (`called`, `answers`).

pub mod answers;
pub mod called;
pub mod change;
pub mod commanded;
pub mod commands;
pub mod convergence;
pub mod crypto;
pub mod domain;
pub mod dotenv;
pub mod draws;
pub mod effects;
pub mod entity_commands;
pub mod envmap;
pub mod error;
pub mod exchange;
pub mod exchanged;
pub mod ids;
pub mod importing;
pub mod imports;
pub mod json;
pub mod judging;
pub mod keys;
pub mod laws;
pub mod listing;
pub mod manifest;
pub mod model;
pub mod order;
pub mod reading;
pub mod registry;
pub mod replay;
pub mod replaying;
pub mod requested;
pub mod requests;
pub mod runner;
pub mod sealing;
pub mod snapshot;
pub mod store;
pub mod stored;
pub mod sync;
pub mod tables;
pub mod text;
pub mod time;
pub mod told;
pub mod tui;
pub mod wellformed;
pub mod written;
