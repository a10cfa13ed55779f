//! Comparison of two snapshots of a production-recipe database.
//!
//! A snapshot lists machines, and each machine lists recipes. The recipes of
//! a machine are indexed by their input signature: the sorted item inputs
//! and the sorted fluid inputs. For every signature that a machine has
//! before or after a change, the analysis decides at most one status, and
//! the report lists, machine by machine and status by status, the recipes
//! involved.
//!
//! Every function here is verified against its contract. The contracts are
//! stated over models: a `String` stands for its characters, a `Vec` for the
//! sequence of the models of its elements. One call leaves the verified
//! code: the grouping of records by status in `grouping`, whose contract is
//! taken on trust.
//!
//! - `order`: total orders on models, comparison and sorting;
//! - `assoc`: lists of keyed entries;
//! - `stack`, `recipe`: items, fluids, recipes and machines;
//! - `snapshot`: snapshots and their canonical form;
//! - `index`: the recipes of each machine by input signature;
//! - `status`, `classify`, `record`: the status kinds, the decision
//!   procedure and the records it leaves;
//! - `analysis`, `report`, `compare`: the report, its filtering and
//!   summary, and the comparison from end to end;
//! - `laws`: what holds of all of this, proved.

pub mod analysis;
pub mod assoc;
pub mod classify;
pub mod compare;
pub mod error;
pub mod grouping;
pub mod index;
pub mod laws;
pub mod order;
pub mod recipe;
pub mod record;
pub mod report;
pub mod snapshot;
pub mod stack;
pub mod status;
