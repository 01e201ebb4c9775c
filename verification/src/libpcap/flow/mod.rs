pub mod candidate;
pub mod course_laws;
pub mod direction_laws;
pub mod laws;
pub mod ledger;
pub mod model;
pub mod record;
pub mod resolver_laws;
pub mod tracker;
pub mod tracking;
