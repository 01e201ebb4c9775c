pub mod age_laws;
pub mod assembler;
pub mod assembly;
pub mod budget;
pub mod course_laws;
pub mod laws;
pub mod loss_laws;
pub mod tracker;
pub mod tracking;
pub mod tracking_laws;
pub mod tracking_loss_laws;
