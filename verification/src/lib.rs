//! A verified model of a reloadable-sprite demo: a single marked entity whose
//! texture is loaded asynchronously, a populator that arms marked entities
//! with a load request, a status reporter that renders the load state as
//! text, and an edge-triggered reload button that despawns and respawns the
//! marked entity.

pub mod assets;
pub mod commands;
pub mod decimal;
pub mod laws;
pub mod status;
pub mod systems;
pub mod ui;
pub mod world;
