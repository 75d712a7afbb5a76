pub mod actions;
pub mod app;
pub mod backend;
pub mod clock;
pub mod connection;
pub mod history;
pub mod polling;
pub mod reducer;
pub mod session;
pub mod state;
pub mod store;
pub mod terminal;
pub mod text;
pub mod transfers;
pub mod update;
