pub mod text;
pub mod structured_id;
pub mod urls;
pub mod web;
pub mod fetch;
pub mod assets;
pub mod bookmarks;
pub mod recents;
pub mod codex;
pub mod directory;
pub mod mesh;
pub mod conformance;
pub mod rendezvous;
pub mod passport;
pub mod cli;
pub mod home;
pub mod navigator;
pub mod walk;
pub mod resolver;
pub mod records;
pub mod relay;
pub mod commerce;
pub mod relay_wire;
pub mod rendezvous_wire;
pub mod veils;
pub mod presence;
pub mod constellation;
pub mod suite;
pub mod probe;
