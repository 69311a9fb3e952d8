pub mod address;
pub mod providers;
pub mod neutrino;
