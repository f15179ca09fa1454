pub mod ext;
pub mod lookups;
pub mod makemove;
pub mod rng;
pub mod shatranj;
