pub mod classifier;
pub mod media;
pub mod text;
pub mod tray;
pub mod itunes;
pub mod musicbrainz;
pub mod db;
