pub mod cyclonedx;
pub mod documents;
pub mod lockfile;
pub mod purl;
pub mod text;
