//! A playlist audio downloader's core: analyzing a playlist, queuing and
//! retrying downloads, controlling running jobs, verifying the downloaded
//! tools, and naming output folders safely.
use vstd::prelude::*;

pub mod dependencies;
pub mod downloader;
pub mod playlist;
pub mod repository;
pub mod sanitize;
pub mod status;
pub mod text;
pub mod worker;

verus! {

#[verifier::external_type_specification]
#[verifier::external_body]
pub struct ExPathBuf(std::path::PathBuf);

/// State shared by the application's commands: where the downloaded tools live.
pub struct AppState {
    pub bin_dir: std::path::PathBuf,
}

} // verus!
