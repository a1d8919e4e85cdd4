//! Batch download of daily puzzle inputs, without the I/O.
//!
//! The crate decides; its driver acts. For a list of identifiers and a
//! session token it says which directory to make, which request to send and
//! which file to write, one action at a time, and takes back how each went.
//! A reply of "not found" is a soft failure: the batch keeps a warning and
//! goes on. Any other failure to fetch, and any failure to write, is hard:
//! the batch ends there, and what was written before stays.
//!
//! - [`inputs`]: an identifier, its address and its file.
//! - [`api`]: the request for an identifier, and what a reply counts as.
//! - [`download`]: the batch as a state machine of actions and events.
//! - [`run`]: a batch driven through every possible world, in closed form.
//! - [`laws`]: what holds of every run.
//! - [`rehearsal`]: the driver's loop, run against recorded answers.
//! - [`files`]: what a run leaves on disk.
//! - [`text`]: numerals, path templates and directories.
//! - [`credentials`]: the choices of the token menu.

pub mod api;
pub mod credentials;
pub mod download;
pub mod files;
pub mod inputs;
pub mod laws;
pub mod rehearsal;
pub mod run;
pub mod text;
