//! Text engine and server-discovery logic for a small prompt dialog that
//! forwards user text to a locally running development-tool server.
//!
//! - `params`: `key=value` arguments turned into placeholder parameters.
//! - `expand`: placeholder expansion before sending.
//! - `highlight`: the overlay that shows recognised placeholder tokens.
//! - `autocomplete`: suggesting and accepting the token being typed.
//! - `port`: reading a port from a command line, and the server's base URL.
//! - `discovery`: choosing the server that belongs to the current directory.
//! - `client`: the two-step prompt submission.
//! - `text`: character helpers shared by the others.

use vstd::prelude::*;

pub mod text;
pub mod params;
pub mod expand;
pub mod highlight;
pub mod autocomplete;
pub mod port;
pub mod discovery;
pub mod client;

verus! {

} // verus!
