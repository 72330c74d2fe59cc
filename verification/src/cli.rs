//! Command-line surface as plain data.
//!
//! The argument parser lives outside the library; it hands over one of these
//! values. `None` for the command means "run the web front end".

use vstd::prelude::*;

verus! {

/// One invocation of the tool.
pub struct Cli {
    pub command: Option<Commands>,
}

/// The commands the tool accepts.
pub enum Commands {
    /// Track a new product by URL.
    Add { url: String },
    /// Check the price of every tracked product once.
    Check,
    /// List the tracked products.
    List,
    /// Export the tracked products to a file.
    Export { filename: String },
}

} // verus!
