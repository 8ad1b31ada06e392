//! The command surface: a request either for one random quote's page
//! or for pages for all quotes, each reading from a named source file.

use vstd::prelude::*;

verus! {

/// A command line request that generates an HTML file containing a
/// quote from the source file: either a random quote or all quotes.
#[derive(Debug)]
pub enum Command {
    /// Selects a random quote from the JSON or CSV file and creates an
    /// HTML file based on the quote.
    Random {
        /// The name of the JSON or CSV file containing quotes.
        filename: String,
    },
    /// Selects all quotes from the JSON or CSV file and creates an
    /// HTML file for each quote.
    All {
        /// The name of the JSON file containing quotes.
        filename: String,
    },
}

} // verus!
