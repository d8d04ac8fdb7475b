//! Resolving a batch of URLs through their redirects, without doing the I/O:
//! the caller sends the requests that the [`Processor`] hands out and reports
//! how each one ended.
//!
//! A batch runs like this:
//!
//! ```text
//! let mut batch = Processor::from_hosts(hosts);
//! let result = loop {
//!     while let Some(index) = batch.dispatch() {
//!         // send the request for batch.hosts()[index]
//!     }
//!     if let Some(result) = batch.process() {
//!         break result;
//!     }
//!     // wait until a request ends, then tell the batch:
//!     // batch.resolved(index, url) or batch.failed(index, error)
//! };
//! ```
//!
//! At most [`POOL_SIZE`] requests are outstanding at any time, and the
//! result is the [`RedirectMap`] of the batch or the first failure.

pub mod batch;
pub mod error;
pub mod input;
pub mod json;
pub mod output;
pub mod processor;
pub mod redirects;
pub mod table;
pub mod url;

pub use crate::batch::{Batch, Event, Stage, POOL_SIZE};
pub use crate::error::{ConfigError, InputError, NetworkError, RenderError};
pub use crate::input::{hosts_from_lines, InputSource};
pub use crate::output::{json_records, render, render_json, render_text, OutputFormat};
pub use crate::processor::Processor;
pub use crate::redirects::RedirectMap;
pub use crate::url::Url;
