//! The failures that the library reports.

use vstd::prelude::*;

verus! {

/// The input could not be turned into a list of URLs. Nothing has been sent
/// over the network when this is reported.
#[derive(Debug, Clone, Copy, PartialEq, Eq, Structural)]
pub enum InputError {
    /// A text that should be an absolute URL is none.
    MalformedUrl,
    /// The file of URLs could not be opened, or not read to its end.
    Unreadable,
    /// Neither URLs nor a file of URLs was given.
    NoInput,
}

/// The output format that was asked for is not one of the known ones.
#[derive(Debug, Clone, Copy, PartialEq, Eq, Structural)]
pub enum ConfigError {
    /// The selector is neither `json` nor `text`.
    UnknownFormat,
}

/// Why a single resolution failed. One such failure ends the whole batch.
#[derive(Debug, Clone, Copy, PartialEq, Eq, Structural)]
pub enum NetworkError {
    /// No connection could be established.
    Connection,
    /// The request ran into its time limit.
    Timeout,
    /// The host name could not be looked up.
    Dns,
    /// The chain of redirects was longer than the transport follows.
    RedirectLimit,
}

impl NetworkError {
    /// Which failure the transport's error is, from what the transport says
    /// of it: whether a time limit ran out, whether the redirects were
    /// refused, whether no connection came about, and whether the error
    /// names the lookup of the host. The first of these that holds decides;
    /// a lookup counts only where no connection came about, and an error of
    /// which none holds is taken as a failed connection.
    pub fn classify(is_timeout: bool, is_redirect: bool, is_connect: bool, names_dns: bool) -> (r:
        NetworkError)
        ensures
            r == if is_timeout {
                NetworkError::Timeout
            } else if is_redirect {
                NetworkError::RedirectLimit
            } else if is_connect && names_dns {
                NetworkError::Dns
            } else {
                NetworkError::Connection
            },
    {
        if is_timeout {
            NetworkError::Timeout
        } else if is_redirect {
            NetworkError::RedirectLimit
        } else if is_connect && names_dns {
            NetworkError::Dns
        } else {
            NetworkError::Connection
        }
    }
}

/// The redirect map could not be rendered. Each variant stands for a refusal
/// of the crate that does that rendering.
#[derive(Debug, Clone, Copy, PartialEq, Eq, Structural)]
pub enum RenderError {
    /// The table was not laid out in two columns.
    Layout,
    /// The JSON encoder reported an error. It reports none for the records
    /// of a redirect map, so no rendering ends in this.
    Encoding,
}

} // verus!
