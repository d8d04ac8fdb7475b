//! From what the user gave to the list of URLs of a batch.

use vstd::prelude::*;

use crate::error::InputError;
use crate::url::{parsed_url, Url};

verus! {

/// Where the URLs of a batch come from.
#[derive(Debug, Clone, Copy, PartialEq, Eq, Structural)]
pub enum InputSource {
    /// From the URLs given one by one.
    Urls,
    /// From a file with one URL on each line.
    File,
}

impl InputSource {
    /// Picks the source of the URLs: those given one by one if there are
    /// any, else the file, and with neither there is no input.
    pub fn select(urls_given: bool, file_given: bool) -> (r: Result<InputSource, InputError>)
        ensures
            r == if urls_given {
                Ok::<InputSource, InputError>(InputSource::Urls)
            } else if file_given {
                Ok(InputSource::File)
            } else {
                Err(InputError::NoInput)
            },
    {
        if urls_given {
            Ok(InputSource::Urls)
        } else if file_given {
            Ok(InputSource::File)
        } else {
            Err(InputError::NoInput)
        }
    }
}

/// Every line parses as an absolute URL.
pub open spec fn all_parse(lines: Seq<String>) -> bool {
    forall|i: int| 0 <= i < lines.len() ==> parsed_url(#[trigger] lines[i]@) is Some
}

/// Parses what was read of a file of URLs, one URL on each line. `lines`
/// holds the lines that were read, in their order, and `read_to_end` says
/// whether that is the whole file: it is not where the file could not be
/// opened or a read failed, and `lines` then ends before that failure.
///
/// The result is the URLs in the order of the lines. A single line that is
/// no absolute URL, an empty one too, makes the input malformed; if every
/// line is one and the file was not read to its end, it is unreadable.
pub fn hosts_from_lines(lines: &Vec<String>, read_to_end: bool) -> (r: Result<
    Vec<Url>,
    InputError,
>)
    ensures
        match r {
            Ok(hosts) => {
                &&& all_parse(lines@)
                &&& read_to_end
                &&& hosts.len() == lines.len()
                &&& forall|i: int|
                    0 <= i < lines.len() ==> parsed_url(lines[i]@) == Some(#[trigger] hosts[i]@)
            },
            Err(e) => if !all_parse(lines@) {
                e == InputError::MalformedUrl
            } else {
                e == InputError::Unreadable && !read_to_end
            },
        },
{
    let mut hosts: Vec<Url> = Vec::new();
    let mut i: usize = 0;
    while i < lines.len()
        invariant
            i <= lines.len(),
            hosts.len() == i,
            forall|j: int| 0 <= j < i ==> parsed_url(lines[j]@) == Some(#[trigger] hosts[j]@),
        decreases lines.len() - i,
    {
        match Url::parse(lines[i].as_str()) {
            Ok(url) => {
                hosts.push(url);
            },
            Err(e) => {
                proof {
                    assert(parsed_url(lines@[i as int]@) is None);
                }
                return Err(e);
            },
        }
        i += 1;
    }
    proof {
        assert forall|j: int| 0 <= j < lines.len() implies parsed_url(
            #[trigger] lines[j]@,
        ) is Some by {
            assert(parsed_url(lines[j]@) == Some(hosts[j]@));
        }
    }
    if !read_to_end {
        return Err(InputError::Unreadable);
    }
    Ok(hosts)
}

} // verus!
