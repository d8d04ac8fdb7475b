//! Rendering a redirect map, as a table of text or as JSON.

use vstd::prelude::*;

use crate::error::{ConfigError, RenderError};
use crate::json::{distinct_names, json_list, json_string, member_texts, object_texts, walks};
use crate::redirects::{pair_texts, RedirectMap};
use crate::table::{
    add_row, column_count, new_table, row_format_columns, table_format, table_rows, table_string,
    table_text,
};
use crate::url::Url;

verus! {

/// The way in which the redirect map is written out.
#[derive(Debug, Clone, Copy, PartialEq, Eq, Structural)]
pub enum OutputFormat {
    /// A list of records with the fields `source` and `redirect`.
    JSON,
    /// Two columns, the source and where it was redirected to.
    Text,
}

impl OutputFormat {
    /// Reads the selector of an output format: `json` or `text`, in lower
    /// case only.
    pub fn from_str(s: &str) -> (r: Result<OutputFormat, ConfigError>)
        ensures
            r == if s@ == "json"@ {
                Ok::<OutputFormat, ConfigError>(OutputFormat::JSON)
            } else if s@ == "text"@ {
                Ok(OutputFormat::Text)
            } else {
                Err(ConfigError::UnknownFormat)
            },
    {
        let selector = s.to_owned();
        if selector == "json".to_owned() {
            Ok(OutputFormat::JSON)
        } else if selector == "text".to_owned() {
            Ok(OutputFormat::Text)
        } else {
            Err(ConfigError::UnknownFormat)
        }
    }
}

impl Default for OutputFormat {
    /// Text, where nothing else is asked for.
    fn default() -> (r: OutputFormat)
        ensures
            r == OutputFormat::Text,
    {
        OutputFormat::Text
    }
}

/// The row format of the text output: two columns, each aligned to
/// the left, four spaces apart.
pub const ROW_FORMAT: &'static str = "{:<}    {:<}";

/// The cells of the rows of the text output: the source, then where it was
/// redirected to.
pub open spec fn text_rows(rows: Seq<(Seq<char>, Seq<char>)>) -> Seq<Seq<Seq<char>>> {
    rows.map_values(|row: (Seq<char>, Seq<char>)| seq![row.0, row.1])
}

/// The record of one entry: its source under `source`, where it was
/// redirected to under `redirect`.
pub open spec fn record(row: (Seq<char>, Seq<char>)) -> Seq<(Seq<char>, Seq<char>)> {
    seq![("source"@, row.0), ("redirect"@, row.1)]
}

/// The records of the JSON output, one for each entry.
pub open spec fn records(rows: Seq<(Seq<char>, Seq<char>)>) -> Seq<Seq<(Seq<char>, Seq<char>)>> {
    rows.map_values(|row: (Seq<char>, Seq<char>)| record(row))
}

/// Renders the map as text: one line for each entry, in the order of the
/// map's keys, laid out by `tabular` according to `ROW_FORMAT`. Fails only
/// where `tabular` does not read two columns out of `ROW_FORMAT`.
pub fn render_text(map: &RedirectMap) -> (r: Result<String, RenderError>)
    ensures
        match r {
            Ok(text) => {
                &&& row_format_columns(ROW_FORMAT@) == Some(2nat)
                &&& text@ == table_text(ROW_FORMAT@, text_rows(map.rows()))
            },
            Err(e) => e == RenderError::Layout && row_format_columns(ROW_FORMAT@) != Some(2nat),
        },
{
    let mut table = match new_table(ROW_FORMAT) {
        Some(table) => table,
        None => {
            return Err(RenderError::Layout);
        },
    };
    if column_count(&table) != 2 {
        return Err(RenderError::Layout);
    }
    let entries = map.entries();
    let mut i: usize = 0;
    while i < entries.len()
        invariant
            i <= entries.len(),
            pair_texts(entries@) == map.rows(),
            table_format(table) == ROW_FORMAT@,
            row_format_columns(ROW_FORMAT@) == Some(2nat),
            table_rows(table) == text_rows(map.rows()).take(i as int),
        decreases entries.len() - i,
    {
        let source: &Url = &entries[i].0;
        let dest: &Url = &entries[i].1;
        proof {
            assert(pair_texts(entries@)[i as int] == (source@, dest@));
            assert(text_rows(map.rows()).take(i + 1) =~= text_rows(map.rows()).take(
                i as int,
            ).push(seq![source@, dest@]));
        }
        add_row(&mut table, source.as_str(), dest.as_str());
        i += 1;
    }
    proof {
        assert(text_rows(map.rows()).take(i as int) =~= text_rows(map.rows()));
    }
    Ok(table_string(&table))
}

/// The records of the JSON output: one for each entry, in the order of the
/// map's keys, each with the entry's source under `source` and where it was
/// redirected to under `redirect`.
pub fn json_records(map: &RedirectMap) -> (r: Vec<Vec<(String, String)>>)
    ensures
        object_texts(r@) == records(map.rows()),
        forall|k: int| 0 <= k < r.len() ==> distinct_names(#[trigger] r[k]@),
{
    let entries = map.entries();
    let mut objects: Vec<Vec<(String, String)>> = Vec::new();
    let mut i: usize = 0;
    while i < entries.len()
        invariant
            i <= entries.len(),
            pair_texts(entries@) == map.rows(),
            object_texts(objects@) == records(map.rows()).take(i as int),
            forall|k: int| 0 <= k < objects.len() ==> distinct_names(#[trigger] objects[k]@),
        decreases entries.len() - i,
    {
        let source: &Url = &entries[i].0;
        let dest: &Url = &entries[i].1;
        let mut members: Vec<(String, String)> = Vec::new();
        members.push(("source".to_owned(), source.to_text()));
        members.push(("redirect".to_owned(), dest.to_text()));
        proof {
            reveal_strlit("source");
            reveal_strlit("redirect");
            assert("source"@.len() != "redirect"@.len());
            assert(distinct_names(members@));
            assert(pair_texts(entries@)[i as int] == (source@, dest@));
            assert(member_texts(members@) =~= record((source@, dest@)));
            assert(records(map.rows()).take(i + 1) =~= records(map.rows()).take(i as int).push(
                record((source@, dest@)),
            ));
        }
        let ghost before = objects@;
        objects.push(members);
        proof {
            assert(object_texts(objects@) =~= object_texts(before).push(member_texts(members@)));
        }
        i += 1;
    }
    proof {
        assert(records(map.rows()).take(i as int) =~= records(map.rows()));
    }
    objects
}

/// Renders the map as JSON: the list of its records, written by
/// `serde_json`. This succeeds for every map. Which of the two members
/// comes first in an object is not fixed.
pub fn render_json(map: &RedirectMap) -> (r: Result<String, RenderError>)
    ensures
        r is Ok,
        r matches Ok(text) ==> exists|walked: Seq<Seq<(Seq<char>, Seq<char>)>>|
            walks(walked, records(map.rows())) && #[trigger] json_list(walked) == text@,
{
    let objects = json_records(map);
    match json_string(&objects) {
        Ok(text) => Ok(text),
        Err(_) => Err(RenderError::Encoding),
    }
}

/// Renders the map in the given format. As JSON this succeeds for every
/// map; as text it succeeds where `tabular` reads two columns out of
/// `ROW_FORMAT`.
pub fn render(map: &RedirectMap, format: OutputFormat) -> (r: Result<String, RenderError>)
    ensures
        match format {
            OutputFormat::JSON => {
                &&& r is Ok
                &&& r matches Ok(text) ==> exists|walked: Seq<Seq<(Seq<char>, Seq<char>)>>|
                    walks(walked, records(map.rows())) && #[trigger] json_list(walked) == text@
            },
            OutputFormat::Text => match r {
                Ok(text) => {
                    &&& row_format_columns(ROW_FORMAT@) == Some(2nat)
                    &&& text@ == table_text(ROW_FORMAT@, text_rows(map.rows()))
                },
                Err(e) => e == RenderError::Layout && row_format_columns(ROW_FORMAT@) != Some(2nat),
            },
        },
{
    match format {
        OutputFormat::JSON => render_json(map),
        OutputFormat::Text => render_text(map),
    }
}

} // verus!
