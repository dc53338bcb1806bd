//! The Sheets helper commands: `+append` adds a row, `+read` reads a range.
use vstd::prelude::*;
use crate::cli::CliArgs;
use crate::discovery::{RestDescription, method_lookup, resolve_method};
use crate::error::GwsError;
use crate::json::{Json, JsonValue, push_member, push_item, members_view, items_view};
use crate::mcp::tools::str_values;
use crate::text::{owned, split_char, split_spec, views, join_spec, lemma_join_split};

verus! {

/// The Sheets helper: the `+append` and `+read` commands.
pub struct SheetsHelper;

/// Configuration for appending values to a spreadsheet.
///
/// Holds the parsed arguments for the `+append` subcommand.
pub struct AppendConfig {
    /// The ID of the spreadsheet to append to.
    pub spreadsheet_id: String,
    /// The values to append, as a vector of strings.
    pub values: Vec<String>,
}

/// Configuration for reading values from a spreadsheet.
pub struct ReadConfig {
    pub spreadsheet_id: String,
    /// A1 notation range (e.g. "Sheet1!A1:B2").
    pub range: String,
}

/// What `serde_json::from_str::<Vec<Vec<String>>>` reads from a text: the
/// rows of strings of a JSON array of arrays of strings, or nothing when
/// the text is not one.
pub uninterp spec fn json_string_rows(text: Seq<char>) -> Option<Seq<Seq<Seq<char>>>>;

/// What `serde_json::from_str::<Vec<String>>` reads from a text: the
/// strings of a JSON array of strings, or nothing when the text is not one.
pub uninterp spec fn json_string_row(text: Seq<char>) -> Option<Seq<Seq<char>>>;

/// The text of each string of each row.
pub open spec fn rows_view(rows: Seq<Vec<String>>) -> Seq<Seq<Seq<char>>> {
    rows.map_values(|r: Vec<String>| views(r@))
}

/// Calls `serde_json::from_str::<Vec<Vec<String>>>`; its result, where it
/// succeeds, is named `json_string_rows` of the text.
#[verifier::external_body]
fn parse_string_rows(text: &str) -> (res: Option<Vec<Vec<String>>>)
    ensures
        match res {
            Some(rows) => json_string_rows(text@) == Some(rows_view(rows@)),
            None => json_string_rows(text@) is None,
        },
{
    serde_json::from_str::<Vec<Vec<String>>>(text).ok()
}

/// Calls `serde_json::from_str::<Vec<String>>`; its result, where it
/// succeeds, is named `json_string_row` of the text.
#[verifier::external_body]
fn parse_string_row(text: &str) -> (res: Option<Vec<String>>)
    ensures
        match res {
            Some(row) => json_string_row(text@) == Some(views(row@)),
            None => json_string_row(text@) is None,
        },
{
    serde_json::from_str::<Vec<String>>(text).ok()
}

/// The values of the rows, row after row.
pub fn flatten_rows(rows: Vec<Vec<String>>) -> (res: Vec<String>)
    ensures
        views(res@) == rows_view(rows@).flatten(),
{
    let mut out: Vec<String> = Vec::new();
    let mut i: usize = 0;
    proof {
        assert(rows_view(rows@).take(0) =~= Seq::<Seq<Seq<char>>>::empty());
        assert(views(out@) =~= Seq::<Seq<char>>::empty());
    }
    while i < rows.len()
        invariant
            i <= rows.len(),
            views(out@) == rows_view(rows@).take(i as int).flatten(),
        decreases rows.len() - i,
    {
        let row = &rows[i];
        let ghost start = views(out@);
        let mut k: usize = 0;
        while k < row.len()
            invariant
                k <= row.len(),
                views(out@) == start + views(row@).take(k as int),
            decreases row.len() - k,
        {
            let ghost before = out@;
            out.push(owned(row[k].as_str()));
            proof {
                assert(out@.drop_last() == before);
                assert(views(out@) =~= views(before).push(row@[k as int]@));
                assert(views(out@) =~= start + views(row@).take(k + 1));
            }
            k = k + 1;
        }
        proof {
            assert(views(row@).take(row@.len() as int) =~= views(row@));
            assert(rows_view(rows@).take(i + 1) =~= rows_view(rows@).take(i as int).push(views(row@)));
            rows_view(rows@).take(i as int).lemma_flatten_push(views(row@));
        }
        i = i + 1;
    }
    proof {
        assert(rows_view(rows@).take(rows@.len() as int) =~= rows_view(rows@));
    }
    out
}

/// The values `+append` adds: from `--json-values`, the rows of a JSON
/// array of rows one after another, else the strings of a single JSON row,
/// else none; otherwise the `--values` text split at each comma; otherwise
/// none.
pub open spec fn append_values(args: CliArgs) -> Seq<Seq<char>> {
    match args.arg("json-values"@) {
        Some(text) => match json_string_rows(text) {
            Some(rows) => rows.flatten(),
            None => match json_string_row(text) {
                Some(row) => row,
                None => Seq::empty(),
            },
        },
        None => match args.arg("values"@) {
            Some(v) => split_spec(v, ','),
            None => Seq::empty(),
        },
    }
}

/// Parses arguments for the `+append` command.
///
/// Splits the comma-separated `values` argument into a `Vec<String>`.
pub fn parse_append_args(matches: &CliArgs) -> (res: AppendConfig)
    requires
        matches.arg("spreadsheet"@) is Some,
    ensures
        matches.arg("spreadsheet"@) == Some(res.spreadsheet_id@),
        views(res.values@) == append_values(*matches),
{
    let values = match matches.get_one("json-values") {
        Some(json_str) => match parse_string_rows(json_str.as_str()) {
            Some(rows) => {
                let flat = flatten_rows(rows);
                flat
            },
            None => match parse_string_row(json_str.as_str()) {
                Some(row) => row,
                None => {
                    let empty: Vec<String> = Vec::new();
                    proof {
                        assert(views(empty@) =~= Seq::<Seq<char>>::empty());
                    }
                    empty
                },
            },
        },
        None => match matches.get_one("values") {
            Some(values_str) => split_char(values_str.as_str(), ','),
            None => {
                let empty: Vec<String> = Vec::new();
                proof {
                    assert(views(empty@) =~= Seq::<Seq<char>>::empty());
                }
                empty
            },
        },
    };
    let spreadsheet_id = owned(matches.get_one("spreadsheet").unwrap().as_str());
    AppendConfig { spreadsheet_id, values }
}

/// Values given with `--values` (and no `--json-values`) are exactly the
/// pieces of the text between commas: joined again with commas they give
/// back the text.
pub proof fn append_values_rejoin(args: CliArgs, text: Seq<char>)
    requires
        args.arg("json-values"@) is None,
        args.arg("values"@) == Some(text),
    ensures
        join_spec(append_values(args), seq![',']) == text,
{
    lemma_join_split(text, ',');
}

/// Parses arguments for the `+read` command.
pub fn parse_read_args(matches: &CliArgs) -> (res: ReadConfig)
    requires
        matches.arg("spreadsheet"@) is Some,
        matches.arg("range"@) is Some,
    ensures
        matches.arg("spreadsheet"@) == Some(res.spreadsheet_id@),
        matches.arg("range"@) == Some(res.range@),
{
    ReadConfig {
        spreadsheet_id: owned(matches.get_one("spreadsheet").unwrap().as_str()),
        range: owned(matches.get_one("range").unwrap().as_str()),
    }
}

/// The query parameters of an append: the spreadsheet, the range `A1`
/// (the table there is extended), and values entered as a user would.
pub open spec fn append_params(spreadsheet_id: Seq<char>) -> Json {
    Json::Object(
        seq![
            ("spreadsheetId"@, Json::Str(spreadsheet_id)),
            ("range"@, Json::Str("A1"@)),
            ("valueInputOption"@, Json::Str("USER_ENTERED"@)),
        ],
    )
}

/// The body of an append: one row holding the values.
pub open spec fn append_body(values: Seq<Seq<char>>) -> Json {
    Json::Object(seq![("values"@, Json::Array(seq![Json::Array(str_values(values))]))])
}

/// The query parameters of a read.
pub open spec fn read_params(spreadsheet_id: Seq<char>, range: Seq<char>) -> Json {
    Json::Object(
        seq![("spreadsheetId"@, Json::Str(spreadsheet_id)), ("range"@, Json::Str(range))],
    )
}

fn string_items(values: &Vec<String>) -> (res: JsonValue)
    ensures
        res@ == Json::Array(str_values(views(values@))),
{
    let mut items: Vec<JsonValue> = Vec::new();
    let mut i: usize = 0;
    while i < values.len()
        invariant
            i <= values.len(),
            items_view(items@) == str_values(views(values@)).take(i as int),
        decreases values.len() - i,
    {
        push_item(&mut items, JsonValue::string(values[i].as_str()));
        proof {
            assert(items_view(items@) =~= str_values(views(values@)).take(i + 1));
        }
        i = i + 1;
    }
    proof {
        assert(str_values(views(values@)).take(values@.len() as int) =~= str_values(views(values@)));
    }
    JsonValue::array(items)
}

fn copy_strings(v: &Vec<String>) -> (res: Vec<String>)
    ensures
        views(res@) == views(v@),
{
    let mut out: Vec<String> = Vec::new();
    let mut i: usize = 0;
    while i < v.len()
        invariant
            i <= v.len(),
            views(out@) == views(v@).take(i as int),
        decreases v.len() - i,
    {
        let ghost before = out@;
        out.push(owned(v[i].as_str()));
        proof {
            assert(out@.drop_last() == before);
            assert(views(out@) =~= views(before).push(v@[i as int]@));
            assert(views(out@) =~= views(v@).take(i + 1));
        }
        i = i + 1;
    }
    proof {
        assert(views(v@).take(v@.len() as int) =~= views(v@));
    }
    out
}

/// The query parameters, body and scopes of an append; a Discovery
/// Document without `spreadsheets.values.append` is a discovery error.
pub fn build_append_request(config: &AppendConfig, doc: &RestDescription) -> (res: Result<
    (JsonValue, JsonValue, Vec<String>),
    GwsError,
>)
    ensures
        match method_lookup(*doc, "spreadsheets"@, "values"@, "append"@) {
            Ok(method) => res matches Ok((params, body, scopes)) && params@ == append_params(
                config.spreadsheet_id@,
            ) && body@ == append_body(views(config.values@)) && views(scopes@) == views(
                method.scopes@,
            ),
            Err(m) => res matches Err(e) && e is Discovery && e.spec_message() == m,
        },
{
    let method = match resolve_method(doc, "spreadsheets", "values", "append") {
        Ok(m) => m,
        Err(e) => return Err(e),
    };
    let mut params: Vec<(String, JsonValue)> = Vec::new();
    assert(members_view(params@) == Seq::<(Seq<char>, Json)>::empty());
    push_member(&mut params, "spreadsheetId", JsonValue::string(config.spreadsheet_id.as_str()));
    push_member(&mut params, "range", JsonValue::string("A1"));
    push_member(&mut params, "valueInputOption", JsonValue::string("USER_ENTERED"));
    proof {
        assert(members_view(params@) =~= append_params(config.spreadsheet_id@)->Object_0);
    }
    let mut rows: Vec<JsonValue> = Vec::new();
    assert(items_view(rows@) == Seq::<Json>::empty());
    push_item(&mut rows, string_items(&config.values));
    let mut body: Vec<(String, JsonValue)> = Vec::new();
    assert(members_view(body@) == Seq::<(Seq<char>, Json)>::empty());
    push_member(&mut body, "values", JsonValue::array(rows));
    proof {
        assert(members_view(body@) =~= append_body(views(config.values@))->Object_0);
    }
    let scopes = copy_strings(&method.scopes);
    Ok((JsonValue::object(params), JsonValue::object(body), scopes))
}

/// The query parameters and scopes of a read; a Discovery Document without
/// `spreadsheets.values.get` is a discovery error.
pub fn build_read_request(config: &ReadConfig, doc: &RestDescription) -> (res: Result<
    (JsonValue, Vec<String>),
    GwsError,
>)
    ensures
        match method_lookup(*doc, "spreadsheets"@, "values"@, "get"@) {
            Ok(method) => res matches Ok((params, scopes)) && params@ == read_params(
                config.spreadsheet_id@,
                config.range@,
            ) && views(scopes@) == views(method.scopes@),
            Err(m) => res matches Err(e) && e is Discovery && e.spec_message() == m,
        },
{
    let method = match resolve_method(doc, "spreadsheets", "values", "get") {
        Ok(m) => m,
        Err(e) => return Err(e),
    };
    let mut params: Vec<(String, JsonValue)> = Vec::new();
    assert(members_view(params@) == Seq::<(Seq<char>, Json)>::empty());
    push_member(&mut params, "spreadsheetId", JsonValue::string(config.spreadsheet_id.as_str()));
    push_member(&mut params, "range", JsonValue::string(config.range.as_str()));
    proof {
        assert(members_view(params@) =~= read_params(config.spreadsheet_id@, config.range@)->Object_0);
    }
    let scopes = copy_strings(&method.scopes);
    Ok((JsonValue::object(params), scopes))
}

} // verus!
