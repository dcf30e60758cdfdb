//! The net-value history: extraction of dated value records from the scraped
//! page payload.
//!
//! The value endpoint answers `var apidata={ content:"<table>...", records:N,
//! pages:N, curpage:N};`. Extraction unwraps the frame, repairs the four bare
//! keys, parses the JSON, reads the page counters, and walks the HTML table
//! of the `content` field: each data row's first cell is a strict
//! `yyyy-mm-dd` date and its third cell a fixed-point net value. A row with
//! no cells is skipped; a row with one to three cells, a row with an invalid
//! date or value, and a table without a single data row are all fatal for
//! the whole page.

use vstd::prelude::*;
use crate::context::{Context, DummyContext, FetchValueContext};
use crate::deserializer::{
    get_field, json_tree_of, parse_json_string, spec_as_str, spec_as_u64, spec_field, JsonValue,
};
use crate::errors::Error;
use crate::frame::{extract_frame, frame_of, has_prefix};
use crate::normalizer::{normalized, transfer_js_to_json};
use crate::numparse::{date_string_val, fixed4_of, parse_date_string, parse_f32_from_str};

verus! {

/// One dated net-value observation. The value is a fixed-point integer in
/// units of 1/10000 of the published unit value.
#[derive(Debug, PartialEq)]
pub struct FundValueData {
    pub date: String,
    pub real_value: i64,
}

/// One page of the value history: the page counters and the page's records
/// in source row order (the source publishes them in descending date order).
#[derive(Debug, PartialEq)]
pub struct FundValueModel {
    pub records: u64,
    pub curpage: u64,
    pub pages: u64,
    pub values: Vec<FundValueData>,
}

/// The order a stored series is read back in.
#[derive(Debug, PartialEq, Eq, Structural, Clone, Copy)]
pub enum Order {
    Asc,
    Desc,
}

/// The rows of the first HTML table fragment: every `<tr>` element in
/// document order, each as the list of its `<td>` cells' inner HTML texts.
/// A function of the fragment text alone.
pub uninterp spec fn rows_of(html: Seq<char>) -> Seq<Seq<Seq<char>>>;

/// Relies on scraper's `Html::parse_fragment`, `Selector::parse` and
/// `ElementRef::select`/`inner_html`: parses the fragment and collects, for
/// every `tr` element in document order, the inner HTML of its `td` cells.
#[verifier::external_body]
fn html_table_rows(html: &str) -> (rows: Vec<Vec<String>>)
    ensures
        rows.deep_view() == rows_of(html@),
{
    let fragment = scraper::Html::parse_fragment(html);
    let row_selector = scraper::Selector::parse("tr").unwrap();
    let cell_selector = scraper::Selector::parse("td").unwrap();
    fragment
        .select(&row_selector)
        .map(|tr| tr.select(&cell_selector).map(|td| td.inner_html()).collect())
        .collect()
}

/// Why a table was rejected.
pub enum RowError {
    /// A row with one to three cells: the schema requires at least four.
    Short,
    /// A first cell that is no strict `yyyy-mm-dd` date; carries the cell.
    BadDate(Seq<char>),
    /// A third cell that is no fixed-point value; carries the cell.
    BadValue(Seq<char>),
}

/// A data row: at least four cells, a valid date in the first and a valid
/// value in the third.
pub open spec fn qualifying_row(cells: Seq<Seq<char>>) -> bool {
    &&& cells.len() >= 4
    &&& date_string_val(cells[0]) is Some
    &&& fixed4_of(cells[2]) matches Some(v) && -i64::MAX <= v <= i64::MAX
}

/// The record a qualifying row denotes.
pub open spec fn row_record(cells: Seq<Seq<char>>) -> (Seq<char>, int) {
    (cells[0], fixed4_of(cells[2]).unwrap())
}

/// What a table's rows denote: the records of the data rows in source row
/// order, rows without cells skipped; or the first failure.
pub open spec fn spec_rows_result(rows: Seq<Seq<Seq<char>>>) -> Result<
    Seq<(Seq<char>, int)>,
    RowError,
>
    decreases rows.len(),
{
    if rows.len() == 0 {
        Ok(Seq::empty())
    } else {
        let cells = rows[0];
        if cells.len() == 0 {
            spec_rows_result(rows.skip(1))
        } else if cells.len() < 4 {
            Err(RowError::Short)
        } else if date_string_val(cells[0]) is None {
            Err(RowError::BadDate(cells[0]))
        } else if !(fixed4_of(cells[2]) matches Some(v) && -i64::MAX <= v <= i64::MAX) {
            Err(RowError::BadValue(cells[2]))
        } else {
            match spec_rows_result(rows.skip(1)) {
                Ok(rest) => Ok(seq![row_record(cells)] + rest),
                Err(e) => Err(e),
            }
        }
    }
}

/// The records of the qualifying rows, in source row order.
pub open spec fn qualifying_records(rows: Seq<Seq<Seq<char>>>) -> Seq<(Seq<char>, int)>
    decreases rows.len(),
{
    if rows.len() == 0 {
        Seq::empty()
    } else if qualifying_row(rows[0]) {
        seq![row_record(rows[0])] + qualifying_records(rows.skip(1))
    } else {
        qualifying_records(rows.skip(1))
    }
}

/// On a table whose rows each either qualify or have no cells, extraction
/// yields exactly one record per qualifying row, in source row order.
pub proof fn lemma_table_extractor_counts(rows: Seq<Seq<Seq<char>>>)
    requires
        forall|i: int|
            0 <= i < rows.len() ==> qualifying_row(#[trigger] rows[i]) || rows[i].len() == 0,
    ensures
        spec_rows_result(rows) == Ok::<_, RowError>(qualifying_records(rows)),
        qualifying_records(rows).len() == rows.filter(
            |c: Seq<Seq<char>>| qualifying_row(c),
        ).len(),
    decreases rows.len(),
{
    let pred = |c: Seq<Seq<char>>| qualifying_row(c);
    reveal_with_fuel(Seq::filter, 3);
    if rows.len() == 0 {
    } else {
        let head = seq![rows[0]];
        let tail = rows.skip(1);
        assert(forall|i: int|
            0 <= i < tail.len() ==> qualifying_row(#[trigger] tail[i]) || tail[i].len() == 0);
        lemma_table_extractor_counts(tail);
        assert(rows =~= head + tail);
        Seq::filter_distributes_over_add(head, tail, pred);
        assert(head.drop_last() =~= Seq::<Seq<Seq<char>>>::empty());
        assert(head.drop_last().filter(pred) =~= Seq::<Seq<Seq<char>>>::empty());
        assert(head.filter(pred) == if pred(rows[0]) {
            seq![rows[0]]
        } else {
            Seq::<Seq<Seq<char>>>::empty()
        });
        if qualifying_row(rows[0]) {
            assert(spec_rows_result(rows) == Ok::<_, RowError>(
                seq![row_record(rows[0])] + qualifying_records(tail),
            ));
        }
    }
}

/// The denotation of extracted records.
pub open spec fn values_view(values: Seq<FundValueData>) -> Seq<(Seq<char>, int)> {
    values.map(|i: int, v: FundValueData| (v.date@, v.real_value as int))
}

spec fn res_concat(pre: Seq<(Seq<char>, int)>, rest: Result<Seq<(Seq<char>, int)>, RowError>) -> Result<
    Seq<(Seq<char>, int)>,
    RowError,
> {
    match rest {
        Ok(r) => Ok(pre + r),
        Err(e) => Err(e),
    }
}

/// The error shape of a rejected table, for a given context.
pub open spec fn row_error_shape(e: Error, re: RowError, context: Seq<char>) -> bool {
    match re {
        RowError::Short => e matches Error::MalformedPayload { context: c } && c@ == context,
        RowError::BadDate(cell) => match e {
            Error::FieldTypeMismatch { field, expected_type, actual, context: c } => {
                &&& field@ == "cells[0]"@
                &&& expected_type@ == "yyyy-mm-dd"@
                &&& actual@ == cell
                &&& c@ == context
            },
            _ => false,
        },
        RowError::BadValue(cell) => match e {
            Error::FieldTypeMismatch { field, expected_type, actual, context: c } => {
                &&& field@ == "cells[2]"@
                &&& expected_type@ == "float32"@
                &&& actual@ == cell
                &&& c@ == context
            },
            _ => false,
        },
    }
}

/// Converts a table's rows into value records.
///
/// Succeeds exactly on tables whose every row qualifies or is cell-free,
/// with at least one data row; the records come in source row order. A short
/// row and an empty table are `MalformedPayload`; a bad date or value cell
/// is a `FieldTypeMismatch` naming the cell.
pub fn parse_values_from_rows(rows: &Vec<Vec<String>>, context: &str) -> (r: Result<
    Vec<FundValueData>,
    Error,
>)
    ensures
        match r {
            Ok(values) => {
                &&& spec_rows_result(rows.deep_view()) == Ok::<_, RowError>(values_view(values@))
                &&& values@.len() > 0
            },
            Err(e) => match spec_rows_result(rows.deep_view()) {
                Ok(recs) => recs.len() == 0 && (e matches Error::MalformedPayload { context: c }
                    && c@ == context@),
                Err(re) => row_error_shape(e, re, context@),
            },
        },
{
    let ghost rview = rows.deep_view();
    let n = rows.len();
    let mut values: Vec<FundValueData> = Vec::new();
    let mut i: usize = 0;
    proof {
        assert(rview.len() == n);
        assert(rview.skip(0) =~= rview);
        assert(values_view(values@) =~= Seq::<(Seq<char>, int)>::empty());
        if spec_rows_result(rview) is Ok {
            assert(values_view(values@) + spec_rows_result(rview)->Ok_0
                =~= spec_rows_result(rview)->Ok_0);
        }
    }
    while i < n
        invariant
            i <= n,
            n == rows@.len(),
            rview == rows.deep_view(),
            rview.len() == n,
            spec_rows_result(rview) == res_concat(
                values_view(values@),
                spec_rows_result(rview.skip(i as int)),
            ),
        decreases n - i,
    {
        let ghost pre = values_view(values@);
        let ghost rest = rview.skip(i as int);
        proof {
            assert(rest[0] == rview[i as int]);
            assert(rview[i as int] == rows@[i as int].deep_view());
            assert(rest.skip(1) =~= rview.skip(i + 1));
        }
        let cells = &rows[i];
        let m = cells.len();
        proof {
            assert(rview[i as int].len() == m);
            assert(forall|j: int|
                0 <= j < m ==> rview[i as int][j] == #[trigger] cells@[j]@);
        }
        if m == 0 {
            i = i + 1;
            continue ;
        }
        if m < 4 {
            return Err(Error::MalformedPayload { context: context.to_owned() });
        }
        let raw_date = &cells[0];
        match parse_date_string(raw_date.as_str()) {
            Ok(_) => {},
            Err(_) => {
                return Err(
                    Error::FieldTypeMismatch {
                        field: String::from_str("cells[0]"),
                        expected_type: String::from_str("yyyy-mm-dd"),
                        actual: raw_date.clone(),
                        context: context.to_owned(),
                    },
                );
            },
        };
        let raw_value = &cells[2];
        let value = match parse_f32_from_str(raw_value.as_str()) {
            Ok(v) => v,
            Err(_) => {
                return Err(
                    Error::FieldTypeMismatch {
                        field: String::from_str("cells[2]"),
                        expected_type: String::from_str("float32"),
                        actual: raw_value.clone(),
                        context: context.to_owned(),
                    },
                );
            },
        };
        values.push(FundValueData { date: raw_date.clone(), real_value: value });
        i = i + 1;
        proof {
            assert(qualifying_row(rest[0]));
            assert(values_view(values@) =~= pre.push(row_record(rest[0])));
            if spec_rows_result(rview.skip(i as int)) is Ok {
                let tail = spec_rows_result(rview.skip(i as int))->Ok_0;
                assert(spec_rows_result(rest) == Ok::<_, RowError>(
                    seq![row_record(rest[0])] + tail,
                ));
                assert(pre.push(row_record(rest[0])) + tail =~= pre + (seq![row_record(rest[0])]
                    + tail));
            }
        }
    }
    proof {
        assert(rview.skip(n as int) =~= Seq::<Seq<Seq<char>>>::empty());
        if spec_rows_result(rview) is Ok {
            assert(values_view(values@) + Seq::<(Seq<char>, int)>::empty() =~= values_view(
                values@,
            ));
        }
    }
    if values.len() == 0 {
        return Err(Error::MalformedPayload { context: context.to_owned() });
    }
    Ok(values)
}

/// The four bare keys the value payload writes unquoted.
pub open spec fn payload_keys() -> Seq<Seq<char>> {
    seq!["content"@, "records"@, "pages"@, "curpage"@]
}

/// The string under `field` of an object node, read strictly.
pub open spec fn field_as_str(t: JsonValue, field: Seq<char>) -> Option<Seq<char>> {
    match spec_field(t, field) {
        Some(node) => spec_as_str(node),
        None => None,
    }
}

/// The unsigned integer under `field` of an object node, read strictly.
pub open spec fn field_as_u64(t: JsonValue, field: Seq<char>) -> Option<u64> {
    match spec_field(t, field) {
        Some(node) => spec_as_u64(node),
        None => None,
    }
}

/// What a whole raw value response denotes: unwrap the `var apidata=` frame,
/// quote the four bare keys, parse the JSON, read the counters, extract the
/// table of the `content` field. The records keep source row order.
pub open spec fn spec_extract_fund_value(raw: Seq<char>) -> Option<
    (u64, u64, u64, Seq<(Seq<char>, int)>),
> {
    match frame_of(raw, "var apidata="@) {
        None => None,
        Some(body) => match json_tree_of(normalized(payload_keys(), body)) {
            None => None,
            Some(t) => match (
                field_as_str(t, "content"@),
                field_as_u64(t, "records"@),
                field_as_u64(t, "curpage"@),
                field_as_u64(t, "pages"@),
            ) {
                (Some(content), Some(records), Some(curpage), Some(pages)) => match
                    spec_rows_result(rows_of(content)) {
                    Ok(recs) => if recs.len() > 0 {
                        Some((records, curpage, pages, recs))
                    } else {
                        None
                    },
                    Err(_) => None,
                },
                _ => None,
            },
        },
    }
}

/// The denotation of an extracted page model.
pub open spec fn model_view(m: FundValueModel) -> (u64, u64, u64, Seq<(Seq<char>, int)>) {
    (m.records, m.curpage, m.pages, values_view(m.values@))
}

/// Reads a string field of the payload object, as the original page schema
/// requires; a missing field reads as a null node.
fn read_str_field(tree: &JsonValue, field: &str, context: &str) -> (r: Result<String, Error>)
    ensures
        match field_as_str(*tree, field@) {
            Some(sv) => r matches Ok(s) && s@ == sv,
            None => r matches Err(e) && (e matches Error::FieldTypeMismatch { context: c, .. }
                && c@ == context@),
        },
{
    match get_field(tree, field) {
        Some(node) => crate::deserializer::deserialize_str(node, field, context),
        None => Err(
            Error::FieldTypeMismatch {
                field: field.to_owned(),
                expected_type: String::from_str("string"),
                actual: String::from_str("null"),
                context: context.to_owned(),
            },
        ),
    }
}

/// Reads an unsigned integer field of the payload object.
fn read_u64_field(tree: &JsonValue, field: &str, context: &str) -> (r: Result<u64, Error>)
    ensures
        match field_as_u64(*tree, field@) {
            Some(n) => r == Ok::<u64, Error>(n),
            None => r matches Err(e) && (e matches Error::FieldTypeMismatch { context: c, .. }
                && c@ == context@),
        },
{
    match get_field(tree, field) {
        Some(node) => crate::deserializer::deserialize_u64(node, field, context),
        None => Err(
            Error::FieldTypeMismatch {
                field: field.to_owned(),
                expected_type: String::from_str("u64"),
                actual: String::from_str("null"),
                context: context.to_owned(),
            },
        ),
    }
}

/// Extracts one page of the value history from a raw value response, under a
/// given rendered context.
///
/// Succeeds exactly on well-formed responses. A response without the
/// `var apidata=` prefix is a `PrefixMismatch`; one whose repaired body is
/// not valid JSON, or whose table is degenerate, is a `MalformedPayload`; a
/// field or cell of the wrong shape is a `FieldTypeMismatch`.
fn extract_fund_value_core(raw: &str, context: &str) -> (r: Result<FundValueModel, Error>)
    ensures
        match r {
            Ok(m) => spec_extract_fund_value(raw@) == Some(model_view(m)),
            Err(e) => {
                &&& spec_extract_fund_value(raw@) is None
                &&& match e {
                    Error::PrefixMismatch { expected_prefix, context: c } => {
                        &&& !has_prefix(raw@, "var apidata="@)
                        &&& expected_prefix@ == "var apidata="@
                        &&& c@ == context@
                    },
                    Error::MalformedPayload { context: c } => c@ == context@,
                    Error::FieldTypeMismatch { context: c, .. } => c@ == context@,
                }
            },
        },
{
    let body = match extract_frame(raw, "var apidata=", context) {
        Ok(b) => b,
        Err(e) => {
            return Err(e);
        },
    };
    let keys: Vec<&str> = vec!["content", "records", "pages", "curpage"];
    proof {
        assert(keys.deep_view() =~= payload_keys());
    }
    let fixed = transfer_js_to_json(body, keys);
    let tree = match parse_json_string(&fixed, context) {
        Ok(t) => t,
        Err(e) => {
            return Err(e);
        },
    };
    let content = match read_str_field(&tree, "content", context) {
        Ok(s) => s,
        Err(e) => {
            return Err(e);
        },
    };
    let records = match read_u64_field(&tree, "records", context) {
        Ok(n) => n,
        Err(e) => {
            return Err(e);
        },
    };
    let curpage = match read_u64_field(&tree, "curpage", context) {
        Ok(n) => n,
        Err(e) => {
            return Err(e);
        },
    };
    let pages = match read_u64_field(&tree, "pages", context) {
        Ok(n) => n,
        Err(e) => {
            return Err(e);
        },
    };
    let values = match parse_values(content.as_str(), context) {
        Ok(v) => v,
        Err(e) => {
            return Err(e);
        },
    };
    Ok(FundValueModel { records, curpage, pages, values })
}

/// Extracts one page of the value history, with the fetch context carried
/// into every failure.
pub fn extract_fund_values(raw_response: &String, context: &FetchValueContext) -> (r: Result<
    FundValueModel,
    Error,
>)
    ensures
        match r {
            Ok(m) => spec_extract_fund_value(raw_response@) == Some(model_view(m)),
            Err(e) => {
                &&& spec_extract_fund_value(raw_response@) is None
                &&& match e {
                    Error::PrefixMismatch { expected_prefix, context: c } => {
                        &&& !has_prefix(raw_response@, "var apidata="@)
                        &&& expected_prefix@ == "var apidata="@
                        &&& c@ == context.spec_message()
                    },
                    Error::MalformedPayload { context: c } => c@ == context.spec_message(),
                    Error::FieldTypeMismatch { context: c, .. } => c@ == context.spec_message(),
                }
            },
        },
{
    let ctx = context.message();
    extract_fund_value_core(raw_response.as_str(), ctx.as_str())
}

/// Extracts one page of the value history, with no fetch context: failures
/// carry the placeholder context.
pub fn extract_fund_value(raw_response: &String) -> (r: Result<FundValueModel, Error>)
    ensures
        match r {
            Ok(m) => spec_extract_fund_value(raw_response@) == Some(model_view(m)),
            Err(e) => {
                &&& spec_extract_fund_value(raw_response@) is None
                &&& match e {
                    Error::PrefixMismatch { expected_prefix, context: _ } => {
                        &&& !has_prefix(raw_response@, "var apidata="@)
                        &&& expected_prefix@ == "var apidata="@
                    },
                    Error::MalformedPayload { context: _ } => true,
                    Error::FieldTypeMismatch { .. } => true,
                }
            },
        },
{
    let context = DummyContext;
    let ctx = context.message();
    extract_fund_value_core(raw_response.as_str(), ctx.as_str())
}

/// Parses an HTML fragment and converts its table into value records, as
/// [`parse_values_from_rows`] does for the fragment's rows.
pub fn parse_values(html: &str, context: &str) -> (r: Result<Vec<FundValueData>, Error>)
    ensures
        match r {
            Ok(values) => {
                &&& spec_rows_result(rows_of(html@)) == Ok::<_, RowError>(values_view(values@))
                &&& values@.len() > 0
            },
            Err(e) => match spec_rows_result(rows_of(html@)) {
                Ok(recs) => recs.len() == 0 && (e matches Error::MalformedPayload { context: c }
                    && c@ == context@),
                Err(re) => row_error_shape(e, re, context@),
            },
        },
{
    let rows = html_table_rows(html);
    parse_values_from_rows(&rows, context)
}

} // verus!
