//! The fund list: classification of category labels and extraction of the
//! list payload.
//!
//! The list endpoint answers `var r = [[id, pinyin, name, category, full
//! pinyin], ...];`. Extraction unwraps the frame, parses the JSON array of
//! five-string rows, and classifies each row's category label into the
//! closed [`FundType`] enumeration. The label set is fixed: a label outside
//! it is an error, never a silent default.

use vstd::prelude::*;
use crate::context::{Context, FetchListContext};
use crate::deserializer::{
    deserialize_array, deserialize_str, json_tree_of, parse_json_string, spec_as_array,
    spec_as_str, JsonValue,
};
use crate::errors::{Error, TypeMismatchError};
use crate::frame::{extract_frame, frame_of, has_prefix};
use crate::strutil::str_eq;

verus! {

/// The closed fund-type enumeration.
#[derive(Debug, PartialEq, Eq, Structural, Clone, Copy)]
pub enum FundType {
    Mix,
    Bond,
    Index,
    QDII,
    Stock,
    NotInterested,
}

/// One fund of the list: unique by id; name and type are the mutable fields
/// an upsert overwrites.
#[derive(Debug, PartialEq)]
pub struct FundListItem {
    pub id: String,
    pub name: String,
    pub typ: FundType,
}

pub type FundList = Vec<FundListItem>;

/// The classification of a category label, over the closed label set; `None`
/// for every label outside it.
pub open spec fn fund_type_of(s: Seq<char>) -> Option<FundType> {
    if s == "混合型"@ || s == "混合-FOF"@ {
        Some(FundType::Mix)
    } else if s == "债券型"@ || s == "定开债券"@ || s == "债券指数"@ {
        Some(FundType::Bond)
    } else if s == "联接基金"@ || s == "股票指数"@ || s == "QDII-指数"@ || s == "ETF-场内"@
        || s == "QDII-ETF"@ {
        Some(FundType::Index)
    } else if s == "QDII"@ {
        Some(FundType::QDII)
    } else if s == "股票型"@ || s == "其他创新"@ || s == "股票-FOF"@ {
        Some(FundType::Stock)
    } else if s == "货币型"@ || s == "固定收益"@ || s == "理财型"@ || s == "分级杠杆"@
        || s == "保本型"@ {
        Some(FundType::NotInterested)
    } else {
        None
    }
}

/// Classifies a category label into the closed fund-type set.
///
/// Total over the known labels; every label outside the set fails with a
/// `FieldTypeMismatch` carrying the label, never a default type.
pub fn normalize_fund_type(typ: &str, context: &FetchListContext) -> (r: Result<FundType, Error>)
    ensures
        match fund_type_of(typ@) {
            Some(t) => r == Ok::<FundType, Error>(t),
            None => match r {
                Err(e) => match e {
                    Error::FieldTypeMismatch { field, expected_type, actual, context: c } => {
                        &&& field@ == "cells[3]"@
                        &&& expected_type@ == "fund type enum"@
                        &&& actual@ == typ@
                        &&& c@ == context.spec_message()
                    },
                    _ => false,
                },
                Ok(_) => false,
            },
        },
{
    if str_eq(typ, "混合型") || str_eq(typ, "混合-FOF") {
        Ok(FundType::Mix)
    } else if str_eq(typ, "债券型") || str_eq(typ, "定开债券") || str_eq(typ, "债券指数") {
        Ok(FundType::Bond)
    } else if str_eq(typ, "联接基金") || str_eq(typ, "股票指数") || str_eq(typ, "QDII-指数")
        || str_eq(typ, "ETF-场内") || str_eq(typ, "QDII-ETF") {
        Ok(FundType::Index)
    } else if str_eq(typ, "QDII") {
        Ok(FundType::QDII)
    } else if str_eq(typ, "股票型") || str_eq(typ, "其他创新") || str_eq(typ, "股票-FOF") {
        Ok(FundType::Stock)
    } else if str_eq(typ, "货币型") || str_eq(typ, "固定收益") || str_eq(typ, "理财型")
        || str_eq(typ, "分级杠杆") || str_eq(typ, "保本型") {
        Ok(FundType::NotInterested)
    } else {
        Err(
            Error::FieldTypeMismatch {
                field: String::from_str("cells[3]"),
                expected_type: String::from_str("fund type enum"),
                actual: typ.to_owned(),
                context: context.message(),
            },
        )
    }
}

/// The short name a fund type is stored under.
pub open spec fn type_name_of(t: FundType) -> Seq<char> {
    match t {
        FundType::Mix => "混合"@,
        FundType::Bond => "债券"@,
        FundType::Index => "指数"@,
        FundType::QDII => "QDII"@,
        FundType::Stock => "股票"@,
        FundType::NotInterested => "其他"@,
    }
}

/// The stored short name of a fund type.
pub fn to_type_name(typ: &FundType) -> (r: &'static str)
    ensures
        r@ == type_name_of(*typ),
{
    match typ {
        FundType::Mix => "混合",
        FundType::Bond => "债券",
        FundType::Index => "指数",
        FundType::QDII => "QDII",
        FundType::Stock => "股票",
        FundType::NotInterested => "其他",
    }
}

/// Reads a stored short name back into the enumeration; a name that no fund
/// type is stored under is a `TypeMismatchError`.
pub fn to_type_enum(typ: &str) -> (r: Result<FundType, TypeMismatchError>)
    ensures
        match r {
            Ok(t) => type_name_of(t) == typ@,
            Err(e) => {
                &&& forall|t: FundType| type_name_of(t) != typ@
                &&& e.expected_type@ == "fund type name"@
                &&& e.got@ == typ@
            },
        },
{
    if str_eq(typ, "混合") {
        Ok(FundType::Mix)
    } else if str_eq(typ, "债券") {
        Ok(FundType::Bond)
    } else if str_eq(typ, "指数") {
        Ok(FundType::Index)
    } else if str_eq(typ, "QDII") {
        Ok(FundType::QDII)
    } else if str_eq(typ, "股票") {
        Ok(FundType::Stock)
    } else if str_eq(typ, "其他") {
        Ok(FundType::NotInterested)
    } else {
        proof {
            assert forall|t: FundType| type_name_of(t) != typ@ by {
                match t {
                    FundType::Mix => {},
                    FundType::Bond => {},
                    FundType::Index => {},
                    FundType::QDII => {},
                    FundType::Stock => {},
                    FundType::NotInterested => {},
                }
            }
        }
        Err(
            TypeMismatchError {
                expected_type: String::from_str("fund type name"),
                got: typ.to_owned(),
            },
        )
    }
}

/// What one row of the list denotes: the id, the display name, and the
/// classified type.
pub open spec fn spec_list_item(elem: JsonValue) -> Option<(Seq<char>, Seq<char>, FundType)> {
    match spec_as_array(elem) {
        None => None,
        Some(tup) => if tup.len() != 5 {
            None
        } else {
            match (spec_as_str(tup[0]), spec_as_str(tup[2]), spec_as_str(tup[3])) {
                (Some(id), Some(name), Some(label)) => match fund_type_of(label) {
                    Some(ft) => Some((id, name, ft)),
                    None => None,
                },
                _ => None,
            }
        },
    }
}

/// What a list of rows denotes, row order kept; `None` as soon as one row is
/// malformed.
pub open spec fn spec_list_items(elems: Seq<JsonValue>) -> Option<
    Seq<(Seq<char>, Seq<char>, FundType)>,
>
    decreases elems.len(),
{
    if elems.len() == 0 {
        Some(Seq::empty())
    } else {
        match spec_list_item(elems[0]) {
            None => None,
            Some(v) => match spec_list_items(elems.skip(1)) {
                None => None,
                Some(rest) => Some(seq![v] + rest),
            },
        }
    }
}

/// What a whole raw list response denotes: unwrap the `var r = ` frame,
/// parse the JSON, read the rows.
pub open spec fn spec_extract_fund_list(raw: Seq<char>) -> Option<
    Seq<(Seq<char>, Seq<char>, FundType)>,
> {
    match frame_of(raw, "var r = "@) {
        None => None,
        Some(body) => match json_tree_of(body) {
            None => None,
            Some(t) => match spec_as_array(t) {
                None => None,
                Some(elems) => spec_list_items(elems),
            },
        },
    }
}

/// The denotation of extracted items.
pub open spec fn fund_list_view(items: Seq<FundListItem>) -> Seq<(Seq<char>, Seq<char>, FundType)> {
    items.map(|i: int, it: FundListItem| (it.id@, it.name@, it.typ))
}

spec fn opt_concat<T>(pre: Seq<T>, rest: Option<Seq<T>>) -> Option<Seq<T>> {
    match rest {
        Some(r) => Some(pre + r),
        None => None,
    }
}

/// Extracts the fund list from a raw list response.
///
/// Succeeds exactly on well-formed responses, with the items in row order.
/// A response without the `var r = ` prefix is a `PrefixMismatch`; one whose
/// unwrapped body is not valid JSON is a `MalformedPayload`; one with a
/// malformed or unclassifiable row is a `FieldTypeMismatch`, and the whole
/// response is rejected.
pub fn extract_fund_list(raw_response: &String, context: &FetchListContext) -> (r: Result<
    FundList,
    Error,
>)
    ensures
        match r {
            Ok(items) => spec_extract_fund_list(raw_response@) == Some(fund_list_view(items@)),
            Err(e) => {
                &&& spec_extract_fund_list(raw_response@) is None
                &&& match e {
                    Error::PrefixMismatch { expected_prefix, context: c } => {
                        &&& !has_prefix(raw_response@, "var r = "@)
                        &&& expected_prefix@ == "var r = "@
                        &&& c@ == context.spec_message()
                    },
                    Error::MalformedPayload { context: c } => c@ == context.spec_message(),
                    Error::FieldTypeMismatch { context: c, .. } => c@ == context.spec_message(),
                }
            },
        },
{
    let ctx = context.message();
    let body = match extract_frame(raw_response.as_str(), "var r = ", ctx.as_str()) {
        Ok(b) => b,
        Err(e) => {
            return Err(e);
        },
    };
    let tree = match parse_json_string(&body, ctx.as_str()) {
        Ok(t) => t,
        Err(e) => {
            return Err(e);
        },
    };
    let elems = match deserialize_array(&tree, "root", ctx.as_str()) {
        Ok(a) => a,
        Err(e) => {
            return Err(e);
        },
    };
    let n = elems.len();
    let mut items: FundList = Vec::new();
    let mut i: usize = 0;
    proof {
        assert(elems@.skip(0) =~= elems@);
        assert(opt_concat(fund_list_view(items@), spec_list_items(elems@)) == spec_list_items(
            elems@,
        )) by {
            if spec_list_items(elems@) is Some {
                assert(fund_list_view(items@) + spec_list_items(elems@).unwrap()
                    =~= spec_list_items(elems@).unwrap());
            }
        }
    }
    while i < n
        invariant
            i <= n,
            n == elems@.len(),
            ctx@ == context.spec_message(),
            spec_extract_fund_list(raw_response@) == spec_list_items(elems@),
            spec_list_items(elems@) == opt_concat(
                fund_list_view(items@),
                spec_list_items(elems@.skip(i as int)),
            ),
        decreases n - i,
    {
        let ghost items0 = fund_list_view(items@);
        let ghost rest = elems@.skip(i as int);
        proof {
            assert(rest[0] == elems@[i as int]);
            assert(rest.skip(1) =~= elems@.skip(i + 1));
        }
        let elem = &elems[i];
        let tup = match deserialize_array(elem, "first level item", ctx.as_str()) {
            Ok(a) => a,
            Err(e) => {
                return Err(e);
            },
        };
        if tup.len() != 5 {
            return Err(
                Error::FieldTypeMismatch {
                    field: String::new(),
                    expected_type: String::from_str("arr(len = 5)"),
                    actual: crate::deserializer::repr_of(elem),
                    context: ctx.clone(),
                },
            );
        }
        let id = match deserialize_str(&tup[0], "0(fund-id)", ctx.as_str()) {
            Ok(s) => s,
            Err(e) => {
                return Err(e);
            },
        };
        let name = match deserialize_str(&tup[2], "2(fund-name)", ctx.as_str()) {
            Ok(s) => s,
            Err(e) => {
                return Err(e);
            },
        };
        let label = match deserialize_str(&tup[3], "3(fund-type)", ctx.as_str()) {
            Ok(s) => s,
            Err(e) => {
                return Err(e);
            },
        };
        let typ_enum = match normalize_fund_type(label.as_str(), context) {
            Ok(t) => t,
            Err(e) => {
                return Err(e);
            },
        };
        let ghost expected = spec_list_item(rest[0]).unwrap();
        items.push(FundListItem { id, name, typ: typ_enum });
        i = i + 1;
        proof {
            assert(fund_list_view(items@) =~= items0.push(expected));
            if spec_list_items(elems@.skip(i as int)) is Some {
                let tail = spec_list_items(elems@.skip(i as int)).unwrap();
                assert(spec_list_items(rest) == Some(seq![expected] + tail));
                assert(items0.push(expected) + tail =~= items0 + (seq![expected] + tail));
            }
        }
    }
    proof {
        assert(elems@.skip(n as int) =~= Seq::<JsonValue>::empty());
        assert(spec_list_items(elems@.skip(n as int)) == Some(
            Seq::<(Seq<char>, Seq<char>, FundType)>::empty(),
        ));
        assert(fund_list_view(items@) + Seq::<(Seq<char>, Seq<char>, FundType)>::empty()
            =~= fund_list_view(items@));
    }
    Ok(items)
}

} // verus!
