//! The upstream fund-data service: URL construction, fetching through the
//! HTTP port, and normalization of what comes back.
//!
//! What the port returns is outside the library's control, so the fetching
//! functions promise only what holds of every outcome: whatever body came
//! back was pushed through the verified extraction pipeline, and every
//! success is a well-formed extraction result.

use vstd::prelude::*;
use crate::context::{Context, FetchListContext, FetchValueContext};
use crate::errors::Error;
use crate::fund_list_model::{extract_fund_list, spec_extract_fund_list, fund_list_view, FundList};
use crate::fund_value_model::{
    extract_fund_values, model_view, spec_extract_fund_value, FundValueData, FundValueModel,
};
use crate::http::{CanGetHTTP, HttpService};
use crate::pagination::{merge_pages, pages_view, spec_merge};
use crate::strutil::{dec_digits, usize_to_string};

verus! {

/// The URL of one page of a fund's net-value history.
pub open spec fn value_url_of(id: Seq<char>, page: nat) -> Seq<char> {
    "http://fund.eastmoney.com/f10/F10DataApi.aspx?type=lsjz&code="@ + id + "&page="@ + dec_digits(
        page,
    ) + "&per=20"@
}

/// Builds the URL of one page of a fund's net-value history.
pub fn build_value_url(id: &str, page: usize) -> (r: String)
    ensures
        r@ == value_url_of(id@, page as nat),
{
    let mut r = String::from_str(
        "http://fund.eastmoney.com/f10/F10DataApi.aspx?type=lsjz&code=",
    );
    r.append(id);
    r.append("&page=");
    let page_text = usize_to_string(page);
    r.append(page_text.as_str());
    r.append("&per=20");
    proof {
        reveal_strlit("http://fund.eastmoney.com/f10/F10DataApi.aspx?type=lsjz&code=");
        reveal_strlit("&page=");
        reveal_strlit("&per=20");
        assert(r@ =~= value_url_of(id@, page as nat));
    }
    r
}

/// The upstream service, over whatever transport the port supplies.
pub struct EastMoneyService<'a, H: CanGetHTTP> {
    pub http_service: &'a H,
}

impl<'a, H: CanGetHTTP> EastMoneyService<'a, H> {
    pub fn new(http_service: &'a H) -> (r: EastMoneyService<'a, H>) {
        EastMoneyService { http_service }
    }

    /// Fetches and extracts one page of a fund's value history.
    ///
    /// Every success is the extraction of some response body; a transport
    /// failure is a `MalformedPayload` naming the URL.
    pub fn fetch_value(&self, id: &str, page: usize) -> (r: Result<FundValueModel, Error>)
        ensures
            r matches Ok(m) ==> exists|raw: Seq<char>|
                #[trigger] spec_extract_fund_value(raw) == Some(model_view(m)),
    {
        let url = build_value_url(id, page);
        let context = FetchValueContext { id: id.to_owned(), page };
        match self.http_service.get(url.as_str()) {
            Ok(result) => {
                let r = extract_fund_values(&result, &context);
                proof {
                    if r is Ok {
                        let m = r->Ok_0;
                        assert(spec_extract_fund_value(result@) == Some(model_view(m)));
                    }
                }
                r
            },
            Err(_) => {
                let mut msg = String::from_str("failed to fetch url ");
                msg.append(url.as_str());
                Err(Error::MalformedPayload { context: msg })
            },
        }
    }

    /// Fetches and extracts the fund list.
    ///
    /// Every success is the extraction of some response body; a transport
    /// failure is a `MalformedPayload`.
    pub fn fetch_list(&self) -> (r: Result<FundList, Error>)
        ensures
            r matches Ok(items) ==> exists|raw: Seq<char>|
                #[trigger] spec_extract_fund_list(raw) == Some(fund_list_view(items@)),
    {
        let context = FetchListContext {  };
        match self.http_service.get("http://fund.eastmoney.com/js/fundcode_search.js") {
            Ok(result) => {
                let r = extract_fund_list(&result, &context);
                proof {
                    if r is Ok {
                        let items = r->Ok_0;
                        assert(spec_extract_fund_list(result@) == Some(fund_list_view(items@)));
                    }
                }
                r
            },
            Err(_) => {
                Err(
                    Error::MalformedPayload {
                        context: String::from_str("failed to fetch list"),
                    },
                )
            },
        }
    }
}

/// The services a fetching command works with.
pub struct Services<'a, H: CanGetHTTP> {
    pub http_service: &'a HttpService,
    pub east_money_service: &'a EastMoneyService<'a, H>,
}

/// Fetches every page of a fund's value history and merges the pages'
/// records in ascending page order.
///
/// Page 1 is fetched first to learn the total page count, then each
/// remaining page; the merge is by page index, never by completion order
/// (see [`crate::pagination::lemma_merge_completion_order_independent`]).
/// Every record of a success came out of the verified page extraction.
pub fn fetch_all_fund_values<'a, H: CanGetHTTP>(
    east_money_service: &EastMoneyService<'a, H>,
    id: &str,
) -> (r: Result<Vec<FundValueData>, Error>)
    ensures
        r matches Ok(vs) ==> exists|pages_data: Seq<(u64, Seq<FundValueData>)>|
            vs@ == #[trigger] spec_merge(pages_data),
{
    let first = match east_money_service.fetch_value(id, 1) {
        Ok(m) => m,
        Err(e) => {
            return Err(e);
        },
    };
    let total = first.pages;
    let mut collected: Vec<(u64, Vec<FundValueData>)> = Vec::new();
    collected.push((1, first.values));
    let mut page: u64 = 2;
    while page <= total
        invariant
            2 <= page,
        decreases total + 1 - page,
    {
        if page > usize::MAX as u64 {
            return Err(
                Error::MalformedPayload {
                    context: String::from_str("page count beyond addressable range"),
                },
            );
        }
        let model = match east_money_service.fetch_value(id, page as usize) {
            Ok(m) => m,
            Err(e) => {
                return Err(e);
            },
        };
        collected.push((page, model.values));
        if page == u64::MAX {
            return Err(
                Error::MalformedPayload {
                    context: String::from_str("page count beyond addressable range"),
                },
            );
        }
        page = page + 1;
    }
    let ghost collected_pages = pages_view(collected@);
    let merged = merge_pages(collected);
    proof {
        assert(merged@ == spec_merge(collected_pages));
    }
    Ok(merged)
}

} // verus!
