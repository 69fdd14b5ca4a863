//! The shared product routes: their inventory, their dispatch, and the status scope query.
use vstd::prelude::*;

use crate::host::{method_eq, ExtensionRoute, RequestMethod, PRODUCT_SERVICE_STATUS_PATH};
use crate::product_scope::{is_product_campus, spec_is_product_campus};
use crate::text::{lemma_split_close, lemma_split_extend, lemma_split_finish, lemma_split_init, range_eq, split_on, str_eq};

verus! {

pub const PRODUCT_FILTER_SCHEMA_PATH: &'static str = "/api/v1/query/filter-schema";

pub const PRODUCT_FILTER_OPTIONS_PATH: &'static str = "/api/v1/query/filter-options";

pub const PRODUCT_DYNAMIC_FILTER_VALIDATION_PATH: &'static str = "/api/v1/query/validate-dynamic-filters";

pub const PRODUCT_CATALOG_DISCOVERY_PATH: &'static str = "/api/v1/catalog/discovery";

pub const PRODUCT_COURSE_SEARCH_PATH: &'static str = "/api/v1/query/courses";

pub const PRODUCT_SECTION_SEARCH_PATH: &'static str = "/api/v1/query/sections";

pub const PRODUCT_COURSE_DETAIL_PATH: &'static str = "/api/v1/query/course-detail";

pub const PRODUCT_SECTION_DETAIL_PATH: &'static str = "/api/v1/query/section-detail";

pub const PRODUCT_OPEN_STATUS_PATH: &'static str = "/api/v1/open/status";

pub const PRODUCT_OPEN_SECTION_STATUS_PATH: &'static str = "/api/v1/open/section-status";

/// The operational store's lock could not be taken.
#[derive(Clone, Copy, Debug, Eq, PartialEq)]
pub struct ProductStorageLockError;

/// The shared product routes.
#[derive(Clone, Copy, Debug, Eq, PartialEq, Structural)]
pub enum ProductRoute {
    FilterSchema,
    FilterOptions,
    DynamicFilterValidation,
    CatalogDiscovery,
    CourseSearch,
    SectionSearch,
    CourseDetail,
    SectionDetail,
    OpenStatus,
    OpenSectionStatus,
    ServiceStatus,
}

/// Every product route, in inventory order.
pub open spec fn all_routes() -> Seq<ProductRoute> {
    seq![
        ProductRoute::FilterSchema,
        ProductRoute::FilterOptions,
        ProductRoute::DynamicFilterValidation,
        ProductRoute::CatalogDiscovery,
        ProductRoute::CourseSearch,
        ProductRoute::SectionSearch,
        ProductRoute::CourseDetail,
        ProductRoute::SectionDetail,
        ProductRoute::OpenStatus,
        ProductRoute::OpenSectionStatus,
        ProductRoute::ServiceStatus,
    ]
}

/// The method of each route: reads are GET, everything with a request body is POST.
pub open spec fn route_method(r: ProductRoute) -> RequestMethod {
    match r {
        ProductRoute::FilterSchema | ProductRoute::ServiceStatus => RequestMethod::Get,
        _ => RequestMethod::Post,
    }
}

/// The path of each route.
pub open spec fn route_path(r: ProductRoute) -> Seq<char> {
    match r {
        ProductRoute::FilterSchema => PRODUCT_FILTER_SCHEMA_PATH@,
        ProductRoute::FilterOptions => PRODUCT_FILTER_OPTIONS_PATH@,
        ProductRoute::DynamicFilterValidation => PRODUCT_DYNAMIC_FILTER_VALIDATION_PATH@,
        ProductRoute::CatalogDiscovery => PRODUCT_CATALOG_DISCOVERY_PATH@,
        ProductRoute::CourseSearch => PRODUCT_COURSE_SEARCH_PATH@,
        ProductRoute::SectionSearch => PRODUCT_SECTION_SEARCH_PATH@,
        ProductRoute::CourseDetail => PRODUCT_COURSE_DETAIL_PATH@,
        ProductRoute::SectionDetail => PRODUCT_SECTION_DETAIL_PATH@,
        ProductRoute::OpenStatus => PRODUCT_OPEN_STATUS_PATH@,
        ProductRoute::OpenSectionStatus => PRODUCT_OPEN_SECTION_STATUS_PATH@,
        ProductRoute::ServiceStatus => PRODUCT_SERVICE_STATUS_PATH@,
    }
}

/// The method of a route.
pub fn product_route_method(r: ProductRoute) -> (res: RequestMethod)
    ensures
        res == route_method(r),
{
    match r {
        ProductRoute::FilterSchema | ProductRoute::ServiceStatus => RequestMethod::Get,
        _ => RequestMethod::Post,
    }
}

/// The path of a route.
pub fn product_route_path(r: ProductRoute) -> (res: &'static str)
    ensures
        res@ == route_path(r),
{
    match r {
        ProductRoute::FilterSchema => PRODUCT_FILTER_SCHEMA_PATH,
        ProductRoute::FilterOptions => PRODUCT_FILTER_OPTIONS_PATH,
        ProductRoute::DynamicFilterValidation => PRODUCT_DYNAMIC_FILTER_VALIDATION_PATH,
        ProductRoute::CatalogDiscovery => PRODUCT_CATALOG_DISCOVERY_PATH,
        ProductRoute::CourseSearch => PRODUCT_COURSE_SEARCH_PATH,
        ProductRoute::SectionSearch => PRODUCT_SECTION_SEARCH_PATH,
        ProductRoute::CourseDetail => PRODUCT_COURSE_DETAIL_PATH,
        ProductRoute::SectionDetail => PRODUCT_SECTION_DETAIL_PATH,
        ProductRoute::OpenStatus => PRODUCT_OPEN_STATUS_PATH,
        ProductRoute::OpenSectionStatus => PRODUCT_OPEN_SECTION_STATUS_PATH,
        ProductRoute::ServiceStatus => PRODUCT_SERVICE_STATUS_PATH,
    }
}

/// The route inventory the shared product extension declares, in order.
pub fn shared_product_route_inventory() -> (res: Vec<ExtensionRoute>)
    ensures
        res@.len() == all_routes().len(),
        forall|i: int|
            0 <= i < res@.len() ==> (#[trigger] res@[i]).spec_method() == route_method(all_routes()[i])
                && res@[i].spec_path() == route_path(all_routes()[i]),
{
    let routes = vec![
        ProductRoute::FilterSchema,
        ProductRoute::FilterOptions,
        ProductRoute::DynamicFilterValidation,
        ProductRoute::CatalogDiscovery,
        ProductRoute::CourseSearch,
        ProductRoute::SectionSearch,
        ProductRoute::CourseDetail,
        ProductRoute::SectionDetail,
        ProductRoute::OpenStatus,
        ProductRoute::OpenSectionStatus,
        ProductRoute::ServiceStatus,
    ];
    proof {
        assert(routes@ =~= all_routes());
    }
    let mut res: Vec<ExtensionRoute> = Vec::new();
    let mut i: usize = 0;
    while i < routes.len()
        invariant
            routes@ == all_routes(),
            i <= routes@.len(),
            res@.len() == i,
            forall|j: int|
                0 <= j < i ==> (#[trigger] res@[j]).spec_method() == route_method(all_routes()[j])
                    && res@[j].spec_path() == route_path(all_routes()[j]),
        decreases routes.len() - i,
    {
        let r = routes[i];
        res.push(ExtensionRoute::new(product_route_method(r), product_route_path(r)));
        i = i + 1;
    }
    res
}

/// The route a request names, if any; every other request is answered "not found".
pub fn product_route_for(method: &RequestMethod, path: &str) -> (res: Option<ProductRoute>)
    ensures
        match res {
            Some(r) => method_eq(*method, route_method(r)) && path@ == route_path(r),
            None => forall|r: ProductRoute|
                !(method_eq(*method, route_method(r)) && path@ == route_path(r)),
        },
{
    let routes = vec![
        ProductRoute::FilterSchema,
        ProductRoute::FilterOptions,
        ProductRoute::DynamicFilterValidation,
        ProductRoute::CatalogDiscovery,
        ProductRoute::CourseSearch,
        ProductRoute::SectionSearch,
        ProductRoute::CourseDetail,
        ProductRoute::SectionDetail,
        ProductRoute::OpenStatus,
        ProductRoute::OpenSectionStatus,
        ProductRoute::ServiceStatus,
    ];
    let mut i: usize = 0;
    while i < routes.len()
        invariant
            routes@ == all_routes(),
            i <= routes@.len(),
            forall|j: int|
                0 <= j < i ==> !(method_eq(*method, route_method(#[trigger] routes@[j])) && path@
                    == route_path(routes@[j])),
        decreases routes.len() - i,
    {
        let r = routes[i];
        if method.same_as(&product_route_method(r)) && str_eq(path, product_route_path(r)) {
            return Some(r);
        }
        i = i + 1;
    }
    proof {
        assert forall|r: ProductRoute| !(method_eq(*method, route_method(r)) && path@ == route_path(r)) by {
            let j: int = match r {
                ProductRoute::FilterSchema => 0,
                ProductRoute::FilterOptions => 1,
                ProductRoute::DynamicFilterValidation => 2,
                ProductRoute::CatalogDiscovery => 3,
                ProductRoute::CourseSearch => 4,
                ProductRoute::SectionSearch => 5,
                ProductRoute::CourseDetail => 6,
                ProductRoute::SectionDetail => 7,
                ProductRoute::OpenStatus => 8,
                ProductRoute::OpenSectionStatus => 9,
                ProductRoute::ServiceStatus => 10,
            };
            assert(routes@[j] == r);
        }
    }
    None
}

// ---------------------------------------------------------------------------------------------
// The `activeTerm` / `activeCampus` scope of a service status request.
// ---------------------------------------------------------------------------------------------

/// `i` is the first `=` of `field`.
pub open spec fn is_first_eq(field: Seq<char>, i: int) -> bool {
    0 <= i < field.len() && field[i] == '=' && forall|j: int| 0 <= j < i ==> field[j] != '='
}

/// A field split at its first `=` into name and value.
pub open spec fn split_field(field: Seq<char>) -> Option<(Seq<char>, Seq<char>)> {
    if exists|i: int| is_first_eq(field, i) {
        let i = choose|i: int| is_first_eq(field, i);
        Some((field.subrange(0, i), field.subrange(i + 1, field.len() as int)))
    } else {
        None
    }
}

/// The term and the campuses a scope has named so far; `None` once it is malformed.
pub type ScopeState = Option<(Option<Seq<char>>, Seq<Seq<char>>)>;

/// The scope after one more `&`-separated field. Empty fields are skipped; a field needs a
/// name, an `=`, and a non-empty value without `%` or `+`; `activeTerm` may come once and
/// `activeCampus` any number of times; anything else is malformed.
pub open spec fn scope_step(state: ScopeState, field: Seq<char>) -> ScopeState {
    match state {
        None => None,
        Some((term, campuses)) => if field.len() == 0 {
            state
        } else {
            match split_field(field) {
                None => None,
                Some((name, value)) => if value.len() == 0 || value.contains('%') || value.contains(
                    '+',
                ) {
                    None
                } else if name == "activeTerm"@ && term is None {
                    Some((Some(value), campuses))
                } else if name == "activeCampus"@ {
                    Some((term, campuses.push(value)))
                } else {
                    None
                },
            }
        },
    }
}

/// The scope after all `fields`.
pub open spec fn scope_fold(fields: Seq<Seq<char>>) -> ScopeState
    decreases fields.len(),
{
    if fields.len() == 0 {
        Some((None, Seq::<Seq<char>>::empty()))
    } else {
        scope_step(scope_fold(fields.drop_last()), fields.last())
    }
}

/// The (term, campus) targets a status query names. No query, or one naming neither a term
/// nor a campus, is the unscoped status; a term without campuses, campuses without a term, a
/// malformed field or a campus outside the product is refused.
pub open spec fn spec_status_scope(query: Option<Seq<char>>) -> Result<Seq<(Seq<char>, Seq<char>)>, ()> {
    match query {
        None => Ok(Seq::empty()),
        Some(q) => match scope_fold(split_on(q, '&')) {
            None => Err(()),
            Some((None, campuses)) => if campuses.len() == 0 {
                Ok(Seq::empty())
            } else {
                Err(())
            },
            Some((Some(term), campuses)) => if campuses.len() == 0 {
                Err(())
            } else if forall|i: int| 0 <= i < campuses.len() ==> spec_is_product_campus(#[trigger] campuses[i]) {
                Ok(campuses.map_values(|c: Seq<char>| (term, c)))
            } else {
                Err(())
            },
        },
    }
}

/// The (term, campus) pairs of a list of owned strings.
pub open spec fn pair_chars(pairs: Seq<(String, String)>) -> Seq<(Seq<char>, Seq<char>)> {
    pairs.map_values(|p: (String, String)| (p.0@, p.1@))
}

fn range_contains(s: &str, start: usize, end: usize, c: char) -> (res: bool)
    requires
        start <= end <= s@.len(),
    ensures
        res == s@.subrange(start as int, end as int).contains(c),
{
    let mut i: usize = start;
    while i < end
        invariant
            start <= i <= end <= s@.len(),
            forall|j: int| start <= j < i ==> s@[j] != c,
        decreases end - i,
    {
        if s.get_char(i) == c {
            proof {
                assert(s@.subrange(start as int, end as int)[i - start] == c);
            }
            return true;
        }
        i = i + 1;
    }
    proof {
        if s@.subrange(start as int, end as int).contains(c) {
            let m = choose|m: int| 0 <= m < end - start && s@.subrange(start as int, end as int)[m] == c;
            assert(s@[start + m] == c);
        }
    }
    false
}

/// The first `=` in `s[start..end)`, if any.
fn find_eq(s: &str, start: usize, end: usize) -> (res: Option<usize>)
    requires
        start <= end <= s@.len(),
    ensures
        match res {
            Some(i) => start <= i < end && is_first_eq(s@.subrange(start as int, end as int), i - start),
            None => forall|j: int| start <= j < end ==> s@[j] != '=',
        },
{
    let mut i: usize = start;
    while i < end
        invariant
            start <= i <= end <= s@.len(),
            forall|j: int| start <= j < i ==> s@[j] != '=',
        decreases end - i,
    {
        if s.get_char(i) == '=' {
            proof {
                let f = s@.subrange(start as int, end as int);
                assert forall|j: int| 0 <= j < i - start implies f[j] != '=' by {
                    assert(f[j] == s@[start + j]);
                }
            }
            return Some(i);
        }
        i = i + 1;
    }
    None
}

/// Applies one field `q[start..end)` to the scope being parsed.
fn apply_scope_field(
    q: &str,
    start: usize,
    end: usize,
    failed: &mut bool,
    term: &mut Option<String>,
    campuses: &mut Vec<String>,
)
    requires
        start <= end <= q@.len(),
    ensures
        ({
            let before: ScopeState = if *old(failed) {
                None
            } else {
                Some((opt_string_seq(*old(term)), strings_seq(old(campuses)@)))
            };
            let after: ScopeState = if *final(failed) {
                None
            } else {
                Some((opt_string_seq(*final(term)), strings_seq(final(campuses)@)))
            };
            after == scope_step(before, q@.subrange(start as int, end as int))
        }),
{
    let ghost field = q@.subrange(start as int, end as int);
    if *failed || start == end {
        return;
    }
    let eq = match find_eq(q, start, end) {
        Some(i) => i,
        None => {
            proof {
                assert(!(exists|i: int| is_first_eq(field, i))) by {
                    if exists|i: int| is_first_eq(field, i) {
                        let i = choose|i: int| is_first_eq(field, i);
                        assert(field[i] == q@[start + i]);
                    }
                }
            }
            *failed = true;
            return;
        },
    };
    proof {
        let k = choose|i: int| is_first_eq(field, i);
        let e = eq - start;
        if k < e {
            assert(field[k] == '=');
        } else if k > e {
            assert(field[e] == '=');
        }
        assert(field.subrange(0, e) =~= q@.subrange(start as int, eq as int));
        assert(field.subrange(e + 1, field.len() as int) =~= q@.subrange(eq + 1, end as int));
    }
    let bad_value = eq + 1 == end || range_contains(q, eq + 1, end, '%') || range_contains(
        q,
        eq + 1,
        end,
        '+',
    );
    if bad_value {
        *failed = true;
        return;
    }
    if range_eq(q, start, eq, "activeTerm") && term.is_none() {
        proof {
            reveal_strlit("activeTerm");
        }
        let value = q.substring_char(eq + 1, end).to_string();
        *term = Some(value);
        return;
    }
    proof {
        reveal_strlit("activeTerm");
    }
    if range_eq(q, start, eq, "activeCampus") {
        proof {
            reveal_strlit("activeCampus");
        }
        let value = q.substring_char(eq + 1, end).to_string();
        let ghost before = campuses@;
        campuses.push(value);
        proof {
            assert(strings_seq(campuses@) =~= strings_seq(before).push(q@.subrange(eq + 1, end as int)));
        }
        return;
    }
    proof {
        reveal_strlit("activeCampus");
    }
    *failed = true;
}

/// The characters of an optional owned string.
pub open spec fn opt_string_seq(o: Option<String>) -> Option<Seq<char>> {
    match o {
        Some(s) => Some(s@),
        None => None,
    }
}

/// The characters of each owned string.
pub open spec fn strings_seq(v: Seq<String>) -> Seq<Seq<char>> {
    v.map_values(|s: String| s@)
}

/// Parses the scope of a status request: the (term, campus) pairs it names, or `Err(())` when
/// the query is malformed or names a campus outside the product.
pub fn parse_status_scope(query: Option<&str>) -> (res: Result<Vec<(String, String)>, ()>)
    ensures
        match res {
            Ok(pairs) => spec_status_scope(opt_str_seq(query)) == Ok::<
                Seq<(Seq<char>, Seq<char>)>,
                (),
            >(pair_chars(pairs@)),
            Err(_) => spec_status_scope(opt_str_seq(query)) is Err,
        },
{
    let q = match query {
        Some(q) => q,
        None => {
            let empty: Vec<(String, String)> = Vec::new();
            proof {
                assert(pair_chars(empty@) =~= Seq::empty());
            }
            return Ok(empty);
        },
    };
    let n = q.unicode_len();
    let mut failed = false;
    let mut term: Option<String> = None;
    let mut campuses: Vec<String> = Vec::new();
    let mut i: usize = 0;
    let mut start: usize = 0;
    let ghost mut done: Seq<Seq<char>> = Seq::empty();
    proof {
        lemma_split_init(q@, '&');
        assert(strings_seq(campuses@) =~= Seq::<Seq<char>>::empty());
    }
    while i < n
        invariant
            n == q@.len(),
            start <= i <= n,
            split_on(q@.subrange(0, i as int), '&') == done.push(q@.subrange(start as int, i as int)),
            scope_fold(done) == (if failed {
                None
            } else {
                Some((opt_string_seq(term), strings_seq(campuses@)))
            }),
        decreases n - i,
    {
        if q.get_char(i) == '&' {
            proof {
                lemma_split_close(q@, start as int, i as int, done, '&');
            }
            apply_scope_field(q, start, i, &mut failed, &mut term, &mut campuses);
            proof {
                let field = q@.subrange(start as int, i as int);
                assert(done.push(field).drop_last() =~= done);
                done = done.push(field);
            }
            start = i + 1;
        } else {
            proof {
                lemma_split_extend(q@, start as int, i as int, done, '&');
            }
        }
        i = i + 1;
    }
    proof {
        lemma_split_finish(q@, start as int, done, '&');
    }
    apply_scope_field(q, start, n, &mut failed, &mut term, &mut campuses);
    proof {
        let field = q@.subrange(start as int, n as int);
        assert(done.push(field).drop_last() =~= done);
        done = done.push(field);
    }
    if failed {
        return Err(());
    }
    let t = match term {
        Some(t) => t,
        None => {
            if campuses.len() == 0 {
                let empty: Vec<(String, String)> = Vec::new();
                proof {
                    assert(pair_chars(empty@) =~= Seq::empty());
                }
                return Ok(empty);
            }
            return Err(());
        },
    };
    if campuses.len() == 0 {
        return Err(());
    }
    let mut pairs: Vec<(String, String)> = Vec::new();
    let mut j: usize = 0;
    while j < campuses.len()
        invariant
            j <= campuses@.len(),
            query == Some(q),
            campuses@.len() > 0,
            scope_fold(split_on(q@, '&')) == Some((Some(t@), strings_seq(campuses@))),
            forall|m: int| 0 <= m < j ==> spec_is_product_campus((#[trigger] campuses@[m])@),
            pair_chars(pairs@) == strings_seq(campuses@).subrange(0, j as int).map_values(
                |c: Seq<char>| (t@, c),
            ),
        decreases campuses.len() - j,
    {
        if !is_product_campus(campuses[j].as_str()) {
            proof {
                assert(strings_seq(campuses@)[j as int] == campuses@[j as int]@);
            }
            return Err(());
        }
        let ghost before = pairs@;
        pairs.push((t.clone(), campuses[j].clone()));
        proof {
            assert(pair_chars(pairs@) =~= strings_seq(campuses@).subrange(0, j + 1).map_values(
                |c: Seq<char>| (t@, c),
            )) by {
                assert(pair_chars(pairs@) =~= pair_chars(before).push((t@, campuses@[j as int]@)));
            }
        }
        j = j + 1;
    }
    proof {
        assert(strings_seq(campuses@).subrange(0, campuses@.len() as int) =~= strings_seq(campuses@));
        assert forall|m: int| 0 <= m < strings_seq(campuses@).len() implies spec_is_product_campus(
            #[trigger] strings_seq(campuses@)[m],
        ) by {
            assert(strings_seq(campuses@)[m] == campuses@[m]@);
        }
    }
    Ok(pairs)
}

/// The characters of an optional string slice.
pub open spec fn opt_str_seq(o: Option<&str>) -> Option<Seq<char>> {
    match o {
        Some(s) => Some(s@),
        None => None,
    }
}

} // verus!
