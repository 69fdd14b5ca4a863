//! Filter options served from prepared per-target dictionaries: the listing of each field,
//! the keyword sources, and the merge of several targets under a query.
use vstd::prelude::*;

use crate::filter_options::{
    catalog_candidates, catalog_options_of, keyword_candidates, keyword_options_of,
    CatalogOptionFacts, KeywordOptionSource, flat_map, lemma_insert_all_append, lemma_insert_all_single, lists_every, lists_in_order,
    query_view, spec_insert_all, FilterOption, FilterOptionsField, OptionDictionary,
};
use crate::filter_options::{
    lemma_flat_map_congruence, lemma_listing_is_unique, option_key, VariantOptionFacts,
};
use crate::option_text::{
    ascii_lowercase, ascii_upper, contains_seq, str_contains, to_ascii_lowercase,
    to_ascii_uppercase, to_lowercase, unicode_lowercase,
};
use crate::publication::PreparedServingError;
use crate::target::{TargetMap, TermCampusKey};
use crate::text::str_eq;

verus! {

/// The prepared dictionary of one target: each field's options in listing order, and the
/// keyword values of its full-text index and of its course identifiers.
pub struct PreparedTargetOptions {
    pub target: TermCampusKey,
    pub options: Vec<(FilterOptionsField, Vec<FilterOption>)>,
    pub keyword_fts_values: Vec<String>,
    pub keyword_identifier_values: Vec<String>,
    /// For each dynamic filter field, the normalized values a request may select.
    pub dynamic_values: Vec<(DynamicFilterField, Vec<String>)>,
}

/// The filter fields whose selectable values depend on the published Catalogs.
#[derive(Clone, Copy, Debug, Eq, PartialEq, Structural)]
pub enum DynamicFilterField {
    CourseText,
    CourseSubject,
    CourseCoreCode,
    CourseLevel,
    CourseNumberBand,
    SectionInstructor,
    SectionMeetingLocation,
    SectionExam,
}

/// How a dynamic value is compared. Subject codes are compared exactly, core codes in ASCII
/// uppercase, course text in ASCII lowercase, and every other field in Unicode lowercase.
pub open spec fn spec_normalize_dynamic_value(field: DynamicFilterField, value: Seq<char>) -> Seq<char> {
    match field {
        DynamicFilterField::CourseSubject => value,
        DynamicFilterField::CourseCoreCode => ascii_upper(value),
        DynamicFilterField::CourseText => ascii_lowercase(value),
        _ => unicode_lowercase(value),
    }
}

/// The normalized form of a dynamic value.
pub fn normalize_dynamic_value(field: DynamicFilterField, value: &str) -> (res: String)
    ensures
        res@ == spec_normalize_dynamic_value(field, value@),
{
    match field {
        DynamicFilterField::CourseSubject => value.to_string(),
        DynamicFilterField::CourseCoreCode => to_ascii_uppercase(value),
        DynamicFilterField::CourseText => to_ascii_lowercase(value),
        _ => to_lowercase(value),
    }
}

/// Whether one of `values` is `s`.
pub open spec fn strings_contain(values: Seq<String>, s: Seq<char>) -> bool {
    exists|i: int| 0 <= i < values.len() && (#[trigger] values[i])@ == s
}

/// Whether `ds` holds a dictionary for target `t`.
pub open spec fn has_dictionary(ds: Seq<PreparedTargetOptions>, t: (Seq<char>, Seq<char>)) -> bool {
    exists|i: int| 0 <= i < ds.len() && (#[trigger] ds[i]).target.spec_key() == t
}

/// The first dictionary for target `t`.
pub open spec fn dictionary_of(ds: Seq<PreparedTargetOptions>, t: (Seq<char>, Seq<char>)) -> PreparedTargetOptions {
    ds[choose|i: int|
        0 <= i < ds.len() && (#[trigger] ds[i]).target.spec_key() == t && forall|j: int|
            0 <= j < i ==> (#[trigger] ds[j]).target.spec_key() != t]
}

/// Whether a dictionary lists the field.
pub open spec fn has_field(options: Seq<(FilterOptionsField, Vec<FilterOption>)>, f: FilterOptionsField) -> bool {
    exists|i: int| 0 <= i < options.len() && (#[trigger] options[i]).0 == f
}

/// The first listing of the field.
pub open spec fn field_listing(
    options: Seq<(FilterOptionsField, Vec<FilterOption>)>,
    f: FilterOptionsField,
) -> Seq<FilterOption> {
    options[choose|i: int|
        0 <= i < options.len() && (#[trigger] options[i]).0 == f && forall|j: int|
            0 <= j < i ==> (#[trigger] options[j]).0 != f].1@
}

/// A target whose dictionary and field listing are both there.
pub open spec fn target_ready(
    ds: Seq<PreparedTargetOptions>,
    t: (Seq<char>, Seq<char>),
    f: FilterOptionsField,
) -> bool {
    has_dictionary(ds, t) && has_field(dictionary_of(ds, t).options@, f)
}

/// The query applies to keywords and instructors only.
pub open spec fn effective_query(f: FilterOptionsField, query: Option<Seq<char>>) -> Option<Seq<char>> {
    if f == FilterOptionsField::Keyword || f == FilterOptionsField::Instructor {
        query
    } else {
        None
    }
}

/// Whether a prepared option answers the query. A keyword from the full-text index matches
/// in ASCII lowercase, a course identifier in Unicode lowercase; an instructor matches by
/// value or label.
pub open spec fn prepared_option_kept(
    d: PreparedTargetOptions,
    f: FilterOptionsField,
    query: Option<Seq<char>>,
    o: (Seq<char>, Seq<char>),
) -> bool {
    match effective_query(f, query) {
        None => true,
        Some(q) => if f == FilterOptionsField::Keyword {
            (strings_contain(d.keyword_fts_values@, o.0) && contains_seq(
                ascii_lowercase(o.0),
                ascii_lowercase(q),
            )) || (strings_contain(d.keyword_identifier_values@, o.0) && contains_seq(
                unicode_lowercase(o.0),
                unicode_lowercase(q),
            ))
        } else {
            contains_seq(unicode_lowercase(o.0), unicode_lowercase(q)) || contains_seq(
                unicode_lowercase(o.1),
                unicode_lowercase(q),
            )
        },
    }
}

/// The options one target contributes, in its listing order.
pub open spec fn target_candidates(
    d: PreparedTargetOptions,
    f: FilterOptionsField,
    query: Option<Seq<char>>,
) -> Seq<(Seq<char>, Seq<char>)> {
    flat_map(
        field_listing(d.options@, f),
        |o: FilterOption|
            if prepared_option_kept(d, f, query, o@) {
                seq![o@]
            } else {
                Seq::empty()
            },
    )
}

/// The options of several targets, in order.
pub open spec fn targets_candidates(
    ds: Seq<PreparedTargetOptions>,
    targets: Seq<TermCampusKey>,
    f: FilterOptionsField,
    query: Option<Seq<char>>,
) -> Seq<(Seq<char>, Seq<char>)> {
    flat_map(
        targets,
        |t: TermCampusKey| target_candidates(dictionary_of(ds, t.spec_key()), f, query),
    )
}

/// The index of the first dictionary for `t`, if any.
fn find_dictionary(ds: &Vec<PreparedTargetOptions>, t: &TermCampusKey) -> (res: Option<usize>)
    ensures
        match res {
            Some(i) => i < ds@.len() && has_dictionary(ds@, t.spec_key()) && dictionary_of(
                ds@,
                t.spec_key(),
            ) == ds@[i as int],
            None => !has_dictionary(ds@, t.spec_key()),
        },
{
    let mut i: usize = 0;
    while i < ds.len()
        invariant
            i <= ds@.len(),
            forall|j: int| 0 <= j < i ==> (#[trigger] ds@[j]).target.spec_key() != t.spec_key(),
        decreases ds.len() - i,
    {
        if ds[i].target.same_as(t) {
            proof {
                let k = choose|k: int|
                    0 <= k < ds@.len() && (#[trigger] ds@[k]).target.spec_key() == t.spec_key()
                        && forall|j: int| 0 <= j < k ==> (#[trigger] ds@[j]).target.spec_key() != t.spec_key();
                assert(k == i as int) by {
                    if k < i {
                    } else if k > i {
                        assert(ds@[i as int].target.spec_key() == t.spec_key());
                    }
                }
            }
            return Some(i);
        }
        i = i + 1;
    }
    None
}

/// The index of the first listing of `f`, if any.
fn find_field(options: &Vec<(FilterOptionsField, Vec<FilterOption>)>, f: FilterOptionsField) -> (res:
    Option<usize>)
    ensures
        match res {
            Some(i) => i < options@.len() && has_field(options@, f) && field_listing(options@, f)
                == options@[i as int].1@,
            None => !has_field(options@, f),
        },
{
    let mut i: usize = 0;
    while i < options.len()
        invariant
            i <= options@.len(),
            forall|j: int| 0 <= j < i ==> (#[trigger] options@[j]).0 != f,
        decreases options.len() - i,
    {
        if options[i].0 == f {
            proof {
                let k = choose|k: int|
                    0 <= k < options@.len() && (#[trigger] options@[k]).0 == f && forall|j: int|
                        0 <= j < k ==> (#[trigger] options@[j]).0 != f;
                assert(k == i as int) by {
                    if k > i {
                        assert(options@[i as int].0 == f);
                    }
                }
            }
            return Some(i);
        }
        i = i + 1;
    }
    None
}

/// Whether one of `values` is `s`.
fn strings_contain_exec(values: &Vec<String>, s: &str) -> (res: bool)
    ensures
        res == strings_contain(values@, s@),
{
    let mut i: usize = 0;
    while i < values.len()
        invariant
            i <= values@.len(),
            forall|j: int| 0 <= j < i ==> (#[trigger] values@[j])@ != s@,
        decreases values.len() - i,
    {
        if str_eq(values[i].as_str(), s) {
            return true;
        }
        i = i + 1;
    }
    false
}


/// Whether a prepared option answers the query.
fn prepared_option_kept_exec(
    d: &PreparedTargetOptions,
    f: FilterOptionsField,
    query: Option<&str>,
    o: &FilterOption,
) -> (res: bool)
    ensures
        res == prepared_option_kept(*d, f, query_view(query), o@),
{
    let q = if f == FilterOptionsField::Keyword || f == FilterOptionsField::Instructor {
        query
    } else {
        None
    };
    match q {
        None => true,
        Some(q) => {
            if f == FilterOptionsField::Keyword {
                let fts = strings_contain_exec(&d.keyword_fts_values, o.value.as_str()) && {
                    let v = to_ascii_lowercase(o.value.as_str());
                    let l = to_ascii_lowercase(q);
                    str_contains(v.as_str(), l.as_str())
                };
                fts || (strings_contain_exec(&d.keyword_identifier_values, o.value.as_str()) && {
                    let v = to_lowercase(o.value.as_str());
                    let l = to_lowercase(q);
                    str_contains(v.as_str(), l.as_str())
                })
            } else {
                let l = to_lowercase(q);
                let v = to_lowercase(o.value.as_str());
                str_contains(v.as_str(), l.as_str()) || {
                    let b = to_lowercase(o.label.as_str());
                    str_contains(b.as_str(), l.as_str())
                }
            }
        },
    }
}

/// Adds the options of one target's listing that answer the query.
fn insert_target_options(
    dict: &mut OptionDictionary,
    d: &PreparedTargetOptions,
    listing: &Vec<FilterOption>,
    f: FilterOptionsField,
    query: Option<&str>,
)
    requires
        old(dict).wf(),
    ensures
        final(dict).wf(),
        final(dict)@ == spec_insert_all(
            old(dict)@,
            flat_map(
                listing@,
                |o: FilterOption|
                    if prepared_option_kept(*d, f, query_view(query), o@) {
                        seq![o@]
                    } else {
                        Seq::empty()
                    },
            ),
        ),
{
    let ghost start = dict@;
    let ghost q = query_view(query);
    let ghost g = |o: FilterOption|
        if prepared_option_kept(*d, f, q, o@) {
            seq![o@]
        } else {
            Seq::<(Seq<char>, Seq<char>)>::empty()
        };
    let mut i: usize = 0;
    while i < listing.len()
        invariant
            i <= listing@.len(),
            q == query_view(query),
            g == (|o: FilterOption|
                if prepared_option_kept(*d, f, q, o@) {
                    seq![o@]
                } else {
                    Seq::<(Seq<char>, Seq<char>)>::empty()
                }),
            dict.wf(),
            dict@ == spec_insert_all(start, flat_map(listing@.subrange(0, i as int), g)),
        decreases listing.len() - i,
    {
        let ghost before = dict@;
        let o = &listing[i];
        if prepared_option_kept_exec(d, f, query, o) {
            dict.insert_option(o.value.clone(), o.label.clone());
            proof {
                lemma_insert_all_single(before, o.value@, o.label@);
            }
        }
        proof {
            let sub = listing@.subrange(0, i + 1);
            assert(sub.drop_last() =~= listing@.subrange(0, i as int));
            assert(sub.last() == listing@[i as int]);
            assert(flat_map(sub, g) == flat_map(listing@.subrange(0, i as int), g) + g(listing@[i as int]));
            lemma_insert_all_append(start, flat_map(listing@.subrange(0, i as int), g), g(listing@[i as int]));
        }
        i = i + 1;
    }
    proof {
        assert(listing@.subrange(0, listing@.len() as int) =~= listing@);
    }
}

/// Every target before index `i` is ready.
pub open spec fn ready_before(
    ds: Seq<PreparedTargetOptions>,
    targets: Seq<TermCampusKey>,
    f: FilterOptionsField,
    i: int,
) -> bool {
    forall|j: int| 0 <= j < i ==> target_ready(ds, (#[trigger] targets[j]).spec_key(), f)
}

/// The error of a target that is not ready.
pub open spec fn unready_error(
    ds: Seq<PreparedTargetOptions>,
    t: TermCampusKey,
    e: PreparedServingError,
) -> bool {
    if has_dictionary(ds, t.spec_key()) {
        e == PreparedServingError::PreparedDictionaryUnavailable
    } else {
        match e {
            PreparedServingError::TargetNotPrepared(k) => k.spec_key() == t.spec_key(),
            _ => false,
        }
    }
}

/// The options of a field over the given targets' prepared dictionaries, merged one per
/// case-insensitive value and listed in order. The query narrows keywords and instructors
/// only. The first target without a dictionary, or whose dictionary lacks the field, fails.
pub fn prepared_filter_options(
    dictionaries: &Vec<PreparedTargetOptions>,
    targets: &Vec<TermCampusKey>,
    field: FilterOptionsField,
    query: Option<&str>,
) -> (res: Result<Vec<FilterOption>, PreparedServingError>)
    ensures
        ready_before(dictionaries@, targets@, field, targets@.len() as int) <==> res is Ok,
        match res {
            Ok(v) => {
                let merged = spec_insert_all(
                    Map::empty(),
                    targets_candidates(dictionaries@, targets@, field, query_view(query)),
                );
                lists_in_order(merged, field, crate::filter_options::options_view(v@))
                    && lists_every(merged, crate::filter_options::options_view(v@))
            },
            Err(e) => exists|i: int|
                0 <= i < targets@.len() && ready_before(dictionaries@, targets@, field, i)
                    && !target_ready(dictionaries@, (#[trigger] targets@[i]).spec_key(), field)
                    && unready_error(dictionaries@, targets@[i], e),
        },
{
    let ghost q = query_view(query);
    let ghost ds = dictionaries@;
    let mut merged = OptionDictionary::new();
    let mut i: usize = 0;
    while i < targets.len()
        invariant
            i <= targets@.len(),
            q == query_view(query),
            ds == dictionaries@,
            merged.wf(),
            ready_before(ds, targets@, field, i as int),
            merged@ == spec_insert_all(
                Map::empty(),
                targets_candidates(ds, targets@.subrange(0, i as int), field, q),
            ),
        decreases targets.len() - i,
    {
        let t = &targets[i];
        let di = match find_dictionary(dictionaries, t) {
            Some(di) => di,
            None => {
                return Err(PreparedServingError::TargetNotPrepared(t.copied()));
            },
        };
        let d = &dictionaries[di];
        let fi = match find_field(&d.options, field) {
            Some(fi) => fi,
            None => {
                return Err(PreparedServingError::PreparedDictionaryUnavailable);
            },
        };
        let ghost mid = merged@;
        insert_target_options(&mut merged, d, &d.options[fi].1, field, query);
        proof {
            let sub = targets@.subrange(0, i + 1);
            assert(sub.drop_last() =~= targets@.subrange(0, i as int));
            assert(sub.last() == targets@[i as int]);
            let h = |t: TermCampusKey| target_candidates(dictionary_of(ds, t.spec_key()), field, q);
            assert(flat_map(sub, h) == flat_map(targets@.subrange(0, i as int), h) + h(targets@[i as int]));
            lemma_insert_all_append(
                Map::empty(),
                targets_candidates(ds, targets@.subrange(0, i as int), field, q),
                target_candidates(ds[di as int], field, q),
            );
            assert(ready_before(ds, targets@, field, i + 1)) by {
                assert forall|j: int| 0 <= j < i + 1 implies target_ready(ds, (#[trigger] targets@[j]).spec_key(), field) by {
                    if j == i {
                        assert(has_field(ds[di as int].options@, field));
                    }
                }
            }
        }
        i = i + 1;
    }
    proof {
        assert(targets@.subrange(0, targets@.len() as int) =~= targets@);
    }
    Ok(merged.into_listing(field))
}


/// The dictionary a prepared field is listed from: keywords from the index terms and course
/// identifiers, every other field from the Catalog.
pub open spec fn prepared_field_dictionary(
    catalog: CatalogOptionFacts,
    keywords: KeywordOptionSource,
    field: FilterOptionsField,
) -> Map<Seq<char>, (Seq<char>, Seq<char>)> {
    if field == FilterOptionsField::Keyword {
        spec_insert_all(Map::empty(), keyword_candidates(keywords, None))
    } else {
        spec_insert_all(Map::empty(), catalog_candidates(catalog, field, None))
    }
}

/// The fields a prepared dictionary lists, in order.
pub open spec fn prepared_fields() -> Seq<FilterOptionsField> {
    seq![
        FilterOptionsField::Keyword,
        FilterOptionsField::CourseNumberBand,
        FilterOptionsField::CourseLevel,
        FilterOptionsField::Instructor,
        FilterOptionsField::MeetingLocation,
        FilterOptionsField::ExamCode,
    ]
}

/// The listing of one prepared field.
fn prepared_field_options(
    catalog: &CatalogOptionFacts,
    keywords: &KeywordOptionSource,
    field: FilterOptionsField,
) -> (res: Vec<FilterOption>)
    ensures
        lists_in_order(
            prepared_field_dictionary(*catalog, *keywords, field),
            field,
            crate::filter_options::options_view(res@),
        ),
        lists_every(
            prepared_field_dictionary(*catalog, *keywords, field),
            crate::filter_options::options_view(res@),
        ),
{
    let dict = if field == FilterOptionsField::Keyword {
        keyword_options_of(keywords)
    } else {
        catalog_options_of(catalog, field)
    };
    dict.into_listing(field)
}

/// The prepared dictionary of one target: every field listed in order from its Catalog and
/// keyword sources, and the keyword sources kept for query matching.
pub fn prepare_target_options(
    target: TermCampusKey,
    catalog: &CatalogOptionFacts,
    keywords: KeywordOptionSource,
) -> (res: PreparedTargetOptions)
    ensures
        res.target == target,
        res.keyword_fts_values@ == keywords.fts_terms@,
        res.keyword_identifier_values@ == keywords.course_identifiers@,
        res.dynamic_values@.len() == dynamic_fields().len(),
        forall|i: int|
            0 <= i < res.dynamic_values@.len() ==> dynamic_entry_ok(
                *catalog,
                keywords,
                #[trigger] res.dynamic_values@[i],
                dynamic_fields()[i],
            ),
        res.options@.len() == prepared_fields().len(),
        forall|i: int|
            0 <= i < res.options@.len() ==> {
                let (f, listing) = #[trigger] res.options@[i];
                &&& f == prepared_fields()[i]
                &&& lists_in_order(
                    prepared_field_dictionary(*catalog, keywords, f),
                    f,
                    crate::filter_options::options_view(listing@),
                )
                &&& lists_every(
                    prepared_field_dictionary(*catalog, keywords, f),
                    crate::filter_options::options_view(listing@),
                )
            },
{
    let mut options: Vec<(FilterOptionsField, Vec<FilterOption>)> = Vec::new();
    let fields = [
        FilterOptionsField::Keyword,
        FilterOptionsField::CourseNumberBand,
        FilterOptionsField::CourseLevel,
        FilterOptionsField::Instructor,
        FilterOptionsField::MeetingLocation,
        FilterOptionsField::ExamCode,
    ];
    let mut i: usize = 0;
    while i < 6
        invariant
            i <= 6,
            fields@ == prepared_fields(),
            options@.len() == i,
            forall|j: int|
                0 <= j < i ==> {
                    let (f, listing) = #[trigger] options@[j];
                    &&& f == prepared_fields()[j]
                    &&& lists_in_order(
                        prepared_field_dictionary(*catalog, keywords, f),
                        f,
                        crate::filter_options::options_view(listing@),
                    )
                    &&& lists_every(
                        prepared_field_dictionary(*catalog, keywords, f),
                        crate::filter_options::options_view(listing@),
                    )
                },
        decreases 6 - i,
    {
        let field = fields[i];
        let listing = prepared_field_options(catalog, &keywords, field);
        options.push((field, listing));
        i = i + 1;
    }
    let dynamic_values = prepared_dynamic_values(catalog, &keywords, &options);
    PreparedTargetOptions {
        target,
        options,
        keyword_fts_values: keywords.fts_terms,
        keyword_identifier_values: keywords.course_identifiers,
        dynamic_values,
    }
}

/// The options field whose values a dynamic field selects from, where there is one.
pub open spec fn option_field_of(field: DynamicFilterField) -> Option<FilterOptionsField> {
    match field {
        DynamicFilterField::CourseNumberBand => Some(FilterOptionsField::CourseNumberBand),
        DynamicFilterField::CourseLevel => Some(FilterOptionsField::CourseLevel),
        DynamicFilterField::SectionInstructor => Some(FilterOptionsField::Instructor),
        DynamicFilterField::SectionMeetingLocation => Some(FilterOptionsField::MeetingLocation),
        DynamicFilterField::SectionExam => Some(FilterOptionsField::ExamCode),
        _ => None,
    }
}

/// Whether some variant has the subject code `x`.
pub open spec fn has_subject(variants: Seq<VariantOptionFacts>, x: Seq<char>) -> bool {
    exists|i: int|
        0 <= i < variants.len() && (#[trigger] variants[i]).subject_code is Some
            && variants[i].subject_code->0@ == x
}

/// Whether some variant has a core code whose ASCII uppercase form is `x`.
pub open spec fn has_core_code(variants: Seq<VariantOptionFacts>, x: Seq<char>) -> bool {
    exists|i: int, j: int|
        0 <= i < variants.len() && (#[trigger] variants[i]).core_codes is Some && 0 <= j
            < variants[i].core_codes->0@.len() && ascii_upper(
            (#[trigger] variants[i].core_codes->0@[j])@,
        ) == x
}

/// Whether some string of `values` normalizes to `x` under `field`.
pub open spec fn some_normalizes_to(values: Seq<String>, field: DynamicFilterField, x: Seq<char>) -> bool {
    exists|i: int| 0 <= i < values.len() && spec_normalize_dynamic_value(field, (#[trigger] values[i])@) == x
}

/// The selectable values of a dynamic field for one target: course text from the index terms
/// and course identifiers, subjects and core codes from the variants, and every other field
/// from the values of its options.
pub open spec fn spec_dynamic_value(
    catalog: CatalogOptionFacts,
    keywords: KeywordOptionSource,
    field: DynamicFilterField,
    x: Seq<char>,
) -> bool {
    match field {
        DynamicFilterField::CourseText => some_normalizes_to(keywords.fts_terms@, field, x)
            || some_normalizes_to(keywords.course_identifiers@, field, x),
        DynamicFilterField::CourseSubject => has_subject(catalog.variants@, x),
        DynamicFilterField::CourseCoreCode => has_core_code(catalog.variants@, x),
        _ => {
            let m = prepared_field_dictionary(catalog, keywords, option_field_of(field)->0);
            exists|k: Seq<char>|
                #[trigger] m.contains_key(k) && spec_normalize_dynamic_value(field, m[k].0) == x
        },
    }
}

/// The dynamic fields a prepared dictionary holds, in order.
pub open spec fn dynamic_fields() -> Seq<DynamicFilterField> {
    seq![
        DynamicFilterField::CourseText,
        DynamicFilterField::CourseNumberBand,
        DynamicFilterField::CourseLevel,
        DynamicFilterField::SectionInstructor,
        DynamicFilterField::SectionMeetingLocation,
        DynamicFilterField::SectionExam,
        DynamicFilterField::CourseSubject,
        DynamicFilterField::CourseCoreCode,
    ]
}

/// Appends the normalized form of each value.
fn push_normalized(out: &mut Vec<String>, values: &Vec<String>, field: DynamicFilterField)
    ensures
        forall|x: Seq<char>|
            strings_contain(final(out)@, x) == (strings_contain(old(out)@, x) || some_normalizes_to(
                values@,
                field,
                x,
            )),
{
    let ghost start = out@;
    let mut i: usize = 0;
    while i < values.len()
        invariant
            i <= values@.len(),
            start.len() <= out@.len(),
            forall|j: int| 0 <= j < start.len() ==> out@[j] == start[j],
            forall|j: int| start.len() <= j < out@.len() ==> exists|a: int| 0 <= a < i && spec_normalize_dynamic_value(field, (#[trigger] values@[a])@) == (#[trigger] out@[j])@,
            forall|a: int| 0 <= a < i ==> exists|j: int| start.len() <= j < out@.len() && spec_normalize_dynamic_value(field, (#[trigger] values@[a])@) == (#[trigger] out@[j])@,
        decreases values.len() - i,
    {
        let v = normalize_dynamic_value(field, values[i].as_str());
        let ghost old_out = out@;
        out.push(v);
        proof {
            let n = out@.len() - 1;
            assert(spec_normalize_dynamic_value(field, values@[i as int]@) == out@[n]@);
            assert forall|a: int| 0 <= a < i + 1 implies exists|j: int| start.len() <= j < out@.len() && spec_normalize_dynamic_value(field, (#[trigger] values@[a])@) == (#[trigger] out@[j])@ by {
                if a < i {
                    let j = choose|j: int| start.len() <= j < old_out.len() && spec_normalize_dynamic_value(field, (#[trigger] values@[a])@) == (#[trigger] old_out[j])@;
                    assert(out@[j] == old_out[j]);
                } else {
                    assert(spec_normalize_dynamic_value(field, values@[a]@) == out@[n]@);
                }
            }
            assert forall|j: int| start.len() <= j < out@.len() implies exists|a: int| 0 <= a < i + 1 && spec_normalize_dynamic_value(field, (#[trigger] values@[a])@) == (#[trigger] out@[j])@ by {
                if j < n {
                    assert(out@[j] == old_out[j]);
                    let a = choose|a: int| 0 <= a < i && spec_normalize_dynamic_value(field, (#[trigger] values@[a])@) == old_out[j]@;
                } else {
                    assert(spec_normalize_dynamic_value(field, values@[i as int]@) == out@[j]@);
                }
            }
        }
        i = i + 1;
    }
    proof {
        assert forall|x: Seq<char>|
            strings_contain(out@, x) == (strings_contain(start, x) || some_normalizes_to(values@, field, x)) by {
            if strings_contain(out@, x) {
                let j = choose|j: int| 0 <= j < out@.len() && (#[trigger] out@[j])@ == x;
                if j < start.len() {
                    assert(start[j] == out@[j]);
                } else {
                    let a = choose|a: int| 0 <= a < i && spec_normalize_dynamic_value(field, (#[trigger] values@[a])@) == out@[j]@;
                }
            }
            if strings_contain(start, x) {
                let j = choose|j: int| 0 <= j < start.len() && (#[trigger] start[j])@ == x;
                assert(out@[j] == start[j]);
            }
            if some_normalizes_to(values@, field, x) {
                let a = choose|a: int| 0 <= a < values@.len() && spec_normalize_dynamic_value(field, (#[trigger] values@[a])@) == x;
                let j = choose|j: int| start.len() <= j < out@.len() && spec_normalize_dynamic_value(field, (#[trigger] values@[a])@) == (#[trigger] out@[j])@;
            }
        }
    }
}

/// The normalized values of a field's listing: exactly the normalized values of the options
/// of the dictionary it lists.
fn listing_dynamic_values(
    listing: &Vec<FilterOption>,
    field: DynamicFilterField,
    Ghost(m): Ghost<Map<Seq<char>, (Seq<char>, Seq<char>)>>,
    Ghost(of): Ghost<FilterOptionsField>,
) -> (res: Vec<String>)
    requires
        lists_in_order(m, of, crate::filter_options::options_view(listing@)),
        lists_every(m, crate::filter_options::options_view(listing@)),
    ensures
        forall|x: Seq<char>|
            strings_contain(res@, x) == (exists|k: Seq<char>|
                #[trigger] m.contains_key(k) && spec_normalize_dynamic_value(field, m[k].0) == x),
{
    let ghost v = crate::filter_options::options_view(listing@);
    let mut res: Vec<String> = Vec::new();
    let mut i: usize = 0;
    while i < listing.len()
        invariant
            i <= listing@.len(),
            v == crate::filter_options::options_view(listing@),
            res@.len() == i,
            forall|j: int| 0 <= j < i ==> (#[trigger] res@[j])@ == spec_normalize_dynamic_value(field, listing@[j].value@),
        decreases listing.len() - i,
    {
        res.push(normalize_dynamic_value(field, listing[i].value.as_str()));
        i = i + 1;
    }
    proof {
        assert forall|x: Seq<char>|
            strings_contain(res@, x) == (exists|k: Seq<char>|
                #[trigger] m.contains_key(k) && spec_normalize_dynamic_value(field, m[k].0) == x) by {
            if strings_contain(res@, x) {
                let j = choose|j: int| 0 <= j < res@.len() && (#[trigger] res@[j])@ == x;
                assert(v[j] == listing@[j]@);
                let k = option_key(v[j].0);
                assert(m.contains_key(k) && m[k] == v[j]);
            }
            if exists|k: Seq<char>| #[trigger] m.contains_key(k) && spec_normalize_dynamic_value(field, m[k].0) == x {
                let k = choose|k: Seq<char>| #[trigger] m.contains_key(k) && spec_normalize_dynamic_value(field, m[k].0) == x;
                let j = choose|j: int| 0 <= j < v.len() && option_key(v[j].0) == k;
                assert(v[j] == listing@[j]@);
                assert(m[option_key(v[j].0)] == v[j]);
                assert(res@[j]@ == x);
            }
        }
    }
    res
}

/// The subject codes of the variants that have one.
fn subject_values(variants: &Vec<VariantOptionFacts>) -> (res: Vec<String>)
    ensures
        forall|x: Seq<char>| strings_contain(res@, x) == has_subject(variants@, x),
{
    let mut res: Vec<String> = Vec::new();
    let mut i: usize = 0;
    while i < variants.len()
        invariant
            i <= variants@.len(),
            forall|x: Seq<char>| strings_contain(res@, x) == has_subject(variants@.subrange(0, i as int), x),
        decreases variants.len() - i,
    {
        let ghost before = res@;
        let ghost prev = variants@.subrange(0, i as int);
        let ghost next = variants@.subrange(0, i + 1);
        assert(forall|x: Seq<char>| strings_contain(before, x) == has_subject(prev, x));
        match &variants[i].subject_code {
            Some(code) => {
                res.push(code.clone());
                proof {
                    assert(res@ == before.push(res@[before.len() as int]));
                    assert(res@[before.len() as int]@ == variants@[i as int].subject_code->0@);
                }
            },
            None => {
                proof {
                    assert(res@ == before);
                }
            },
        }
        proof {
            assert(prev.len() == i);
            assert forall|a: int| 0 <= a < i implies #[trigger] next[a] == prev[a] by {}
            assert forall|x: Seq<char>| strings_contain(res@, x) == has_subject(next, x) by {
                assert(next[i as int] == variants@[i as int]);
                if strings_contain(res@, x) {
                    let j = choose|j: int| 0 <= j < res@.len() && (#[trigger] res@[j])@ == x;
                    if j < before.len() {
                        assert(before[j] == res@[j]);
                        assert(strings_contain(before, x));
                        let a = choose|a: int| 0 <= a < prev.len() && (#[trigger] prev[a]).subject_code is Some && prev[a].subject_code->0@ == x;
                        assert(next[a] == prev[a]);
                    }
                }
                if has_subject(next, x) {
                    let a = choose|a: int| 0 <= a < next.len() && (#[trigger] next[a]).subject_code is Some && next[a].subject_code->0@ == x;
                    if a < i {
                        assert(prev[a] == next[a]);
                        assert(has_subject(prev, x));
                        let j = choose|j: int| 0 <= j < before.len() && (#[trigger] before[j])@ == x;
                        assert(res@[j] == before[j]);
                    } else {
                        assert(res@[before.len() as int]@ == x);
                    }
                }
            }
        }
        i = i + 1;
    }
    proof {
        assert(variants@.subrange(0, variants@.len() as int) =~= variants@);
    }
    res
}

/// The core codes of the variants, in ASCII uppercase.
fn core_code_values(variants: &Vec<VariantOptionFacts>) -> (res: Vec<String>)
    ensures
        forall|x: Seq<char>| strings_contain(res@, x) == has_core_code(variants@, x),
{
    let mut res: Vec<String> = Vec::new();
    let mut i: usize = 0;
    while i < variants.len()
        invariant
            i <= variants@.len(),
            forall|x: Seq<char>| strings_contain(res@, x) == has_core_code(variants@.subrange(0, i as int), x),
        decreases variants.len() - i,
    {
        let ghost before = res@;
        let ghost prev = variants@.subrange(0, i as int);
        let ghost next = variants@.subrange(0, i + 1);
        match &variants[i].core_codes {
            Some(codes) => push_normalized(&mut res, codes, DynamicFilterField::CourseCoreCode),
            None => {},
        }
        proof {
            assert forall|x: Seq<char>| strings_contain(res@, x) == has_core_code(next, x) by {
                assert(next[i as int] == variants@[i as int]);
                if has_core_code(prev, x) {
                    let (a, b) = choose|a: int, b: int| 0 <= a < prev.len() && (#[trigger] prev[a]).core_codes is Some && 0 <= b < prev[a].core_codes->0@.len() && ascii_upper((#[trigger] prev[a].core_codes->0@[b])@) == x;
                    assert(next[a] == prev[a]);
                }
                if has_core_code(next, x) {
                    let (a, b) = choose|a: int, b: int| 0 <= a < next.len() && (#[trigger] next[a]).core_codes is Some && 0 <= b < next[a].core_codes->0@.len() && ascii_upper((#[trigger] next[a].core_codes->0@[b])@) == x;
                    if a < i {
                        assert(prev[a] == next[a]);
                    } else {
                        let codes = variants@[i as int].core_codes->0@;
                        assert(spec_normalize_dynamic_value(DynamicFilterField::CourseCoreCode, codes[b]@) == x);
                        assert(some_normalizes_to(codes, DynamicFilterField::CourseCoreCode, x));
                    }
                }
                if strings_contain(res@, x) && !strings_contain(before, x) {
                    let codes = variants@[i as int].core_codes->0@;
                    assert(variants@[i as int].core_codes is Some);
                    assert(some_normalizes_to(codes, DynamicFilterField::CourseCoreCode, x));
                    let b = choose|b: int| 0 <= b < codes.len() && spec_normalize_dynamic_value(DynamicFilterField::CourseCoreCode, (#[trigger] codes[b])@) == x;
                    assert(next[i as int].core_codes->0@[b] == codes[b]);
                }
            }
        }
        i = i + 1;
    }
    proof {
        assert(variants@.subrange(0, variants@.len() as int) =~= variants@);
    }
    res
}

/// The values of one dynamic field that a prepared dictionary holds.
pub open spec fn dynamic_entry_ok(
    catalog: CatalogOptionFacts,
    keywords: KeywordOptionSource,
    entry: (DynamicFilterField, Vec<String>),
    field: DynamicFilterField,
) -> bool {
    &&& entry.0 == field
    &&& forall|x: Seq<char>|
        #[trigger] strings_contain(entry.1@, x) == spec_dynamic_value(catalog, keywords, field, x)
}

/// The listings of the prepared fields, in order.
pub open spec fn listings_ok(
    catalog: CatalogOptionFacts,
    keywords: KeywordOptionSource,
    options: Seq<(FilterOptionsField, Vec<FilterOption>)>,
) -> bool {
    &&& options.len() == prepared_fields().len()
    &&& forall|j: int|
        0 <= j < options.len() ==> {
            let (f, listing) = #[trigger] options[j];
            &&& f == prepared_fields()[j]
            &&& lists_in_order(
                prepared_field_dictionary(catalog, keywords, f),
                f,
                crate::filter_options::options_view(listing@),
            )
            &&& lists_every(
                prepared_field_dictionary(catalog, keywords, f),
                crate::filter_options::options_view(listing@),
            )
        }
}

/// The selectable values of one option-backed dynamic field, from its listing.
fn listed_dynamic_entry(
    catalog: &CatalogOptionFacts,
    keywords: &KeywordOptionSource,
    options: &Vec<(FilterOptionsField, Vec<FilterOption>)>,
    index: usize,
    field: DynamicFilterField,
) -> (res: (DynamicFilterField, Vec<String>))
    requires
        listings_ok(*catalog, *keywords, options@),
        1 <= index < 6,
        option_field_of(field) == Some(prepared_fields()[index as int]),
    ensures
        dynamic_entry_ok(*catalog, *keywords, res, field),
{
    let ghost of = prepared_fields()[index as int];
    let ghost m = prepared_field_dictionary(*catalog, *keywords, of);
    assert(options@[index as int].0 == of);
    let values = listing_dynamic_values(&options[index].1, field, Ghost(m), Ghost(of));
    proof {
        assert(field != DynamicFilterField::CourseText && field != DynamicFilterField::CourseSubject
            && field != DynamicFilterField::CourseCoreCode);
        assert(option_field_of(field)->0 == of);
        assert forall|x: Seq<char>| #[trigger] strings_contain(values@, x) == spec_dynamic_value(*catalog, *keywords, field, x) by {}
    }
    (field, values)
}

/// The selectable values of every dynamic field of one target.
fn prepared_dynamic_values(
    catalog: &CatalogOptionFacts,
    keywords: &KeywordOptionSource,
    options: &Vec<(FilterOptionsField, Vec<FilterOption>)>,
) -> (res: Vec<(DynamicFilterField, Vec<String>)>)
    requires
        listings_ok(*catalog, *keywords, options@),
    ensures
        res@.len() == dynamic_fields().len(),
        forall|i: int|
            0 <= i < res@.len() ==> dynamic_entry_ok(*catalog, *keywords, #[trigger] res@[i], dynamic_fields()[i]),
{
    let mut text: Vec<String> = Vec::new();
    push_normalized(&mut text, &keywords.fts_terms, DynamicFilterField::CourseText);
    push_normalized(&mut text, &keywords.course_identifiers, DynamicFilterField::CourseText);
    let mut res: Vec<(DynamicFilterField, Vec<String>)> = Vec::new();
    res.push((DynamicFilterField::CourseText, text));
    res.push(listed_dynamic_entry(catalog, keywords, options, 1, DynamicFilterField::CourseNumberBand));
    res.push(listed_dynamic_entry(catalog, keywords, options, 2, DynamicFilterField::CourseLevel));
    res.push(listed_dynamic_entry(catalog, keywords, options, 3, DynamicFilterField::SectionInstructor));
    res.push(listed_dynamic_entry(catalog, keywords, options, 4, DynamicFilterField::SectionMeetingLocation));
    res.push(listed_dynamic_entry(catalog, keywords, options, 5, DynamicFilterField::SectionExam));
    res.push((DynamicFilterField::CourseSubject, subject_values(&catalog.variants)));
    res.push((DynamicFilterField::CourseCoreCode, core_code_values(&catalog.variants)));
    proof {
        assert forall|i: int| 0 <= i < res@.len() implies dynamic_entry_ok(*catalog, *keywords, #[trigger] res@[i], dynamic_fields()[i]) by {
            if i == 0 {
                assert forall|x: Seq<char>| #[trigger] strings_contain(res@[0].1@, x) == spec_dynamic_value(*catalog, *keywords, DynamicFilterField::CourseText, x) by {
                    assert(!strings_contain(Seq::<String>::empty(), x));
                }
            }
        }
    }
    res
}


/// Whether the first entry of `field` holds `x`.
pub open spec fn dynamic_set_has(
    entries: Seq<(DynamicFilterField, Vec<String>)>,
    field: DynamicFilterField,
    x: Seq<char>,
) -> bool {
    exists|i: int|
        0 <= i < entries.len() && (#[trigger] entries[i]).0 == field && (forall|j: int|
            0 <= j < i ==> (#[trigger] entries[j]).0 != field) && strings_contain(entries[i].1@, x)
}

/// Whether the first entry of `field` holds `x`.
fn dynamic_set_has_exec(
    entries: &Vec<(DynamicFilterField, Vec<String>)>,
    field: DynamicFilterField,
    x: &str,
) -> (res: bool)
    ensures
        res == dynamic_set_has(entries@, field, x@),
{
    let mut i: usize = 0;
    while i < entries.len()
        invariant
            i <= entries@.len(),
            forall|j: int| 0 <= j < i ==> (#[trigger] entries@[j]).0 != field,
        decreases entries.len() - i,
    {
        if entries[i].0 == field {
            let found = strings_contain_exec(&entries[i].1, x);
            proof {
                if !found && dynamic_set_has(entries@, field, x@) {
                    let k = choose|k: int|
                        0 <= k < entries@.len() && (#[trigger] entries@[k]).0 == field && (forall|j: int|
                            0 <= j < k ==> (#[trigger] entries@[j]).0 != field) && strings_contain(entries@[k].1@, x@);
                    if k > i {
                        assert(entries@[i as int].0 == field);
                    }
                }
            }
            return found;
        }
        i = i + 1;
    }
    false
}

/// Whether a selected dynamic value is known to the prepared dictionary of any of the
/// targets, compared in the field's normalized form.
pub fn dynamic_value_known(
    dictionaries: &Vec<PreparedTargetOptions>,
    targets: &Vec<TermCampusKey>,
    field: DynamicFilterField,
    value: &str,
) -> (res: bool)
    ensures
        res == exists|j: int|
            0 <= j < targets@.len() && has_dictionary(dictionaries@, (#[trigger] targets@[j]).spec_key())
                && dynamic_set_has(
                dictionary_of(dictionaries@, targets@[j].spec_key()).dynamic_values@,
                field,
                spec_normalize_dynamic_value(field, value@),
            ),
{
    let normalized = normalize_dynamic_value(field, value);
    let mut i: usize = 0;
    while i < targets.len()
        invariant
            i <= targets@.len(),
            normalized@ == spec_normalize_dynamic_value(field, value@),
            forall|j: int|
                0 <= j < i ==> !(has_dictionary(dictionaries@, (#[trigger] targets@[j]).spec_key())
                    && dynamic_set_has(
                    dictionary_of(dictionaries@, targets@[j].spec_key()).dynamic_values@,
                    field,
                    normalized@,
                )),
        decreases targets.len() - i,
    {
        match find_dictionary(dictionaries, &targets[i]) {
            Some(di) => {
                if dynamic_set_has_exec(&dictionaries[di].dynamic_values, field, normalized.as_str()) {
                    return true;
                }
            },
            None => {},
        }
        i = i + 1;
    }
    false
}


/// A full-text request names the content version of the target's prepared Catalog: a target
/// without one is not prepared, and another version means the publication changed.
pub fn require_catalog_version(
    versions: &TargetMap<u64>,
    target: &TermCampusKey,
    content_version: u64,
) -> (res: Result<(), PreparedServingError>)
    requires
        versions.wf(),
    ensures
        match versions.spec_map().get(target.spec_key()) {
            None => match res {
                Err(PreparedServingError::TargetNotPrepared(k)) => k.spec_key() == target.spec_key(),
                _ => false,
            },
            Some(v) => res == (if v == content_version {
                Ok::<(), PreparedServingError>(())
            } else {
                Err(PreparedServingError::PublicationChanged)
            }),
        },
{
    match versions.get(target) {
        None => Err(PreparedServingError::TargetNotPrepared(target.copied())),
        Some(v) => {
            if v == content_version {
                Ok(())
            } else {
                Err(PreparedServingError::PublicationChanged)
            }
        },
    }
}

/// The query narrows keywords and instructors only: every other field keeps each option
/// whatever the query.
pub proof fn lemma_query_keeps_every_other_field(
    d: PreparedTargetOptions,
    f: FilterOptionsField,
    query: Option<Seq<char>>,
    o: (Seq<char>, Seq<char>),
)
    requires
        f != FilterOptionsField::Keyword,
        f != FilterOptionsField::Instructor,
    ensures
        prepared_option_kept(d, f, query, o),
{
}

/// For every field but keywords and instructors, the merged options of the targets are the
/// same with a query as without one.
pub proof fn lemma_prepared_query_ignored_outside_keyword_and_instructor(
    ds: Seq<PreparedTargetOptions>,
    targets: Seq<TermCampusKey>,
    f: FilterOptionsField,
    query: Option<Seq<char>>,
)
    requires
        f != FilterOptionsField::Keyword,
        f != FilterOptionsField::Instructor,
    ensures
        targets_candidates(ds, targets, f, query) == targets_candidates(ds, targets, f, None),
{
    assert forall|d: PreparedTargetOptions| #[trigger] target_candidates(d, f, query)
        == target_candidates(d, f, None) by {
        assert forall|o: FilterOption| #[trigger] prepared_option_kept(d, f, query, o@)
            == prepared_option_kept(d, f, None, o@) by {
            lemma_query_keeps_every_other_field(d, f, query, o@);
            lemma_query_keeps_every_other_field(d, f, None, o@);
        }
        lemma_flat_map_congruence(
            field_listing(d.options@, f),
            |o: FilterOption|
                if prepared_option_kept(d, f, query, o@) {
                    seq![o@]
                } else {
                    Seq::empty()
                },
            |o: FilterOption|
                if prepared_option_kept(d, f, None, o@) {
                    seq![o@]
                } else {
                    Seq::empty()
                },
        );
    }
    lemma_flat_map_congruence(
        targets,
        |t: TermCampusKey| target_candidates(dictionary_of(ds, t.spec_key()), f, query),
        |t: TermCampusKey| target_candidates(dictionary_of(ds, t.spec_key()), f, None),
    );
}

/// Two calls of `prepared_filter_options` on the same dictionaries and targets for a field
/// other than keywords and instructors, one with a query and one without, list the same
/// options.
pub proof fn lemma_prepared_listing_ignores_query(
    ds: Seq<PreparedTargetOptions>,
    targets: Seq<TermCampusKey>,
    f: FilterOptionsField,
    query: Option<Seq<char>>,
    with_query: Seq<(Seq<char>, Seq<char>)>,
    without_query: Seq<(Seq<char>, Seq<char>)>,
)
    requires
        f != FilterOptionsField::Keyword,
        f != FilterOptionsField::Instructor,
        lists_in_order(
            spec_insert_all(Map::empty(), targets_candidates(ds, targets, f, query)),
            f,
            with_query,
        ),
        lists_every(
            spec_insert_all(Map::empty(), targets_candidates(ds, targets, f, query)),
            with_query,
        ),
        lists_in_order(
            spec_insert_all(Map::empty(), targets_candidates(ds, targets, f, None)),
            f,
            without_query,
        ),
        lists_every(
            spec_insert_all(Map::empty(), targets_candidates(ds, targets, f, None)),
            without_query,
        ),
    ensures
        with_query == without_query,
{
    lemma_prepared_query_ignored_outside_keyword_and_instructor(ds, targets, f, query);
    lemma_listing_is_unique(
        spec_insert_all(Map::empty(), targets_candidates(ds, targets, f, None)),
        f,
        with_query,
        without_query,
    );
}

} // verus!
