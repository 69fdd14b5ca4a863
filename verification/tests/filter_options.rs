use bcsp_application::filter_options::{
    collect_catalog_options, collect_keyword_options, filter_option_listing, CatalogOptionFacts,
    FilterOption, FilterOptionsField, KeywordOptionSource, OccurrenceOptionFacts,
    OptionDictionary, SectionOptionFacts, VariantOptionFacts,
};
use bcsp_application::fts_query::{
    check_fts_search, check_fts_term_exists, check_fts_term_set, check_fts_terms, fts5_literal_and_query,
    fts_target_id,
};
use bcsp_application::option_text::{
    collapse_whitespace_exec, decimal_string, parse_u32_exec, str_contains,
};
use bcsp_application::prepared_options::{
    dynamic_value_known, normalize_dynamic_value, prepare_target_options, prepared_filter_options,
    require_catalog_version, DynamicFilterField, PreparedTargetOptions,
};
use bcsp_application::publication::PreparedServingError;
use bcsp_application::target::{TargetMap, TermCampusKey};

fn s(text: &str) -> String {
    text.to_owned()
}

fn band_variant(band: Option<u32>) -> VariantOptionFacts {
    VariantOptionFacts { course_number_band: band, level: None, subject_code: None, core_codes: None }
}

fn level_variant(level: &str) -> VariantOptionFacts {
    VariantOptionFacts { course_number_band: None, level: Some(s(level)), subject_code: None, core_codes: None }
}

fn instructor_section(names: &[&str]) -> SectionOptionFacts {
    SectionOptionFacts {
        instructors: Some(names.iter().map(|name| s(name)).collect()),
        exam_code: None,
        exam_code_text: None,
    }
}

fn catalog(
    variants: Vec<VariantOptionFacts>,
    sections: Vec<SectionOptionFacts>,
    occurrences: Vec<OccurrenceOptionFacts>,
) -> CatalogOptionFacts {
    CatalogOptionFacts { variants, sections, occurrences }
}

fn listing(dict: OptionDictionary, field: FilterOptionsField, limit: usize) -> (Vec<(String, String)>, bool) {
    let (options, truncated) = filter_option_listing(dict, field, limit);
    (options.into_iter().map(|o: FilterOption| (o.value, o.label)).collect(), truncated)
}

fn values(options: &[(String, String)]) -> Vec<&str> {
    options.iter().map(|(value, _)| value.as_str()).collect()
}

#[test]
fn course_number_band_options_cover_the_complete_catalog_and_bind_its_version() {
    let catalogs = vec![catalog(
        vec![
            band_variant(Some(0)),
            band_variant(Some(0)),
            band_variant(Some(100)),
            band_variant(Some(400)),
        ],
        Vec::new(),
        Vec::new(),
    )];
    let dict = collect_catalog_options(&catalogs, FilterOptionsField::CourseNumberBand, None);
    let (options, truncated) = listing(dict, FilterOptionsField::CourseNumberBand, 1);
    assert_eq!(values(&options), ["0", "100", "400"]);
    assert_eq!(options[0].1, "000-099");
    assert_eq!(options[1].1, "100-199");
    assert_eq!(options[2].1, "400-499");
    assert!(!truncated);
}

#[test]
fn bands_sort_by_number_not_by_text() {
    let catalogs = vec![catalog(
        vec![band_variant(Some(1000)), band_variant(Some(900)), band_variant(None), band_variant(Some(50))],
        Vec::new(),
        Vec::new(),
    )];
    let dict = collect_catalog_options(&catalogs, FilterOptionsField::CourseNumberBand, None);
    let (options, _) = listing(dict, FilterOptionsField::CourseNumberBand, 10);
    assert_eq!(values(&options), ["50", "900", "1000"]);
    assert_eq!(options[0].1, "050-149");
    assert_eq!(options[2].1, "1000-1099");
}

#[test]
fn filter_options_use_published_fts_and_case_insensitive_instructor_substrings() {
    let catalogs = vec![catalog(
        Vec::new(),
        vec![instructor_section(&["  Pat   Smith ", "Lee Jones"]), instructor_section(&["   "])],
        Vec::new(),
    )];
    for query in ["smi", "Smi", "SMI"] {
        let dict = collect_catalog_options(&catalogs, FilterOptionsField::Instructor, Some(query));
        let (options, truncated) = listing(dict, FilterOptionsField::Instructor, 25);
        assert_eq!(options.len(), 1);
        assert_eq!(options[0].0, "Pat Smith");
        assert!(!truncated);
    }
    let dict = collect_catalog_options(&catalogs, FilterOptionsField::Instructor, None);
    let (options, _) = listing(dict, FilterOptionsField::Instructor, 25);
    assert_eq!(values(&options), ["Lee Jones", "Pat Smith"]);

    let sources = vec![KeywordOptionSource {
        fts_terms: vec![s("computer"), s("compiler")],
        course_identifiers: vec![s("01:198:111"), s("COMP:101")],
    }];
    let dict = collect_keyword_options(&sources, Some("comp"));
    let (options, truncated) = listing(dict, FilterOptionsField::Keyword, 10);
    assert!(options.iter().any(|(value, _)| value == "computer"));
    assert_eq!(values(&options), ["COMP:101", "compiler", "computer"]);
    assert!(!truncated);
}

#[test]
fn the_first_spelling_stays_and_the_longer_label_wins() {
    let mut dict = OptionDictionary::new();
    dict.insert_option(s("ABC"), s("short"));
    dict.insert_option(s("abc"), s("a longer label"));
    dict.insert_option(s("Abc"), s("tiny"));
    assert!(dict.contains_selected("aBc"));
    assert!(!dict.contains_selected("abd"));
    let (options, _) = listing(dict, FilterOptionsField::Instructor, 10);
    assert_eq!(options, vec![(s("ABC"), s("a longer label"))]);
}

#[test]
fn labels_sort_case_insensitively_then_by_value() {
    let mut dict = OptionDictionary::new();
    dict.insert_option(s("b"), s("Beta"));
    dict.insert_option(s("a2"), s("alpha"));
    dict.insert_option(s("a1"), s("ALPHA"));
    dict.insert_option(s("c"), s("gamma"));
    let (options, truncated) = listing(dict, FilterOptionsField::ExamCode, 3);
    assert_eq!(values(&options), ["a1", "a2", "b"]);
    assert!(truncated);
}

#[test]
fn levels_are_trimmed_uppercased_and_spelled_out() {
    let catalogs = vec![catalog(
        vec![level_variant(" u "), level_variant("g"), level_variant("x"), level_variant("  ")],
        Vec::new(),
        Vec::new(),
    )];
    let dict = collect_catalog_options(&catalogs, FilterOptionsField::CourseLevel, None);
    let (options, _) = listing(dict, FilterOptionsField::CourseLevel, 10);
    assert_eq!(
        options,
        vec![
            (s("G"), s("G \u{b7} Graduate")),
            (s("U"), s("U \u{b7} Undergraduate")),
            (s("X"), s("X")),
        ]
    );
}

#[test]
fn locations_and_exam_codes_pair_codes_with_descriptions() {
    let catalogs = vec![catalog(
        Vec::new(),
        vec![
            SectionOptionFacts { instructors: None, exam_code: Some(s(" a ")), exam_code_text: Some(s("By arrangement")) },
            SectionOptionFacts { instructors: None, exam_code: None, exam_code_text: Some(s("No exam")) },
        ],
        vec![
            OccurrenceOptionFacts { campus: Some(s(" nb ")), campus_name: Some(s(" Busch ")) },
            OccurrenceOptionFacts { campus: Some(s("O")), campus_name: None },
            OccurrenceOptionFacts { campus: None, campus_name: Some(s("Online")) },
            OccurrenceOptionFacts { campus: Some(s(" ")), campus_name: None },
        ],
    )];
    let dict = collect_catalog_options(&catalogs, FilterOptionsField::MeetingLocation, None);
    let (options, _) = listing(dict, FilterOptionsField::MeetingLocation, 10);
    assert_eq!(
        options,
        vec![(s("NB"), s("NB \u{b7} Busch")), (s("O"), s("O")), (s("ONLINE"), s("Online"))]
    );
    let dict = collect_catalog_options(&catalogs, FilterOptionsField::ExamCode, None);
    let (options, _) = listing(dict, FilterOptionsField::ExamCode, 10);
    assert_eq!(
        options,
        vec![(s("A"), s("A \u{b7} By arrangement")), (s("NO EXAM"), s("No exam"))]
    );
    let dict = collect_catalog_options(&catalogs, FilterOptionsField::Keyword, None);
    assert_eq!(listing(dict, FilterOptionsField::Keyword, 10).0, Vec::new());
}

fn target(campus: &str) -> TermCampusKey {
    TermCampusKey::new(s("92026"), s(campus))
}

fn prepared(campus: &str, instructors: &[&str]) -> PreparedTargetOptions {
    let facts = catalog(
        vec![band_variant(Some(100))],
        vec![instructor_section(instructors)],
        Vec::new(),
    );
    prepare_target_options(
        target(campus),
        &facts,
        KeywordOptionSource {
            fts_terms: vec![s("stra\u{df}e"), s("data")],
            course_identifiers: vec![s("01:198:111")],
        },
    )
}

#[test]
fn prepared_options_merge_targets_and_fail_on_an_unprepared_one() {
    let dictionaries = vec![prepared("NB", &["Pat Smith"]), prepared("NK", &["pat smith", "Ann Lee"])];
    let options = prepared_filter_options(
        &dictionaries,
        &vec![target("NB"), target("NK")],
        FilterOptionsField::Instructor,
        Some("PAT"),
    )
    .expect("both prepared");
    assert_eq!(options.len(), 1);
    assert_eq!(options[0].value, "Pat Smith");

    let options = prepared_filter_options(
        &dictionaries,
        &vec![target("NB"), target("NK")],
        FilterOptionsField::CourseNumberBand,
        Some("zzz"),
    )
    .expect("query is ignored for bands");
    assert_eq!(options.len(), 1);
    assert_eq!(options[0].label, "100-199");

    let error = prepared_filter_options(
        &dictionaries,
        &vec![target("NB"), target("CM")],
        FilterOptionsField::Instructor,
        None,
    )
    .expect_err("CM is not prepared");
    assert_eq!(error, PreparedServingError::TargetNotPrepared(target("CM")));
}

#[test]
fn prepared_keywords_match_index_terms_in_ascii_and_identifiers_in_unicode() {
    let dictionaries = vec![prepared("NB", &[])];
    let options = prepared_filter_options(
        &dictionaries,
        &vec![target("NB")],
        FilterOptionsField::Keyword,
        Some("DAT"),
    )
    .expect("prepared");
    assert_eq!(options.iter().map(|o| o.value.as_str()).collect::<Vec<_>>(), ["data"]);
    let options = prepared_filter_options(
        &dictionaries,
        &vec![target("NB")],
        FilterOptionsField::Keyword,
        Some("198:1"),
    )
    .expect("prepared");
    assert_eq!(options.iter().map(|o| o.value.as_str()).collect::<Vec<_>>(), ["01:198:111"]);
}

#[test]
fn text_helpers_follow_std() {
    assert_eq!(collapse_whitespace_exec("  a \t b\n\nc  "), "a b c");
    assert_eq!(collapse_whitespace_exec(" \u{3000} "), "");
    assert_eq!(parse_u32_exec("+42"), Some(42));
    assert_eq!(parse_u32_exec("4294967295"), Some(u32::MAX));
    assert_eq!(parse_u32_exec("4294967296"), None);
    assert_eq!(parse_u32_exec("-1"), None);
    assert_eq!(parse_u32_exec("+"), None);
    assert_eq!(parse_u32_exec(""), None);
    assert_eq!(decimal_string(1207), "1207");
    assert!(str_contains("computer", "put"));
    assert!(str_contains("computer", ""));
    assert!(!str_contains("comp", "computer"));
}

#[test]
fn fts_queries_quote_every_token_literally() {
    assert_eq!(
        fts5_literal_and_query(&vec![s("data"), s("say \"hi\""), s("")]),
        "\"data\" AND \"say \"\"hi\"\"\" AND \"\""
    );
    assert_eq!(fts5_literal_and_query(&vec![s("one")]), "\"one\"");
    assert_eq!(fts5_literal_and_query(&Vec::new()), "");
    assert_eq!(fts_target_id(&target("NB")), "92026/NB");
    assert_eq!(check_fts_search(0), Err(PreparedServingError::InvalidFtsInput { field: "content_version" }));
    assert_eq!(check_fts_search(3), Ok(()));
    assert_eq!(check_fts_terms(3, 0), Err(PreparedServingError::InvalidFtsInput { field: "filter_options" }));
    assert_eq!(check_fts_terms(3, 1), Ok(()));
    assert_eq!(check_fts_term_set(0), Err(PreparedServingError::InvalidFtsInput { field: "filter_options" }));
    assert_eq!(
        check_fts_term_exists(3, ""),
        Err(PreparedServingError::InvalidFtsInput { field: "dynamic_filter_validation" })
    );
    assert_eq!(check_fts_term_exists(3, "x"), Ok(()));
}

fn dynamic_entry<'a>(prepared: &'a PreparedTargetOptions, field: DynamicFilterField) -> &'a Vec<String> {
    &prepared.dynamic_values.iter().find(|(f, _)| *f == field).expect("dynamic field").1
}

#[test]
fn core_code_dictionary_and_lookup_meet_in_ascii_uppercase() {
    let facts = catalog(
        vec![VariantOptionFacts {
            course_number_band: Some(100),
            level: Some(s("U")),
            subject_code: Some(s("198")),
            core_codes: Some(vec![s("AHo")]),
        }],
        vec![instructor_section(&["Pat Smith"])],
        vec![OccurrenceOptionFacts { campus: Some(s("O")), campus_name: None }],
    );
    let prepared = prepare_target_options(
        target("NB"),
        &facts,
        KeywordOptionSource { fts_terms: Vec::new(), course_identifiers: vec![s("01:198:111")] },
    );
    let core = dynamic_entry(&prepared, DynamicFilterField::CourseCoreCode);
    assert_eq!(core, &vec![s("AHO")]);
    for requested in ["AHO", "AHo", "aho"] {
        assert!(core.contains(&normalize_dynamic_value(DynamicFilterField::CourseCoreCode, requested)));
    }
    assert!(!core.contains(&normalize_dynamic_value(DynamicFilterField::CourseCoreCode, "AHP")));
}

#[test]
fn dynamic_values_are_known_in_their_normalized_form() {
    let facts = catalog(
        vec![VariantOptionFacts {
            course_number_band: Some(100),
            level: Some(s("u")),
            subject_code: Some(s("198")),
            core_codes: None,
        }],
        vec![instructor_section(&["Pat  Smith"])],
        Vec::new(),
    );
    let dictionaries = vec![prepare_target_options(
        target("NB"),
        &facts,
        KeywordOptionSource { fts_terms: vec![s("Data")], course_identifiers: vec![s("01:198:111")] },
    )];
    let nb = vec![target("NB")];
    assert_eq!(prepared_field_count(&dictionaries[0]), 6);
    assert!(dynamic_value_known(&dictionaries, &nb, DynamicFilterField::CourseText, "DATA"));
    assert!(dynamic_value_known(&dictionaries, &nb, DynamicFilterField::CourseText, "01:198:111"));
    assert!(!dynamic_value_known(&dictionaries, &nb, DynamicFilterField::CourseText, "science"));
    assert!(dynamic_value_known(&dictionaries, &nb, DynamicFilterField::CourseSubject, "198"));
    assert!(!dynamic_value_known(&dictionaries, &nb, DynamicFilterField::CourseSubject, "640"));
    assert!(dynamic_value_known(&dictionaries, &nb, DynamicFilterField::CourseNumberBand, "100"));
    assert!(dynamic_value_known(&dictionaries, &nb, DynamicFilterField::CourseLevel, "u"));
    assert!(dynamic_value_known(&dictionaries, &nb, DynamicFilterField::SectionInstructor, "PAT SMITH"));
    assert!(!dynamic_value_known(&dictionaries, &nb, DynamicFilterField::SectionInstructor, "Pat  Smith"));
    assert!(!dynamic_value_known(&dictionaries, &vec![target("NK")], DynamicFilterField::CourseSubject, "198"));
    assert_eq!(normalize_dynamic_value(DynamicFilterField::CourseSubject, "AbC"), "AbC");
    assert_eq!(normalize_dynamic_value(DynamicFilterField::CourseText, "\u{c9}Ab"), "\u{c9}ab");
    assert_eq!(normalize_dynamic_value(DynamicFilterField::SectionExam, "\u{c9}Ab"), "\u{e9}ab");
}

fn prepared_field_count(prepared: &PreparedTargetOptions) -> usize {
    prepared.options.len()
}

#[test]
fn a_dictionary_lists_the_same_way_whatever_the_insertion_order() {
    let mut first = OptionDictionary::new();
    let mut second = OptionDictionary::new();
    for (value, label) in [("b", "Beta"), ("a", "alpha"), ("c", "Gamma")] {
        first.insert_option(s(value), s(label));
    }
    for (value, label) in [("c", "Gamma"), ("b", "Beta"), ("a", "alpha"), ("a", "alpha")] {
        second.insert_option(s(value), s(label));
    }
    let (first, _) = listing(first, FilterOptionsField::Instructor, 10);
    let (second, _) = listing(second, FilterOptionsField::Instructor, 10);
    assert_eq!(first, second);
    assert_eq!(values(&first), ["a", "b", "c"]);
}

#[test]
fn full_text_requests_name_the_prepared_catalog_version() {
    let mut versions = TargetMap::new();
    versions.insert(&target("NB"), 7u64);
    assert_eq!(require_catalog_version(&versions, &target("NB"), 7), Ok(()));
    assert_eq!(
        require_catalog_version(&versions, &target("NB"), 6),
        Err(PreparedServingError::PublicationChanged)
    );
    assert_eq!(
        require_catalog_version(&versions, &target("NK"), 7),
        Err(PreparedServingError::TargetNotPrepared(target("NK")))
    );
}
