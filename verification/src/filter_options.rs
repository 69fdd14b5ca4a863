//! Filter-option dictionaries: the values a filter field offers for the published Catalogs,
//! one option per case-insensitive value, and their listing order.
use vstd::prelude::*;
use vstd::utf8::encode_utf8;

use crate::option_text::{
    ascii_upper, collapse_whitespace, collapse_whitespace_exec, contains_seq, decimal,
    decimal_string, push_decimal_width3, str_contains, to_ascii_uppercase, to_lowercase,
    unicode_lowercase, zero_padded,
};
use crate::option_text::{parse_u32, parse_u32_exec};
use crate::text::{
    lemma_seq_lt_irreflexive, lemma_seq_lt_total, lemma_seq_lt_transitive, seq_lt, str_eq, str_lt,
    trim, trim_range,
};

verus! {

/// The filter fields that offer a dictionary of options.
#[derive(Clone, Copy, Debug, Eq, PartialEq, Structural)]
pub enum FilterOptionsField {
    Keyword,
    CourseNumberBand,
    CourseLevel,
    Instructor,
    MeetingLocation,
    ExamCode,
}

/// One offered option: the value a request selects and the label shown for it.
#[derive(Debug)]
pub struct FilterOption {
    pub value: String,
    pub label: String,
}

impl View for FilterOption {
    type V = (Seq<char>, Seq<char>);

    open spec fn view(&self) -> (Seq<char>, Seq<char>) {
        (self.value@, self.label@)
    }
}

/// The number of bytes of the UTF-8 form of `s`, which `str::len` gives.
pub open spec fn byte_len(s: Seq<char>) -> nat {
    encode_utf8(s).len()
}

/// The dictionary key of an option value: its Unicode lowercase form.
pub open spec fn option_key(value: Seq<char>) -> Seq<char> {
    unicode_lowercase(value)
}

/// Adding one option: a new key takes the value and label as given; a known key keeps its
/// value and takes the new label only when that label is longer in bytes.
pub open spec fn spec_insert_option(
    m: Map<Seq<char>, (Seq<char>, Seq<char>)>,
    value: Seq<char>,
    label: Seq<char>,
) -> Map<Seq<char>, (Seq<char>, Seq<char>)> {
    let k = option_key(value);
    if m.contains_key(k) {
        if byte_len(label) > byte_len(m[k].1) {
            m.insert(k, (m[k].0, label))
        } else {
            m
        }
    } else {
        m.insert(k, (value, label))
    }
}

/// Adding options one after another, in order.
pub open spec fn spec_insert_all(
    m: Map<Seq<char>, (Seq<char>, Seq<char>)>,
    options: Seq<(Seq<char>, Seq<char>)>,
) -> Map<Seq<char>, (Seq<char>, Seq<char>)>
    decreases options.len(),
{
    if options.len() == 0 {
        m
    } else {
        spec_insert_option(
            spec_insert_all(m, options.drop_last()),
            options.last().0,
            options.last().1,
        )
    }
}

/// One dictionary entry: its key and its option.
struct OptionEntry {
    key: String,
    option: FilterOption,
}

/// The keys of a list of entries.
spec fn entry_keys(entries: Seq<OptionEntry>) -> Seq<Seq<char>> {
    entries.map_values(|e: OptionEntry| e.key@)
}

/// Some index of `k`'s entry.
spec fn entry_index(entries: Seq<OptionEntry>, k: Seq<char>) -> int {
    choose|i: int| 0 <= i < entries.len() && (#[trigger] entries[i]).key@ == k
}

/// A list of entries as a map from key to option.
spec fn entries_view(entries: Seq<OptionEntry>) -> Map<Seq<char>, (Seq<char>, Seq<char>)> {
    Map::new(
        |k: Seq<char>| exists|i: int| 0 <= i < entries.len() && (#[trigger] entries[i]).key@ == k,
        |k: Seq<char>| entries[entry_index(entries, k)].option@,
    )
}

proof fn lemma_entry_at(entries: Seq<OptionEntry>, i: int)
    requires
        entry_keys(entries).no_duplicates(),
        0 <= i < entries.len(),
    ensures
        entry_index(entries, entries[i].key@) == i,
        entries_view(entries).contains_key(entries[i].key@),
        entries_view(entries)[entries[i].key@] == entries[i].option@,
{
    let k = entries[i].key@;
    assert(exists|j: int| 0 <= j < entries.len() && (#[trigger] entries[j]).key@ == k);
    let j = entry_index(entries, k);
    if j != i {
        assert(entry_keys(entries)[i] == entry_keys(entries)[j]);
    }
}

/// The options of one filter field, one per key, as a map from key to (value, label).
pub struct OptionDictionary {
    entries: Vec<OptionEntry>,
}

impl View for OptionDictionary {
    type V = Map<Seq<char>, (Seq<char>, Seq<char>)>;

    closed spec fn view(&self) -> Map<Seq<char>, (Seq<char>, Seq<char>)> {
        entries_view(self.entries@)
    }
}

impl OptionDictionary {
    /// Each key occurs once and is the key of its entry's value.
    pub closed spec fn wf(&self) -> bool {
        &&& entry_keys(self.entries@).no_duplicates()
        &&& forall|i: int|
            0 <= i < self.entries@.len() ==> (#[trigger] self.entries@[i]).key@ == option_key(
                self.entries@[i].option.value@,
            )
    }

    /// An empty dictionary.
    pub fn new() -> (res: Self)
        ensures
            res.wf(),
            res@ == Map::<Seq<char>, (Seq<char>, Seq<char>)>::empty(),
    {
        let res = OptionDictionary { entries: Vec::new() };
        proof {
            assert(entries_view(res.entries@) =~= Map::empty());
        }
        res
    }

    /// Every stored option sits under the key of its value.
    pub proof fn lemma_keys_match(&self, k: Seq<char>)
        requires
            self.wf(),
            self@.contains_key(k),
        ensures
            k == option_key(self@[k].0),
    {
        let i = choose|i: int| 0 <= i < self.entries@.len() && (#[trigger] self.entries@[i]).key@ == k;
        lemma_entry_at(self.entries@, i);
    }

    fn find(&self, key: &str) -> (res: Option<usize>)
        ensures
            match res {
                Some(i) => i < self.entries@.len() && self.entries@[i as int].key@ == key@,
                None => !self@.contains_key(key@),
            },
    {
        let mut i: usize = 0;
        while i < self.entries.len()
            invariant
                i <= self.entries@.len(),
                forall|j: int| 0 <= j < i ==> (#[trigger] self.entries@[j]).key@ != key@,
            decreases self.entries.len() - i,
        {
            if str_eq(self.entries[i].key.as_str(), key) {
                return Some(i);
            }
            i = i + 1;
        }
        None
    }

    /// Whether a selected value names an option, compared case-insensitively.
    pub fn contains_selected(&self, selected: &str) -> (res: bool)
        ensures
            res == self@.contains_key(option_key(selected@)),
    {
        let key = to_lowercase(selected);
        self.find(key.as_str()).is_some()
    }

    /// Adds an option under the lowercase form of its value. A value already present keeps
    /// its first spelling, and its label is replaced only by a longer one.
    pub fn insert_option(&mut self, value: String, label: String)
        requires
            old(self).wf(),
        ensures
            final(self).wf(),
            final(self)@ == spec_insert_option(old(self)@, value@, label@),
    {
        let ghost before = self.entries@;
        let key = to_lowercase(value.as_str());
        match self.find(key.as_str()) {
            Some(i) => {
                proof {
                    lemma_entry_at(before, i as int);
                }
                if label.as_str().as_bytes().len() > self.entries[i].option.label.as_str().as_bytes().len() {
                    let entry = OptionEntry {
                        key: self.entries[i].key.clone(),
                        option: FilterOption { value: self.entries[i].option.value.clone(), label },
                    };
                    self.entries.set(i, entry);
                    proof {
                        let after = self.entries@;
                        let k = key@;
                        assert(entry_keys(after) =~= entry_keys(before));
                        assert forall|j: int| 0 <= j < after.len() implies #[trigger] after[j].key@
                            == before[j].key@ by {}
                        assert forall|kk: Seq<char>| #[trigger] entries_view(after).contains_key(kk)
                            == entries_view(before).contains_key(kk) by {
                            if entries_view(after).contains_key(kk) {
                                let j = choose|j: int| 0 <= j < after.len() && (#[trigger] after[j]).key@ == kk;
                                assert(before[j].key@ == kk);
                            }
                            if entries_view(before).contains_key(kk) {
                                let j = choose|j: int| 0 <= j < before.len() && (#[trigger] before[j]).key@ == kk;
                                assert(after[j].key@ == kk);
                            }
                        }
                        assert forall|kk: Seq<char>| #[trigger] entries_view(after).contains_key(kk)
                            implies entries_view(after)[kk] == entries_view(before).insert(
                            k,
                            (before[i as int].option.value@, label@),
                        )[kk] by {
                            let j = choose|j: int| 0 <= j < after.len() && (#[trigger] after[j]).key@ == kk;
                            lemma_entry_at(after, j);
                            lemma_entry_at(before, j);
                        }
                        assert(entries_view(after) =~= entries_view(before).insert(
                            k,
                            (before[i as int].option.value@, label@),
                        ));
                    }
                }
            },
            None => {
                let entry = OptionEntry { key, option: FilterOption { value, label } };
                self.entries.push(entry);
                proof {
                    let after = self.entries@;
                    let k = after[after.len() - 1].key@;
                    assert(after.drop_last() =~= before);
                    assert(entry_keys(after) =~= entry_keys(before).push(k));
                    assert(!entry_keys(before).contains(k)) by {
                        if entry_keys(before).contains(k) {
                            let m = choose|m: int| 0 <= m < entry_keys(before).len() && entry_keys(before)[m] == k;
                            assert(before[m].key@ == k);
                        }
                    }
                    assert forall|a: int, b: int|
                        0 <= a < entry_keys(after).len() && 0 <= b < entry_keys(after).len() && a != b
                            implies entry_keys(after)[a] != entry_keys(after)[b] by {
                        if a == after.len() - 1 {
                            assert(entry_keys(before)[b] == entry_keys(after)[b]);
                        } else if b == after.len() - 1 {
                            assert(entry_keys(before)[a] == entry_keys(after)[a]);
                        }
                    }
                    assert forall|j: int| 0 <= j < after.len() implies (#[trigger] after[j]).key@
                        == option_key(after[j].option.value@) by {
                        if j < before.len() {
                            assert(after[j] == before[j]);
                        }
                    }
                    assert forall|kk: Seq<char>| #[trigger] entries_view(after).contains_key(kk)
                        == entries_view(before).insert(k, after[after.len() - 1].option@).contains_key(kk) by {
                        if entries_view(after).contains_key(kk) {
                            let j = choose|j: int| 0 <= j < after.len() && (#[trigger] after[j]).key@ == kk;
                            if j < before.len() {
                                assert(before[j] == after[j]);
                            }
                        }
                        if entries_view(before).contains_key(kk) {
                            let j = choose|j: int| 0 <= j < before.len() && (#[trigger] before[j]).key@ == kk;
                            assert(after[j] == before[j]);
                        }
                        if kk == k {
                            assert(after[after.len() - 1].key@ == kk);
                        }
                    }
                    assert forall|kk: Seq<char>| #[trigger] entries_view(after).contains_key(kk)
                        implies entries_view(after)[kk] == entries_view(before).insert(
                        k,
                        after[after.len() - 1].option@,
                    )[kk] by {
                        let j = choose|j: int| 0 <= j < after.len() && (#[trigger] after[j]).key@ == kk;
                        lemma_entry_at(after, j);
                        if j < before.len() {
                            assert(before[j] == after[j]);
                            lemma_entry_at(before, j);
                        }
                    }
                    assert(entries_view(after) =~= entries_view(before).insert(
                        k,
                        after[after.len() - 1].option@,
                    ));
                }
            },
        }
    }
}


/// Adding `a` and then `b` is adding `a + b`.
pub proof fn lemma_insert_all_append(
    m: Map<Seq<char>, (Seq<char>, Seq<char>)>,
    a: Seq<(Seq<char>, Seq<char>)>,
    b: Seq<(Seq<char>, Seq<char>)>,
)
    ensures
        spec_insert_all(m, a + b) == spec_insert_all(spec_insert_all(m, a), b),
    decreases b.len(),
{
    if b.len() == 0 {
        assert(a + b =~= a);
    } else {
        lemma_insert_all_append(m, a, b.drop_last());
        assert((a + b).drop_last() =~= a + b.drop_last());
        assert((a + b).last() == b.last());
    }
}

/// Adding a single option.
pub proof fn lemma_insert_all_single(
    m: Map<Seq<char>, (Seq<char>, Seq<char>)>,
    value: Seq<char>,
    label: Seq<char>,
)
    ensures
        spec_insert_all(m, seq![(value, label)]) == spec_insert_option(m, value, label),
{
    let c = seq![(value, label)];
    assert(c.drop_last() =~= Seq::<(Seq<char>, Seq<char>)>::empty());
    assert(spec_insert_all(m, c.drop_last()) == m);
}

/// Text pairs of a list of string pairs.
pub open spec fn pairs_view(pairs: Seq<(String, String)>) -> Seq<(Seq<char>, Seq<char>)> {
    pairs.map_values(|p: (String, String)| (p.0@, p.1@))
}

/// What the dictionaries read of one course variant.
pub struct VariantOptionFacts {
    /// The hundreds band of the course number, where the number is known and has one.
    pub course_number_band: Option<u32>,
    /// The course level, where it is known.
    pub level: Option<String>,
    /// The subject code, where it is known.
    pub subject_code: Option<String>,
    /// The core curriculum codes, where they are known.
    pub core_codes: Option<Vec<String>>,
}

/// What the dictionaries read of one section.
pub struct SectionOptionFacts {
    /// The instructor names, where they are known.
    pub instructors: Option<Vec<String>>,
    /// The exam code, where it is known.
    pub exam_code: Option<String>,
    /// The exam code's description, where it is known.
    pub exam_code_text: Option<String>,
}

/// What the dictionaries read of one meeting occurrence.
pub struct OccurrenceOptionFacts {
    /// The campus code, where it is known.
    pub campus: Option<String>,
    /// The campus name, where it is known.
    pub campus_name: Option<String>,
}

/// What the dictionaries read of one published Catalog.
pub struct CatalogOptionFacts {
    pub variants: Vec<VariantOptionFacts>,
    pub sections: Vec<SectionOptionFacts>,
    pub occurrences: Vec<OccurrenceOptionFacts>,
}

/// The candidates of each item, one list after another.
pub open spec fn flat_map<T>(
    items: Seq<T>,
    f: spec_fn(T) -> Seq<(Seq<char>, Seq<char>)>,
) -> Seq<(Seq<char>, Seq<char>)>
    decreases items.len(),
{
    if items.len() == 0 {
        Seq::empty()
    } else {
        flat_map(items.drop_last(), f) + f(items.last())
    }
}

/// The separator between a code and its description in a label.
pub open spec fn label_separator() -> Seq<char> {
    seq![' ', '\u{b7}', ' ']
}

/// The label of a course-number band: `bbb-uuu`, both ends with three digits.
pub open spec fn band_label(band: nat) -> Seq<char> {
    zero_padded(decimal(band), 3) + seq!['-'] + zero_padded(decimal(band + 99), 3)
}

/// The label of a course level: the two known levels are spelled out.
pub open spec fn level_label(level: Seq<char>) -> Seq<char> {
    if level == seq!['U'] {
        seq!['U'] + label_separator() + "Undergraduate"@
    } else if level == seq!['G'] {
        seq!['G'] + label_separator() + "Graduate"@
    } else {
        level
    }
}

/// A text with its surrounding whitespace removed, when anything is left.
pub open spec fn trimmed_present(text: Option<String>) -> Option<Seq<char>> {
    match text {
        Some(t) => if trim(t@).len() > 0 {
            Some(trim(t@))
        } else {
            None
        },
        None => None,
    }
}

/// The option of a variant for the band or level field.
pub open spec fn variant_candidates(v: VariantOptionFacts, field: FilterOptionsField) -> Seq<
    (Seq<char>, Seq<char>),
> {
    if field == FilterOptionsField::CourseNumberBand {
        match v.course_number_band {
            Some(b) => seq![(decimal(b as nat), band_label(b as nat))],
            None => Seq::empty(),
        }
    } else {
        match trimmed_present(v.level) {
            Some(l) => seq![(ascii_upper(l), level_label(ascii_upper(l)))],
            None => Seq::empty(),
        }
    }
}

/// No query, or the value contains it, both in Unicode lowercase.
pub open spec fn query_matches(value: Seq<char>, query: Option<Seq<char>>) -> bool {
    match query {
        None => true,
        Some(q) => contains_seq(unicode_lowercase(value), unicode_lowercase(q)),
    }
}

/// The option of one instructor name: its words joined by single spaces.
pub open spec fn instructor_candidate(name: Seq<char>, query: Option<Seq<char>>) -> Seq<
    (Seq<char>, Seq<char>),
> {
    let n = collapse_whitespace(name);
    if n.len() > 0 && query_matches(n, query) {
        seq![(n, n)]
    } else {
        Seq::empty()
    }
}

/// The options of several instructor names, in order.
pub open spec fn names_candidates(names: Seq<String>, query: Option<Seq<char>>) -> Seq<
    (Seq<char>, Seq<char>),
> {
    flat_map(names, |name: String| instructor_candidate(name@, query))
}

/// The option of a code with an optional description: the code in ASCII uppercase labelled
/// with the description; a description alone stands for itself in uppercase.
pub open spec fn code_candidates(code: Option<String>, text: Option<String>) -> Seq<
    (Seq<char>, Seq<char>),
> {
    match (trimmed_present(code), trimmed_present(text)) {
        (Some(c), Some(d)) => seq![(ascii_upper(c), ascii_upper(c) + label_separator() + d)],
        (Some(c), None) => seq![(ascii_upper(c), ascii_upper(c))],
        (None, Some(d)) => seq![(ascii_upper(d), d)],
        (None, None) => Seq::empty(),
    }
}

/// The options of a section for the instructor or exam-code field.
pub open spec fn section_candidates(
    s: SectionOptionFacts,
    field: FilterOptionsField,
    query: Option<Seq<char>>,
) -> Seq<(Seq<char>, Seq<char>)> {
    if field == FilterOptionsField::Instructor {
        match s.instructors {
            Some(names) => names_candidates(names@, query),
            None => Seq::empty(),
        }
    } else {
        code_candidates(s.exam_code, s.exam_code_text)
    }
}

/// The option of a meeting occurrence: its campus code and name.
pub open spec fn occurrence_candidates(o: OccurrenceOptionFacts) -> Seq<(Seq<char>, Seq<char>)> {
    code_candidates(o.campus, o.campus_name)
}

/// The options of several variants, in order.
pub open spec fn variants_candidates(vs: Seq<VariantOptionFacts>, field: FilterOptionsField) -> Seq<
    (Seq<char>, Seq<char>),
> {
    flat_map(vs, |v: VariantOptionFacts| variant_candidates(v, field))
}

/// The options of several sections, in order.
pub open spec fn sections_candidates(
    ss: Seq<SectionOptionFacts>,
    field: FilterOptionsField,
    query: Option<Seq<char>>,
) -> Seq<(Seq<char>, Seq<char>)> {
    flat_map(ss, |s: SectionOptionFacts| section_candidates(s, field, query))
}

/// The options of several occurrences, in order.
pub open spec fn occurrences_candidates(os: Seq<OccurrenceOptionFacts>) -> Seq<
    (Seq<char>, Seq<char>),
> {
    flat_map(os, |o: OccurrenceOptionFacts| occurrence_candidates(o))
}

/// The options one Catalog offers for a field, in the order they are added. Keywords come
/// from the full-text index, not from the Catalog; only instructors are filtered by the query.
pub open spec fn catalog_candidates(
    c: CatalogOptionFacts,
    field: FilterOptionsField,
    query: Option<Seq<char>>,
) -> Seq<(Seq<char>, Seq<char>)> {
    match field {
        FilterOptionsField::Keyword => Seq::empty(),
        FilterOptionsField::CourseNumberBand | FilterOptionsField::CourseLevel => variants_candidates(
            c.variants@,
            field,
        ),
        FilterOptionsField::Instructor | FilterOptionsField::ExamCode => sections_candidates(
            c.sections@,
            field,
            query,
        ),
        FilterOptionsField::MeetingLocation => occurrences_candidates(c.occurrences@),
    }
}

/// The options of several Catalogs, in order.
pub open spec fn catalogs_candidates(
    cs: Seq<CatalogOptionFacts>,
    field: FilterOptionsField,
    query: Option<Seq<char>>,
) -> Seq<(Seq<char>, Seq<char>)> {
    flat_map(cs, |c: CatalogOptionFacts| catalog_candidates(c, field, query))
}

/// The dictionary of a field over several Catalogs.
pub open spec fn spec_collect_catalog_options(
    catalogs: Seq<CatalogOptionFacts>,
    field: FilterOptionsField,
    query: Option<Seq<char>>,
) -> Map<Seq<char>, (Seq<char>, Seq<char>)> {
    spec_insert_all(Map::empty(), catalogs_candidates(catalogs, field, query))
}

/// A query as text.
pub open spec fn query_view(query: Option<&str>) -> Option<Seq<char>> {
    match query {
        Some(q) => Some(q@),
        None => None,
    }
}


/// The candidates of the first `i + 1` items are those of the first `i` and then item `i`'s.
proof fn lemma_flat_map_step<T>(items: Seq<T>, f: spec_fn(T) -> Seq<(Seq<char>, Seq<char>)>, i: int)
    requires
        0 <= i < items.len(),
    ensures
        flat_map(items.subrange(0, i + 1), f) == flat_map(items.subrange(0, i), f) + f(items[i]),
{
    let s = items.subrange(0, i + 1);
    assert(s.drop_last() =~= items.subrange(0, i));
    assert(s.last() == items[i]);
}

/// Adds string pairs one after another.
fn insert_each(dict: &mut OptionDictionary, pairs: &Vec<(String, String)>)
    requires
        old(dict).wf(),
    ensures
        final(dict).wf(),
        final(dict)@ == spec_insert_all(old(dict)@, pairs_view(pairs@)),
{
    let ghost start = dict@;
    let mut i: usize = 0;
    while i < pairs.len()
        invariant
            i <= pairs@.len(),
            dict.wf(),
            dict@ == spec_insert_all(start, pairs_view(pairs@.subrange(0, i as int))),
        decreases pairs.len() - i,
    {
        dict.insert_option(pairs[i].0.clone(), pairs[i].1.clone());
        proof {
            let v = pairs_view(pairs@.subrange(0, i + 1));
            assert(v.drop_last() =~= pairs_view(pairs@.subrange(0, i as int)));
            assert(v.last() == (pairs@[i as int].0@, pairs@[i as int].1@));
        }
        i = i + 1;
    }
    proof {
        assert(pairs@.subrange(0, pairs@.len() as int) =~= pairs@);
    }
}

/// A text with its surrounding whitespace removed, when anything is left.
fn trimmed_present_exec(text: &Option<String>) -> (res: Option<String>)
    ensures
        match res {
            Some(t) => trimmed_present(*text) == Some(t@),
            None => trimmed_present(*text) is None,
        },
{
    match text {
        Some(t) => {
            let n = t.as_str().unicode_len();
            let (lo, hi) = trim_range(t.as_str(), 0, n);
            proof {
                assert(t@.subrange(0, n as int) =~= t@);
            }
            if lo == hi {
                None
            } else {
                Some(t.as_str().substring_char(lo, hi).to_string())
            }
        },
        None => None,
    }
}

/// A candidate list with one pair.
fn single(value: String, label: String) -> (res: Vec<(String, String)>)
    ensures
        pairs_view(res@) == seq![(value@, label@)],
{
    let mut res: Vec<(String, String)> = Vec::new();
    res.push((value, label));
    proof {
        assert(pairs_view(res@) =~= seq![(value@, label@)]);
    }
    res
}

/// The option of a variant for the band or level field.
fn variant_candidate_exec(v: &VariantOptionFacts, field: FilterOptionsField) -> (res: Vec<
    (String, String),
>)
    ensures
        pairs_view(res@) == variant_candidates(*v, field),
{
    if field == FilterOptionsField::CourseNumberBand {
        match v.course_number_band {
            Some(b) => {
                let value = decimal_string(b as u64);
                let mut label = String::new();
                push_decimal_width3(&mut label, b as u64);
                label.append("-");
                push_decimal_width3(&mut label, b as u64 + 99);
                proof {
                    reveal_strlit("-");
                    assert(label@ =~= band_label(b as nat));
                }
                single(value, label)
            },
            None => {
                let res: Vec<(String, String)> = Vec::new();
                proof {
                    assert(pairs_view(res@) =~= Seq::empty());
                }
                res
            },
        }
    } else {
        match trimmed_present_exec(&v.level) {
            Some(l) => {
                let upper = to_ascii_uppercase(l.as_str());
                let label = if str_eq(upper.as_str(), "U") {
                    let mut t = upper.clone();
                    t.append(" \u{b7} ");
                    t.append("Undergraduate");
                    proof {
                        reveal_strlit("U");
                        reveal_strlit(" \u{b7} ");
                        assert("U"@ =~= seq!['U']);
                        assert(t@ =~= level_label(upper@));
                    }
                    t
                } else if str_eq(upper.as_str(), "G") {
                    let mut t = upper.clone();
                    t.append(" \u{b7} ");
                    t.append("Graduate");
                    proof {
                        reveal_strlit("U");
                        reveal_strlit("G");
                        reveal_strlit(" \u{b7} ");
                        assert("U"@ =~= seq!['U']);
                        assert("G"@ =~= seq!['G']);
                        assert(upper@ != seq!['U']);
                        assert(t@ =~= level_label(upper@));
                    }
                    t
                } else {
                    proof {
                        reveal_strlit("U");
                        reveal_strlit("G");
                        assert("U"@ =~= seq!['U']);
                        assert("G"@ =~= seq!['G']);
                        assert(upper@ != seq!['U']);
                        assert(upper@ != seq!['G']);
                    }
                    upper.clone()
                };
                single(upper, label)
            },
            None => {
                let res: Vec<(String, String)> = Vec::new();
                proof {
                    assert(pairs_view(res@) =~= Seq::empty());
                }
                res
            },
        }
    }
}

/// No query, or the value contains it, both in Unicode lowercase.
pub fn query_matches_exec(value: &str, query: Option<&str>) -> (res: bool)
    ensures
        res == query_matches(value@, query_view(query)),
{
    match query {
        None => true,
        Some(q) => {
            let v = to_lowercase(value);
            let l = to_lowercase(q);
            str_contains(v.as_str(), l.as_str())
        },
    }
}

/// The options of a code with an optional description.
fn code_candidates_exec(code: &Option<String>, text: &Option<String>) -> (res: Vec<(String, String)>)
    ensures
        pairs_view(res@) == code_candidates(*code, *text),
{
    let c = trimmed_present_exec(code);
    let d = trimmed_present_exec(text);
    match (c, d) {
        (Some(c), Some(d)) => {
            let upper = to_ascii_uppercase(c.as_str());
            let mut label = upper.clone();
            label.append(" \u{b7} ");
            label.append(d.as_str());
            proof {
                reveal_strlit(" \u{b7} ");
                assert(label@ =~= ascii_upper(c@) + label_separator() + d@);
            }
            single(upper, label)
        },
        (Some(c), None) => {
            let upper = to_ascii_uppercase(c.as_str());
            let label = upper.clone();
            single(upper, label)
        },
        (None, Some(d)) => {
            let upper = to_ascii_uppercase(d.as_str());
            single(upper, d)
        },
        (None, None) => {
            let res: Vec<(String, String)> = Vec::new();
            proof {
                assert(pairs_view(res@) =~= Seq::empty());
            }
            res
        },
    }
}


/// Adds the options of several instructor names.
fn insert_names(dict: &mut OptionDictionary, names: &Vec<String>, query: Option<&str>)
    requires
        old(dict).wf(),
    ensures
        final(dict).wf(),
        final(dict)@ == spec_insert_all(old(dict)@, names_candidates(names@, query_view(query))),
{
    let ghost start = dict@;
    let ghost q = query_view(query);
    let mut i: usize = 0;
    while i < names.len()
        invariant
            i <= names@.len(),
            q == query_view(query),
            dict.wf(),
            dict@ == spec_insert_all(start, names_candidates(names@.subrange(0, i as int), q)),
        decreases names.len() - i,
    {
        let normalized = collapse_whitespace_exec(names[i].as_str());
        let ghost before = dict@;
        if normalized.as_str().unicode_len() > 0 && query_matches_exec(normalized.as_str(), query) {
            let label = normalized.clone();
            dict.insert_option(normalized, label);
        }
        proof {
            lemma_flat_map_step(names@, |name: String| instructor_candidate(name@, q), i as int);
            let c = instructor_candidate(names@[i as int]@, q);
            lemma_insert_all_append(start, names_candidates(names@.subrange(0, i as int), q), c);
            if c.len() == 1 {
                assert(spec_insert_all(before, c) == spec_insert_option(
                    spec_insert_all(before, c.drop_last()),
                    c.last().0,
                    c.last().1,
                ));
                assert(c.drop_last() =~= Seq::<(Seq<char>, Seq<char>)>::empty());
            }
        }
        i = i + 1;
    }
    proof {
        assert(names@.subrange(0, names@.len() as int) =~= names@);
    }
}

/// Adds the options of several variants for the band or level field.
fn insert_variants(dict: &mut OptionDictionary, vs: &Vec<VariantOptionFacts>, field: FilterOptionsField)
    requires
        old(dict).wf(),
    ensures
        final(dict).wf(),
        final(dict)@ == spec_insert_all(old(dict)@, variants_candidates(vs@, field)),
{
    let ghost start = dict@;
    let mut i: usize = 0;
    while i < vs.len()
        invariant
            i <= vs@.len(),
            dict.wf(),
            dict@ == spec_insert_all(start, variants_candidates(vs@.subrange(0, i as int), field)),
        decreases vs.len() - i,
    {
        let pairs = variant_candidate_exec(&vs[i], field);
        insert_each(dict, &pairs);
        proof {
            lemma_flat_map_step(vs@, |v: VariantOptionFacts| variant_candidates(v, field), i as int);
            lemma_insert_all_append(
                start,
                variants_candidates(vs@.subrange(0, i as int), field),
                variant_candidates(vs@[i as int], field),
            );
        }
        i = i + 1;
    }
    proof {
        assert(vs@.subrange(0, vs@.len() as int) =~= vs@);
    }
}

/// Adds the options of several sections for the instructor or exam-code field.
fn insert_sections(
    dict: &mut OptionDictionary,
    ss: &Vec<SectionOptionFacts>,
    field: FilterOptionsField,
    query: Option<&str>,
)
    requires
        old(dict).wf(),
    ensures
        final(dict).wf(),
        final(dict)@ == spec_insert_all(
            old(dict)@,
            sections_candidates(ss@, field, query_view(query)),
        ),
{
    let ghost start = dict@;
    let ghost q = query_view(query);
    let mut i: usize = 0;
    while i < ss.len()
        invariant
            i <= ss@.len(),
            q == query_view(query),
            dict.wf(),
            dict@ == spec_insert_all(start, sections_candidates(ss@.subrange(0, i as int), field, q)),
        decreases ss.len() - i,
    {
        let section = &ss[i];
        if field == FilterOptionsField::Instructor {
            match &section.instructors {
                Some(names) => insert_names(dict, names, query),
                None => {
                    proof {
                        assert(spec_insert_all(dict@, Seq::empty()) == dict@);
                    }
                },
            }
        } else {
            let pairs = code_candidates_exec(&section.exam_code, &section.exam_code_text);
            insert_each(dict, &pairs);
        }
        proof {
            lemma_flat_map_step(ss@, |s: SectionOptionFacts| section_candidates(s, field, q), i as int);
            lemma_insert_all_append(
                start,
                sections_candidates(ss@.subrange(0, i as int), field, q),
                section_candidates(ss@[i as int], field, q),
            );
        }
        i = i + 1;
    }
    proof {
        assert(ss@.subrange(0, ss@.len() as int) =~= ss@);
    }
}

/// Adds the options of several meeting occurrences.
fn insert_occurrences(dict: &mut OptionDictionary, os: &Vec<OccurrenceOptionFacts>)
    requires
        old(dict).wf(),
    ensures
        final(dict).wf(),
        final(dict)@ == spec_insert_all(old(dict)@, occurrences_candidates(os@)),
{
    let ghost start = dict@;
    let mut i: usize = 0;
    while i < os.len()
        invariant
            i <= os@.len(),
            dict.wf(),
            dict@ == spec_insert_all(start, occurrences_candidates(os@.subrange(0, i as int))),
        decreases os.len() - i,
    {
        let pairs = code_candidates_exec(&os[i].campus, &os[i].campus_name);
        insert_each(dict, &pairs);
        proof {
            lemma_flat_map_step(os@, |o: OccurrenceOptionFacts| occurrence_candidates(o), i as int);
            lemma_insert_all_append(
                start,
                occurrences_candidates(os@.subrange(0, i as int)),
                occurrence_candidates(os@[i as int]),
            );
        }
        i = i + 1;
    }
    proof {
        assert(os@.subrange(0, os@.len() as int) =~= os@);
    }
}

/// The options of one filter field over the given Catalogs, one per case-insensitive value:
/// course-number bands, levels, instructors (only those matching the query), meeting
/// locations and exam codes. Keywords are not taken from Catalogs, so that field is empty.
pub fn collect_catalog_options(
    catalogs: &Vec<CatalogOptionFacts>,
    field: FilterOptionsField,
    query: Option<&str>,
) -> (res: OptionDictionary)
    ensures
        res.wf(),
        res@ == spec_collect_catalog_options(catalogs@, field, query_view(query)),
{
    let ghost q = query_view(query);
    let mut dict = OptionDictionary::new();
    let mut i: usize = 0;
    while i < catalogs.len()
        invariant
            i <= catalogs@.len(),
            q == query_view(query),
            dict.wf(),
            dict@ == spec_insert_all(
                Map::empty(),
                catalogs_candidates(catalogs@.subrange(0, i as int), field, q),
            ),
        decreases catalogs.len() - i,
    {
        let catalog = &catalogs[i];
        match field {
            FilterOptionsField::Keyword => {
                proof {
                    assert(spec_insert_all(dict@, Seq::empty()) == dict@);
                }
            },
            FilterOptionsField::CourseNumberBand | FilterOptionsField::CourseLevel => {
                insert_variants(&mut dict, &catalog.variants, field);
            },
            FilterOptionsField::Instructor | FilterOptionsField::ExamCode => {
                insert_sections(&mut dict, &catalog.sections, field, query);
            },
            FilterOptionsField::MeetingLocation => {
                insert_occurrences(&mut dict, &catalog.occurrences);
            },
        }
        proof {
            lemma_flat_map_step(
                catalogs@,
                |c: CatalogOptionFacts| catalog_candidates(c, field, q),
                i as int,
            );
            lemma_insert_all_append(
                Map::empty(),
                catalogs_candidates(catalogs@.subrange(0, i as int), field, q),
                catalog_candidates(catalogs@[i as int], field, q),
            );
        }
        i = i + 1;
    }
    proof {
        assert(catalogs@.subrange(0, catalogs@.len() as int) =~= catalogs@);
    }
    dict
}


/// Where a band value sorts: its number, and values that are no number last.
pub open spec fn band_rank(value: Seq<char>) -> nat {
    match parse_u32(value) {
        Some(n) => n as nat,
        None => u32::MAX as nat,
    }
}

/// The listing order of options. Bands sort by number, and options of equal number keep the
/// order of their keys. Every other field sorts by lowercase label, then by value.
pub open spec fn option_precedes(
    field: FilterOptionsField,
    a: (Seq<char>, Seq<char>),
    b: (Seq<char>, Seq<char>),
) -> bool {
    if field == FilterOptionsField::CourseNumberBand {
        band_rank(a.0) < band_rank(b.0) || (band_rank(a.0) == band_rank(b.0) && seq_lt(
            option_key(a.0),
            option_key(b.0),
        ))
    } else {
        seq_lt(unicode_lowercase(a.1), unicode_lowercase(b.1)) || (unicode_lowercase(a.1)
            == unicode_lowercase(b.1) && seq_lt(a.0, b.0))
    }
}

/// The listing order is a strict order, total on options with distinct keys.
pub proof fn lemma_option_order(
    field: FilterOptionsField,
    a: (Seq<char>, Seq<char>),
    b: (Seq<char>, Seq<char>),
    c: (Seq<char>, Seq<char>),
)
    ensures
        !option_precedes(field, a, a),
        option_key(a.0) != option_key(b.0) ==> option_precedes(field, a, b) || option_precedes(
            field,
            b,
            a,
        ),
        option_precedes(field, a, b) && option_precedes(field, b, c) ==> option_precedes(
            field,
            a,
            c,
        ),
{
    lemma_seq_lt_irreflexive(a.0);
    lemma_seq_lt_irreflexive(option_key(a.0));
    lemma_seq_lt_irreflexive(unicode_lowercase(a.1));
    lemma_seq_lt_total(option_key(a.0), option_key(b.0));
    lemma_seq_lt_total(a.0, b.0);
    lemma_seq_lt_total(unicode_lowercase(a.1), unicode_lowercase(b.1));
    if seq_lt(option_key(a.0), option_key(b.0)) && seq_lt(option_key(b.0), option_key(c.0)) {
        lemma_seq_lt_transitive(option_key(a.0), option_key(b.0), option_key(c.0));
    }
    if seq_lt(a.0, b.0) && seq_lt(b.0, c.0) {
        lemma_seq_lt_transitive(a.0, b.0, c.0);
    }
    if seq_lt(unicode_lowercase(a.1), unicode_lowercase(b.1)) && seq_lt(
        unicode_lowercase(b.1),
        unicode_lowercase(c.1),
    ) {
        lemma_seq_lt_transitive(unicode_lowercase(a.1), unicode_lowercase(b.1), unicode_lowercase(c.1));
    }
}

/// The text pairs of a list of options.
pub open spec fn options_view(options: Seq<FilterOption>) -> Seq<(Seq<char>, Seq<char>)> {
    options.map_values(|o: FilterOption| o@)
}

/// `s` lists options of `m` in strictly increasing order, each as `m` holds it.
pub open spec fn lists_in_order(
    m: Map<Seq<char>, (Seq<char>, Seq<char>)>,
    field: FilterOptionsField,
    s: Seq<(Seq<char>, Seq<char>)>,
) -> bool {
    &&& forall|i: int, j: int|
        0 <= i < j < s.len() ==> option_precedes(field, #[trigger] s[i], #[trigger] s[j])
    &&& forall|i: int|
        0 <= i < s.len() ==> m.contains_key(option_key((#[trigger] s[i]).0)) && m[option_key(
            s[i].0,
        )] == s[i]
}

/// `s` lists every option of `m`.
pub open spec fn lists_every(m: Map<Seq<char>, (Seq<char>, Seq<char>)>, s: Seq<(Seq<char>, Seq<char>)>) -> bool {
    forall|k: Seq<char>|
        #[trigger] m.contains_key(k) ==> exists|i: int| 0 <= i < s.len() && option_key(s[i].0) == k
}

/// Whether `a` lists before `b`.
fn precedes_exec(field: FilterOptionsField, a: &FilterOption, a_key: &String, b: &FilterOption, b_key: &String) -> (res: bool)
    requires
        a_key@ == option_key(a.value@),
        b_key@ == option_key(b.value@),
    ensures
        res == option_precedes(field, a@, b@),
{
    if field == FilterOptionsField::CourseNumberBand {
        let ra: u64 = match parse_u32_exec(a.value.as_str()) {
            Some(n) => n as u64,
            None => 4294967295,
        };
        let rb: u64 = match parse_u32_exec(b.value.as_str()) {
            Some(n) => n as u64,
            None => 4294967295,
        };
        ra < rb || (ra == rb && str_lt(a_key.as_str(), b_key.as_str()))
    } else {
        let la = to_lowercase(a.label.as_str());
        let lb = to_lowercase(b.label.as_str());
        str_lt(la.as_str(), lb.as_str()) || (str_eq(la.as_str(), lb.as_str()) && str_lt(
            a.value.as_str(),
            b.value.as_str(),
        ))
    }
}

/// Entries whose keys are those of their values.
spec fn keyed(entries: Seq<OptionEntry>) -> bool {
    forall|i: int| 0 <= i < entries.len() ==> (#[trigger] entries[i]).key@ == option_key(entries[i].option.value@)
}

/// Entries in strictly increasing listing order.
spec fn entries_sorted(field: FilterOptionsField, entries: Seq<OptionEntry>) -> bool {
    forall|i: int, j: int|
        0 <= i < j < entries.len() ==> option_precedes(
            field,
            (#[trigger] entries[i]).option@,
            (#[trigger] entries[j]).option@,
        )
}

/// Inserts `e` at its place in a sorted list whose keys all differ from `e`'s.
fn insert_in_order(out: &mut Vec<OptionEntry>, e: OptionEntry, field: FilterOptionsField)
    requires
        entries_sorted(field, old(out)@),
        keyed(old(out)@),
        e.key@ == option_key(e.option.value@),
        forall|q: int| 0 <= q < old(out)@.len() ==> (#[trigger] old(out)@[q]).key@ != e.key@,
    ensures
        entries_sorted(field, final(out)@),
        exists|p: int| 0 <= p <= old(out)@.len() && final(out)@ == old(out)@.insert(p, e),
{
    let mut p: usize = 0;
    while p < out.len() && !precedes_exec(field, &e.option, &e.key, &out[p].option, &out[p].key)
        invariant
            p <= out@.len(),
            keyed(out@),
            e.key@ == option_key(e.option.value@),
            forall|q: int| 0 <= q < p ==> !option_precedes(field, e.option@, (#[trigger] out@[q]).option@),
        decreases out.len() - p,
    {
        p = p + 1;
    }
    let ghost old_out = out@;
    out.insert(p, e);
    proof {
        assert forall|q: int| 0 <= q < p implies option_precedes(field, (#[trigger] old_out[q]).option@, e.option@) by {
            lemma_option_order(field, old_out[q].option@, e.option@, e.option@);
        }
        assert forall|q: int| p <= q < old_out.len() implies option_precedes(field, e.option@, (#[trigger] old_out[q]).option@) by {
            if q > p {
                lemma_option_order(field, e.option@, old_out[p as int].option@, old_out[q].option@);
            }
        }
        assert forall|i: int, j: int| 0 <= i < j < out@.len() implies option_precedes(field, (#[trigger] out@[i]).option@, (#[trigger] out@[j]).option@) by {
            let i0 = if i < p { i } else { i - 1 };
            let j0 = if j < p { j } else { j - 1 };
            if i == p {
                assert(out@[j] == old_out[j0]);
            } else if j == p {
                assert(out@[i] == old_out[i0]);
            } else {
                assert(out@[i] == old_out[i0]);
                assert(out@[j] == old_out[j0]);
            }
        }
    }
}

/// The options of a list of entries, in the same order.
fn entry_options(entries: Vec<OptionEntry>) -> (res: Vec<FilterOption>)
    ensures
        options_view(res@) == entries@.map_values(|e: OptionEntry| e.option@),
{
    let ghost sorted = entries@;
    let mut it = entries;
    let mut reversed: Vec<FilterOption> = Vec::new();
    while it.len() > 0
        invariant
            it@ == sorted.subrange(0, it.len() as int),
            reversed@.len() == sorted.len() - it.len(),
            forall|i: int| 0 <= i < reversed@.len() ==> (#[trigger] reversed@[i])@ == sorted[sorted.len() - 1 - i].option@,
        decreases it.len(),
    {
        let e = it.pop().unwrap();
        reversed.push(e.option);
    }
    let mut res: Vec<FilterOption> = Vec::new();
    while reversed.len() > 0
        invariant
            reversed@.len() + res@.len() == sorted.len(),
            forall|i: int| 0 <= i < reversed@.len() ==> (#[trigger] reversed@[i])@ == sorted[sorted.len() - 1 - i].option@,
            forall|i: int| 0 <= i < res@.len() ==> (#[trigger] res@[i])@ == sorted[i].option@,
        decreases reversed.len(),
    {
        let o = reversed.pop().unwrap();
        res.push(o);
    }
    proof {
        assert(options_view(res@) =~= sorted.map_values(|e: OptionEntry| e.option@));
    }
    res
}

/// Every entry of `out` is one of `orig` from index `lo` on.
#[verifier::opaque]
spec fn drawn_from(out: Seq<OptionEntry>, orig: Seq<OptionEntry>, lo: int) -> bool {
    forall|i: int| 0 <= i < out.len() ==> exists|j: int| lo <= j < orig.len() && #[trigger] out[i] == orig[j]
}

/// Every entry of `orig` from index `lo` on is in `out`.
#[verifier::opaque]
spec fn covers_from(out: Seq<OptionEntry>, orig: Seq<OptionEntry>, lo: int) -> bool {
    forall|j: int| lo <= j < orig.len() ==> exists|i: int| 0 <= i < out.len() && out[i] == #[trigger] orig[j]
}

/// Entries drawn from after `r` have keys other than entry `r`'s.
proof fn lemma_listing_keys(orig: Seq<OptionEntry>, old_out: Seq<OptionEntry>, r: int)
    requires
        0 <= r < orig.len(),
        entry_keys(orig).no_duplicates(),
        drawn_from(old_out, orig, r + 1),
    ensures
        forall|q: int| 0 <= q < old_out.len() ==> (#[trigger] old_out[q]).key@ != orig[r].key@,
{
    reveal(drawn_from);
    assert forall|q: int| 0 <= q < old_out.len() implies (#[trigger] old_out[q]).key@ != orig[r].key@ by {
        let j = choose|j: int| r + 1 <= j < orig.len() && old_out[q] == orig[j];
        assert(entry_keys(orig)[j] != entry_keys(orig)[r]);
    }
}

/// Placing entry `r` into a list drawn from the entries after it gives a list drawn from
/// the entries from `r` on, with every one of them in it.
proof fn lemma_listing_step(
    orig: Seq<OptionEntry>,
    old_out: Seq<OptionEntry>,
    out: Seq<OptionEntry>,
    e: OptionEntry,
    r: int,
)
    requires
        0 <= r < orig.len(),
        e == orig[r],
        keyed(orig),
        keyed(old_out),
        exists|p: int| 0 <= p <= old_out.len() && out == old_out.insert(p, e),
        drawn_from(old_out, orig, r + 1),
        covers_from(old_out, orig, r + 1),
    ensures
        keyed(out),
        drawn_from(out, orig, r),
        covers_from(out, orig, r),
{
    reveal(drawn_from);
    reveal(covers_from);
    let p = choose|p: int| 0 <= p <= old_out.len() && out == old_out.insert(p, e);
    assert forall|i: int| 0 <= i < out.len() implies (#[trigger] out[i]).key@ == option_key(out[i].option.value@) by {
        if i != p {
            let i0 = if i < p { i } else { i - 1 };
            assert(out[i] == old_out[i0]);
        }
    }
    assert forall|i: int| 0 <= i < out.len() implies exists|j: int| r <= j < orig.len() && #[trigger] out[i] == orig[j] by {
        if i == p {
            assert(out[i] == orig[r]);
        } else {
            let i0 = if i < p { i } else { i - 1 };
            assert(out[i] == old_out[i0]);
        }
    }
    assert forall|j: int| r <= j < orig.len() implies exists|i: int| 0 <= i < out.len() && out[i] == #[trigger] orig[j] by {
        if j == r {
            assert(out[p] == orig[j]);
        } else {
            let i0 = choose|i0: int| 0 <= i0 < old_out.len() && old_out[i0] == orig[j];
            let i = if i0 < p { i0 } else { i0 + 1 };
            assert(out[i] == orig[j]);
        }
    }
}

impl OptionDictionary {
    /// The options in listing order: every option once, strictly ordered.
    pub fn into_listing(self, field: FilterOptionsField) -> (res: Vec<FilterOption>)
        requires
            self.wf(),
        ensures
            lists_in_order(self@, field, options_view(res@)),
            lists_every(self@, options_view(res@)),
    {
        let ghost orig = self.entries@;
        let ghost m = self@;
        let mut rest = self.entries;
        let mut out: Vec<OptionEntry> = Vec::new();
        proof {
            reveal(drawn_from);
            reveal(covers_from);
        }
        while rest.len() > 0
            invariant
                entry_keys(orig).no_duplicates(),
                keyed(orig),
                m == entries_view(orig),
                rest.len() <= orig.len(),
                rest@ == orig.subrange(0, rest.len() as int),
                keyed(out@),
                entries_sorted(field, out@),
                drawn_from(out@, orig, rest.len() as int),
                covers_from(out@, orig, rest.len() as int),
            decreases rest.len(),
        {
            let ghost r = rest.len() - 1;
            let ghost old_out = out@;
            let e = rest.pop().unwrap();
            proof {
                assert(e == orig[r]);
                lemma_listing_keys(orig, old_out, r);
            }
            insert_in_order(&mut out, e, field);
            proof {
                lemma_listing_step(orig, old_out, out@, e, r);
            }
        }
        let ghost sorted = out@;
        let res = entry_options(out);
        proof {
            reveal(drawn_from);
            reveal(covers_from);
            let v = options_view(res@);
            assert(v.len() == sorted.len());
            assert forall|i: int| 0 <= i < v.len() implies #[trigger] v[i] == sorted[i].option@ by {}
            assert forall|i: int| 0 <= i < v.len() implies m.contains_key(option_key((#[trigger] v[i]).0)) && m[option_key(v[i].0)] == v[i] by {
                let j = choose|j: int| 0 <= j < orig.len() && sorted[i] == orig[j];
                lemma_entry_at(orig, j);
            }
            assert forall|i: int, j: int| 0 <= i < j < v.len() implies option_precedes(field, #[trigger] v[i], #[trigger] v[j]) by {
                assert(v[i] == sorted[i].option@);
                assert(v[j] == sorted[j].option@);
            }
            assert forall|k: Seq<char>| #[trigger] m.contains_key(k) implies exists|i: int| 0 <= i < v.len() && option_key(v[i].0) == k by {
                let j = choose|j: int| 0 <= j < orig.len() && (#[trigger] orig[j]).key@ == k;
                let i = choose|i: int| 0 <= i < sorted.len() && sorted[i] == orig[j];
                assert(v[i] == sorted[i].option@);
                assert(option_key(v[i].0) == k);
            }
        }
        res
    }
}


/// The options of `m` that `s` leaves out all come after every option it lists.
pub open spec fn lists_first(
    m: Map<Seq<char>, (Seq<char>, Seq<char>)>,
    field: FilterOptionsField,
    s: Seq<(Seq<char>, Seq<char>)>,
) -> bool {
    forall|k: Seq<char>, i: int|
        #[trigger] m.contains_key(k) && 0 <= i < s.len() && !(exists|j: int|
            0 <= j < s.len() && option_key(s[j].0) == k) ==> option_precedes(field, #[trigger] s[i], m[k])
}

/// How many options a response may hold: every band, else the requested limit.
pub open spec fn listing_limit(field: FilterOptionsField, limit: usize) -> usize {
    if field == FilterOptionsField::CourseNumberBand {
        usize::MAX
    } else {
        limit
    }
}

/// The first options of a dictionary in listing order, at most `limit` of them except for
/// bands, which are always listed whole, and whether any option was left out.
pub fn filter_option_listing(dict: OptionDictionary, field: FilterOptionsField, limit: usize) -> (res: (
    Vec<FilterOption>,
    bool,
))
    requires
        dict.wf(),
    ensures
        lists_in_order(dict@, field, options_view(res.0@)),
        lists_first(dict@, field, options_view(res.0@)),
        res.0@.len() <= listing_limit(field, limit),
        res.1 ==> res.0@.len() == listing_limit(field, limit),
        res.1 == !lists_every(dict@, options_view(res.0@)),
{
    let ghost m = dict@;
    let requested = if field == FilterOptionsField::CourseNumberBand {
        usize::MAX
    } else {
        limit
    };
    let mut options = dict.into_listing(field);
    let ghost full = options_view(options@);
    let truncated = options.len() > requested;
    options.truncate(requested);
    proof {
        let v = options_view(options@);
        let n = if truncated { requested as int } else { full.len() as int };
        assert(v =~= full.subrange(0, n));
        assert forall|a: int, b: int| 0 <= a < b < full.len() implies option_key(full[a].0) != option_key(full[b].0) by {
            lemma_option_order(field, full[a], full[b], full[a]);
            if option_key(full[a].0) == option_key(full[b].0) {
                assert(full[a] == m[option_key(full[a].0)]);
                assert(full[b] == m[option_key(full[b].0)]);
            }
        }
        assert forall|k: Seq<char>, i: int|
            #[trigger] m.contains_key(k) && 0 <= i < v.len() && !(exists|j: int|
                0 <= j < v.len() && option_key(v[j].0) == k) implies option_precedes(field, #[trigger] v[i], m[k]) by {
            let j = choose|j: int| 0 <= j < full.len() && option_key(full[j].0) == k;
            if j < n {
                assert(v[j] == full[j]);
            }
            assert(v[i] == full[i]);
            assert(m[k] == full[j]);
        }
        if truncated {
            let k = option_key(full[n].0);
            assert(m.contains_key(k));
            if exists|j: int| 0 <= j < v.len() && option_key(v[j].0) == k {
                let j = choose|j: int| 0 <= j < v.len() && option_key(v[j].0) == k;
                assert(v[j] == full[j]);
            }
            assert(!lists_every(m, v));
        } else {
            assert(v =~= full);
        }
    }
    (options, truncated)
}


/// Where the keyword options of one Catalog come from: the terms of its published full-text
/// index and its course identifiers.
pub struct KeywordOptionSource {
    pub fts_terms: Vec<String>,
    pub course_identifiers: Vec<String>,
}

/// A term offered as itself.
pub open spec fn term_candidate(term: Seq<char>) -> Seq<(Seq<char>, Seq<char>)> {
    seq![(term, term)]
}

/// A course identifier offered as itself when it matches the query.
pub open spec fn identifier_candidate(id: Seq<char>, query: Option<Seq<char>>) -> Seq<
    (Seq<char>, Seq<char>),
> {
    if query_matches(id, query) {
        seq![(id, id)]
    } else {
        Seq::empty()
    }
}

/// The keyword options of one Catalog, in the order they are added: the index terms, then
/// the course identifiers that match the query.
pub open spec fn keyword_candidates(src: KeywordOptionSource, query: Option<Seq<char>>) -> Seq<
    (Seq<char>, Seq<char>),
> {
    flat_map(src.fts_terms@, |t: String| term_candidate(t@)) + flat_map(
        src.course_identifiers@,
        |id: String| identifier_candidate(id@, query),
    )
}

/// The keyword options of several Catalogs, in order.
pub open spec fn keywords_candidates(
    sources: Seq<KeywordOptionSource>,
    query: Option<Seq<char>>,
) -> Seq<(Seq<char>, Seq<char>)> {
    flat_map(sources, |src: KeywordOptionSource| keyword_candidates(src, query))
}

/// Adds each term as itself.
fn insert_terms(dict: &mut OptionDictionary, terms: &Vec<String>)
    requires
        old(dict).wf(),
    ensures
        final(dict).wf(),
        final(dict)@ == spec_insert_all(
            old(dict)@,
            flat_map(terms@, |t: String| term_candidate(t@)),
        ),
{
    let ghost start = dict@;
    let mut i: usize = 0;
    while i < terms.len()
        invariant
            i <= terms@.len(),
            dict.wf(),
            dict@ == spec_insert_all(
                start,
                flat_map(terms@.subrange(0, i as int), |t: String| term_candidate(t@)),
            ),
        decreases terms.len() - i,
    {
        let ghost before = dict@;
        dict.insert_option(terms[i].clone(), terms[i].clone());
        proof {
            lemma_flat_map_step(terms@, |t: String| term_candidate(t@), i as int);
            let c = term_candidate(terms@[i as int]@);
            lemma_insert_all_append(
                start,
                flat_map(terms@.subrange(0, i as int), |t: String| term_candidate(t@)),
                c,
            );
            lemma_insert_all_single(before, terms@[i as int]@, terms@[i as int]@);
        }
        i = i + 1;
    }
    proof {
        assert(terms@.subrange(0, terms@.len() as int) =~= terms@);
    }
}

/// Adds each identifier that matches the query as itself.
fn insert_identifiers(dict: &mut OptionDictionary, ids: &Vec<String>, query: Option<&str>)
    requires
        old(dict).wf(),
    ensures
        final(dict).wf(),
        final(dict)@ == spec_insert_all(
            old(dict)@,
            flat_map(ids@, |id: String| identifier_candidate(id@, query_view(query))),
        ),
{
    let ghost start = dict@;
    let ghost q = query_view(query);
    let mut i: usize = 0;
    while i < ids.len()
        invariant
            i <= ids@.len(),
            q == query_view(query),
            dict.wf(),
            dict@ == spec_insert_all(
                start,
                flat_map(ids@.subrange(0, i as int), |id: String| identifier_candidate(id@, q)),
            ),
        decreases ids.len() - i,
    {
        let ghost before = dict@;
        if query_matches_exec(ids[i].as_str(), query) {
            dict.insert_option(ids[i].clone(), ids[i].clone());
        }
        proof {
            lemma_flat_map_step(ids@, |id: String| identifier_candidate(id@, q), i as int);
            let c = identifier_candidate(ids@[i as int]@, q);
            lemma_insert_all_append(
                start,
                flat_map(ids@.subrange(0, i as int), |id: String| identifier_candidate(id@, q)),
                c,
            );
            lemma_insert_all_single(before, ids@[i as int]@, ids@[i as int]@);
        }
        i = i + 1;
    }
    proof {
        assert(ids@.subrange(0, ids@.len() as int) =~= ids@);
    }
}

/// The keyword options over several Catalogs: each index term, then each course identifier
/// that matches the query, one option per case-insensitive value.
pub fn collect_keyword_options(sources: &Vec<KeywordOptionSource>, query: Option<&str>) -> (res:
    OptionDictionary)
    ensures
        res.wf(),
        res@ == spec_insert_all(Map::empty(), keywords_candidates(sources@, query_view(query))),
{
    let ghost q = query_view(query);
    let mut dict = OptionDictionary::new();
    let mut i: usize = 0;
    while i < sources.len()
        invariant
            i <= sources@.len(),
            q == query_view(query),
            dict.wf(),
            dict@ == spec_insert_all(
                Map::empty(),
                keywords_candidates(sources@.subrange(0, i as int), q),
            ),
        decreases sources.len() - i,
    {
        let ghost mid = dict@;
        insert_terms(&mut dict, &sources[i].fts_terms);
        insert_identifiers(&mut dict, &sources[i].course_identifiers, query);
        proof {
            let src = sources@[i as int];
            let a = flat_map(src.fts_terms@, |t: String| term_candidate(t@));
            let b = flat_map(src.course_identifiers@, |id: String| identifier_candidate(id@, q));
            lemma_insert_all_append(mid, a, b);
            lemma_flat_map_step(
                sources@,
                |src: KeywordOptionSource| keyword_candidates(src, q),
                i as int,
            );
            lemma_insert_all_append(
                Map::empty(),
                keywords_candidates(sources@.subrange(0, i as int), q),
                keyword_candidates(src, q),
            );
        }
        i = i + 1;
    }
    proof {
        assert(sources@.subrange(0, sources@.len() as int) =~= sources@);
    }
    dict
}


/// The keyword options of one Catalog, with no query.
pub fn keyword_options_of(src: &KeywordOptionSource) -> (res: OptionDictionary)
    ensures
        res.wf(),
        res@ == spec_insert_all(Map::empty(), keyword_candidates(*src, None)),
{
    let mut dict = OptionDictionary::new();
    insert_terms(&mut dict, &src.fts_terms);
    let ghost mid = dict@;
    insert_identifiers(&mut dict, &src.course_identifiers, None);
    proof {
        lemma_insert_all_append(
            Map::empty(),
            flat_map(src.fts_terms@, |t: String| term_candidate(t@)),
            flat_map(src.course_identifiers@, |id: String| identifier_candidate(id@, None)),
        );
    }
    dict
}

/// The options of one Catalog for a field, with no query.
pub fn catalog_options_of(catalog: &CatalogOptionFacts, field: FilterOptionsField) -> (res:
    OptionDictionary)
    ensures
        res.wf(),
        res@ == spec_insert_all(Map::empty(), catalog_candidates(*catalog, field, None)),
{
    let mut dict = OptionDictionary::new();
    match field {
        FilterOptionsField::Keyword => {},
        FilterOptionsField::CourseNumberBand | FilterOptionsField::CourseLevel => {
            insert_variants(&mut dict, &catalog.variants, field);
        },
        FilterOptionsField::Instructor | FilterOptionsField::ExamCode => {
            insert_sections(&mut dict, &catalog.sections, field, None);
        },
        FilterOptionsField::MeetingLocation => {
            insert_occurrences(&mut dict, &catalog.occurrences);
        },
    }
    dict
}


/// Adding the same option twice is adding it once.
pub proof fn lemma_insert_option_idempotent(
    m: Map<Seq<char>, (Seq<char>, Seq<char>)>,
    value: Seq<char>,
    label: Seq<char>,
)
    ensures
        spec_insert_option(spec_insert_option(m, value, label), value, label)
            == spec_insert_option(m, value, label),
{
}

/// Once a key is present its value keeps the spelling it first had, and its label never
/// gets shorter in bytes.
pub proof fn lemma_insert_option_keeps_first_value(
    m: Map<Seq<char>, (Seq<char>, Seq<char>)>,
    k: Seq<char>,
    value: Seq<char>,
    label: Seq<char>,
)
    requires
        m.contains_key(k),
    ensures
        spec_insert_option(m, value, label).contains_key(k),
        spec_insert_option(m, value, label)[k].0 == m[k].0,
        byte_len(spec_insert_option(m, value, label)[k].1) >= byte_len(m[k].1),
{
}

/// Two strictly ordered lists with the same members are the same list.
proof fn lemma_sorted_members_equal(
    field: FilterOptionsField,
    s1: Seq<(Seq<char>, Seq<char>)>,
    s2: Seq<(Seq<char>, Seq<char>)>,
)
    requires
        forall|i: int, j: int|
            0 <= i < j < s1.len() ==> option_precedes(field, #[trigger] s1[i], #[trigger] s1[j]),
        forall|i: int, j: int|
            0 <= i < j < s2.len() ==> option_precedes(field, #[trigger] s2[i], #[trigger] s2[j]),
        forall|x: (Seq<char>, Seq<char>)| s1.contains(x) <==> s2.contains(x),
    ensures
        s1 == s2,
    decreases s1.len(),
{
    if s1.len() == 0 {
        if s2.len() > 0 {
            assert(s2.contains(s2[0]));
        }
        assert(s1 =~= s2);
    } else {
        assert(s1.contains(s1[0]));
        let j = choose|j: int| 0 <= j < s2.len() && s2[j] == s1[0];
        assert(s2.contains(s2[0]));
        let k = choose|k: int| 0 <= k < s1.len() && s1[k] == s2[0];
        if j > 0 {
            assert(option_precedes(field, s2[0], s2[j]));
            if k > 0 {
                assert(option_precedes(field, s1[0], s1[k]));
            }
            lemma_option_order(field, s1[0], s2[0], s1[0]);
        }
        assert(s2[0] == s1[0]);
        let t1 = s1.drop_first();
        let t2 = s2.drop_first();
        assert forall|i: int, jj: int| 0 <= i < jj < t1.len() implies option_precedes(field, #[trigger] t1[i], #[trigger] t1[jj]) by {
            assert(t1[i] == s1[i + 1] && t1[jj] == s1[jj + 1]);
        }
        assert forall|i: int, jj: int| 0 <= i < jj < t2.len() implies option_precedes(field, #[trigger] t2[i], #[trigger] t2[jj]) by {
            assert(t2[i] == s2[i + 1] && t2[jj] == s2[jj + 1]);
        }
        assert forall|x: (Seq<char>, Seq<char>)| t1.contains(x) <==> t2.contains(x) by {
            lemma_option_order(field, x, x, x);
            if t1.contains(x) {
                let a = choose|a: int| 0 <= a < t1.len() && t1[a] == x;
                assert(s1[a + 1] == x);
                assert(option_precedes(field, s1[0], s1[a + 1]));
                assert(s2.contains(x));
                let b = choose|b: int| 0 <= b < s2.len() && s2[b] == x;
                assert(b != 0);
                assert(t2[b - 1] == x);
            }
            if t2.contains(x) {
                let a = choose|a: int| 0 <= a < t2.len() && t2[a] == x;
                assert(s2[a + 1] == x);
                assert(option_precedes(field, s2[0], s2[a + 1]));
                assert(s1.contains(x));
                let b = choose|b: int| 0 <= b < s1.len() && s1[b] == x;
                assert(b != 0);
                assert(t1[b - 1] == x);
            }
        }
        lemma_sorted_members_equal(field, t1, t2);
        assert(s1 =~= seq![s1[0]] + t1);
        assert(s2 =~= seq![s2[0]] + t2);
    }
}

/// A dictionary has exactly one listing: two lists that each hold every option of `m` once,
/// in order, are equal.
pub proof fn lemma_listing_is_unique(
    m: Map<Seq<char>, (Seq<char>, Seq<char>)>,
    field: FilterOptionsField,
    s1: Seq<(Seq<char>, Seq<char>)>,
    s2: Seq<(Seq<char>, Seq<char>)>,
)
    requires
        lists_in_order(m, field, s1),
        lists_every(m, s1),
        lists_in_order(m, field, s2),
        lists_every(m, s2),
    ensures
        s1 == s2,
{
    assert forall|x: (Seq<char>, Seq<char>)| s1.contains(x) <==> s2.contains(x) by {
        if s1.contains(x) {
            let a = choose|a: int| 0 <= a < s1.len() && s1[a] == x;
            let k = option_key(x.0);
            assert(m.contains_key(k) && m[k] == x);
            let b = choose|b: int| 0 <= b < s2.len() && option_key(s2[b].0) == k;
            assert(m[option_key(s2[b].0)] == s2[b]);
        }
        if s2.contains(x) {
            let a = choose|a: int| 0 <= a < s2.len() && s2[a] == x;
            let k = option_key(x.0);
            assert(m.contains_key(k) && m[k] == x);
            let b = choose|b: int| 0 <= b < s1.len() && option_key(s1[b].0) == k;
            assert(m[option_key(s1[b].0)] == s1[b]);
        }
    }
    lemma_sorted_members_equal(field, s1, s2);
}

/// Candidates computed by two functions that agree on every item are the same.
pub proof fn lemma_flat_map_congruence<T>(
    items: Seq<T>,
    f: spec_fn(T) -> Seq<(Seq<char>, Seq<char>)>,
    g: spec_fn(T) -> Seq<(Seq<char>, Seq<char>)>,
)
    requires
        forall|x: T| #[trigger] f(x) == g(x),
    ensures
        flat_map(items, f) == flat_map(items, g),
    decreases items.len(),
{
    if items.len() > 0 {
        lemma_flat_map_congruence(items.drop_last(), f, g);
        assert(f(items.last()) == g(items.last()));
    }
}

/// The query narrows instructors only: for every other field the Catalog options are the
/// same whatever the query.
pub proof fn lemma_catalog_query_narrows_only_instructors(
    catalogs: Seq<CatalogOptionFacts>,
    field: FilterOptionsField,
    query: Option<Seq<char>>,
)
    requires
        field != FilterOptionsField::Instructor,
    ensures
        spec_collect_catalog_options(catalogs, field, query) == spec_collect_catalog_options(
            catalogs,
            field,
            None,
        ),
{
    assert forall|c: CatalogOptionFacts| #[trigger] catalog_candidates(c, field, query)
        == catalog_candidates(c, field, None) by {
        if field == FilterOptionsField::ExamCode {
            assert forall|x: SectionOptionFacts| #[trigger] section_candidates(x, field, query)
                == section_candidates(x, field, None) by {}
            lemma_flat_map_congruence(
                c.sections@,
                |x: SectionOptionFacts| section_candidates(x, field, query),
                |x: SectionOptionFacts| section_candidates(x, field, None),
            );
        }
    }
    lemma_flat_map_congruence(
        catalogs,
        |c: CatalogOptionFacts| catalog_candidates(c, field, query),
        |c: CatalogOptionFacts| catalog_candidates(c, field, None),
    );
}

} // verus!
