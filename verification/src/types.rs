use vstd::prelude::*;
use vstd::string::*;

use crate::strutil::{
    count_char, find_char, lemma_count_char_zero, lemma_find_char_at, lemma_str_lt_trichotomy,
    spec_count_char, spec_find_char, spec_str_lt, spec_trim, str_eq, str_lt, trim,
};

verus! {

// ---------------------------------------------------------------------------
// Mathematical models
//
// Each executable type below has a ghost mirror whose strings are `Seq<char>`;
// the contracts of the pipeline speak only of these models.
// ---------------------------------------------------------------------------

/// Model of `NameParts`: each optional sub-field as an optional char sequence.
pub struct NamePartsView {
    pub family: Option<Seq<char>>,
    pub given: Option<Seq<char>>,
    pub dropping_particle: Option<Seq<char>>,
    pub non_dropping_particle: Option<Seq<char>>,
    pub suffix: Option<Seq<char>>,
    pub comma_suffix: Option<Seq<char>>,
    pub static_ordering: Option<Seq<char>>,
    pub literal: Option<Seq<char>>,
    pub parse_names: Option<Seq<char>>,
}

impl NamePartsView {
    /// The model of a `NameParts` whose only populated sub-fields are
    /// `family` and `given`.
    pub open spec fn family_given(
        family: Option<Seq<char>>,
        given: Option<Seq<char>>,
    ) -> NamePartsView {
        NamePartsView {
            family: family,
            given: given,
            dropping_particle: None,
            non_dropping_particle: None,
            suffix: None,
            comma_suffix: None,
            static_ordering: None,
            literal: None,
            parse_names: None,
        }
    }

    /// The model of a `NameParts` with every sub-field absent.
    pub open spec fn empty() -> NamePartsView {
        NamePartsView::family_given(None, None)
    }
}

/// Model of `DateParts`.
pub struct DatePartsView {
    pub date_parts: Option<Seq<char>>,
    pub season: Option<Seq<char>>,
    pub circa: Option<Seq<char>>,
    pub literal: Option<Seq<char>>,
    pub raw: Option<Seq<char>>,
    pub edtf: Option<Seq<char>>,
}

impl DatePartsView {
    /// The model of a `DateParts` whose only populated sub-field is `raw`.
    pub open spec fn only_raw(raw: Seq<char>) -> DatePartsView {
        DatePartsView {
            date_parts: None,
            season: None,
            circa: None,
            literal: None,
            raw: Some(raw),
            edtf: None,
        }
    }
}

/// Model of `CSLOrdinaryField`.
pub struct CSLOrdinaryFieldView {
    pub key: Seq<char>,
    pub value: Seq<char>,
}

/// Model of `CSLNameField`.
pub struct CSLNameFieldView {
    pub key: Seq<char>,
    pub full: bool,
    pub np: NamePartsView,
}

/// The comma-splitting rule for personal names: no comma puts the whole
/// trimmed value in `family`; exactly one comma splits it into a trimmed
/// `family` and a trimmed `given` and marks the name full; more than one
/// comma (an ambiguous suffix) degrades to the whole trimmed value in
/// `family`.
pub open spec fn spec_with_name(key: Seq<char>, name: Seq<char>) -> CSLNameFieldView {
    if spec_count_char(name, ',') == 1 {
        match spec_find_char(name, ',') {
            Some(i) => CSLNameFieldView {
                key: key,
                full: true,
                np: NamePartsView::family_given(
                    Some(spec_trim(name.take(i))),
                    Some(spec_trim(name.skip(i + 1))),
                ),
            },
            None => arbitrary(),
        }
    } else {
        CSLNameFieldView {
            key: key,
            full: false,
            np: NamePartsView::family_given(Some(spec_trim(name)), None),
        }
    }
}

/// Model of `CSLDateField`.
pub struct CSLDateFieldView {
    pub key: Seq<char>,
    pub dp: DatePartsView,
}

/// Model of `CSLValue`.
pub enum CSLValueView {
    Ignored,
    Ordinary(CSLOrdinaryFieldView),
    Name(CSLNameFieldView),
    Date(CSLDateFieldView),
}

impl CSLValueView {
    /// Whether the value is a name field.
    pub open spec fn is_name(self) -> bool {
        self is Name
    }

    /// The key of the field, absent for an ignored value.
    pub open spec fn key(self) -> Option<Seq<char>> {
        match self {
            CSLValueView::Ignored => None,
            CSLValueView::Ordinary(f) => Some(f.key),
            CSLValueView::Name(f) => Some(f.key),
            CSLValueView::Date(f) => Some(f.key),
        }
    }

    /// The name parts, present only for a name field.
    pub open spec fn np(self) -> Option<NamePartsView> {
        match self {
            CSLValueView::Name(f) => Some(f.np),
            _ => None,
        }
    }
}

/// Model of `CSLItem`: the three insertion-ordered slots.
#[verifier::ext_equal]
pub struct CSLItemView {
    pub fields: Seq<CSLOrdinaryFieldView>,
    pub names: Seq<CSLNameFieldView>,
    pub dates: Seq<CSLDateFieldView>,
}

// ---------------------------------------------------------------------------
// Executable types
// ---------------------------------------------------------------------------

/// Decomposition of a personal name into the CSL sub-fields; only `family`
/// and `given` are ever populated by the comma-splitting rule, the rest are
/// reserved and stay absent rather than defaulting to empty strings.
#[derive(Clone, Debug, Default, PartialEq)]
pub struct NameParts {
    pub family: Option<String>,
    pub given: Option<String>,
    pub dropping_particle: Option<String>,
    pub non_dropping_particle: Option<String>,
    pub suffix: Option<String>,
    pub comma_suffix: Option<String>,
    pub static_ordering: Option<String>,
    pub literal: Option<String>,
    pub parse_names: Option<String>,
}

impl View for NameParts {
    type V = NamePartsView;

    open spec fn view(&self) -> NamePartsView {
        NamePartsView {
            family: self.family.deep_view(),
            given: self.given.deep_view(),
            dropping_particle: self.dropping_particle.deep_view(),
            non_dropping_particle: self.non_dropping_particle.deep_view(),
            suffix: self.suffix.deep_view(),
            comma_suffix: self.comma_suffix.deep_view(),
            static_ordering: self.static_ordering.deep_view(),
            literal: self.literal.deep_view(),
            parse_names: self.parse_names.deep_view(),
        }
    }
}

impl DeepView for NameParts {
    type V = NamePartsView;

    open spec fn deep_view(&self) -> NamePartsView {
        self.view()
    }
}

impl NameParts {
    /// A `NameParts` with every sub-field absent.
    pub fn new_empty() -> (r: NameParts)
        ensures
            r@ == NamePartsView::empty(),
    {
        NameParts {
            family: None,
            given: None,
            dropping_particle: None,
            non_dropping_particle: None,
            suffix: None,
            comma_suffix: None,
            static_ordering: None,
            literal: None,
            parse_names: None,
        }
    }
}

/// The CSL date sub-fields; only `raw` (the unparsed original string) is
/// populated by this pipeline, the rest are reserved for structured parsing.
#[derive(Clone, Debug, Default, PartialEq)]
pub struct DateParts {
    pub date_parts: Option<String>,
    pub season: Option<String>,
    pub circa: Option<String>,
    pub literal: Option<String>,
    pub raw: Option<String>,
    pub edtf: Option<String>,
}

impl View for DateParts {
    type V = DatePartsView;

    open spec fn view(&self) -> DatePartsView {
        DatePartsView {
            date_parts: self.date_parts.deep_view(),
            season: self.season.deep_view(),
            circa: self.circa.deep_view(),
            literal: self.literal.deep_view(),
            raw: self.raw.deep_view(),
            edtf: self.edtf.deep_view(),
        }
    }
}

impl DeepView for DateParts {
    type V = DatePartsView;

    open spec fn deep_view(&self) -> DatePartsView {
        self.view()
    }
}

/// A flat key/value citation field.
#[derive(Clone, Debug, PartialEq)]
pub struct CSLOrdinaryField {
    pub key: String,
    pub value: String,
}

impl View for CSLOrdinaryField {
    type V = CSLOrdinaryFieldView;

    open spec fn view(&self) -> CSLOrdinaryFieldView {
        CSLOrdinaryFieldView { key: self.key@, value: self.value@ }
    }
}

impl DeepView for CSLOrdinaryField {
    type V = CSLOrdinaryFieldView;

    open spec fn deep_view(&self) -> CSLOrdinaryFieldView {
        self.view()
    }
}

/// A personal-name citation field (author, editor, ...).  `full` records
/// whether the source value had the two-part "family, given" shape.
#[derive(Clone, Debug, PartialEq)]
pub struct CSLNameField {
    pub key: String,
    pub full: bool,
    pub np: NameParts,
}

impl View for CSLNameField {
    type V = CSLNameFieldView;

    open spec fn view(&self) -> CSLNameFieldView {
        CSLNameFieldView { key: self.key@, full: self.full, np: self.np@ }
    }
}

impl DeepView for CSLNameField {
    type V = CSLNameFieldView;

    open spec fn deep_view(&self) -> CSLNameFieldView {
        self.view()
    }
}

impl CSLNameField {
    /// Builds a name field for `nametype` by splitting `name` on commas.
    pub fn with_name(nametype: String, name: String) -> (r: CSLNameField)
        ensures
            r@ == spec_with_name(nametype@, name@),
    {
        let commas = count_char(name.as_str(), ',');
        let mut np = NameParts::new_empty();
        let full: bool;
        if commas == 1 {
            let iopt = find_char(name.as_str(), ',');
            proof {
                if iopt is None {
                    lemma_count_char_zero(name@, ',');
                    assert(false);
                }
            }
            let i = iopt.unwrap();
            let n = name.as_str().unicode_len();
            let family = trim(name.as_str().substring_char(0, i));
            let given = trim(name.as_str().substring_char(i + 1, n));
            proof {
                lemma_find_char_at(name@, ',', i as int);
                assert(name@.subrange(0, i as int) =~= name@.take(i as int));
                assert(name@.subrange(i + 1, n as int) =~= name@.skip(i + 1));
            }
            np.family = Some(family);
            np.given = Some(given);
            full = true;
        } else {
            np.family = Some(trim(name.as_str()));
            full = false;
        }
        CSLNameField { key: nametype, full, np }
    }
}

/// A date citation field; the value is kept unparsed in `dp.raw`.
#[derive(Clone, Debug, PartialEq)]
pub struct CSLDateField {
    pub key: String,
    pub dp: DateParts,
}

impl View for CSLDateField {
    type V = CSLDateFieldView;

    open spec fn view(&self) -> CSLDateFieldView {
        CSLDateFieldView { key: self.key@, dp: self.dp@ }
    }
}

impl DeepView for CSLDateField {
    type V = CSLDateFieldView;

    open spec fn deep_view(&self) -> CSLDateFieldView {
        self.view()
    }
}

impl CSLDateField {
    /// Builds a date field that stores the unparsed value in `dp.raw`.
    pub fn with_raw(key: String, raw: String) -> (r: CSLDateField)
        ensures
            r@ == (CSLDateFieldView { key: key@, dp: DatePartsView::only_raw(raw@) }),
    {
        let dp = DateParts {
            date_parts: None,
            season: None,
            circa: None,
            literal: None,
            raw: Some(raw),
            edtf: None,
        };
        CSLDateField { key, dp }
    }
}

/// One mapped citation field: either a recognized field of one of the three
/// kinds, or `Ignored` for a tag that maps to nothing.
#[derive(Clone, Debug, PartialEq)]
pub enum CSLValue {
    Ignored,
    CSLOrdinaryField(CSLOrdinaryField),
    CSLNameField(CSLNameField),
    CSLDateField(CSLDateField),
}

impl View for CSLValue {
    type V = CSLValueView;

    open spec fn view(&self) -> CSLValueView {
        match self {
            CSLValue::Ignored => CSLValueView::Ignored,
            CSLValue::CSLOrdinaryField(f) => CSLValueView::Ordinary(f@),
            CSLValue::CSLNameField(f) => CSLValueView::Name(f@),
            CSLValue::CSLDateField(f) => CSLValueView::Date(f@),
        }
    }
}

impl DeepView for CSLValue {
    type V = CSLValueView;

    open spec fn deep_view(&self) -> CSLValueView {
        self.view()
    }
}

impl CSLValue {
    /// Whether this value is a name field.
    pub fn is_name(&self) -> (r: bool)
        ensures
            r == self@.is_name(),
    {
        match self {
            CSLValue::CSLNameField(_) => true,
            _ => false,
        }
    }

    /// The key of the field, or `None` for an ignored value.
    pub fn key(&self) -> (r: Option<&str>)
        ensures
            r.deep_view() == self@.key(),
    {
        match self {
            CSLValue::Ignored => None,
            CSLValue::CSLOrdinaryField(f) => Some(f.key.as_str()),
            CSLValue::CSLNameField(f) => Some(f.key.as_str()),
            CSLValue::CSLDateField(f) => Some(f.key.as_str()),
        }
    }

    /// The name parts, present exactly for a name field.
    pub fn np(&self) -> (r: Option<&NameParts>)
        ensures
            r.deep_view() == self@.np(),
    {
        match self {
            CSLValue::CSLNameField(f) => Some(&f.np),
            _ => None,
        }
    }
}

/// One assembled citation: the three insertion-ordered field slots.
#[derive(Clone, Debug, PartialEq)]
pub struct CSLItem {
    pub fields: Vec<CSLOrdinaryField>,
    pub names: Vec<CSLNameField>,
    pub dates: Vec<CSLDateField>,
}

impl View for CSLItem {
    type V = CSLItemView;

    open spec fn view(&self) -> CSLItemView {
        CSLItemView {
            fields: self.fields.deep_view(),
            names: self.names.deep_view(),
            dates: self.dates.deep_view(),
        }
    }
}

impl DeepView for CSLItem {
    type V = CSLItemView;

    open spec fn deep_view(&self) -> CSLItemView {
        self.view()
    }
}

impl CSLItem {
    /// An empty citation record, ready to be populated by one block's fields.
    pub fn new() -> (r: CSLItem)
        ensures
            r@.fields.len() == 0,
            r@.names.len() == 0,
            r@.dates.len() == 0,
    {
        CSLItem { fields: Vec::new(), names: Vec::new(), dates: Vec::new() }
    }
}

// ---------------------------------------------------------------------------
// Record identifier
// ---------------------------------------------------------------------------

/// Offset basis of the 64-bit FNV-1a hash.
pub const FNV_OFFSET: u64 = 0xcbf29ce484222325;

/// Prime of the 64-bit FNV-1a hash.
pub const FNV_PRIME: u64 = 0x100000001b3;

/// Terminator hashed after each string and each slot; it lies outside the
/// range of character scalar values, so content cannot imitate it.
pub const HASH_SENTINEL: u64 = 0x110000;

/// One FNV-1a step: fold `b` into the running hash.
pub open spec fn spec_hash_step(h: u64, b: u64) -> u64 {
    vstd::wrapping::u64_specs::wrapping_mul(h ^ b, FNV_PRIME)
}

/// The hash after folding in each character's scalar value, in order.
pub open spec fn spec_hash_chars(h: u64, s: Seq<char>) -> u64
    decreases s.len(),
{
    if s.len() == 0 {
        h
    } else {
        spec_hash_chars(spec_hash_step(h, s[0] as u64), s.skip(1))
    }
}

/// The hash after folding in a whole string and its terminator.
pub open spec fn spec_hash_str(h: u64, s: Seq<char>) -> u64 {
    spec_hash_step(spec_hash_chars(h, s), HASH_SENTINEL)
}

/// The hash after folding in an optional string; absence and presence are
/// kept distinct.
pub open spec fn spec_hash_opt(h: u64, o: Option<Seq<char>>) -> u64 {
    match o {
        None => spec_hash_step(h, 0),
        Some(s) => spec_hash_str(spec_hash_step(h, 1), s),
    }
}

/// The hash after folding in an ordinary field.
pub open spec fn spec_hash_ord(h: u64, f: CSLOrdinaryFieldView) -> u64 {
    spec_hash_str(spec_hash_str(h, f.key), f.value)
}

/// The hash after folding in every name sub-field.
pub open spec fn spec_hash_np(h: u64, np: NamePartsView) -> u64 {
    let h1 = spec_hash_opt(h, np.family);
    let h2 = spec_hash_opt(h1, np.given);
    let h3 = spec_hash_opt(h2, np.dropping_particle);
    let h4 = spec_hash_opt(h3, np.non_dropping_particle);
    let h5 = spec_hash_opt(h4, np.suffix);
    let h6 = spec_hash_opt(h5, np.comma_suffix);
    let h7 = spec_hash_opt(h6, np.static_ordering);
    let h8 = spec_hash_opt(h7, np.literal);
    spec_hash_opt(h8, np.parse_names)
}

/// The hash after folding in a name field.
pub open spec fn spec_hash_name(h: u64, f: CSLNameFieldView) -> u64 {
    let h1 = spec_hash_str(h, f.key);
    let h2 = spec_hash_step(h1, if f.full { 1u64 } else { 0u64 });
    spec_hash_np(h2, f.np)
}

/// The hash after folding in every date sub-field.
pub open spec fn spec_hash_dp(h: u64, dp: DatePartsView) -> u64 {
    let h1 = spec_hash_opt(h, dp.date_parts);
    let h2 = spec_hash_opt(h1, dp.season);
    let h3 = spec_hash_opt(h2, dp.circa);
    let h4 = spec_hash_opt(h3, dp.literal);
    let h5 = spec_hash_opt(h4, dp.raw);
    spec_hash_opt(h5, dp.edtf)
}

/// The hash after folding in a date field.
pub open spec fn spec_hash_date(h: u64, f: CSLDateFieldView) -> u64 {
    spec_hash_dp(spec_hash_str(h, f.key), f.dp)
}

/// The hash after folding in the ordinary-field slot and its terminator.
pub open spec fn spec_hash_fields(h: u64, s: Seq<CSLOrdinaryFieldView>) -> u64
    decreases s.len(),
{
    if s.len() == 0 {
        spec_hash_step(h, HASH_SENTINEL)
    } else {
        spec_hash_fields(spec_hash_ord(h, s[0]), s.skip(1))
    }
}

/// The hash after folding in the name-field slot and its terminator.
pub open spec fn spec_hash_names(h: u64, s: Seq<CSLNameFieldView>) -> u64
    decreases s.len(),
{
    if s.len() == 0 {
        spec_hash_step(h, HASH_SENTINEL)
    } else {
        spec_hash_names(spec_hash_name(h, s[0]), s.skip(1))
    }
}

/// The hash after folding in the date-field slot and its terminator.
pub open spec fn spec_hash_dates(h: u64, s: Seq<CSLDateFieldView>) -> u64
    decreases s.len(),
{
    if s.len() == 0 {
        spec_hash_step(h, HASH_SENTINEL)
    } else {
        spec_hash_dates(spec_hash_date(h, s[0]), s.skip(1))
    }
}

/// The record identifier: a pure function of the three ordered slots, each
/// hashed in its own canonical position.
pub open spec fn spec_item_id(item: CSLItemView) -> u64 {
    spec_hash_dates(
        spec_hash_names(spec_hash_fields(FNV_OFFSET, item.fields), item.names),
        item.dates,
    )
}

/// Identifier determinism: two records with identical ordinary, name and
/// date field content derive the same identifier, whatever run or process
/// computes it.
pub proof fn lemma_id_deterministic(a: CSLItemView, b: CSLItemView)
    requires
        a.fields == b.fields,
        a.names == b.names,
        a.dates == b.dates,
    ensures
        spec_item_id(a) == spec_item_id(b),
{
}

fn hash_step(h: u64, b: u64) -> (r: u64)
    ensures
        r == spec_hash_step(h, b),
{
    (h ^ b).wrapping_mul(FNV_PRIME)
}

fn hash_chars(h: u64, s: &str) -> (r: u64)
    ensures
        r == spec_hash_chars(h, s@),
{
    let n = s.unicode_len();
    let mut acc = h;
    let mut i: usize = 0;
    proof {
        assert(s@.skip(0) =~= s@);
    }
    while i < n
        invariant
            n == s@.len(),
            0 <= i <= n,
            spec_hash_chars(h, s@) == spec_hash_chars(acc, s@.skip(i as int)),
        decreases n - i,
    {
        proof {
            assert(s@.skip(i as int)[0] == s@[i as int]);
            assert(s@.skip(i as int).skip(1) =~= s@.skip(i + 1));
        }
        let c = s.get_char(i);
        acc = hash_step(acc, c as u64);
        i = i + 1;
    }
    proof {
        assert(s@.skip(n as int) =~= Seq::<char>::empty());
    }
    acc
}

fn hash_str(h: u64, s: &str) -> (r: u64)
    ensures
        r == spec_hash_str(h, s@),
{
    hash_step(hash_chars(h, s), HASH_SENTINEL)
}

fn hash_opt(h: u64, o: &Option<String>) -> (r: u64)
    ensures
        r == spec_hash_opt(h, o.deep_view()),
{
    match o {
        None => hash_step(h, 0),
        Some(s) => hash_str(hash_step(h, 1), s.as_str()),
    }
}

fn hash_np(h: u64, np: &NameParts) -> (r: u64)
    ensures
        r == spec_hash_np(h, np@),
{
    let h1 = hash_opt(h, &np.family);
    let h2 = hash_opt(h1, &np.given);
    let h3 = hash_opt(h2, &np.dropping_particle);
    let h4 = hash_opt(h3, &np.non_dropping_particle);
    let h5 = hash_opt(h4, &np.suffix);
    let h6 = hash_opt(h5, &np.comma_suffix);
    let h7 = hash_opt(h6, &np.static_ordering);
    let h8 = hash_opt(h7, &np.literal);
    hash_opt(h8, &np.parse_names)
}

fn hash_dp(h: u64, dp: &DateParts) -> (r: u64)
    ensures
        r == spec_hash_dp(h, dp@),
{
    let h1 = hash_opt(h, &dp.date_parts);
    let h2 = hash_opt(h1, &dp.season);
    let h3 = hash_opt(h2, &dp.circa);
    let h4 = hash_opt(h3, &dp.literal);
    let h5 = hash_opt(h4, &dp.raw);
    hash_opt(h5, &dp.edtf)
}

impl CSLItem {
    /// The record identifier: a stable content hash over the three ordered
    /// field slots, deterministic across runs given identical content.
    pub fn calculate_id(&self) -> (r: u64)
        ensures
            r == spec_item_id(self@),
    {
        let mut acc = FNV_OFFSET;
        let mut i: usize = 0;
        proof {
            assert(self@.fields.skip(0) =~= self@.fields);
        }
        while i < self.fields.len()
            invariant
                0 <= i <= self@.fields.len(),
                self@.fields.len() == self.fields.len(),
                spec_hash_fields(FNV_OFFSET, self@.fields) == spec_hash_fields(
                    acc,
                    self@.fields.skip(i as int),
                ),
            decreases self.fields.len() - i,
        {
            proof {
                assert(self@.fields.skip(i as int)[0] == self@.fields[i as int]);
                assert(self@.fields.skip(i as int).skip(1) =~= self@.fields.skip(i + 1));
            }
            let f = &self.fields[i];
            acc = hash_str(hash_str(acc, f.key.as_str()), f.value.as_str());
            i = i + 1;
        }
        proof {
            assert(self@.fields.skip(self.fields.len() as int)
                =~= Seq::<CSLOrdinaryFieldView>::empty());
        }
        acc = hash_step(acc, HASH_SENTINEL);
        let ghost after_fields = acc;
        let mut j: usize = 0;
        proof {
            assert(self@.names.skip(0) =~= self@.names);
        }
        while j < self.names.len()
            invariant
                0 <= j <= self@.names.len(),
                self@.names.len() == self.names.len(),
                spec_hash_names(after_fields, self@.names) == spec_hash_names(
                    acc,
                    self@.names.skip(j as int),
                ),
            decreases self.names.len() - j,
        {
            proof {
                assert(self@.names.skip(j as int)[0] == self@.names[j as int]);
                assert(self@.names.skip(j as int).skip(1) =~= self@.names.skip(j + 1));
            }
            let f = &self.names[j];
            let h1 = hash_str(acc, f.key.as_str());
            let h2 = hash_step(h1, if f.full { 1 } else { 0 });
            acc = hash_np(h2, &f.np);
            j = j + 1;
        }
        proof {
            assert(self@.names.skip(self.names.len() as int)
                =~= Seq::<CSLNameFieldView>::empty());
        }
        acc = hash_step(acc, HASH_SENTINEL);
        let ghost after_names = acc;
        let mut k: usize = 0;
        proof {
            assert(self@.dates.skip(0) =~= self@.dates);
        }
        while k < self.dates.len()
            invariant
                0 <= k <= self@.dates.len(),
                self@.dates.len() == self.dates.len(),
                spec_hash_dates(after_names, self@.dates) == spec_hash_dates(
                    acc,
                    self@.dates.skip(k as int),
                ),
            decreases self.dates.len() - k,
        {
            proof {
                assert(self@.dates.skip(k as int)[0] == self@.dates[k as int]);
                assert(self@.dates.skip(k as int).skip(1) =~= self@.dates.skip(k + 1));
            }
            let f = &self.dates[k];
            acc = hash_dp(hash_str(acc, f.key.as_str()), &f.dp);
            k = k + 1;
        }
        proof {
            assert(self@.dates.skip(self.dates.len() as int)
                =~= Seq::<CSLDateFieldView>::empty());
        }
        hash_step(acc, HASH_SENTINEL)
    }
}

// ---------------------------------------------------------------------------
// Grouping names for output
// ---------------------------------------------------------------------------

/// Whether the keys are strictly sorted in lexicographic order, which also
/// makes them pairwise distinct.
pub open spec fn spec_sorted_lt(r: Seq<Seq<char>>) -> bool {
    forall|j: int| 0 <= j < r.len() - 1 ==> spec_str_lt(#[trigger] r[j], r[j + 1])
}

/// Whether `k` occurs among the keys.
pub open spec fn spec_contains_key(r: Seq<Seq<char>>, k: Seq<char>) -> bool {
    exists|j: int| 0 <= j < r.len() && r[j] == k
}

/// Whether every key in `r` is the key of one of the first `n` name fields.
pub open spec fn spec_keys_from(r: Seq<Seq<char>>, names: Seq<CSLNameFieldView>, n: int) -> bool {
    forall|j: int|
        #![trigger r[j]]
        0 <= j < r.len() ==> exists|i2: int| 0 <= i2 < n && r[j] == (#[trigger] names[i2].key)
}

/// Whether the key of each of the first `n` name fields occurs in `r`.
pub open spec fn spec_all_keys_in(r: Seq<Seq<char>>, names: Seq<CSLNameFieldView>, n: int) -> bool {
    forall|i2: int| 0 <= i2 < n ==> spec_contains_key(r, #[trigger] names[i2].key)
}

/// The name parts of every name field with the given key, in arrival order.
pub open spec fn spec_names_with_key(
    names: Seq<CSLNameFieldView>,
    key: Seq<char>,
) -> Seq<NamePartsView>
    decreases names.len(),
{
    if names.len() == 0 {
        Seq::empty()
    } else {
        spec_names_with_key(names.take(names.len() - 1), key) + if names[names.len() - 1].key
            == key {
            seq![names[names.len() - 1].np]
        } else {
            Seq::empty()
        }
    }
}

/// Copies an optional string.
fn clone_opt(o: &Option<String>) -> (r: Option<String>)
    ensures
        r.deep_view() == o.deep_view(),
{
    match o {
        Some(s) => Some(s.clone()),
        None => None,
    }
}

impl NameParts {
    /// Copies the name parts.
    pub fn duplicate(&self) -> (r: NameParts)
        ensures
            r@ == self@,
    {
        NameParts {
            family: clone_opt(&self.family),
            given: clone_opt(&self.given),
            dropping_particle: clone_opt(&self.dropping_particle),
            non_dropping_particle: clone_opt(&self.non_dropping_particle),
            suffix: clone_opt(&self.suffix),
            comma_suffix: clone_opt(&self.comma_suffix),
            static_ordering: clone_opt(&self.static_ordering),
            literal: clone_opt(&self.literal),
            parse_names: clone_opt(&self.parse_names),
        }
    }
}

impl CSLItem {
    /// The distinct keys of the record's name fields, sorted: the order in
    /// which name groups are emitted.
    pub fn name_types(&self) -> (r: Vec<String>)
        ensures
            spec_sorted_lt(r.deep_view()),
            spec_keys_from(r.deep_view(), self@.names, self@.names.len() as int),
            spec_all_keys_in(r.deep_view(), self@.names, self@.names.len() as int),
    {
        let mut out: Vec<String> = Vec::new();
        let mut i: usize = 0;
        while i < self.names.len()
            invariant
                0 <= i <= self@.names.len(),
                self@.names.len() == self.names.len(),
                spec_sorted_lt(out.deep_view()),
                spec_keys_from(out.deep_view(), self@.names, i as int),
                spec_all_keys_in(out.deep_view(), self@.names, i as int),
            decreases self.names.len() - i,
        {
            let key = &self.names[i].key;
            let mut pos: usize = 0;
            while pos < out.len() && str_lt(out[pos].as_str(), key.as_str())
                invariant
                    0 <= pos <= out.len(),
                    key@ == self@.names[i as int].key,
                    forall|j: int| 0 <= j < pos ==> spec_str_lt(#[trigger] out.deep_view()[j], key@),
                decreases out.len() - pos,
            {
                pos = pos + 1;
            }
            let ghost old_dv = out.deep_view();
            let ghost old_items = out@;
            if pos < out.len() && str_eq(out[pos].as_str(), key.as_str()) {
                proof {
                    assert(out.deep_view()[pos as int] == key@);
                    assert(spec_contains_key(out.deep_view(), self@.names[i as int].key));
                    assert forall|j: int|
                        #![trigger out.deep_view()[j]]
                        0 <= j < out.deep_view().len() implies exists|i2: int|
                        0 <= i2 < i + 1 && out.deep_view()[j] == (
                        #[trigger] self@.names[i2].key) by {
                        assert(exists|i2: int|
                            0 <= i2 < i && out.deep_view()[j] == (
                            #[trigger] self@.names[i2].key));
                    }
                    assert(spec_keys_from(out.deep_view(), self@.names, i + 1));
                    assert(spec_all_keys_in(out.deep_view(), self@.names, i + 1));
                }
            } else {
                proof {
                    if pos < out.len() {
                        lemma_str_lt_trichotomy(key@, old_dv[pos as int]);
                        assert(spec_str_lt(key@, old_dv[pos as int]));
                    }
                }
                let k2 = key.clone();
                let ghost kc = k2;
                out.insert(pos, k2);
                proof {
                    old_items.insert_ensures(pos as int, kc);
                    let ndv = out.deep_view();
                    let p = pos as int;
                    assert(ndv.len() == old_dv.len() + 1);
                    assert forall|j: int| 0 <= j < ndv.len() implies ndv[j] == (if j < p {
                        old_dv[j]
                    } else if j == p {
                        key@
                    } else {
                        old_dv[j - 1]
                    }) by {
                        if j < p {
                            assert(out@[j] == old_items[j]);
                        } else if j == p {
                            assert(out@[j] == kc);
                        } else {
                            assert(out@[(j - 1) + 1] == old_items[j - 1]);
                        }
                    }
                    assert forall|j: int|
                        0 <= j < ndv.len() - 1 implies spec_str_lt(
                        #[trigger] ndv[j],
                        ndv[j + 1],
                    ) by {
                        if j + 1 < p {
                            assert(spec_str_lt(old_dv[j], old_dv[j + 1]));
                        } else if j + 1 == p {
                            assert(spec_str_lt(old_dv[j], key@));
                        } else if j == p {
                            assert(spec_str_lt(key@, old_dv[p]));
                        } else {
                            assert(spec_str_lt(old_dv[j - 1], old_dv[j]));
                        }
                    }
                    assert forall|j: int|
                        #![trigger ndv[j]]
                        0 <= j < ndv.len() implies exists|i2: int|
                        0 <= i2 < i + 1 && ndv[j] == (#[trigger] self@.names[i2].key) by {
                        assert(spec_keys_from(old_dv, self@.names, i as int));
                        if j < p {
                            assert(ndv[j] == old_dv[j]);
                            assert(0 <= j < old_dv.len());
                            assert(exists|i2: int|
                                0 <= i2 < i && old_dv[j] == (#[trigger] self@.names[i2].key));
                        } else if j == p {
                            assert(ndv[j] == self@.names[i as int].key);
                        } else {
                            assert(ndv[j] == old_dv[j - 1]);
                            assert(0 <= j - 1 < old_dv.len());
                            assert(exists|i2: int|
                                0 <= i2 < i && old_dv[j - 1] == (
                                #[trigger] self@.names[i2].key));
                        }
                    }
                    assert(spec_keys_from(ndv, self@.names, i + 1));
                    assert forall|i2: int| 0 <= i2 < i + 1 implies spec_contains_key(
                        ndv,
                        #[trigger] self@.names[i2].key,
                    ) by {
                        if i2 < i {
                            let k = self@.names[i2].key;
                            assert(spec_contains_key(old_dv, k));
                            let j = choose|j: int| 0 <= j < old_dv.len() && old_dv[j] == k;
                            if j < p {
                                assert(ndv[j] == k);
                            } else {
                                assert(ndv[j + 1] == k);
                            }
                        } else {
                            assert(ndv[p] == self@.names[i as int].key);
                        }
                    }
                    assert(spec_all_keys_in(ndv, self@.names, i + 1));
                }
            }
            i = i + 1;
        }
        out
    }

    /// The name parts of every name field with the given key, in arrival
    /// order: one emitted name group.
    pub fn names_with_key(&self, key: &str) -> (r: Vec<NameParts>)
        ensures
            r.deep_view() == spec_names_with_key(self@.names, key@),
    {
        let mut out: Vec<NameParts> = Vec::new();
        let mut i: usize = 0;
        proof {
            assert(self@.names.take(0) =~= Seq::<CSLNameFieldView>::empty());
        }
        while i < self.names.len()
            invariant
                0 <= i <= self@.names.len(),
                self@.names.len() == self.names.len(),
                out.deep_view() == spec_names_with_key(self@.names.take(i as int), key@),
            decreases self.names.len() - i,
        {
            let ghost old_dv = out.deep_view();
            proof {
                let t = self@.names.take(i + 1);
                assert(t.take(t.len() - 1) =~= self@.names.take(i as int));
                assert(t[t.len() - 1] == self@.names[i as int]);
            }
            if str_eq(self.names[i].key.as_str(), key) {
                let np = self.names[i].np.duplicate();
                out.push(np);
                proof {
                    assert(out.deep_view() =~= old_dv + seq![self@.names[i as int].np]);
                }
            } else {
                proof {
                    assert(old_dv + Seq::<NamePartsView>::empty() =~= old_dv);
                }
            }
            i = i + 1;
        }
        proof {
            assert(self@.names.take(self.names.len() as int) =~= self@.names);
        }
        out
    }
}

// ---------------------------------------------------------------------------
// Identifier formatting
// ---------------------------------------------------------------------------

/// The decimal digit character for a value below ten.
pub open spec fn spec_digit(d: u64) -> char {
    ((48 + d) as u32) as char
}

/// The decimal digits of `n`, most significant first.
pub open spec fn spec_decimal(n: u64) -> Seq<char>
    decreases n,
{
    if n < 10 {
        seq![spec_digit(n)]
    } else {
        spec_decimal(n / 10).push(spec_digit(n % 10))
    }
}

/// The one-character string for a decimal digit.
fn digit_str(d: u64) -> (r: &'static str)
    requires
        d < 10,
    ensures
        r@ == seq![spec_digit(d)],
{
    proof {
        reveal_strlit("0");
        reveal_strlit("1");
        reveal_strlit("2");
        reveal_strlit("3");
        reveal_strlit("4");
        reveal_strlit("5");
        reveal_strlit("6");
        reveal_strlit("7");
        reveal_strlit("8");
        reveal_strlit("9");
    }
    if d == 0 {
        "0"
    } else if d == 1 {
        "1"
    } else if d == 2 {
        "2"
    } else if d == 3 {
        "3"
    } else if d == 4 {
        "4"
    } else if d == 5 {
        "5"
    } else if d == 6 {
        "6"
    } else if d == 7 {
        "7"
    } else if d == 8 {
        "8"
    } else {
        "9"
    }
}

/// Writes `n` in decimal.
fn u64_to_decimal(n: u64) -> (r: String)
    ensures
        r@ == spec_decimal(n),
    decreases n,
{
    if n < 10 {
        digit_str(n).to_owned()
    } else {
        let prefix = u64_to_decimal(n / 10);
        let r = prefix.concat(digit_str(n % 10));
        proof {
            assert(spec_decimal(n / 10) + seq![spec_digit(n % 10)] =~= spec_decimal(n / 10).push(
                spec_digit(n % 10),
            ));
        }
        r
    }
}

impl CSLItem {
    /// The record identifier in its stable output form: the fixed prefix
    /// followed by the content hash in decimal.
    pub fn id_string(&self) -> (r: String)
        ensures
            r@ == "nbib-"@ + spec_decimal(spec_item_id(self@)),
    {
        let id = self.calculate_id();
        "nbib-".to_owned().concat(u64_to_decimal(id).as_str())
    }
}

} // verus!
