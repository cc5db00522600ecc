use vstd::prelude::*;
use crate::dicom::DicomTag;
use crate::dicom::TagView;
use crate::dicom::find_root_index;
use crate::dicom::forest_view;
use crate::dicom::text_view;
use crate::rules::ct_image_storage;
use crate::rules::mr_image_storage;
use crate::rules::sop_class_field;
use crate::rules::type1_rule_set;
use crate::rules::type1_rules;
use crate::seqs::lemma_filter_none;
use crate::seqs::lemma_filter_push;
use crate::text::trim;
use crate::text::trimmed;
use crate::tree::find_root;

verus! {

/// The conformance class of a record, read from its class identifier.
#[derive(Clone, Debug)]
pub enum SopClass {
    /// CT Image Storage.
    Ct,
    /// MR Image Storage.
    Mr,
    /// Another class, with its identifier.
    Other(String),
    /// The record names no class.
    Unknown,
}

/// The mathematical value of a `SopClass`.
pub enum SopClassView {
    Ct,
    Mr,
    Other(Seq<char>),
    Unknown,
}

impl View for SopClass {
    type V = SopClassView;

    open spec fn view(&self) -> SopClassView {
        match *self {
            SopClass::Ct => SopClassView::Ct,
            SopClass::Mr => SopClassView::Mr,
            SopClass::Other(uid) => SopClassView::Other(uid@),
            SopClass::Unknown => SopClassView::Unknown,
        }
    }
}

/// What the check of the mandatory fields found.
#[derive(Clone, Debug)]
pub enum ValidationResult {
    /// Every mandatory field is present.
    Valid,
    /// The display names of the missing fields, in rule-table order.
    Invalid(Vec<String>),
    /// The record's class has no rule table, or the record names no class.
    NotApplicable,
}

/// The mathematical value of a `ValidationResult`.
pub enum ValidationView {
    Valid,
    Invalid(Seq<Seq<char>>),
    NotApplicable,
}

/// The characters of each text of a list.
pub open spec fn texts_view(v: Seq<String>) -> Seq<Seq<char>> {
    Seq::new(v.len(), |i: int| v[i]@)
}

impl View for ValidationResult {
    type V = ValidationView;

    open spec fn view(&self) -> ValidationView {
        match *self {
            ValidationResult::Valid => ValidationView::Valid,
            ValidationResult::Invalid(missing) => ValidationView::Invalid(texts_view(missing@)),
            ValidationResult::NotApplicable => ValidationView::NotApplicable,
        }
    }
}

/// One mandatory field: its identifier and the name under which a report
/// lists it.
pub struct RequiredField {
    pub tag: String,
    pub name: String,
}

/// The mathematical value of a `RequiredField`.
pub struct RequiredFieldView {
    pub tag: Seq<char>,
    pub name: Seq<char>,
}

impl View for RequiredField {
    type V = RequiredFieldView;

    open spec fn view(&self) -> RequiredFieldView {
        RequiredFieldView { tag: self.tag@, name: self.name@ }
    }
}

/// The values of a list of mandatory fields.
pub open spec fn fields_view(v: Seq<RequiredField>) -> Seq<RequiredFieldView> {
    Seq::new(v.len(), |i: int| v[i]@)
}

/// A named table of mandatory fields, in the order in which a report lists
/// them.
pub struct FieldTable {
    pub name: String,
    pub fields: Vec<RequiredField>,
}

/// The mathematical value of a `FieldTable`.
pub struct FieldTableView {
    pub name: Seq<char>,
    pub fields: Seq<RequiredFieldView>,
}

impl View for FieldTable {
    type V = FieldTableView;

    open spec fn view(&self) -> FieldTableView {
        FieldTableView { name: self.name@, fields: fields_view(self.fields@) }
    }
}

/// The values of a list of tables.
pub open spec fn tables_view(v: Seq<FieldTable>) -> Seq<FieldTableView> {
    Seq::new(v.len(), |i: int| v[i]@)
}

/// The table of the fields that one class of records must hold beyond the
/// common ones.
pub struct ModalityTable {
    pub class_uid: String,
    pub table: FieldTable,
}

/// The mathematical value of a `ModalityTable`.
pub struct ModalityTableView {
    pub class_uid: Seq<char>,
    pub table: FieldTableView,
}

impl View for ModalityTable {
    type V = ModalityTableView;

    open spec fn view(&self) -> ModalityTableView {
        ModalityTableView { class_uid: self.class_uid@, table: self.table@ }
    }
}

/// The values of a list of modality tables.
pub open spec fn modalities_view(v: Seq<ModalityTable>) -> Seq<ModalityTableView> {
    Seq::new(v.len(), |i: int| v[i]@)
}

/// The rules of a validation: the field that names a record's class, the
/// tables that hold for every record, and one table for each class that is
/// validated.
pub struct RuleSet {
    pub class_field: String,
    pub common: Vec<FieldTable>,
    pub modality: Vec<ModalityTable>,
}

/// The mathematical value of a `RuleSet`.
pub struct RuleSetView {
    pub class_field: Seq<char>,
    pub common: Seq<FieldTableView>,
    pub modality: Seq<ModalityTableView>,
}

impl View for RuleSet {
    type V = RuleSetView;

    open spec fn view(&self) -> RuleSetView {
        RuleSetView {
            class_field: self.class_field@,
            common: tables_view(self.common@),
            modality: modalities_view(self.modality@),
        }
    }
}

/// The value of a node is text: its kind is any but that of a sequence,
/// whose code is `SQ`.
pub open spec fn is_textual(t: TagView) -> bool {
    t.vr != "SQ"@
}

/// A value counts as present: any value that is no text, and a text that is
/// not empty once trimmed.
pub open spec fn value_counts(textual: bool, trimmed_value: Seq<char>) -> bool {
    !textual || trimmed_value.len() > 0
}

/// The field `id` is present in a record: a root has that identifier, and
/// the value of the first such root counts as present.
pub open spec fn field_present(f: Seq<TagView>, id: Seq<char>) -> bool {
    match find_root(f, id) {
        Some(i) => value_counts(is_textual(f[i]), trimmed(f[i].value)),
        None => false,
    }
}

/// The class identifier of a record: the trimmed text of the first root with
/// the identifier `class_field`; none where there is no such root or its
/// value is no text.
pub open spec fn class_uid(f: Seq<TagView>, class_field: Seq<char>) -> Option<Seq<char>> {
    match find_root(f, class_field) {
        Some(i) => if is_textual(f[i]) {
            Some(trimmed(f[i].value))
        } else {
            None
        },
        None => None,
    }
}

/// The position of the first modality table at or after `from` that is for
/// the class `uid`.
pub open spec fn select_table_from(m: Seq<ModalityTableView>, uid: Seq<char>, from: int) -> Option<
    int,
>
    decreases m.len() - from,
{
    if from < 0 || from >= m.len() {
        None
    } else if m[from].class_uid == uid {
        Some(from)
    } else {
        select_table_from(m, uid, from + 1)
    }
}

/// The position of the first modality table for the class `uid`.
pub open spec fn select_table(m: Seq<ModalityTableView>, uid: Seq<char>) -> Option<int> {
    select_table_from(m, uid, 0)
}

/// The fields of several tables, one table after the other.
pub open spec fn all_fields(tables: Seq<FieldTableView>) -> Seq<RequiredFieldView>
    decreases tables.len(),
{
    if tables.len() == 0 {
        Seq::empty()
    } else {
        all_fields(tables.drop_last()) + tables.last().fields
    }
}

/// The test "this field is missing from the record".
pub open spec fn missing_pred(f: Seq<TagView>) -> spec_fn(RequiredFieldView) -> bool {
    |r: RequiredFieldView| !field_present(f, r.tag)
}

/// The display names of the fields of `fields` that are missing from the
/// record, in the order of `fields`.
pub open spec fn missing_names(f: Seq<TagView>, fields: Seq<RequiredFieldView>) -> Seq<Seq<char>> {
    fields.filter(missing_pred(f)).map_values(|r: RequiredFieldView| r.name)
}

/// The outcome for a list of missing names: valid where it is empty.
pub open spec fn outcome(missing: Seq<Seq<char>>) -> ValidationView {
    if missing.len() == 0 {
        ValidationView::Valid
    } else {
        ValidationView::Invalid(missing)
    }
}

/// The fields that a record of the class of modality table `m` must hold:
/// those of the common tables, then those of `m`.
pub open spec fn required_fields(rules: RuleSetView, m: int) -> Seq<RequiredFieldView> {
    all_fields(rules.common) + rules.modality[m].table.fields
}

/// The result of validating a record against a rule set.
pub open spec fn validate(f: Seq<TagView>, rules: RuleSetView) -> ValidationView {
    match class_uid(f, rules.class_field) {
        None => ValidationView::NotApplicable,
        Some(uid) => match select_table(rules.modality, uid) {
            None => ValidationView::NotApplicable,
            Some(m) => outcome(missing_names(f, required_fields(rules, m))),
        },
    }
}

/// Tells whether a value counts as present, given whether it is text and
/// the text once trimmed.
pub fn value_present(textual: bool, trimmed_value: &str) -> (r: bool)
    ensures
        r == value_counts(textual, trimmed_value@),
{
    !textual || !trimmed_value.is_empty()
}

/// The result for a list of missing names: valid where it is empty.
pub fn result_of_missing(missing: Vec<String>) -> (r: ValidationResult)
    ensures
        r@ == outcome(texts_view(missing@)),
{
    if missing.is_empty() {
        ValidationResult::Valid
    } else {
        ValidationResult::Invalid(missing)
    }
}

/// Tells whether the value of a node is text.
pub fn node_is_textual(tag: &DicomTag) -> (r: bool)
    ensures
        r == is_textual(tag@),
{
    let sq = String::from_str("SQ");
    !(tag.vr == sq)
}

/// Tells whether a field is present in a record with a value that counts.
pub fn is_tag_present(forest: &Vec<DicomTag>, id: &String) -> (r: bool)
    ensures
        r == field_present(forest_view(forest@), id@),
{
    match find_root_index(forest, id) {
        Some(i) => {
            let node = &forest[i];
            value_present(node_is_textual(node), trim(node.value.as_str()))
        },
        None => false,
    }
}

/// Reads the class identifier of a record.
pub fn read_class_uid(forest: &Vec<DicomTag>, class_field: &String) -> (r: Option<String>)
    ensures
        text_view(r) == class_uid(forest_view(forest@), class_field@),
{
    match find_root_index(forest, class_field) {
        Some(i) => {
            let node = &forest[i];
            if node_is_textual(node) {
                Some(String::from_str(trim(node.value.as_str())))
            } else {
                None
            }
        },
        None => None,
    }
}

/// Finds the first modality table for the class `uid`.
pub fn select_modality(modality: &Vec<ModalityTable>, uid: &String) -> (r: Option<usize>)
    ensures
        match r {
            Some(i) => select_table(modalities_view(modality@), uid@) == Some(i as int) && i
                < modality.len(),
            None => select_table(modalities_view(modality@), uid@) is None,
        },
{
    let ghost mv = modalities_view(modality@);
    let mut i: usize = 0;
    while i < modality.len()
        invariant
            i <= modality.len(),
            mv == modalities_view(modality@),
            select_table(mv, uid@) == select_table_from(mv, uid@, i as int),
        decreases modality.len() - i,
    {
        if modality[i].class_uid == *uid {
            return Some(i);
        }
        i += 1;
    }
    None
}

/// Appends to `missing` the display names of the fields of `fields` that
/// are missing from the record, in order.
pub fn collect_missing(
    forest: &Vec<DicomTag>,
    fields: &Vec<RequiredField>,
    missing: &mut Vec<String>,
)
    ensures
        texts_view(final(missing)@) == texts_view(old(missing)@) + missing_names(
            forest_view(forest@),
            fields_view(fields@),
        ),
{
    let ghost fv = forest_view(forest@);
    let ghost rv = fields_view(fields@);
    let ghost before = texts_view(missing@);
    let mut i: usize = 0;
    proof {
        reveal(Seq::filter);
        assert(before + missing_names(fv, rv.take(0)) =~= before);
    }
    while i < fields.len()
        invariant
            i <= fields.len(),
            fv == forest_view(forest@),
            rv == fields_view(fields@),
            texts_view(missing@) == before + missing_names(fv, rv.take(i as int)),
        decreases fields.len() - i,
    {
        let ghost names = texts_view(missing@);
        proof {
            reveal(Seq::filter);
            assert(rv.take(i + 1).drop_last() =~= rv.take(i as int));
            assert(missing_pred(fv)(rv[i as int]) == !field_present(fv, rv[i as int].tag));
        }
        if !is_tag_present(forest, &fields[i].tag) {
            missing.push(fields[i].name.clone());
            assert(texts_view(missing@) =~= names.push(rv[i as int].name));
            assert(missing_names(fv, rv.take(i + 1)) =~= missing_names(fv, rv.take(i as int)).push(
                rv[i as int].name,
            ));
        }
        assert(texts_view(missing@) =~= before + missing_names(fv, rv.take(i + 1)));
        i += 1;
    }
    assert(rv.take(fields.len() as int) =~= rv);
}

/// Validates a record against a rule set: not applicable where the record
/// names no class or the rules hold no table for its class; else valid
/// where no mandatory field is missing, and invalid with the names of the
/// missing fields, in rule-table order.
pub fn validate_fields(forest: &Vec<DicomTag>, rules: &RuleSet) -> (r: ValidationResult)
    ensures
        r@ == validate(forest_view(forest@), rules@),
{
    let uid = match read_class_uid(forest, &rules.class_field) {
        Some(uid) => uid,
        None => {
            return ValidationResult::NotApplicable;
        },
    };
    let m = match select_modality(&rules.modality, &uid) {
        Some(m) => m,
        None => {
            return ValidationResult::NotApplicable;
        },
    };
    let ghost fv = forest_view(forest@);
    let ghost cv = tables_view(rules.common@);
    let mut missing: Vec<String> = Vec::new();
    let mut i: usize = 0;
    proof {
        lemma_missing_names_empty(fv);
        assert(cv.take(0) =~= Seq::empty());
        assert(texts_view(missing@) =~= missing_names(fv, all_fields(cv.take(0))));
    }
    while i < rules.common.len()
        invariant
            i <= rules.common.len(),
            fv == forest_view(forest@),
            cv == tables_view(rules.common@),
            texts_view(missing@) == missing_names(fv, all_fields(cv.take(i as int))),
        decreases rules.common.len() - i,
    {
        collect_missing(forest, &rules.common[i].fields, &mut missing);
        proof {
            assert(cv.take(i + 1).drop_last() =~= cv.take(i as int));
            lemma_missing_names_concat(fv, all_fields(cv.take(i as int)), cv[i as int].fields);
        }
        i += 1;
    }
    collect_missing(forest, &rules.modality[m].table.fields, &mut missing);
    proof {
        assert(cv.take(rules.common.len() as int) =~= cv);
        lemma_missing_names_concat(fv, all_fields(cv), rules@.modality[m as int].table.fields);
    }
    result_of_missing(missing)
}

/// Validates a record against the rules for the mandatory fields of CT and
/// MR images.
pub fn validate_type1_fields(forest: &Vec<DicomTag>) -> (r: ValidationResult)
    ensures
        r@ == validate(forest_view(forest@), type1_rules()),
{
    let rules = type1_rule_set();
    validate_fields(forest, &rules)
}

/// The class that a class identifier stands for.
pub open spec fn sop_class_of(uid: Option<Seq<char>>) -> SopClassView {
    match uid {
        Some(u) => if u == ct_image_storage() {
            SopClassView::Ct
        } else if u == mr_image_storage() {
            SopClassView::Mr
        } else {
            SopClassView::Other(u)
        },
        None => SopClassView::Unknown,
    }
}

/// Interprets a class identifier.
pub fn classify_sop_class(uid: Option<String>) -> (r: SopClass)
    ensures
        r@ == sop_class_of(text_view(uid)),
{
    match uid {
        Some(u) => {
            let ct = String::from_str("1.2.840.10008.5.1.4.1.1.2");
            let mr = String::from_str("1.2.840.10008.5.1.4.1.1.4");
            if u == ct {
                SopClass::Ct
            } else if u == mr {
                SopClass::Mr
            } else {
                SopClass::Other(u)
            }
        },
        None => SopClass::Unknown,
    }
}

/// Reads the class of a record from its class identifier.
pub fn get_sop_class(forest: &Vec<DicomTag>) -> (r: SopClass)
    ensures
        r@ == sop_class_of(class_uid(forest_view(forest@), sop_class_field())),
{
    let field = String::from_str("(0008,0016)");
    classify_sop_class(read_class_uid(forest, &field))
}

/// No name is missing among no fields.
pub proof fn lemma_missing_names_empty(f: Seq<TagView>)
    ensures
        missing_names(f, Seq::empty()) == Seq::<Seq<char>>::empty(),
{
    reveal(Seq::filter);
    assert(missing_names(f, Seq::empty()) =~= Seq::<Seq<char>>::empty());
}

/// The names missing among two lists of fields laid end to end are those
/// missing among the first, then those missing among the second.
pub proof fn lemma_missing_names_concat(
    f: Seq<TagView>,
    a: Seq<RequiredFieldView>,
    b: Seq<RequiredFieldView>,
)
    ensures
        missing_names(f, a + b) == missing_names(f, a) + missing_names(f, b),
{
    Seq::filter_distributes_over_add(a, b, missing_pred(f));
    assert(missing_names(f, a + b) =~= missing_names(f, a) + missing_names(f, b));
}

/// The modality table that the rules hold for the class of a record; none
/// where the record names no class or the rules have no table for it.
pub open spec fn applicable_table(f: Seq<TagView>, rules: RuleSetView) -> Option<int> {
    match class_uid(f, rules.class_field) {
        Some(uid) => select_table(rules.modality, uid),
        None => None,
    }
}

/// Each field of a table adds its name to the missing names, in its turn,
/// if and only if it is missing.
pub proof fn lemma_missing_names_push(
    f: Seq<TagView>,
    fields: Seq<RequiredFieldView>,
    r: RequiredFieldView,
)
    ensures
        missing_names(f, fields.push(r)) == if field_present(f, r.tag) {
            missing_names(f, fields)
        } else {
            missing_names(f, fields).push(r.name)
        },
{
    lemma_filter_push(fields, r, missing_pred(f));
    if !field_present(f, r.tag) {
        assert(missing_names(f, fields.push(r)) =~= missing_names(f, fields).push(r.name));
    }
}

/// No name is missing exactly where every field is present.
pub proof fn lemma_missing_names_none(f: Seq<TagView>, fields: Seq<RequiredFieldView>)
    ensures
        missing_names(f, fields).len() == 0 <==> forall|k: int|
            0 <= k < fields.len() ==> field_present(f, (#[trigger] fields[k]).tag),
{
    let pred = missing_pred(f);
    if forall|k: int| 0 <= k < fields.len() ==> field_present(f, (#[trigger] fields[k]).tag) {
        lemma_filter_none(fields, pred);
    } else {
        let k = choose|k: int| 0 <= k < fields.len() && !field_present(f, (#[trigger] fields[k]).tag);
        assert(pred(fields[k]));
        broadcast use vstd::seq_lib::group_filter_ensures;
        assert(fields.filter(pred).contains(fields[k]));
    }
}

/// The three outcomes of a validation. It is not applicable exactly where
/// the record names no class or the rules hold no table for its class,
/// whatever fields the record holds. Where it is applicable, it is valid
/// exactly where every field of the common tables and of the class's table
/// is present, and else invalid with the names of the missing ones among
/// these fields, in the order of the tables.
pub proof fn lemma_validation_outcomes(f: Seq<TagView>, rules: RuleSetView)
    ensures
        applicable_table(f, rules) is None <==> validate(f, rules) == ValidationView::NotApplicable,
        match applicable_table(f, rules) {
            Some(m) => {
                let fields = required_fields(rules, m);
                &&& validate(f, rules) == ValidationView::Valid <==> forall|k: int|
                    0 <= k < fields.len() ==> field_present(f, (#[trigger] fields[k]).tag)
                &&& validate(f, rules) != ValidationView::Valid ==> validate(f, rules)
                    == ValidationView::Invalid(missing_names(f, fields))
            },
            None => true,
        },
{
    match applicable_table(f, rules) {
        Some(m) => {
            lemma_missing_names_none(f, required_fields(rules, m));
        },
        None => {},
    }
}

} // verus!
