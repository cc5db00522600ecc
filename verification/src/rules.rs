use vstd::prelude::*;
use crate::validation::FieldTable;
use crate::validation::FieldTableView;
use crate::validation::ModalityTable;
use crate::validation::ModalityTableView;
use crate::validation::RequiredField;
use crate::validation::RequiredFieldView;
use crate::validation::RuleSet;
use crate::validation::RuleSetView;
use crate::validation::fields_view;
use crate::validation::modalities_view;
use crate::validation::tables_view;

verus! {

/// Identifier of the field that names a record's class.
pub open spec fn sop_class_field() -> Seq<char> {
    "(0008,0016)"@
}

/// Class identifier of CT Image Storage.
pub open spec fn ct_image_storage() -> Seq<char> {
    "1.2.840.10008.5.1.4.1.1.2"@
}

/// Class identifier of MR Image Storage.
pub open spec fn mr_image_storage() -> Seq<char> {
    "1.2.840.10008.5.1.4.1.1.4"@
}

/// A mandatory field with its identifier and display name.
pub open spec fn field(tag: Seq<char>, name: Seq<char>) -> RequiredFieldView {
    RequiredFieldView { tag: tag, name: name }
}

/// Makes a mandatory field.
pub fn required(tag: &str, name: &str) -> (r: RequiredField)
    ensures
        r@ == field(tag@, name@),
{
    RequiredField { tag: String::from_str(tag), name: String::from_str(name) }
}

/// The mandatory fields of the SOP Common module.
pub open spec fn sop_common() -> FieldTableView {
    FieldTableView {
        name: "SOP Common"@,
        fields: seq![
            field("(0008,0016)"@, "SOPClassUID"@),
            field("(0008,0018)"@, "SOPInstanceUID"@),
        ],
    }
}

/// Builds the table of the SOP Common module.
pub fn sop_common_table() -> (t: FieldTable)
    ensures
        t@ == sop_common(),
{
    let mut fields: Vec<RequiredField> = Vec::new();
    fields.push(required("(0008,0016)", "SOPClassUID"));
    fields.push(required("(0008,0018)", "SOPInstanceUID"));
    assert(fields_view(fields@) =~= sop_common().fields);
    FieldTable { name: String::from_str("SOP Common"), fields }
}

/// The mandatory fields of the General Study module.
pub open spec fn general_study() -> FieldTableView {
    FieldTableView {
        name: "General Study"@,
        fields: seq![
            field("(0020,000D)"@, "StudyInstanceUID"@),
        ],
    }
}

/// Builds the table of the General Study module.
pub fn general_study_table() -> (t: FieldTable)
    ensures
        t@ == general_study(),
{
    let mut fields: Vec<RequiredField> = Vec::new();
    fields.push(required("(0020,000D)", "StudyInstanceUID"));
    assert(fields_view(fields@) =~= general_study().fields);
    FieldTable { name: String::from_str("General Study"), fields }
}

/// The mandatory fields of the General Series module.
pub open spec fn general_series() -> FieldTableView {
    FieldTableView {
        name: "General Series"@,
        fields: seq![
            field("(0008,0060)"@, "Modality"@),
            field("(0020,000E)"@, "SeriesInstanceUID"@),
        ],
    }
}

/// Builds the table of the General Series module.
pub fn general_series_table() -> (t: FieldTable)
    ensures
        t@ == general_series(),
{
    let mut fields: Vec<RequiredField> = Vec::new();
    fields.push(required("(0008,0060)", "Modality"));
    fields.push(required("(0020,000E)", "SeriesInstanceUID"));
    assert(fields_view(fields@) =~= general_series().fields);
    FieldTable { name: String::from_str("General Series"), fields }
}

/// The mandatory fields of the Frame of Reference module.
pub open spec fn frame_of_reference() -> FieldTableView {
    FieldTableView {
        name: "Frame of Reference"@,
        fields: seq![
            field("(0020,0052)"@, "FrameOfReferenceUID"@),
        ],
    }
}

/// Builds the table of the Frame of Reference module.
pub fn frame_of_reference_table() -> (t: FieldTable)
    ensures
        t@ == frame_of_reference(),
{
    let mut fields: Vec<RequiredField> = Vec::new();
    fields.push(required("(0020,0052)", "FrameOfReferenceUID"));
    assert(fields_view(fields@) =~= frame_of_reference().fields);
    FieldTable { name: String::from_str("Frame of Reference"), fields }
}

/// The mandatory fields of the Image Plane module.
pub open spec fn image_plane() -> FieldTableView {
    FieldTableView {
        name: "Image Plane"@,
        fields: seq![
            field("(0020,0032)"@, "ImagePositionPatient"@),
            field("(0020,0037)"@, "ImageOrientationPatient"@),
            field("(0028,0030)"@, "PixelSpacing"@),
        ],
    }
}

/// Builds the table of the Image Plane module.
pub fn image_plane_table() -> (t: FieldTable)
    ensures
        t@ == image_plane(),
{
    let mut fields: Vec<RequiredField> = Vec::new();
    fields.push(required("(0020,0032)", "ImagePositionPatient"));
    fields.push(required("(0020,0037)", "ImageOrientationPatient"));
    fields.push(required("(0028,0030)", "PixelSpacing"));
    assert(fields_view(fields@) =~= image_plane().fields);
    FieldTable { name: String::from_str("Image Plane"), fields }
}

/// The mandatory fields of the Image Pixel module.
pub open spec fn image_pixel() -> FieldTableView {
    FieldTableView {
        name: "Image Pixel"@,
        fields: seq![
            field("(0028,0002)"@, "SamplesPerPixel"@),
            field("(0028,0004)"@, "PhotometricInterpretation"@),
            field("(0028,0010)"@, "Rows"@),
            field("(0028,0011)"@, "Columns"@),
            field("(0028,0100)"@, "BitsAllocated"@),
            field("(0028,0101)"@, "BitsStored"@),
            field("(0028,0102)"@, "HighBit"@),
            field("(0028,0103)"@, "PixelRepresentation"@),
            field("(7FE0,0010)"@, "PixelData"@),
        ],
    }
}

/// Builds the table of the Image Pixel module.
pub fn image_pixel_table() -> (t: FieldTable)
    ensures
        t@ == image_pixel(),
{
    let mut fields: Vec<RequiredField> = Vec::new();
    fields.push(required("(0028,0002)", "SamplesPerPixel"));
    fields.push(required("(0028,0004)", "PhotometricInterpretation"));
    fields.push(required("(0028,0010)", "Rows"));
    fields.push(required("(0028,0011)", "Columns"));
    fields.push(required("(0028,0100)", "BitsAllocated"));
    fields.push(required("(0028,0101)", "BitsStored"));
    fields.push(required("(0028,0102)", "HighBit"));
    fields.push(required("(0028,0103)", "PixelRepresentation"));
    fields.push(required("(7FE0,0010)", "PixelData"));
    assert(fields_view(fields@) =~= image_pixel().fields);
    FieldTable { name: String::from_str("Image Pixel"), fields }
}

/// The mandatory fields of the CT Image module.
pub open spec fn ct_image() -> FieldTableView {
    FieldTableView {
        name: "CT Image"@,
        fields: seq![
            field("(0008,0008)"@, "ImageType"@),
            field("(0028,1052)"@, "RescaleIntercept"@),
            field("(0028,1053)"@, "RescaleSlope"@),
        ],
    }
}

/// Builds the table of the CT Image module.
pub fn ct_image_table() -> (t: FieldTable)
    ensures
        t@ == ct_image(),
{
    let mut fields: Vec<RequiredField> = Vec::new();
    fields.push(required("(0008,0008)", "ImageType"));
    fields.push(required("(0028,1052)", "RescaleIntercept"));
    fields.push(required("(0028,1053)", "RescaleSlope"));
    assert(fields_view(fields@) =~= ct_image().fields);
    FieldTable { name: String::from_str("CT Image"), fields }
}

/// The mandatory fields of the MR Image module.
pub open spec fn mr_image() -> FieldTableView {
    FieldTableView {
        name: "MR Image"@,
        fields: seq![
            field("(0008,0008)"@, "ImageType"@),
            field("(0018,0020)"@, "ScanningSequence"@),
            field("(0018,0021)"@, "SequenceVariant"@),
            field("(0018,0023)"@, "MRAcquisitionType"@),
        ],
    }
}

/// Builds the table of the MR Image module.
pub fn mr_image_table() -> (t: FieldTable)
    ensures
        t@ == mr_image(),
{
    let mut fields: Vec<RequiredField> = Vec::new();
    fields.push(required("(0008,0008)", "ImageType"));
    fields.push(required("(0018,0020)", "ScanningSequence"));
    fields.push(required("(0018,0021)", "SequenceVariant"));
    fields.push(required("(0018,0023)", "MRAcquisitionType"));
    assert(fields_view(fields@) =~= mr_image().fields);
    FieldTable { name: String::from_str("MR Image"), fields }
}

/// The rules for the mandatory fields of CT and MR images: six tables that
/// hold for both, and one table for each of the two classes.
pub open spec fn type1_rules() -> RuleSetView {
    RuleSetView {
        class_field: sop_class_field(),
        common: seq![
            sop_common(),
            general_study(),
            general_series(),
            frame_of_reference(),
            image_plane(),
            image_pixel(),
        ],
        modality: seq![
            ModalityTableView { class_uid: ct_image_storage(), table: ct_image() },
            ModalityTableView { class_uid: mr_image_storage(), table: mr_image() },
        ],
    }
}

/// Builds the rules for the mandatory fields of CT and MR images.
pub fn type1_rule_set() -> (r: RuleSet)
    ensures
        r@ == type1_rules(),
{
    let mut common: Vec<FieldTable> = Vec::new();
    common.push(sop_common_table());
    common.push(general_study_table());
    common.push(general_series_table());
    common.push(frame_of_reference_table());
    common.push(image_plane_table());
    common.push(image_pixel_table());
    let mut modality: Vec<ModalityTable> = Vec::new();
    modality.push(
        ModalityTable {
            class_uid: String::from_str("1.2.840.10008.5.1.4.1.1.2"),
            table: ct_image_table(),
        },
    );
    modality.push(
        ModalityTable {
            class_uid: String::from_str("1.2.840.10008.5.1.4.1.1.4"),
            table: mr_image_table(),
        },
    );
    assert(tables_view(common@) =~= type1_rules().common);
    assert(modalities_view(modality@) =~= type1_rules().modality);
    RuleSet { class_field: String::from_str("(0008,0016)"), common, modality }
}

} // verus!
