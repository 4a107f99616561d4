use hid_codec::descriptor_items::{
    CollectionType, DescriptorItem, ReportBufferedBytesFlag, ReportConstantFlag, ReportLayoutFlag,
    ReportLinearFlag, ReportNullStateFlag, ReportPreferredStateFlag, ReportRelativeFlag,
    ReportWrapFlag, Usage,
};
use hid_codec::descriptors::{Descriptor, GlobalState, MainItem, Report, ReportField, ReportType};
use hid_codec::reports::{read_report, write_report, ReportFieldValue};
use hid_codec::HidError;

fn variable_field(size: u32, lmin: i32, lmax: i32, usages: Option<Vec<u32>>) -> ReportField {
    ReportField::Variable {
        size,
        logical_minimum: lmin,
        logical_maximum: lmax,
        physical_minimum: None,
        physical_maximum: None,
        unit_exponent: None,
        unit: None,
        usages,
        constant: false,
        relative: false,
        wrap: false,
        linear: true,
        preferred_state: true,
        null_state: false,
        volatile: None,
        buffered_bytes: false,
    }
}

#[test]
fn item_round_trip_representative() {
    let items = vec![
        DescriptorItem::UsagePage(7),
        DescriptorItem::UsagePage(0xffff),
        DescriptorItem::LogicalMinimum(1),
        DescriptorItem::LogicalMaximum(255),
        DescriptorItem::LogicalMinimum(256),
        DescriptorItem::LogicalMaximum(65535),
        DescriptorItem::LogicalMinimum(65536),
        DescriptorItem::ReportSize(8),
        DescriptorItem::ReportId(1),
        DescriptorItem::ReportCount(4),
        DescriptorItem::UnitExponent(-2),
        DescriptorItem::Unit(0x11),
        DescriptorItem::Usage(Usage::ExtendedUsage(0x0007_0004)),
        DescriptorItem::StringIndex(3),
        DescriptorItem::Collection { ty: CollectionType::Application },
        DescriptorItem::EndCollection,
        DescriptorItem::Push,
        DescriptorItem::Pop,
        DescriptorItem::Input {
            constant: ReportConstantFlag::Data,
            layout: ReportLayoutFlag::Variable,
            relative: ReportRelativeFlag::Absolute,
            wrap: ReportWrapFlag::NoWrap,
            linear: ReportLinearFlag::Linear,
            preferred_state: ReportPreferredStateFlag::PreferredState,
            null_state: ReportNullStateFlag::NoNullPosition,
            buffered_bytes: ReportBufferedBytesFlag::BitField,
        },
    ];
    for item in items {
        let bytes = item.to_bytes();
        assert_eq!(DescriptorItem::from_bytes(&bytes), Ok(item));
        let bv = item.into_bitvec();
        assert_eq!(DescriptorItem::from_bitvec(bv), Ok(item));
    }
}

#[test]
fn item_round_trip_known_exceptions() {
    // The fixed size-selection table drops nonzero payload bytes for these.
    let b = DescriptorItem::LogicalMinimum(-1).to_bytes();
    assert_eq!(DescriptorItem::from_bytes(&b), Ok(DescriptorItem::LogicalMinimum(0)));
    let b = DescriptorItem::LogicalMaximum(-256).to_bytes();
    assert_eq!(DescriptorItem::from_bytes(&b), Ok(DescriptorItem::LogicalMaximum(0)));
    // A sixteen-bit usage always reads back in the extended form.
    let b = DescriptorItem::Usage(Usage::Usage(7)).to_bytes();
    assert_eq!(
        DescriptorItem::from_bytes(&b),
        Ok(DescriptorItem::Usage(Usage::ExtendedUsage(7)))
    );
}

#[test]
fn contiguous_usages_become_a_range() {
    // Keyboard page usages 1..=4 in one four-field run.
    let fields = (0..4)
        .map(|k| variable_field(8, 0, 1, Some(vec![0x0007_0001 + k])))
        .collect::<Vec<_>>();
    let d = Descriptor {
        items: vec![MainItem::Report(Report { ty: ReportType::Input, id: None, fields })],
    };
    let items = d.into_descriptor_items().unwrap();
    assert!(items.contains(&DescriptorItem::UsagePage(7)));
    assert!(items.contains(&DescriptorItem::UsageMinimum(Usage::Usage(1))));
    assert!(items.contains(&DescriptorItem::UsageMaximum(Usage::Usage(4))));
    assert!(!items.iter().any(|it| matches!(it, DescriptorItem::Usage(_))));
}

#[test]
fn non_contiguous_usages_stay_individual() {
    let fields = vec![
        variable_field(8, 0, 1, Some(vec![0x0007_0001])),
        variable_field(8, 0, 1, Some(vec![0x0007_0005])),
    ];
    let d = Descriptor {
        items: vec![MainItem::Report(Report { ty: ReportType::Input, id: None, fields })],
    };
    let items = d.into_descriptor_items().unwrap();
    assert_eq!(
        items.iter().filter(|it| matches!(it, DescriptorItem::UsagePage(7))).count(),
        1
    );
    assert!(items.contains(&DescriptorItem::Usage(Usage::Usage(1))));
    assert!(items.contains(&DescriptorItem::Usage(Usage::Usage(5))));
    assert!(!items.iter().any(|it| matches!(it, DescriptorItem::UsageMinimum(_))));
}

#[test]
fn shared_globals_emitted_once() {
    let r1 = Report { ty: ReportType::Input, id: None, fields: vec![variable_field(8, 0, 10, None)] };
    let r2 = Report { ty: ReportType::Input, id: None, fields: vec![variable_field(8, 0, 10, None)] };
    let d = Descriptor { items: vec![MainItem::Report(r1), MainItem::Report(r2)] };
    let items = d.into_descriptor_items().unwrap();
    assert_eq!(
        items.iter().filter(|it| matches!(it, DescriptorItem::ReportSize(8))).count(),
        1
    );
    assert_eq!(
        items.iter().filter(|it| matches!(it, DescriptorItem::LogicalMaximum(10))).count(),
        1
    );
    assert_eq!(
        items.iter().filter(|it| matches!(it, DescriptorItem::ReportCount(1))).count(),
        1
    );
}

#[test]
fn write_read_round_trip() {
    let report = Report {
        ty: ReportType::Input,
        id: Some(1),
        fields: vec![
            variable_field(8, -10, 10, None),
            ReportField::Array {
                size: 2,
                logical_minimum: 0,
                logical_maximum: 2,
                usage_range: vec![0x0007_0001, 0x0007_0002, 0x0007_0003],
                constant: false,
                relative: false,
            },
        ],
    };
    let values = vec![
        ReportFieldValue::SignedVariable(Some(-5)),
        ReportFieldValue::Array(Some(0x0007_0002)),
    ];
    let buffer = write_report(&report, &values).unwrap();
    let back = read_report(&report, &buffer).unwrap();
    assert_eq!(back, values);
}

#[test]
fn null_sentinel_reads_back_absent() {
    let report = Report {
        ty: ReportType::Input,
        id: None,
        fields: vec![variable_field(3, 0, 5, None)],
    };
    let values = vec![ReportFieldValue::UnsignedVariable(None)];
    let buffer = write_report(&report, &values).unwrap();
    let back = read_report(&report, &buffer).unwrap();
    assert_eq!(back, vec![ReportFieldValue::UnsignedVariable(None)]);
}

#[test]
fn out_of_range_write_is_fatal() {
    let report = Report {
        ty: ReportType::Input,
        id: None,
        fields: vec![variable_field(8, -10, 10, None)],
    };
    let values = vec![ReportFieldValue::SignedVariable(Some(11))];
    assert!(matches!(write_report(&report, &values), Err(HidError::RangeViolation)));
}

#[test]
fn wrong_value_count_is_fatal() {
    let report = Report {
        ty: ReportType::Input,
        id: None,
        fields: vec![variable_field(8, 0, 10, None), variable_field(8, 0, 10, None)],
    };
    let values = vec![
        ReportFieldValue::UnsignedVariable(Some(1)),
        ReportFieldValue::UnsignedVariable(Some(2)),
        ReportFieldValue::UnsignedVariable(Some(3)),
    ];
    assert!(matches!(write_report(&report, &values), Err(HidError::ShapeMismatch)));
}

#[test]
fn global_state_default_is_empty() {
    let st = GlobalState::default();
    assert_eq!(st.report_id, None);
    assert_eq!(st.usage_page, None);
}

#[test]
fn oversize_buffer_reads_declared_bits() {
    let report = Report {
        ty: ReportType::Input,
        id: None,
        fields: vec![variable_field(3, 0, 5, None)],
    };
    // A 4-bit buffer for a 3-bit layout: the declared bits are read, the
    // trailing bit is ignored.
    let buffer = hid_codec::bit_buffers::LsbBitVec::from_bools(&vec![true, false, true, true]);
    let back = read_report(&report, &buffer).unwrap();
    assert_eq!(back, vec![ReportFieldValue::UnsignedVariable(Some(5))]);
}
