use struct_grid::layout::compute_layout;
use struct_grid::layout::FieldSize;

#[test]
fn one_byte_then_sixteen_byte() {
    let fields = vec![FieldSize::U8, FieldSize::U128];
    let r = compute_layout(&fields);
    assert_eq!(r.fields.len(), 2);
    assert_eq!(r.fields[0].offset, 0);
    assert_eq!(r.fields[0].size, 1);
    assert_eq!(r.fields[1].offset, 16);
    assert_eq!(r.fields[1].size, 16);
    assert_eq!(r.padding.len(), 1);
    assert_eq!(r.padding[0].start, 1);
    assert_eq!(r.padding[0].len, 15);
    assert_eq!(r.total_size, 32);
    assert_eq!(r.alignment, 16);
}

#[test]
fn four_one_two() {
    let fields = vec![FieldSize::U32, FieldSize::U8, FieldSize::U16];
    let r = compute_layout(&fields);
    assert_eq!(r.fields.len(), 3);
    assert_eq!(r.fields[0].offset, 0);
    assert_eq!(r.fields[1].offset, 4);
    assert_eq!(r.fields[2].offset, 6);
    assert_eq!(r.padding.len(), 1);
    assert_eq!(r.padding[0].start, 5);
    assert_eq!(r.padding[0].len, 1);
    assert_eq!(r.total_size, 8);
    assert_eq!(r.alignment, 4);
}

#[test]
fn empty_field_list() {
    let fields: Vec<FieldSize> = Vec::new();
    let r = compute_layout(&fields);
    assert_eq!(r.fields.len(), 0);
    assert_eq!(r.padding.len(), 0);
    assert_eq!(r.total_size, 0);
    assert_eq!(r.alignment, 1);
}

#[test]
fn total_size_is_multiple_of_alignment() {
    let lists = [
        vec![],
        vec![FieldSize::U8],
        vec![FieldSize::U8, FieldSize::U128],
        vec![FieldSize::U64, FieldSize::U8, FieldSize::U8, FieldSize::U32],
        vec![FieldSize::U16, FieldSize::U16, FieldSize::U8],
    ];
    for fields in lists.iter() {
        let r = compute_layout(fields);
        assert_eq!(r.total_size % r.alignment, 0);
        let max = fields.iter().map(|f| f.size()).max().unwrap_or(1).max(1);
        assert_eq!(r.alignment, max);
    }
}

#[test]
fn offsets_are_aligned() {
    let fields = vec![
        FieldSize::U8,
        FieldSize::U64,
        FieldSize::U16,
        FieldSize::U128,
        FieldSize::U32,
    ];
    let r = compute_layout(&fields);
    for slot in r.fields.iter() {
        assert_eq!(slot.offset % slot.size, 0);
    }
}

#[test]
fn spans_partition_structure() {
    let fields = vec![
        FieldSize::U8,
        FieldSize::U64,
        FieldSize::U16,
        FieldSize::U128,
        FieldSize::U32,
    ];
    let r = compute_layout(&fields);
    let mut covered = vec![0u32; r.total_size];
    for slot in r.fields.iter() {
        for a in slot.offset..slot.offset + slot.size {
            covered[a] += 1;
        }
    }
    for pad in r.padding.iter() {
        for a in pad.start..pad.start + pad.len {
            covered[a] += 1;
        }
    }
    for count in covered.iter() {
        assert_eq!(*count, 1);
    }
}

#[test]
fn layout_is_idempotent() {
    let fields = vec![FieldSize::U32, FieldSize::U8, FieldSize::U16, FieldSize::U128];
    let r1 = compute_layout(&fields);
    let r2 = compute_layout(&fields);
    assert_eq!(r1.fields, r2.fields);
    assert_eq!(r1.padding, r2.padding);
    assert_eq!(r1.total_size, r2.total_size);
    assert_eq!(r1.alignment, r2.alignment);
}

#[test]
fn total_struct_size_matches_layout() {
    let lists = [
        vec![],
        vec![FieldSize::U8, FieldSize::U128],
        vec![FieldSize::U32, FieldSize::U8, FieldSize::U16],
    ];
    for fields in lists.iter() {
        assert_eq!(
            FieldSize::total_struct_size(fields),
            compute_layout(fields).total_size
        );
    }
}

#[test]
fn field_size_accessors() {
    assert_eq!(FieldSize::U8.size(), 1);
    assert_eq!(FieldSize::U16.size(), 2);
    assert_eq!(FieldSize::U32.size(), 4);
    assert_eq!(FieldSize::U64.size(), 8);
    assert_eq!(FieldSize::U128.size(), 16);
    assert_eq!(FieldSize::U8.to_str(), "u8");
    assert_eq!(FieldSize::U16.to_str(), "u16");
    assert_eq!(FieldSize::U32.to_str(), "u32");
    assert_eq!(FieldSize::U64.to_str(), "u64");
    assert_eq!(FieldSize::U128.to_str(), "u128");
    let all = FieldSize::all();
    assert_eq!(
        all,
        vec![
            FieldSize::U8,
            FieldSize::U16,
            FieldSize::U32,
            FieldSize::U64,
            FieldSize::U128,
        ]
    );
}
