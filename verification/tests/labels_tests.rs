use struct_grid::labels::cell_label;
use struct_grid::labels::field_name;
use struct_grid::labels::i64_to_string;
use struct_grid::labels::padding_decl_line;
use struct_grid::labels::u64_to_string;
use struct_grid::layout::FieldSize;
use struct_grid::state::TemplateApp;

#[test]
fn decimal_formatting() {
    assert_eq!(u64_to_string(0), "0");
    assert_eq!(u64_to_string(7), "7");
    assert_eq!(u64_to_string(10), "10");
    assert_eq!(u64_to_string(12345), "12345");
    assert_eq!(u64_to_string(1_000_000), "1000000");
}

#[test]
fn signed_decimal_formatting() {
    assert_eq!(i64_to_string(0), "0");
    assert_eq!(i64_to_string(42), "42");
    assert_eq!(i64_to_string(-1), "-1");
    assert_eq!(i64_to_string(-98765), "-98765");
}

#[test]
fn cell_labels() {
    assert_eq!(cell_label("u8", 5), "u8 5");
    assert_eq!(cell_label("u128", 0), "u128 0");
    assert_eq!(cell_label("MyStruct", -1), "MyStruct -1");
    assert_eq!(cell_label("u16", 123456), "u16 123456");
}

#[test]
fn positional_field_names() {
    assert_eq!(field_name(0), "a");
    assert_eq!(field_name(1), "b");
    assert_eq!(field_name(25), "z");
}

#[test]
fn padding_lines() {
    assert_eq!(
        padding_decl_line(15),
        "_ : [u8;15], // necessary padding for alignment"
    );
    assert_eq!(
        padding_decl_line(1),
        "_ : [u8;1], // necessary padding for alignment"
    );
}

#[test]
fn default_state_is_one_byte_then_sixteen() {
    let app = TemplateApp::default();
    assert_eq!(app.fields, vec![FieldSize::U8, FieldSize::U128]);
}

#[test]
fn editor_operations() {
    let mut app = TemplateApp::default();
    app.push_field(FieldSize::U32);
    assert_eq!(
        app.fields,
        vec![FieldSize::U8, FieldSize::U128, FieldSize::U32]
    );
    app.set_field(1, FieldSize::U16);
    assert_eq!(
        app.fields,
        vec![FieldSize::U8, FieldSize::U16, FieldSize::U32]
    );
    app.remove_field(0);
    assert_eq!(app.fields, vec![FieldSize::U16, FieldSize::U32]);
    let layout = app.layout();
    assert_eq!(layout.total_size, 8);
    assert_eq!(layout.alignment, 4);
}
