use wat::style_fields::{copied_fields, StyleField};

#[test]
fn a_longhand_copies_its_own_field() {
    assert_eq!(copied_fields("color"), vec![StyleField::Color]);
    assert_eq!(copied_fields("margin-left"), vec![StyleField::MarginLeft]);
    assert_eq!(copied_fields("grid-template-columns"), vec![StyleField::GridTemplateColumns]);
}

#[test]
fn a_shorthand_copies_every_field_it_sets() {
    assert_eq!(
        copied_fields("font"),
        vec![
            StyleField::FontFamily,
            StyleField::FontSize,
            StyleField::FontStyle,
            StyleField::FontWeight,
            StyleField::LineHeight
        ]
    );
    assert_eq!(
        copied_fields("padding"),
        vec![
            StyleField::PaddingTop,
            StyleField::PaddingRight,
            StyleField::PaddingBottom,
            StyleField::PaddingLeft
        ]
    );
    assert_eq!(copied_fields("-webkit-backdrop-filter"), vec![StyleField::BackdropFilter]);
    assert_eq!(
        copied_fields("text-decoration-line"),
        vec![StyleField::TextDecoration, StyleField::TextDecorationColor]
    );
}

#[test]
fn unknown_properties_copy_nothing() {
    assert_eq!(copied_fields("list-style"), Vec::<StyleField>::new());
    assert_eq!(copied_fields("Color"), Vec::<StyleField>::new());
}
