use wat::hints::{presentational_css, PresentationalAttributes};

fn none() -> PresentationalAttributes {
    PresentationalAttributes {
        width: None,
        height: None,
        bgcolor: None,
        color: None,
        align: None,
        border: None,
        cellpadding: None,
        nowrap: false,
    }
}

fn some(s: &str) -> Option<String> {
    Some(s.to_string())
}

#[test]
fn image_dimensions_become_pixels_or_percentages() {
    let attrs = PresentationalAttributes { width: some(" 100 "), height: some("50%"), ..none() };
    assert_eq!(presentational_css("img", &attrs), "width:100px;height:50%;");
    let junk = PresentationalAttributes { width: some("10em"), height: some(""), ..none() };
    assert_eq!(presentational_css("img", &junk), "");
}

#[test]
fn only_sized_elements_take_dimensions() {
    let attrs = PresentationalAttributes { width: some("80"), height: some("2"), ..none() };
    assert_eq!(presentational_css("hr", &attrs), "width:80px;");
    assert_eq!(presentational_css("div", &attrs), "");
}

#[test]
fn colours_and_alignment() {
    let attrs = PresentationalAttributes {
        bgcolor: some("#fff"),
        color: some("red"),
        align: some(" CENTER "),
        nowrap: true,
        ..none()
    };
    assert_eq!(
        presentational_css("td", &attrs),
        "background-color:#fff;color:red;text-align:center;white-space:nowrap;"
    );
    let table = PresentationalAttributes { align: some("center"), ..none() };
    assert_eq!(presentational_css("table", &table), "margin-left:auto;margin-right:auto;");
    let odd = PresentationalAttributes { align: some("middle"), ..none() };
    assert_eq!(presentational_css("p", &odd), "");
}

#[test]
fn table_borders_and_padding() {
    let attrs = PresentationalAttributes { border: some("1"), cellpadding: some("4"), ..none() };
    assert_eq!(
        presentational_css("table", &attrs),
        "border:1px solid #c9ccd1;--wat-cellpadding:4px;"
    );
    let off = PresentationalAttributes { border: some(" 0 "), cellpadding: some("4px"), ..none() };
    assert_eq!(presentational_css("table", &off), "");
    assert_eq!(presentational_css("td", &attrs), "");
}
