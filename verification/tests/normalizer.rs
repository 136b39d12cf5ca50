use lumo_icons::num::Decimal;
use lumo_icons::svg::{normalize_colors_to_current, normalize_svg, parse_viewbox, strip_svg_outer};

fn canvas(mant: u64) -> Decimal {
    Decimal { mant, frac: 0 }
}

#[test]
fn no_scale_wrapper_at_native_canvas() {
    let raw = "<svg viewBox=\"0 0 256 256\"><path fill=\"#FF0000\"/></svg>";
    let out = normalize_svg(raw, &canvas(256));
    assert_eq!(out, "<path fill=\"currentColor\"/>");
}

#[test]
fn scale_wrapper_at_double_canvas() {
    let raw = "<svg viewBox=\"0 0 256 256\"><path fill=\"#FF0000\"/></svg>";
    let out = normalize_svg(raw, &canvas(512));
    assert_eq!(
        out,
        "<g transform=\"scale(2)\"><path fill=\"currentColor\"/></g>"
    );
}

#[test]
fn fractional_scale_is_rendered_truncated() {
    let raw = "<svg viewBox=\"0 0 24 24\"><path d=\"M1 2z\"/></svg>";
    let out = normalize_svg(raw, &canvas(32));
    assert_eq!(out, "<g transform=\"scale(1.3333333)\"><path d=\"M1 2z\"/></g>");
}

#[test]
fn zero_view_box_means_no_rescaling() {
    let raw = "<svg viewBox=\"0 0 0 0\"><path/></svg>";
    let out = normalize_svg(raw, &canvas(256));
    assert_eq!(out, "<path/>");
}

#[test]
fn fill_color_is_rewritten_to_inherit_token() {
    let out = normalize_colors_to_current("<path fill=\"#FF0000\"/>");
    assert_eq!(out, "<path fill=\"currentColor\"/>");
}

#[test]
fn fill_none_is_kept() {
    let out = normalize_colors_to_current("<path fill=\"none\"/>");
    assert_eq!(out, "<path fill=\"none\"/>");
}

#[test]
fn fill_inherit_token_is_kept_verbatim() {
    let out = normalize_colors_to_current("<path fill=\"currentColor\"/><rect fill=\"CURRENTCOLOR\"/>");
    assert_eq!(out, "<path fill=\"currentColor\"/><rect fill=\"CURRENTCOLOR\"/>");
}

#[test]
fn every_color_attribute_is_rewritten_independently() {
    let out = normalize_colors_to_current(
        "<path fill=\"red\" stroke=\"blue\"/><rect fill=\"none\" stroke=\"#123456\"/>",
    );
    assert_eq!(
        out,
        "<path fill=\"currentColor\" stroke=\"currentColor\"/><rect fill=\"none\" stroke=\"currentColor\"/>"
    );
}

#[test]
fn attribute_spacing_is_canonicalized_when_rewritten() {
    let out = normalize_colors_to_current("<path FILL = \"red\"/>");
    assert_eq!(out, "<path fill=\"currentColor\"/>");
}

#[test]
fn color_normalization_is_idempotent_on_its_output() {
    let inputs = [
        "<path fill=\"#FF0000\" stroke=\"blue\"/>",
        "<path fill=\"none\"/><rect stroke=\"CURRENTCOLOR\"/>",
        "fill=\"a stroke=\"red\"",
        "stroke=\"a fill=\"none\"",
        "fill = \"x\" FILL=\"y\" fill=\"\" fill=",
    ];
    for raw in inputs {
        let once = normalize_colors_to_current(raw);
        let twice = normalize_colors_to_current(&once);
        assert_eq!(once, twice);
    }
}

#[test]
fn strip_svg_outer_removes_both_outer_tags() {
    let out = strip_svg_outer("<svg width=\"5\"><g><path/></g></svg>");
    assert_eq!(out, "<g><path/></g>");
}

#[test]
fn strip_svg_outer_without_svg_tag_is_identity() {
    let out = strip_svg_outer("<g><path/></g>");
    assert_eq!(out, "<g><path/></g>");
}

#[test]
fn viewbox_integer_dimensions_parse_exactly() {
    let dims = parse_viewbox("<svg viewBox=\"0 0 256 128\">").expect("view box");
    assert_eq!(dims.0.mant, 256);
    assert_eq!(dims.0.frac, 0);
    assert_eq!(dims.1.mant, 128);
    assert_eq!(dims.1.frac, 0);
}

#[test]
fn viewbox_decimal_dimensions_parse_exactly() {
    let dims = parse_viewbox("<svg viewBox=\"0 0 24.5 10\">").expect("view box");
    assert_eq!(dims.0.mant, 245);
    assert_eq!(dims.0.frac, 1);
    assert_eq!(dims.1.mant, 10);
    assert_eq!(dims.1.frac, 0);
}

#[test]
fn viewbox_absent_yields_none() {
    assert!(parse_viewbox("<svg width=\"20\">").is_none());
}

#[test]
fn viewbox_not_origin_anchored_yields_none() {
    assert!(parse_viewbox("<svg viewBox=\"1 0 24 24\">").is_none());
}

#[test]
fn viewbox_with_unreadable_numeral_is_malformed() {
    assert!(parse_viewbox("<svg viewBox=\"0 0 1.2.3 24\">").is_none());
    assert!(parse_viewbox("<svg viewBox=\"0 0 24 .\">").is_none());
}

#[test]
fn malformed_viewbox_means_no_wrapper_whatever_the_canvas() {
    let raw = "<svg viewBox=\"0 0 1.2.3 24\"><path fill=\"red\"/></svg>";
    let out = normalize_svg(raw, &canvas(512));
    assert_eq!(out, "<path fill=\"currentColor\"/>");
}

#[test]
fn viewbox_name_matches_case_insensitively() {
    let dims = parse_viewbox("<svg VIEWBOX = \"0 0 12 34\">").expect("view box");
    assert_eq!(dims.0.mant, 12);
    assert_eq!(dims.1.mant, 34);
}

#[test]
fn missing_viewbox_means_no_wrapper_whatever_the_canvas() {
    let out = normalize_svg("<svg><path/></svg>", &canvas(512));
    assert_eq!(out, "<path/>");
}

#[test]
fn empty_document_normalizes_to_empty_fragment() {
    let out = normalize_svg("", &canvas(256));
    assert_eq!(out, "");
}
