use cairo::errors::CairoError;

#[test]
fn each_error_formats_as_one_line() {
    assert_eq!(
        CairoError::IOError("file not found".to_string()).message(),
        "io — file not found"
    );
    assert_eq!(
        CairoError::ParseBoolError("maybe".to_string()).message(),
        "cli parse error — maybe"
    );
    assert_eq!(
        CairoError::PostParseError("Failed to parse tags".to_string()).message(),
        "post parse error — Failed to parse tags"
    );
    assert_eq!(
        CairoError::CantFindIndexTemplate.message(),
        "could not find index template"
    );
    assert_eq!(
        CairoError::CantFindPostTemplate.message(),
        "could not find post template"
    );
    assert_eq!(
        CairoError::RenderError("bad helper".to_string()).message(),
        "render error — bad helper"
    );
}
