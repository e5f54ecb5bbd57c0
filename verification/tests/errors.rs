use stardetect::error::{RawPipelineError, UnknownError};
use stardetect::Error;

#[test]
fn a_raw_pipeline_error_carries_its_text() {
    let error = RawPipelineError::from(String::from("no white balance"));
    assert_eq!(error.0, "no white balance");
    assert_eq!(error.message(), "no white balance");
}

#[test]
fn an_unknown_error_carries_its_text() {
    let error = UnknownError::from(String::from("something else"));
    assert_eq!(error.0, "something else");
    assert_eq!(error.message(), "something else");
}

#[test]
fn an_input_error_names_its_parameter() {
    let error = Error::input("minimum_star_size", "too large");
    assert_eq!(
        error,
        Error::InputError { parameter_name: String::from("minimum_star_size"), message: String::from("too large") }
    );
}

#[test]
fn every_error_has_its_sentence() {
    assert_eq!(Error::DecodeError(String::from("bad header")).message(), "Unable to decode raw image");
    assert_eq!(
        Error::RawPipeline(RawPipelineError::from(String::from("no matrix"))).message(),
        "Unable to decode raw image"
    );
    assert_eq!(Error::IoError(String::from("not found")).message(), "Unable to read file");
    assert_eq!(Error::ImageError(String::from("truncated")).message(), "Unable to process image");
    assert_eq!(Error::UnknownError(UnknownError::from(String::from("odd"))).message(), "odd");
    assert_eq!(Error::ConvergenceFailure.message(), "No cutoff gave enough stars");
    assert_eq!(Error::DegenerateInput.message(), "Too few stars to describe them by their neighbours");
    assert_eq!(Error::UnsupportedFormat.message(), "Unsupported pixel format");
}

#[test]
fn an_input_error_quotes_its_parts() {
    assert_eq!(
        Error::input("minimum_star_size", "too large").message(),
        "Invalid value for \"minimum_star_size\": \"too large\""
    );
    assert_eq!(Error::input("a\"b", "").message(), "Invalid value for \"a\\\"b\": \"\"");
}
