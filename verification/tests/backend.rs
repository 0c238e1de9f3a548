use chuda::{Backend, RenderError};

#[test]
fn backend_names_parse() {
    assert_eq!("auto".parse::<Backend>().unwrap(), Backend::Auto);
    assert_eq!("CPU".parse::<Backend>().unwrap(), Backend::Cpu);
    assert!("other".parse::<Backend>().is_err());
}

#[test]
fn backend_names_read_back_in_any_case() {
    for backend in [Backend::Auto, Backend::Cpu, Backend::Cuda] {
        assert_eq!(Backend::parse(backend.name()), Ok(backend));
        assert_eq!(Backend::parse(&backend.name().to_uppercase()), Ok(backend));
    }
    assert_eq!(Backend::parse("CuDa"), Ok(Backend::Cuda));
    assert_eq!(Backend::parse("cuda "), Err(RenderError::UnknownBackend));
    assert_eq!(Backend::parse(""), Err(RenderError::UnknownBackend));
    assert_eq!(Backend::default(), Backend::Auto);
}

#[test]
fn error_texts() {
    assert_eq!(RenderError::ZeroColumns.message(), "columns must be greater than zero");
    assert_eq!(
        RenderError::FrameTooLarge.message(),
        "render exceeds the 1048576-cell frame limit"
    );
    assert_eq!(
        RenderError::CellCountMismatch { returned: 0, expected: 3200 }.message(),
        "backend returned 0 cells, expected 3200"
    );
    assert_eq!(
        RenderError::BufferTooShort { width: 10, height: 7 }.message(),
        "RGBA buffer length does not match 10x7"
    );
    assert_eq!(RenderError::Decode("bad".to_string()).message(), "bad");
    assert_eq!(RenderError::UnknownBackend.message(), "backend must be auto, cpu, or cuda");
    assert_eq!(
        RenderError::MixedThreshold.message(),
        "all requests in a batch must use the same transparent_threshold"
    );
}
