use fnirsi::formats::{
    parse_firmware_version, supported_output_extensions, try_parse_firmware_version,
    version_after, FormatError, InputFormat, OutputFormat,
};

#[test]
fn output_formats_by_extension() {
    let known = [
        ("csv", OutputFormat::Csv),
        ("CSV", OutputFormat::Csv),
        ("jsonl", OutputFormat::Jsonl),
        ("NdJson", OutputFormat::Jsonl),
        ("xlsx", OutputFormat::Xlsx),
        ("parquet", OutputFormat::Parquet),
        ("PARQ", OutputFormat::Parquet),
    ];
    for (extension, format) in known {
        let got = OutputFormat::from_path(Some(extension), true);
        assert!(matches!(got, Ok(f) if f == format), "{extension}");
    }
}

#[test]
fn parquet_can_be_left_out() {
    let out = OutputFormat::from_path(Some("parquet"), false);
    assert!(matches!(out, Err(FormatError::ParquetDisabled)));
    let read = InputFormat::from_path(Some("parq"), false);
    assert!(matches!(read, Err(FormatError::ParquetDisabled)));
    let import = InputFormat::for_import("Parquet", false);
    assert!(matches!(import, Err(FormatError::ParquetDisabled)));
    assert_eq!(
        FormatError::ParquetDisabled.describe("fnirsi-cli", false),
        "Parquet support is disabled. Rebuild fnirsi-cli with `--features parquet`."
    );
}

#[test]
fn unknown_output_extensions_are_named() {
    let unknown = OutputFormat::from_path(Some("TXT"), true).unwrap_err();
    assert_eq!(
        unknown.describe("fnirsi-cli", true),
        "Unknown output extension '.txt'. Use .csv, .jsonl, .xlsx, or .parquet."
    );
    let none = OutputFormat::from_path(None, false).unwrap_err();
    assert_eq!(
        none.describe("fnirsi-cli", false),
        "Unknown output extension '.'. Use .csv, .jsonl, or .xlsx."
    );
    assert_eq!(
        supported_output_extensions(true),
        ".csv, .jsonl, .xlsx, or .parquet"
    );
}

#[test]
fn extensions_in_lower_case_are_taken_as_they_are() {
    assert!(matches!(
        OutputFormat::from_extension("csv", true),
        Ok(OutputFormat::Csv)
    ));
    assert!(OutputFormat::from_extension("CSV", true).is_err());
    assert!(matches!(
        InputFormat::from_extension("cfn", true),
        Ok(InputFormat::Cfn)
    ));
    assert!(InputFormat::from_extension("CFN", true).is_err());
}

#[test]
fn input_formats_by_extension() {
    let known = [
        ("cfn", InputFormat::Cfn),
        ("Csv", InputFormat::Csv),
        ("jsonl", InputFormat::Jsonl),
        ("ndjson", InputFormat::Jsonl),
        ("XLSX", InputFormat::Xlsx),
        ("parquet", InputFormat::Parquet),
    ];
    for (extension, format) in known {
        let got = InputFormat::from_path(Some(extension), true);
        assert!(matches!(got, Ok(f) if f == format), "{extension}");
    }
    let unsupported = InputFormat::from_path(None, true).unwrap_err();
    assert_eq!(
        unsupported.describe("fnirsi-cli", true),
        "Unsupported input file format. Use .cfn, .csv, .jsonl, .xlsx, or .parquet."
    );
    assert_eq!(
        unsupported.describe("fnirsi-cli", false),
        "Unsupported input file format. Use .cfn, .csv, .jsonl, .xlsx."
    );
}

#[test]
fn imports_are_csv_unless_known() {
    let known = [
        ("CFN", InputFormat::Cfn),
        ("xlsx", InputFormat::Xlsx),
        ("parq", InputFormat::Parquet),
        ("JsonL", InputFormat::Jsonl),
        ("ndjson", InputFormat::Csv),
        ("", InputFormat::Csv),
        ("dat", InputFormat::Csv),
    ];
    for (extension, format) in known {
        let got = InputFormat::for_import(extension, true);
        assert!(matches!(got, Ok(f) if f == format), "{extension}");
    }
}

#[test]
fn firmware_versions_are_read_from_names() {
    assert_eq!(parse_firmware_version("Fnb58V1.11"), Some(111));
    assert_eq!(parse_firmware_version("fnb58v0.68"), Some(68));
    assert_eq!(parse_firmware_version("FNB58"), None);
    assert_eq!(parse_firmware_version("preview"), None);
    assert_eq!(parse_firmware_version("V65535"), Some(65_535));
    assert_eq!(parse_firmware_version("V65536"), None);
    assert_eq!(parse_firmware_version("V0000000000000000000001"), Some(1));
    assert_eq!(parse_firmware_version("dev5V2"), Some(52));
    assert_eq!(try_parse_firmware_version("Fnb58V1.11"), Some(Some(111)));
    assert_eq!(try_parse_firmware_version("none"), Some(None));
}

#[test]
fn stems_that_shift_in_lower_case_are_told_apart() {
    // This capital takes one more byte in lower case, so the place of the "v"
    // in the lower-case form is not that in the stem.
    assert_eq!(try_parse_firmware_version("\u{130}v"), None);
    assert_eq!(try_parse_firmware_version("\u{130}v12"), Some(Some(2)));
    assert_eq!(version_after("Fnb58V1.11", "fnb58v1.11"), Some(111));
    assert_eq!(version_after("Fnb58V1.11", "v"), Some(58111));
}
