use belobog_stellar_grid::export::prepare_filename;
use belobog_stellar_grid::validation::{has_extension_folded, is_reserved_name};
use belobog_stellar_grid::{ensure_extension, validate_filename, ExportError, FilenameError};

#[test]
fn test_validate_filename_byte_length() {
    let long_name = "a".repeat(256);
    assert!(validate_filename(&long_name).is_err());

    let ok_name = "a".repeat(255);
    assert!(validate_filename(&ok_name).is_ok());

    let long_unicode = "中".repeat(86);
    assert!(long_unicode.chars().count() == 86);
    assert!(long_unicode.len() == 258);
    assert!(validate_filename(&long_unicode).is_err());
}

#[test]
fn filename_errors_name_the_first_rule_broken() {
    assert_eq!(validate_filename(""), Err(FilenameError::Empty));
    assert_eq!(validate_filename("a/b"), Err(FilenameError::PathSeparator));
    assert_eq!(validate_filename("a\\b"), Err(FilenameError::PathSeparator));
    assert_eq!(validate_filename("a\u{7}b"), Err(FilenameError::ControlCharacter));
    assert_eq!(validate_filename("a\u{7f}"), Err(FilenameError::ControlCharacter));
    assert_eq!(validate_filename("a*b<c"), Err(FilenameError::IllegalCharacter('<')));
    assert_eq!(validate_filename("a?b"), Err(FilenameError::IllegalCharacter('?')));
    assert_eq!(validate_filename(&"x".repeat(300)), Err(FilenameError::TooLong));
    assert_eq!(
        validate_filename("con.txt"),
        Err(FilenameError::ReservedName("con".to_string()))
    );
    assert_eq!(
        validate_filename("LPT9"),
        Err(FilenameError::ReservedName("LPT9".to_string()))
    );
    assert_eq!(validate_filename(".hidden"), Err(FilenameError::DotOrSpace));
    assert_eq!(validate_filename("name "), Err(FilenameError::DotOrSpace));
    assert_eq!(validate_filename("a\u{FF0E}b"), Err(FilenameError::DotOrSpace));
    assert_eq!(validate_filename("COM10"), Ok(()));
}

#[test]
fn reserved_names_are_checked_upper_cased() {
    assert!(is_reserved_name("AUX"));
    assert!(!is_reserved_name("aux"));
    assert!(!is_reserved_name("AUXX"));
}

#[test]
fn extension_check_is_case_folded() {
    assert!(has_extension_folded("report.csv", "csv"));
    assert!(!has_extension_folded("reportcsv", "csv"));
    assert!(!has_extension_folded("csv", "csv"));
    assert_eq!(ensure_extension("Report.XLSX", "xlsx"), "Report.XLSX");
    assert_eq!(ensure_extension("report.xls", "xlsx"), "report.xls.xlsx");
}

#[test]
fn filename_is_checked_before_anything_else() {
    assert_eq!(
        prepare_filename(Some("../evil"), "table_export.csv", "csv"),
        Err(ExportError::Filename(FilenameError::PathSeparator))
    );
    assert_eq!(
        prepare_filename(Some("report"), "table_export.csv", "csv"),
        Ok("report.csv".to_string())
    );
    assert_eq!(
        prepare_filename(None, "table_export.xlsx", "xlsx"),
        Ok("table_export.xlsx".to_string())
    );
}
