use martin_mbtiles::cli::{Args, Commands, ErrorKind};
use martin_mbtiles::tile_copier::{CopyDuplicateMode, TileCopierOptions};

fn opts() -> TileCopierOptions {
    TileCopierOptions::new("src_file".to_string(), "dst_file".to_string())
}

#[test]
fn test_copy_no_arguments() {
    assert_eq!(
        Args::try_parse_from(&["mbtiles", "copy"])
            .unwrap_err()
            .kind(),
        ErrorKind::MissingRequiredArgument
    );
}

#[test]
fn test_copy_minimal_arguments() {
    assert_eq!(
        Args::try_parse_from(&["mbtiles", "copy", "src_file", "dst_file"]).unwrap(),
        Args {
            verbose: false,
            command: Commands::Copy(opts())
        }
    );
}

#[test]
fn test_copy_min_max_zoom_arguments() {
    assert_eq!(
        Args::try_parse_from(&["mbtiles", "copy", "src_file", "dst_file", "--max-zoom", "100", "--min-zoom", "1"]).unwrap(),
        Args {
            verbose: false,
            command: Commands::Copy(opts().min_zoom(Some(1)).max_zoom(Some(100)))
        }
    );
}

#[test]
fn test_copy_min_max_zoom_no_arguments() {
    assert_eq!(
        Args::try_parse_from(&["mbtiles", "copy", "src_file", "dst_file", "--max-zoom", "--min-zoom"])
            .unwrap_err()
            .kind(),
        ErrorKind::InvalidValue
    );
}

#[test]
fn test_copy_min_max_zoom_with_zoom_levels_arguments() {
    assert_eq!(
        Args::try_parse_from(&["mbtiles", "copy", "src_file", "dst_file", "--max-zoom", "100", "--min-zoom", "1", "--zoom-levels", "3,7,1"])
            .unwrap_err()
            .kind(),
        ErrorKind::ArgumentConflict
    );
}

#[test]
fn test_copy_zoom_levels_arguments() {
    assert_eq!(
        Args::try_parse_from(&["mbtiles", "copy", "src_file", "dst_file", "--zoom-levels", "3,7,1"]).unwrap(),
        Args {
            verbose: false,
            command: Commands::Copy(opts().zoom_levels(vec![1, 3, 7]))
        }
    );
}

#[test]
fn test_copy_diff_with_file_arguments() {
    assert_eq!(
        Args::try_parse_from(&["mbtiles", "copy", "src_file", "dst_file", "--diff-with-file", "no_file"]).unwrap(),
        Args {
            verbose: false,
            command: Commands::Copy(opts().diff_with_file("no_file".to_string()))
        }
    );
}

#[test]
fn test_copy_diff_with_override_copy_duplicate_mode() {
    assert_eq!(
        Args::try_parse_from(&["mbtiles", "copy", "src_file", "dst_file", "--on-duplicate", "override"]).unwrap(),
        Args {
            verbose: false,
            command: Commands::Copy(opts().on_duplicate(CopyDuplicateMode::Override))
        }
    );
}

#[test]
fn test_copy_diff_with_ignore_copy_duplicate_mode() {
    assert_eq!(
        Args::try_parse_from(&["mbtiles", "copy", "src_file", "dst_file", "--on-duplicate", "ignore"]).unwrap(),
        Args {
            verbose: false,
            command: Commands::Copy(opts().on_duplicate(CopyDuplicateMode::Ignore))
        }
    );
}

#[test]
fn test_copy_diff_with_abort_copy_duplicate_mode() {
    assert_eq!(
        Args::try_parse_from(&["mbtiles", "copy", "src_file", "dst_file", "--on-duplicate", "abort"]).unwrap(),
        Args {
            verbose: false,
            command: Commands::Copy(opts().on_duplicate(CopyDuplicateMode::Abort))
        }
    );
}

#[test]
fn test_meta_get_no_arguments() {
    assert_eq!(
        Args::try_parse_from(&["mbtiles", "meta-get"])
            .unwrap_err()
            .kind(),
        ErrorKind::MissingRequiredArgument
    );
}

#[test]
fn test_meta_get_with_arguments() {
    assert_eq!(
        Args::try_parse_from(&["mbtiles", "meta-get", "src_file", "key"]).unwrap(),
        Args {
            verbose: false,
            command: Commands::MetaGetValue {
                file: "src_file".to_string(),
                key: "key".to_string(),
            }
        }
    );
}

#[test]
fn test_meta_set_no_arguments() {
    assert_eq!(
        Args::try_parse_from(&["mbtiles", "meta-get"])
            .unwrap_err()
            .kind(),
        ErrorKind::MissingRequiredArgument
    );
}

#[test]
fn test_meta_set_no_value_argument() {
    assert_eq!(
        Args::try_parse_from(&["mbtiles", "meta-set", "src_file", "key"]).unwrap(),
        Args {
            verbose: false,
            command: Commands::MetaSetValue {
                file: "src_file".to_string(),
                key: "key".to_string(),
                value: None,
            }
        }
    );
}

#[test]
fn test_meta_get_with_all_arguments() {
    assert_eq!(
        Args::try_parse_from(&["mbtiles", "meta-set", "src_file", "key", "value"]).unwrap(),
        Args {
            verbose: false,
            command: Commands::MetaSetValue {
                file: "src_file".to_string(),
                key: "key".to_string(),
                value: Some("value".to_string()),
            }
        }
    );
}

#[test]
fn test_apply_diff_with_arguments() {
    assert_eq!(
        Args::try_parse_from(&["mbtiles", "apply-diff", "src_file", "diff_file"]).unwrap(),
        Args {
            verbose: false,
            command: Commands::ApplyDiff {
                src_file: "src_file".to_string(),
                diff_file: "diff_file".to_string(),
            }
        }
    );
}

#[test]
fn test_validate() {
    assert_eq!(
        Args::try_parse_from(&["mbtiles", "validate", "src_file"]).unwrap(),
        Args {
            verbose: false,
            command: Commands::Validate {
                file: "src_file".to_string(),
            }
        }
    );
}

#[test]
fn zoom_levels_with_min_zoom_alone_conflict() {
    assert_eq!(
        Args::try_parse_from(&["mbtiles", "copy", "a", "b", "--zoom-levels", "3,7,1", "--min-zoom", "2"])
            .unwrap_err()
            .kind(),
        ErrorKind::ArgumentConflict
    );
}

#[test]
fn missing_subcommand_is_rejected() {
    assert_eq!(
        Args::try_parse_from(&["mbtiles"])
            .unwrap_err()
            .kind(),
        ErrorKind::MissingSubcommand
    );
}

#[test]
fn unknown_subcommand_is_rejected() {
    assert_eq!(
        Args::try_parse_from(&["mbtiles", "render", "x"])
            .unwrap_err()
            .kind(),
        ErrorKind::InvalidSubcommand
    );
}

#[test]
fn unknown_option_is_rejected() {
    assert_eq!(
        Args::try_parse_from(&["mbtiles", "copy", "a", "b", "--bbox", "1"])
            .unwrap_err()
            .kind(),
        ErrorKind::UnknownArgument
    );
}

#[test]
fn bad_zoom_value_is_rejected() {
    assert_eq!(
        Args::try_parse_from(&["mbtiles", "copy", "a", "b", "--min-zoom", "300"])
            .unwrap_err()
            .kind(),
        ErrorKind::ValueValidation
    );
}

#[test]
fn bad_zoom_list_is_rejected() {
    assert_eq!(
        Args::try_parse_from(&["mbtiles", "copy", "a", "b", "--zoom-levels", "1,,2"])
            .unwrap_err()
            .kind(),
        ErrorKind::ValueValidation
    );
}

#[test]
fn bad_duplicate_mode_is_rejected() {
    assert_eq!(
        Args::try_parse_from(&["mbtiles", "copy", "a", "b", "--on-duplicate", "merge"])
            .unwrap_err()
            .kind(),
        ErrorKind::InvalidValue
    );
}

#[test]
fn extra_positional_is_rejected() {
    assert_eq!(
        Args::try_parse_from(&["mbtiles", "validate", "a", "b"])
            .unwrap_err()
            .kind(),
        ErrorKind::UnknownArgument
    );
}

#[test]
fn leading_verbose_flag_is_read() {
    assert_eq!(
        Args::try_parse_from(&["mbtiles", "--verbose", "validate", "f"]).unwrap(),
        Args {
            verbose: true,
            command: Commands::Validate {
                file: "f".to_string(),
            }
        }
    );
}

#[test]
fn copy_verbose_flag_is_read() {
    assert_eq!(
        Args::try_parse_from(&["mbtiles", "copy", "src_file", "dst_file", "-v"]).unwrap(),
        Args {
            verbose: false,
            command: Commands::Copy(opts().verbose(true))
        }
    );
}

#[test]
fn zoom_level_order_and_repeats_do_not_matter() {
    assert_eq!(
        Args::try_parse_from(&["mbtiles", "copy", "src_file", "dst_file", "--zoom-levels", "7,3,3,1"]).unwrap(),
        Args {
            verbose: false,
            command: Commands::Copy(opts().zoom_levels(vec![1, 3, 7]))
        }
    );
}

#[test]
fn copy_reads_every_option() {
    assert_eq!(
        Args::try_parse_from(&[
            "mbtiles", "copy", "a", "b", "--min-zoom", "2", "--max-zoom", "9",
            "--diff-with-file", "c", "--on-duplicate", "abort", "--min-zoom", "3",
        ])
        .unwrap(),
        Args {
            verbose: false,
            command: Commands::Copy(
                TileCopierOptions::new("a".to_string(), "b".to_string())
                    .min_zoom(Some(3))
                    .max_zoom(Some(9))
                    .diff_with_file("c".to_string())
                    .on_duplicate(CopyDuplicateMode::Abort)
            )
        }
    );
}

#[test]
fn copy_missing_destination_is_rejected() {
    assert_eq!(
        Args::try_parse_from(&["mbtiles", "copy", "a", "--max-zoom", "4"]).unwrap_err().kind(),
        ErrorKind::MissingRequiredArgument
    );
}
