use logify::cli::{run, Cli, CliError, Commands};

#[test]
fn test_analyze_command() {
    let args = vec!["logify", "analyze", "-i", "test.log", "-w", "30", "-m", "3", "-f", "json"];
    let cli = Cli::parse_from(args).unwrap();
    match cli.command {
        Commands::Analyze { input, window, min_occurrences, format, output } => {
            assert_eq!(input, "test.log");
            assert_eq!(window, 30);
            assert_eq!(min_occurrences, 3);
            assert_eq!(format, "json");
            assert_eq!(output, None);
        }
        _ => panic!("Expected Analyze command"),
    }
}

#[test]
fn test_filter_command() {
    let args = vec!["logify", "filter", "-i", "test.log", "-l", "error", "-s", "web"];
    let cli = Cli::parse_from(args).unwrap();
    match cli.command {
        Commands::Filter { input, level, time_range, source, output } => {
            assert_eq!(input, "test.log");
            assert_eq!(level, Some("error".to_string()));
            assert_eq!(source, Some("web".to_string()));
            assert_eq!(time_range, None);
            assert_eq!(output, None);
        }
        _ => panic!("Expected Filter command"),
    }
}

#[test]
fn analyze_defaults_and_globals() {
    let cli = Cli::parse_from(vec!["logify", "--verbose", "-c", "cfg.json", "analyze", "--input", "a.log"]).unwrap();
    assert!(cli.verbose);
    assert_eq!(cli.config, Some("cfg.json".to_string()));
    match cli.command {
        Commands::Analyze { window, min_occurrences, format, .. } => {
            assert_eq!(window, 60);
            assert_eq!(min_occurrences, 5);
            assert_eq!(format, "text");
        }
        _ => panic!("Expected Analyze command"),
    }
}

#[test]
fn command_line_errors() {
    assert!(matches!(Cli::parse_from(vec!["logify"]), Err(CliError::MissingCommand)));
    assert!(matches!(Cli::parse_from(vec!["logify", "frobnicate"]), Err(CliError::UnknownCommand)));
    assert!(matches!(Cli::parse_from(vec!["logify", "analyze", "-x", "1"]), Err(CliError::UnknownOption)));
    assert!(matches!(Cli::parse_from(vec!["logify", "analyze", "-i"]), Err(CliError::MissingValue)));
    assert!(matches!(
        Cli::parse_from(vec!["logify", "analyze", "-i", "a", "-i", "b"]),
        Err(CliError::DuplicateOption)
    ));
    assert!(matches!(Cli::parse_from(vec!["logify", "export", "-i", "a"]), Err(CliError::MissingOption)));
    assert!(matches!(
        Cli::parse_from(vec!["logify", "analyze", "-i", "a", "-w", "x1"]),
        Err(CliError::InvalidNumber)
    ));
    assert!(matches!(
        Cli::parse_from(vec!["logify", "analyze", "-i", "a", "-w", "99999999999999999999"]),
        Err(CliError::InvalidNumber)
    ));
}

#[test]
fn export_requires_all_options() {
    let cli = Cli::parse_from(vec!["logify", "export", "-i", "in.log", "-f", "csv", "-o", "out.csv"]).unwrap();
    match cli.command {
        Commands::Export { input, format, output } => {
            assert_eq!(input, "in.log");
            assert_eq!(format, "csv");
            assert_eq!(output, "out.csv");
        }
        _ => panic!("Expected Export command"),
    }
}

#[test]
fn run_reports_in_verbose_mode() {
    assert_eq!(
        run(vec!["logify", "-v", "filter", "-i", "x.log"]).unwrap(),
        Some("Filtering log file: x.log".to_string())
    );
    assert_eq!(run(vec!["logify", "filter", "-i", "x.log"]).unwrap(), None);
    assert!(run(vec!["logify", "-q"]).is_err());
}
