use zist::cli::{
    batch_status, expand_globs, failure_line, summary_line, Batch, GlobInput, parse_long, USAGE_STATUS,
    defaults_from_argv0, has_glob_meta, parse_args, parse_i32, parse_short, pattern_paths,
    plan_file, plan_run, program_name, report_channel, takes_literally, Channel, Cli, FileRefusal, Mode, RunPlan, RunRefusal, Target,
    UsageError,
};
use zist::format::Format;
use zist::io::{Error, Options};
use zist::session::{Job, Outcome};

fn chars(s: &str) -> Vec<char> {
    s.chars().collect()
}

fn args(list: &[&str]) -> Vec<Option<Vec<char>>> {
    list.iter().map(|a| Some(chars(a))).collect()
}

fn parse(list: &[&str]) -> Result<Cli, UsageError> {
    parse_args(&args(list))
}

#[test]
fn flags_and_files() {
    let cli = parse(&["-k", "a.txt", "--force", "b.txt"]).unwrap();
    assert!(cli.keep && cli.force);
    assert!(!cli.stdout && !cli.verbose);
    assert_eq!(cli.files, vec![1, 3]);
}

#[test]
fn short_options_bundle() {
    let cli = parse(&["-kv"]).unwrap();
    assert!(cli.keep && cli.verbose);
    let cli = parse(&["-9cv", "f"]).unwrap();
    assert_eq!(cli.level, Some(9));
    assert!(cli.stdout && cli.verbose);
    assert_eq!(cli.files, vec![1]);
    let bundled = parse(&["-kvd"]).unwrap();
    let separate = parse(&["-k", "-v", "-d"]).unwrap();
    assert_eq!((bundled.keep, bundled.verbose, bundled.mode), (separate.keep, separate.verbose, separate.mode));
}

#[test]
fn all_short_flags() {
    let cli = parse(&["-hVkcfqvtr"]).unwrap();
    assert!(cli.help && cli.version && cli.keep && cli.stdout && cli.force);
    assert!(cli.quiet && cli.verbose && cli.test && cli.recursive);
    assert_eq!(parse(&["-d"]).unwrap().mode, Some(Mode::Decompress));
    assert_eq!(parse(&["-d", "-z"]).unwrap().mode, Some(Mode::Compress));
}

#[test]
fn all_long_flags() {
    let cli = parse(&["--help", "--version", "--keep", "--stdout", "--force", "--quiet", "--verbose", "--test", "--recursive"]).unwrap();
    assert!(cli.help && cli.version && cli.keep && cli.stdout && cli.force);
    assert!(cli.quiet && cli.verbose && cli.test && cli.recursive);
    assert_eq!(parse(&["--decompress"]).unwrap().mode, Some(Mode::Decompress));
    assert_eq!(parse(&["--uncompress"]).unwrap().mode, Some(Mode::Decompress));
    assert_eq!(parse(&["--compress"]).unwrap().mode, Some(Mode::Compress));
}

#[test]
fn last_level_wins() {
    assert_eq!(parse(&["-1", "-9"]).unwrap().level, Some(9));
    assert_eq!(parse(&["--level", "5", "-2"]).unwrap().level, Some(2));
    assert_eq!(parse(&["-7", "--level=-3"]).unwrap().level, Some(-3));
}

#[test]
fn format_option_forms() {
    assert_eq!(parse(&["--format", "gz"]).unwrap().format, Some(Format::Gzip));
    assert_eq!(parse(&["--format=xz"]).unwrap().format, Some(Format::Xz));
    assert_eq!(parse(&["--format=bz2", "f"]).unwrap().files, vec![1]);
    assert_eq!(parse(&["--format", "zstd", "f"]).unwrap().files, vec![2]);
    assert!(matches!(parse(&["--format", "lz4"]), Err(UsageError::UnknownFormat)));
    match parse(&["--format"]) {
        Err(UsageError::MissingValue(n)) => assert_eq!(n, chars("format")),
        other => panic!("expected MissingValue, got {other:?}"),
    }
}

#[test]
fn level_option_forms() {
    assert_eq!(parse(&["--level", "19"]).unwrap().level, Some(19));
    assert_eq!(parse(&["--level=+4"]).unwrap().level, Some(4));
    assert!(matches!(parse(&["--level", "x"]), Err(UsageError::LevelNotInteger)));
    assert!(matches!(parse(&["--level="]), Err(UsageError::LevelNotInteger)));
    assert!(matches!(parse(&["--level", "99999999999"]), Err(UsageError::LevelNotInteger)));
}

#[test]
fn value_that_is_not_text() {
    let a = vec![Some(chars("--level")), None];
    assert!(matches!(parse_args(&a), Err(UsageError::ValueNotUtf8)));
}

#[test]
fn arguments_that_are_not_text_are_files() {
    let a = vec![None, Some(chars("-k")), None];
    let cli = parse_args(&a).unwrap();
    assert!(cli.keep);
    assert_eq!(cli.files, vec![0, 2]);
}

#[test]
fn double_dash_ends_options() {
    let cli = parse(&["-k", "--", "-v", "--force", "x"]).unwrap();
    assert!(cli.keep && !cli.verbose && !cli.force);
    assert_eq!(cli.files, vec![2, 3, 4]);
}

#[test]
fn lone_dash_is_a_file() {
    let cli = parse(&["-"]).unwrap();
    assert_eq!(cli.files, vec![0]);
}

#[test]
fn unknown_options() {
    match parse(&["--bogus=1"]) {
        Err(UsageError::UnknownLong(n)) => assert_eq!(n, chars("bogus")),
        other => panic!("expected UnknownLong, got {other:?}"),
    }
    assert!(matches!(parse(&["-kx"]), Err(UsageError::UnknownShort('x'))));
    assert!(matches!(parse(&["-0"]), Err(UsageError::UnknownShort('0'))));
    assert!(matches!(parse(&["-k-v"]), Err(UsageError::UnknownShort('-'))));
}

#[test]
fn flag_with_attached_value_ignores_it() {
    assert!(parse(&["--keep=no"]).unwrap().keep);
}

#[test]
fn parse_short_direct() {
    let mut cli = Cli::new();
    parse_short(&chars("9kv"), &mut cli).unwrap();
    assert_eq!(cli.level, Some(9));
    assert!(cli.keep && cli.verbose);
    assert!(matches!(parse_short(&chars("y"), &mut cli), Err(UsageError::UnknownShort('y'))));
}

#[test]
fn parse_i32_like_from_str() {
    assert_eq!(parse_i32(&chars("0")), Some(0));
    assert_eq!(parse_i32(&chars("-17")), Some(-17));
    assert_eq!(parse_i32(&chars("+17")), Some(17));
    assert_eq!(parse_i32(&chars("0007")), Some(7));
    assert_eq!(parse_i32(&chars("2147483647")), Some(i32::MAX));
    assert_eq!(parse_i32(&chars("-2147483648")), Some(i32::MIN));
    assert_eq!(parse_i32(&chars("2147483648")), None);
    assert_eq!(parse_i32(&chars("-2147483649")), None);
    assert_eq!(parse_i32(&chars("")), None);
    assert_eq!(parse_i32(&chars("-")), None);
    assert_eq!(parse_i32(&chars("+")), None);
    assert_eq!(parse_i32(&chars(" 1")), None);
    assert_eq!(parse_i32(&chars("1a")), None);
    assert_eq!(parse_i32(&chars("--1")), None);
    for s in ["12", "-5", "+0", "x", "99999999999999999999"] {
        assert_eq!(parse_i32(&chars(s)), s.parse::<i32>().ok());
    }
}

#[test]
fn program_name_selects_defaults() {
    assert_eq!(defaults_from_argv0(Some(&chars("zist"))), (Mode::Compress, None));
    assert_eq!(defaults_from_argv0(Some(&chars("unzist"))), (Mode::Decompress, None));
    assert_eq!(defaults_from_argv0(Some(&chars("UnZist"))), (Mode::Decompress, None));
    assert_eq!(defaults_from_argv0(Some(&chars("gzist"))), (Mode::Compress, Some(Format::Gzip)));
    assert_eq!(defaults_from_argv0(Some(&chars("XZIST"))), (Mode::Compress, Some(Format::Xz)));
    assert_eq!(defaults_from_argv0(Some(&chars("bzist"))), (Mode::Compress, Some(Format::Bzip2)));
    assert_eq!(defaults_from_argv0(Some(&chars("other"))), (Mode::Compress, None));
    assert_eq!(defaults_from_argv0(None), (Mode::Compress, None));
}

#[test]
fn program_name_text() {
    assert_eq!(program_name(Some(&chars("unzist"))), chars("unzist"));
    assert_eq!(program_name(None), chars("zist"));
}

#[test]
fn glob_metacharacters() {
    assert!(has_glob_meta(Some(&chars("*.log"))));
    assert!(has_glob_meta(Some(&chars("a?.txt"))));
    assert!(has_glob_meta(Some(&chars("[ab].txt"))));
    assert!(!has_glob_meta(Some(&chars("plain.txt"))));
    assert!(!has_glob_meta(None));
}

#[test]
fn run_plans() {
    let cli = parse(&["-h"]).unwrap();
    assert_eq!(plan_run(&cli, Mode::Decompress, None), RunPlan::Help { mode: Mode::Decompress, default_format: Format::Zstd });
    assert_eq!(plan_run(&cli, Mode::Compress, Some(Format::Xz)), RunPlan::Help { mode: Mode::Compress, default_format: Format::Xz });
    let cli = parse(&["-h", "--format", "gz", "-d"]).unwrap();
    assert_eq!(plan_run(&cli, Mode::Compress, Some(Format::Xz)), RunPlan::Help { mode: Mode::Decompress, default_format: Format::Gzip });
    assert_eq!(plan_run(&parse(&["-V"]).unwrap(), Mode::Compress, None), RunPlan::Version);
    assert_eq!(plan_run(&parse(&["-k"]).unwrap(), Mode::Compress, None), RunPlan::Refuse(RunRefusal::NoInputFiles));
    assert_eq!(plan_run(&parse(&["-qv", "f"]).unwrap(), Mode::Compress, None), RunPlan::Refuse(RunRefusal::QuietAndVerbose));
    assert_eq!(plan_run(&parse(&["-ct", "f"]).unwrap(), Mode::Compress, None), RunPlan::Refuse(RunRefusal::StdoutAndTest));
    assert_eq!(plan_run(&parse(&["f"]).unwrap(), Mode::Compress, Some(Format::Bzip2)), RunPlan::Process { mode: Mode::Compress, format: Some(Format::Bzip2) });
    assert_eq!(plan_run(&parse(&["--format=gz", "f"]).unwrap(), Mode::Compress, Some(Format::Bzip2)), RunPlan::Process { mode: Mode::Compress, format: Some(Format::Gzip) });
    assert_eq!(plan_run(&parse(&["-z", "f"]).unwrap(), Mode::Decompress, None), RunPlan::Process { mode: Mode::Compress, format: None });
}

#[test]
fn file_plans() {
    let src = b"a.txt".to_vec();
    let cli = parse(&["-3", "f"]).unwrap();
    match plan_file(Mode::Compress, &cli, None, src.clone()) {
        Ok((Job::CompressInPlace { src: p, fmt, level, opts }, Target::InPlace)) => {
            assert_eq!(p, src);
            assert_eq!(fmt, Format::Zstd);
            assert_eq!(level, Some(3));
            assert!(!opts.keep && !opts.force && opts.max_decompressed.is_none());
        }
        _ => panic!("expected compression in place"),
    }
    let cli = parse(&["-c", "f"]).unwrap();
    match plan_file(Mode::Compress, &cli, Some(Format::Xz), src.clone()) {
        Ok((Job::CompressToWriter { fmt, .. }, Target::Stdout)) => assert_eq!(fmt, Format::Xz),
        _ => panic!("expected streaming to stdout"),
    }
    match plan_file(Mode::Decompress, &cli, None, src.clone()) {
        Ok((Job::DecompressToWriter { max_decompressed: None, .. }, Target::Stdout)) => {}
        _ => panic!("expected streaming to stdout"),
    }
    let cli = parse(&["-t", "f"]).unwrap();
    assert!(matches!(plan_file(Mode::Compress, &cli, None, src.clone()), Err(FileRefusal::TestNeedsDecompress)));
    match plan_file(Mode::Decompress, &cli, None, src.clone()) {
        Ok((Job::DecompressToWriter { .. }, Target::Discard)) => {}
        _ => panic!("expected a test into nothing"),
    }
    let cli = parse(&["-kf", "f"]).unwrap();
    match plan_file(Mode::Decompress, &cli, None, src.clone()) {
        Ok((Job::DecompressInPlace { opts, .. }, Target::InPlace)) => assert!(opts.keep && opts.force),
        _ => panic!("expected in place"),
    }
}

#[test]
fn report_channels() {
    let plain = parse(&["f"]).unwrap();
    let quiet = parse(&["-q", "f"]).unwrap();
    let verbose = parse(&["-v", "f"]).unwrap();
    assert_eq!(report_channel(&plain, Target::InPlace), Channel::Stdout);
    assert_eq!(report_channel(&quiet, Target::InPlace), Channel::Silent);
    assert_eq!(report_channel(&verbose, Target::Discard), Channel::Stderr);
    assert_eq!(report_channel(&plain, Target::Stdout), Channel::Silent);
    assert_eq!(report_channel(&verbose, Target::Stdout), Channel::Stderr);
}

#[test]
fn literal_paths_win_over_patterns() {
    assert!(takes_literally(true, Some(&chars("a[1].txt"))));
    assert!(takes_literally(false, Some(&chars("plain.txt"))));
    assert!(takes_literally(false, None));
    assert!(!takes_literally(false, Some(&chars("*.log"))));
}

#[test]
fn patterns_without_matches_pass_through() {
    assert_eq!(pattern_paths(b"*.log".to_vec(), Some(vec![])), vec![b"*.log".to_vec()]);
    assert_eq!(pattern_paths(b"[".to_vec(), None), vec![b"[".to_vec()]);
    assert_eq!(
        pattern_paths(b"*.log".to_vec(), Some(vec![b"a.log".to_vec(), b"b.log".to_vec()])),
        vec![b"a.log".to_vec(), b"b.log".to_vec()]
    );
}

#[test]
fn bad_short_option_keeps_earlier_flags() {
    let mut cli = Cli::new();
    assert!(matches!(parse_short(&chars("k0"), &mut cli), Err(UsageError::UnknownShort('0'))));
    assert!(cli.keep);
    let mut cli = Cli::new();
    assert!(matches!(parse_short(&chars("5vx9"), &mut cli), Err(UsageError::UnknownShort('x'))));
    assert_eq!(cli.level, Some(5));
    assert!(cli.verbose);
    let mut cli = Cli::new();
    assert!(matches!(parse_short(&chars("x"), &mut cli), Err(UsageError::UnknownShort('x'))));
    assert!(!cli.keep && cli.level.is_none());
}

#[test]
fn bad_long_option_changes_nothing() {
    let mut cli = Cli::new();
    cli.keep = true;
    let argv = args(&["--level", "high"]);
    assert!(matches!(parse_long(&chars("level"), &mut cli, &argv, 0), Err(UsageError::LevelNotInteger)));
    assert!(cli.keep && cli.level.is_none());
    let argv = args(&["--format=rar"]);
    assert!(matches!(parse_long(&chars("format=rar"), &mut cli, &argv, 0), Err(UsageError::UnknownFormat)));
    assert!(cli.format.is_none());
    assert_eq!(parse_long(&chars("level=7"), &mut cli, &argv, 0).unwrap(), false);
    assert_eq!(cli.level, Some(7));
}

#[test]
fn usage_and_refusal_messages() {
    let text = |v: Vec<char>| -> String { v.into_iter().collect() };
    assert_eq!(text(UsageError::UnknownLong(chars("bogus")).message()), "unknown option: --bogus");
    assert_eq!(text(UsageError::UnknownShort('x').message()), "unknown option: -x");
    assert_eq!(text(UsageError::MissingValue(chars("level")).message()), "--level requires a value");
    assert_eq!(text(UsageError::ValueNotUtf8.message()), "value must be UTF-8");
    assert_eq!(text(UsageError::UnknownFormat.message()), "unknown format (zstd|gz|xz|bz2)");
    assert_eq!(text(UsageError::LevelNotInteger.message()), "--level must be an integer");
    assert_eq!(text(RunRefusal::NoInputFiles.message()), "no input files");
    assert_eq!(text(RunRefusal::QuietAndVerbose.message()), "--quiet and --verbose are mutually exclusive");
    assert_eq!(text(RunRefusal::StdoutAndTest.message()), "--stdout and --test are mutually exclusive");
    assert_eq!(text(FileRefusal::TestNeedsDecompress.message()), "--test only applies in decompress mode");
}

#[test]
fn exit_status_of_a_batch() {
    assert_eq!(batch_status(&[]), 0);
    assert_eq!(batch_status(&[true, true, true]), 0);
    assert_eq!(batch_status(&[true, false, true]), 1);
    assert_eq!(batch_status(&[false]), 1);
    assert_eq!(USAGE_STATUS, 2);
}

fn input(path: &str, exists: bool, matched: Option<Vec<&str>>) -> GlobInput {
    GlobInput {
        path: path.as_bytes().to_vec(),
        exists,
        text: Some(chars(path)),
        matched: matched.map(|m| m.iter().map(|p| p.as_bytes().to_vec()).collect()),
    }
}

#[test]
fn glob_expansion_of_arguments() {
    let inputs = vec![
        input("a[1].txt", true, None),
        input("*.log", false, Some(vec!["x.log", "y.log"])),
        input("plain.txt", false, None),
        input("*.none", false, Some(vec![])),
        input("[", false, None),
    ];
    let out = expand_globs(&inputs);
    let expected: Vec<Vec<u8>> = ["a[1].txt", "x.log", "y.log", "plain.txt", "*.none", "["]
        .iter()
        .map(|p| p.as_bytes().to_vec())
        .collect();
    assert_eq!(out, expected);
    let again: Vec<GlobInput> = out
        .iter()
        .map(|p| GlobInput { path: p.clone(), exists: true, text: None, matched: None })
        .collect();
    assert_eq!(expand_globs(&again), out);
}

#[test]
fn test_mode_streams_into_nothing() {
    let cli = parse(&["-t", "archive.tar.gz"]).unwrap();
    match plan_file(Mode::Decompress, &cli, None, b"archive.tar.gz".to_vec()).unwrap() {
        (Job::DecompressToWriter { src, max_decompressed }, Target::Discard) => {
            assert_eq!(src, b"archive.tar.gz".to_vec());
            assert!(max_decompressed.is_none());
        }
        _ => panic!("test mode must stream into nothing"),
    }
}

#[test]
fn summary_lines() {
    let text = |v: Vec<u8>| String::from_utf8(v).unwrap();
    let opts = Options::default();
    let job = Job::CompressInPlace { src: b"d/a.txt".to_vec(), fmt: Format::Zstd, level: None, opts };
    assert_eq!(text(summary_line(&job, Target::InPlace, &Outcome::Compressed(b"d/a.txt.zst".to_vec()))), "d/a.txt -> d/a.txt.zst");
    let job = Job::DecompressInPlace { src: b"d/a.txt.gz".to_vec(), opts };
    assert_eq!(
        text(summary_line(&job, Target::InPlace, &Outcome::Decompressed(b"d/a.txt".to_vec(), Format::Gzip))),
        "d/a.txt.gz [gzip] -> d/a.txt"
    );
    let job = Job::CompressToWriter { src: b"d/a.txt".to_vec(), fmt: Format::Bzip2, level: None };
    assert_eq!(text(summary_line(&job, Target::Stdout, &Outcome::Streamed)), "d/a.txt -> <stdout> [bzip2]");
    let job = Job::DecompressToWriter { src: b"a.tar.xz".to_vec(), max_decompressed: None };
    assert_eq!(text(summary_line(&job, Target::Stdout, &Outcome::StreamedFrom(Format::Xz))), "a.tar.xz [xz] -> <stdout>");
    assert_eq!(text(summary_line(&job, Target::Discard, &Outcome::StreamedFrom(Format::Xz))), "a.tar.xz: xz OK");
}

#[test]
fn failure_lines() {
    assert_eq!(failure_line(b"d/a.txt", &Error::UnknownFormat), b"d/a.txt: could not identify compression format".to_vec());
    assert_eq!(failure_line(b"x", &Error::Io("gone".to_string())), b"x: io: gone".to_vec());
}

#[test]
fn batch_attempts_every_file() {
    let mut batch = Batch::new(3);
    let mut attempted = Vec::new();
    let results = [false, true, false];
    while let Some(i) = batch.next_file() {
        attempted.push(i);
        batch.record(results[i]);
    }
    assert_eq!(attempted, vec![0, 1, 2]);
    assert_eq!(batch.status(), 1);
    let mut batch = Batch::new(2);
    while let Some(_) = batch.next_file() {
        batch.record(true);
    }
    assert_eq!(batch.status(), 0);
    let batch = Batch::new(0);
    assert_eq!(batch.next_file(), None);
    assert_eq!(batch.status(), 0);
}
