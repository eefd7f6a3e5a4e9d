use route_rs::args::{ArgOption, Args, ArgsError};
use route_rs::cli::{get_args, CfgContext, Config, ConfigError, FsFacts};
use route_rs::kernel::MuskingumCungeKernel;

// Test Args parsing with default values
#[test]
fn test_args_parsing_defaults() {
    let args = Args::parse_from(&["test", "test_route_dir"]).unwrap();
    assert_eq!(args.route_dir, "test_route_dir");
    assert_eq!(args.internal_timestep_seconds, 300);
    match args.kernel {
        MuskingumCungeKernel::TRouteModernized => {}
        _ => panic!("Expected default kernel to be TRouteModernized"),
    }
}

// Test Args parsing with custom values
#[test]
fn test_args_parsing_custom() {
    let args = Args::parse_from(&[
        "test",
        "test_route_dir",
        "-t",
        "600",
        "-k",
        "t-route-legacy",
    ])
    .unwrap();
    assert_eq!(args.route_dir, "test_route_dir");
    assert_eq!(args.internal_timestep_seconds, 600);
    match args.kernel {
        MuskingumCungeKernel::TRouteLegacy => {}
        _ => panic!("Expected kernel to be TRouteLegacy"),
    }
}

#[test]
fn args_default_thread_count_is_taken() {
    let args = Args::parse_with_default_threads(&["prog", "root"], 7).unwrap();
    assert_eq!(args.num_threads, 7);
    assert_eq!(args.hf, None);
    assert_eq!(args.input_dir, None);
    assert_eq!(args.output_dir, None);
    let args = Args::parse_from(&["prog", "root"]).unwrap();
    assert!(args.num_threads >= 1);
}

#[test]
fn args_long_forms_and_attached_values() {
    let args = Args::parse_with_default_threads(
        &[
            "prog",
            "--hf=/data/hf.gpkg",
            "--input-dir",
            "in",
            "-oout",
            "--internal-timestep-seconds=+60",
            "--kernel",
            "route-rs",
            "-n=3",
            "root",
        ],
        1,
    )
    .unwrap();
    assert_eq!(args.route_dir, "root");
    assert_eq!(args.hf.as_deref(), Some("/data/hf.gpkg"));
    assert_eq!(args.input_dir.as_deref(), Some("in"));
    assert_eq!(args.output_dir.as_deref(), Some("out"));
    assert_eq!(args.internal_timestep_seconds, 60);
    assert_eq!(args.kernel, MuskingumCungeKernel::RouteRs);
    assert_eq!(args.num_threads, 3);
}

#[test]
fn args_double_dash_makes_positional() {
    let args = Args::parse_with_default_threads(&["prog", "--", "-weird"], 1).unwrap();
    assert_eq!(args.route_dir, "-weird");
    let args = Args::parse_with_default_threads(&["prog", "-"], 1).unwrap();
    assert_eq!(args.route_dir, "-");
}

#[test]
fn args_errors() {
    let e = |argv: &[&str]| Args::parse_with_default_threads(argv, 1).unwrap_err();
    assert!(matches!(e(&["prog"]), ArgsError::MissingRouteDir));
    assert!(matches!(e(&[]), ArgsError::MissingRouteDir));
    assert!(matches!(e(&["prog", "a", "b"]), ArgsError::UnexpectedArgument(s) if s == "b"));
    assert!(matches!(e(&["prog", "a", "--bogus"]), ArgsError::UnknownArgument(s) if s == "--bogus"));
    assert!(matches!(e(&["prog", "a", "-x"]), ArgsError::UnknownArgument(s) if s == "-x"));
    assert!(matches!(e(&["prog", "a", "-t"]), ArgsError::MissingValue(ArgOption::InternalTimestepSeconds)));
    assert!(matches!(e(&["prog", "a", "-k", "-t", "5"]), ArgsError::MissingValue(ArgOption::Kernel)));
    assert!(matches!(
        e(&["prog", "a", "-t", "abc"]),
        ArgsError::InvalidValue(ArgOption::InternalTimestepSeconds, s) if s == "abc"
    ));
    assert!(matches!(
        e(&["prog", "a", "-k", "fortran"]),
        ArgsError::InvalidValue(ArgOption::Kernel, s) if s == "fortran"
    ));
    assert!(matches!(e(&["prog", "a", "-t", "5", "-t", "6"]), ArgsError::RepeatedOption(ArgOption::InternalTimestepSeconds)));
    assert!(matches!(e(&["prog", "a", "--hf="]), ArgsError::InvalidValue(ArgOption::Hf, s) if s.is_empty()));
    assert!(matches!(e(&["prog", ""]), ArgsError::InvalidValue(ArgOption::RouteDir, s) if s.is_empty()));
    assert!(matches!(e(&["prog", "-h", "a"]), ArgsError::HelpRequested));
    assert!(matches!(e(&["prog", "a", "--help"]), ArgsError::HelpRequested));
    assert!(matches!(e(&["prog", "--version"]), ArgsError::VersionRequested));
    assert!(matches!(e(&["prog", "-V"]), ArgsError::VersionRequested));
    // the first refused argument decides
    assert!(matches!(e(&["prog", "--bogus", "--help"]), ArgsError::UnknownArgument(_)));
}

#[test]
fn args_short_groups() {
    let e = |argv: &[&str]| Args::parse_with_default_threads(argv, 1).unwrap_err();
    assert!(matches!(e(&["prog", "a", "-hV"]), ArgsError::HelpRequested));
    assert!(matches!(e(&["prog", "a", "-Vh"]), ArgsError::VersionRequested));
    assert!(matches!(e(&["prog", "-hx"]), ArgsError::HelpRequested));
    assert!(matches!(e(&["prog", "a", "-xh"]), ArgsError::UnknownArgument(s) if s == "-x"));
    assert!(matches!(e(&["prog", "a", "-xyz"]), ArgsError::UnknownArgument(s) if s == "-x"));
    let args = Args::parse_with_default_threads(&["prog", "a", "-ih", "-o", "-", "-k=route-rs"], 1).unwrap();
    assert_eq!(args.input_dir.as_deref(), Some("h"));
    assert_eq!(args.output_dir.as_deref(), Some("-"));
    assert_eq!(args.kernel, MuskingumCungeKernel::RouteRs);
}

#[test]
fn args_long_flags_as_reported() {
    let e = |argv: &[&str]| Args::parse_with_default_threads(argv, 1).unwrap_err();
    assert!(matches!(e(&["prog", "a", "--bogus=1"]), ArgsError::UnknownArgument(s) if s == "--bogus"));
    assert!(matches!(e(&["prog", "a", "--=1"]), ArgsError::UnknownArgument(s) if s == "--"));
    assert!(matches!(
        e(&["prog", "a", "--help=x"]),
        ArgsError::FlagWithValue(f, v) if f == "--help" && v == "x"
    ));
    assert!(matches!(
        e(&["prog", "--version="]),
        ArgsError::FlagWithValue(f, v) if f == "--version" && v.is_empty()
    ));
}

#[test]
fn args_pending_values_are_checked_at_the_next_flag() {
    let e = |argv: &[&str]| Args::parse_with_default_threads(argv, 1).unwrap_err();
    // an option followed by a flag that is not known: the flag is reported
    assert!(matches!(e(&["prog", "a", "-t", "-5"]), ArgsError::UnknownArgument(s) if s == "-5"));
    assert!(matches!(e(&["prog", "a", "-t", "abc", "--bogus"]), ArgsError::UnknownArgument(s) if s == "--bogus"));
    // a known flag first checks the option before it
    assert!(matches!(
        e(&["prog", "a", "-t", "abc", "-h"]),
        ArgsError::InvalidValue(ArgOption::InternalTimestepSeconds, s) if s == "abc"
    ));
    assert!(matches!(e(&["prog", "a", "-k", "--help"]), ArgsError::MissingValue(ArgOption::Kernel)));
    // a second positional argument is refused before the option before it is checked
    assert!(matches!(e(&["prog", "a", "-k", "--", "b"]), ArgsError::UnexpectedArgument(s) if s == "b"));
    // the route directory is checked in the same way
    assert!(matches!(e(&["prog", "", "-h"]), ArgsError::InvalidValue(ArgOption::RouteDir, s) if s.is_empty()));
    assert!(matches!(e(&["prog", "", "extra"]), ArgsError::UnexpectedArgument(s) if s == "extra"));
    assert!(matches!(e(&["prog", "", "--bogus"]), ArgsError::UnknownArgument(s) if s == "--bogus"));
    assert!(matches!(e(&["prog", "a", "--", "b"]), ArgsError::UnexpectedArgument(s) if s == "b"));
    let args = Args::parse_with_default_threads(&["prog", "-k", "--", "route-rs"], 1);
    assert!(matches!(args, Err(ArgsError::MissingValue(ArgOption::Kernel))));
    let args = Args::parse_with_default_threads(&["prog", "-t", "60", "--", "a"], 1).unwrap();
    assert_eq!(args.route_dir, "a");
    assert_eq!(args.internal_timestep_seconds, 60);
}

#[test]
fn kernel_names_round_trip() {
    for k in [
        MuskingumCungeKernel::RouteRs,
        MuskingumCungeKernel::TRouteModernized,
        MuskingumCungeKernel::TRouteLegacy,
        MuskingumCungeKernel::CMuskingumCunge,
    ] {
        assert_eq!(MuskingumCungeKernel::from_name(k.name()), Some(k));
    }
    assert_eq!(MuskingumCungeKernel::TRouteModernized.name(), "t-route-modernized");
    assert_eq!(MuskingumCungeKernel::CMuskingumCunge.name(), "c-muskingum-cunge");
    assert_eq!(MuskingumCungeKernel::from_name("TRouteLegacy"), None);
}

fn all_present() -> FsFacts {
    FsFacts {
        root_is_dir: true,
        csv_is_dir: true,
        config_is_dir: true,
        output_is_dir: true,
        hf_exists: true,
        config_entries: Some(vec!["notes.txt".to_string(), ".gpkg".to_string(), "cat-1_subset.gpkg".to_string(), "b.gpkg".to_string()]),
    }
}

#[test]
fn directory_plan_defaults() {
    let args = Args::parse_with_default_threads(&["prog", "/runs/a"], 2).unwrap();
    let plan = args.plan_directories();
    assert_eq!(plan.root_dir, "/runs/a");
    assert_eq!(plan.csv_dir, "/runs/a/outputs/ngen");
    assert_eq!(plan.config_dir, "/runs/a/config");
    assert_eq!(plan.output_dir, "/runs/a/outputs/troute");
    let args = Args::parse_with_default_threads(&["prog", "/runs/a/", "-i", "/in", "-o", "rel/out"], 2).unwrap();
    let plan = args.plan_directories();
    assert_eq!(plan.csv_dir, "/in");
    assert_eq!(plan.config_dir, "/runs/a/config");
    assert_eq!(plan.output_dir, "rel/out");
}

#[test]
fn get_args_finds_first_geopackage() {
    let args = Args::parse_with_default_threads(&["prog", "root", "-k", "c-muskingum-cunge"], 4).unwrap();
    let config: Config = get_args(args, &all_present()).unwrap();
    assert_eq!(config.gpkg_file, "root/config/cat-1_subset.gpkg");
    assert_eq!(config.config_dir, "root/config");
    assert_eq!(config.csv_dir, "root/outputs/ngen");
    assert_eq!(config.output_dir, "root/outputs/troute");
    assert_eq!(config.internal_timestep_seconds, 300);
    assert_eq!(config.kernel, MuskingumCungeKernel::CMuskingumCunge);
    assert_eq!(config.num_threads, 4);
    let ctx = CfgContext::from_config(&config);
    assert_eq!(ctx.internal_timestep_seconds, 300);
    assert_eq!(ctx.kernel, MuskingumCungeKernel::CMuskingumCunge);
    assert_eq!(ctx.num_threads, 4);
    assert_eq!(ctx.flags_identifier(), None);
}

#[test]
fn get_args_with_hydrofabric() {
    let args = Args::parse_with_default_threads(&["prog", "root", "--hf", "x/hf.gpkg"], 1).unwrap();
    let mut facts = all_present();
    facts.config_is_dir = false;
    facts.config_entries = None;
    let config = get_args(args, &facts).unwrap();
    assert_eq!(config.gpkg_file, "x/hf.gpkg");
    let args = Args::parse_with_default_threads(&["prog", "root", "--hf", "x/hf.gpkg"], 1).unwrap();
    facts.hf_exists = false;
    assert!(matches!(get_args(args, &facts), Err(ConfigError::HydrofabricNotFound(h)) if h == "x/hf.gpkg"));
}

#[test]
fn get_args_errors() {
    let args = || Args::parse_with_default_threads(&["prog", "root"], 1).unwrap();
    let mut facts = all_present();
    facts.root_is_dir = false;
    facts.csv_is_dir = false;
    assert!(matches!(get_args(args(), &facts), Err(ConfigError::RootNotDirectory(r)) if r == "root"));
    let mut facts = all_present();
    facts.csv_is_dir = false;
    facts.output_is_dir = false;
    match get_args(args(), &facts) {
        Err(ConfigError::MissingDirectories(d)) => {
            assert_eq!(d, vec!["root/outputs/ngen".to_string(), "root/outputs/troute".to_string()])
        }
        other => panic!("unexpected {:?}", other),
    }
    let mut facts = all_present();
    facts.config_is_dir = false;
    match get_args(args(), &facts) {
        Err(ConfigError::MissingDirectories(d)) => assert_eq!(d, vec!["root/config".to_string()]),
        other => panic!("unexpected {:?}", other),
    }
    let mut facts = all_present();
    facts.config_entries = None;
    assert!(matches!(get_args(args(), &facts), Err(ConfigError::ConfigDirUnreadable)));
    let mut facts = all_present();
    facts.config_entries = Some(vec!["a.gpkg.bak".to_string(), ".gpkg".to_string()]);
    assert!(matches!(get_args(args(), &facts), Err(ConfigError::NoGeopackage)));
}
