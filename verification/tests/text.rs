use route_rs::cli::{find_gpkg, is_gpkg_file_name, join_strings};
use route_rs::lstm::{contains_str, split_str};
use route_rs::config::{ColumnConfig, OutputFormat};
use route_rs::text::{decimal_string, parse_u32, parse_usize, path_join, second_field_of, str_eq, starts_with};

#[test]
fn parse_u32_follows_from_str() {
    for s in ["0", "42", "+42", "007", "4294967295", "", "+", "-1", "4294967296", "1 2", "12a", "99999999999999999999999"] {
        assert_eq!(parse_u32(s), s.parse::<u32>().ok(), "{s}");
    }
    assert_eq!(parse_usize("600"), Some(600));
    assert_eq!(parse_usize("18446744073709551616"), None);
}

#[test]
fn decimal_strings() {
    for n in [0u32, 7, 10, 99, 486888, u32::MAX] {
        assert_eq!(decimal_string(n), n.to_string());
        assert_eq!(parse_u32(&decimal_string(n)), Some(n));
    }
}

#[test]
fn path_joining() {
    assert_eq!(path_join("a", "b"), "a/b");
    assert_eq!(path_join("a/", "b"), "a/b");
    assert_eq!(path_join("", "b"), "b");
    assert_eq!(path_join("a", "/abs"), "/abs");
    assert_eq!(path_join("/", "x"), "/x");
}

#[test]
fn small_string_helpers() {
    assert!(str_eq("abc", "abc"));
    assert!(!str_eq("abc", "abd"));
    assert!(starts_with("wb-12", "wb-"));
    assert!(!starts_with("w", "wb-"));
    assert_eq!(second_field_of("a,b,c", ','), Some("b"));
    assert_eq!(second_field_of("a,", ','), Some(""));
    assert_eq!(second_field_of("abc", ','), None);
}

#[test]
fn column_config_names() {
    let c = ColumnConfig::new();
    assert_eq!(c.key, "id");
    assert_eq!(c.downstream, "toid");
    assert_eq!(c.dx, "Length_m");
    assert_eq!(c.n, "n");
    assert_eq!(c.ncc, "nCC");
    assert_eq!(c.s0, "So");
    assert_eq!(c.bw, "BtmWdth");
    assert_eq!(c.tw, "TopWdth");
    assert_eq!(c.twcc, "TopWdthCC");
    assert_eq!(c.cs, "ChSlp");
    let d = ColumnConfig::default();
    assert_eq!(d.key, c.key);
    assert_eq!(d.cs, c.cs);
}

#[test]
fn output_format_names() {
    assert_eq!(OutputFormat::from_name("CSV"), Some(OutputFormat::Csv));
    assert_eq!(OutputFormat::from_name("NetCDF"), Some(OutputFormat::NetCdf));
    assert_eq!(OutputFormat::from_name("Both"), Some(OutputFormat::Both));
    assert_eq!(OutputFormat::from_name("csv"), None);
    assert!(OutputFormat::Csv.writes_csv());
    assert!(OutputFormat::Both.writes_csv());
    assert!(!OutputFormat::NetCdf.writes_csv());
}

#[test]
fn joins_and_searches() {
    let parts: Vec<String> = vec!["a".into(), "bb".into(), "c".into()];
    assert_eq!(join_strings(&parts, "_"), "a_bb_c");
    assert_eq!(join_strings(&vec![], "_"), "");
    assert!(contains_str("my_lstm_dir", "lstm"));
    assert!(!contains_str("lst", "lstm"));
    assert!(contains_str("abc", ""));
    assert_eq!(split_str("a/b//c", '/'), vec!["a", "b", "", "c"]);
    assert_eq!(split_str("", '/'), vec![""]);
    assert!(is_gpkg_file_name("x.gpkg"));
    assert!(is_gpkg_file_name("x..gpkg"));
    assert!(!is_gpkg_file_name(".gpkg"));
    assert!(!is_gpkg_file_name("x.GPKG"));
    assert!(!is_gpkg_file_name("gpkg"));
    assert_eq!(find_gpkg(&vec!["a.txt".into(), "b.gpkg".into(), "c.gpkg".into()]), Some("b.gpkg".to_string()));
    assert_eq!(find_gpkg(&vec![]), None);
}
