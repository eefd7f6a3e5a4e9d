use route_rs::lstm::{
    catchment_key_of, lstm_config_file_name, pad_flows, select_forcing_file, select_lstm_config_dir,
    weight_dir_name_of, ConfigSubdir, ForcingError, LstmDirError,
};
use route_rs::simulation::{get_simulation_params, simulation_schedule, table_steps_and_time_of, SimParamsError};

#[test]
fn table_lines_and_time() {
    let content = "id,time,q\n0,2010-01-01 00:00:00,1.0\r\n1,2010-01-01 01:00:00,2.0\n2,x,3\n";
    let (steps, time) = table_steps_and_time_of(content).unwrap();
    assert_eq!(steps, content.lines().count() - 2);
    assert_eq!(time, "2010-01-01 00:00:00");
    assert_eq!(table_steps_and_time_of(""), Err(SimParamsError::EmptyFile));
    assert_eq!(table_steps_and_time_of("header\n"), Err(SimParamsError::HeaderOnly));
    assert_eq!(table_steps_and_time_of("header"), Err(SimParamsError::HeaderOnly));
    assert_eq!(table_steps_and_time_of("header\nnocomma\n"), Err(SimParamsError::MissingTime));
    let (steps, time) = table_steps_and_time_of("h\n0,t\n\n").unwrap();
    assert_eq!((steps, time.as_str()), (1, "t"));
}

// The inflow table of one catchment: a header, the initial state and 24 hourly steps.
#[test]
fn test_get_simulation_params() {
    let mut content = String::from(",Time,Q_OUT\n");
    for i in 0..25 {
        content.push_str(&format!("{},2010-01-01 {:02}:00:00,0.5\n", i, i % 24));
    }
    let (max_external_steps, t) = get_simulation_params(&content).unwrap();
    assert_eq!(max_external_steps, 24);
    let reference_time = chrono::NaiveDate::from_ymd_opt(t.year, t.month, t.day)
        .unwrap()
        .and_hms_nano_opt(t.hour, t.minute, t.second, t.nanosecond)
        .unwrap();
    assert_eq!(
        reference_time,
        chrono::NaiveDateTime::parse_from_str("2010-01-01 00:00:00", "%Y-%m-%d %H:%M:%S").unwrap()
    );
    assert_eq!((t.year, t.month, t.day, t.hour, t.minute, t.second), (2010, 1, 1, 0, 0, 0));
    assert_eq!(t.nanosecond, 0);
    assert_eq!(get_simulation_params("h\n0,2010-13-01 00:00:00\n"), Err(SimParamsError::TimeParse));
}

#[test]
fn simulation_params_keep_a_leap_second() {
    let (steps, t) = get_simulation_params("h\n0,2016-12-31 23:59:60,1\n1,x,2\n").unwrap();
    assert_eq!(steps, 1);
    assert_eq!((t.year, t.month, t.day, t.hour, t.minute, t.second), (2016, 12, 31, 23, 59, 59));
    assert!(t.nanosecond >= 1_000_000_000);
    let (_, t) = get_simulation_params("h\n0,2016-12-31 23:59:59,1\n").unwrap();
    assert_eq!((t.second, t.nanosecond), (59, 0));
}

#[test]
fn schedules() {
    let s = simulation_schedule(300, 24);
    assert_eq!(s.downsampling, 12);
    assert_eq!(s.total_timesteps, 288);
    assert_eq!(s.span_seconds, 86400);
    let s = simulation_schedule(7, 2);
    assert_eq!(s.downsampling, 514);
    assert_eq!(s.total_timesteps, 1028);
}

#[test]
fn forcing_and_lstm_dirs() {
    assert_eq!(select_forcing_file(vec!["f/forcings.nc".to_string()]), Ok("f/forcings.nc".to_string()));
    assert_eq!(select_forcing_file(vec![]), Err(ForcingError::NotExactlyOne(0)));
    assert_eq!(select_forcing_file(vec!["a".to_string(), "b".to_string()]), Err(ForcingError::NotExactlyOne(2)));
    let d = |p: &str, n: Option<&str>| ConfigSubdir { path: p.to_string(), name: n.map(|s| s.to_string()) };
    let dirs = vec![d("c/CFE", Some("CFE")), d("c/LSTM", Some("LSTM")), d("c/x", None)];
    assert_eq!(select_lstm_config_dir(&dirs).unwrap(), "c/LSTM");
    let none = vec![d("c/CFE", Some("CFE"))];
    match select_lstm_config_dir(&none) {
        Err(LstmDirError::NoLstmDir(all)) => assert_eq!(all, vec!["c/CFE".to_string()]),
        other => panic!("unexpected {:?}", other),
    }
    let many = vec![d("c/lstm", Some("lstm")), d("c/my_Lstm2", Some("my_Lstm2"))];
    match select_lstm_config_dir(&many) {
        Err(LstmDirError::SeveralLstmDirs(found)) => assert_eq!(found.len(), 2),
        other => panic!("unexpected {:?}", other),
    }
}

#[test]
fn weight_paths_and_keys() {
    assert_eq!(weight_dir_name_of("/m/nh_model_7/burn/weights.json").as_deref(), Some("nh_model_7"));
    assert_eq!(weight_dir_name_of("burn/weights.json").as_deref(), None);
    assert_eq!(weight_dir_name_of("a/b/c").as_deref(), Some("a"));
    assert_eq!(catchment_key_of(486888), "cat-486888");
    assert_eq!(lstm_config_file_name(12), "cat-12.yml");
}

#[test]
fn flow_padding() {
    let mut v = vec![1.0f32, 2.5];
    pad_flows(&mut v, 5, 0.0);
    assert_eq!(v, vec![1.0, 2.5, 2.5, 2.5, 2.5]);
    let mut e: Vec<f32> = vec![];
    pad_flows(&mut e, 2, 0.0);
    assert_eq!(e, vec![0.0, 0.0]);
    let mut long = vec![1.0f32, 2.0, 3.0];
    pad_flows(&mut long, 2, 0.0);
    assert_eq!(long, vec![1.0, 2.0, 3.0]);
}

#[test]
fn run_dir_replacement() {
    use_replace();
}

fn use_replace() {
    for (s, from, to) in [("../runs/x", "..", "/base"), ("a....b", "..", "X"), ("...", "..", "Y"), ("", "..", "Z"), ("none", "..", "Q")] {
        assert_eq!(route_rs::lstm::replace_str(s, from, to), s.replace(from, to));
    }
}
