use rdma_probe::{log_level, Args, LogLevel};

#[test]
fn verbosity_maps_to_levels() {
    assert_eq!(log_level(0), LogLevel::Warn);
    assert_eq!(log_level(1), LogLevel::Info);
    assert_eq!(log_level(2), LogLevel::Debug);
    assert_eq!(log_level(3), LogLevel::Trace);
    assert_eq!(log_level(200), LogLevel::Trace);
}

#[test]
fn default_args_read_config_toml() {
    let a = Args::default();
    assert_eq!(a.config, "config.toml");
    assert_eq!(a.log_level(), LogLevel::Warn);
    let b = Args { config: "x.toml".to_string(), verbose: 2 };
    assert_eq!(b.log_level(), LogLevel::Debug);
}
