use rdma_probe::config::TestType;
use rdma_probe::{completion_queue_depth, default_client_threads, default_server_threads, Config, ConfigError};

#[test]
fn defaults_match_documented_values() {
    let c = Config::default();
    assert_eq!(c.device.name, "mlx5_0");
    assert_eq!(c.device.ib_port, 0);
    assert_eq!(c.connection.server_port, 9999);
    assert_eq!(c.connection.server_addr, "0.0.0.0");
    assert_eq!(c.test.test_type, TestType::AckRTT);
    assert_eq!(c.test.msg_size, 64);
    assert_eq!(c.test.tx_depth, 8000);
    assert_eq!(c.test.rx_depth, 8000);
    assert_eq!(c.test.iterations, 5_000_000);
    assert_eq!(c.output.filename, "histogram");
    assert!(c.output.show_result);
    assert!(c.sample.enabled);
    assert_eq!(c.sample.ratio_ppm, 10_000);
    assert!(!c.bw_control.limiter);
    assert!(!c.is_agent);
    assert!(c.test_switch);
    assert_eq!(c.client_threads, default_client_threads());
    assert_eq!(c.server_threads, default_server_threads());
    assert_eq!(default_client_threads().post_send, 1);
    assert_eq!(default_server_threads().poll_recv, 1);
    assert_eq!(c.validate(), Ok(()));
}

#[test]
fn validation_reports_first_fault() {
    let mut c = Config::default();
    c.test.msg_size = 0;
    c.test.tx_depth = 0;
    assert_eq!(c.validate(), Err(ConfigError::ZeroMessageSize));
    c.test.msg_size = 64;
    assert_eq!(c.validate(), Err(ConfigError::ZeroTxDepth));
    c.test.tx_depth = 8;
    c.test.rx_depth = 0;
    assert_eq!(c.validate(), Err(ConfigError::ZeroRxDepth));
    c.test.rx_depth = 8;
    c.connection.server_port = 80;
    assert_eq!(c.validate(), Err(ConfigError::ReservedPort { port: 80 }));
    c.connection.server_port = 9999;
    c.test.tx_depth = usize::MAX;
    assert_eq!(c.validate(), Err(ConfigError::TxRegionTooLarge));
    c.test.tx_depth = 8;
    c.test.rx_depth = usize::MAX / 2;
    assert_eq!(c.validate(), Err(ConfigError::RxRegionTooLarge));
}

#[test]
fn region_layouts_follow_config() {
    let mut c = Config::default();
    c.test.msg_size = 32;
    c.test.tx_depth = 2;
    c.test.rx_depth = 5;
    let tx = c.tx_layout();
    let rx = c.rx_layout();
    assert_eq!(tx.region_bytes(), 64);
    assert_eq!(rx.region_bytes(), 160);
}

#[test]
fn loopback_configs_use_port_below() {
    let c = Config::default();
    let s = c.loopback_server_config();
    assert!(s.is_agent);
    assert_eq!(s.connection.server_addr, "0.0.0.0");
    assert_eq!(s.connection.server_port, 9998);
    let p = c.loopback_client_config();
    assert!(!p.is_agent);
    assert_eq!(p.connection.server_port, 9998);
    assert_eq!(p.connection.server_addr, "0.0.0.0");
    assert_eq!(p.test, c.test);
}

#[test]
fn completion_queue_has_one_spare_entry() {
    assert_eq!(completion_queue_depth(8000), Some(8001));
    assert_eq!(completion_queue_depth(u32::MAX as usize - 1), Some(u32::MAX));
    assert_eq!(completion_queue_depth(u32::MAX as usize), None);
}
