use vstd::prelude::*;

use crate::layout::SlotLayout;

verus! {

/// The lowest port outside the reserved range.
pub const FIRST_UNRESERVED_PORT: u16 = 1024;

/// The kind of measurement a run performs.
#[derive(Clone, Copy, Debug, PartialEq, Eq, Structural)]
pub enum TestType {
    AckRTT,
}

/// Which RDMA device and port to open.
pub struct Device {
    pub name: String,
    pub ib_port: u16,
}

/// Where the agent listens, or where the probe connects.
pub struct Connection {
    pub server_port: u16,
    pub server_addr: String,
}

/// The parameters of a measurement run.
#[derive(Clone, Copy, Debug, PartialEq, Eq, Structural)]
pub struct Test {
    pub test_type: TestType,
    pub msg_size: usize,
    pub tx_depth: usize,
    pub rx_depth: usize,
    pub qps_num: usize,
    pub concurrent_msgs: usize,
    pub iterations: usize,
    pub duration: usize,
    pub burst_size: usize,
    pub rate_limiter: usize,
}

/// Thread counts of one side.
#[derive(Clone, Copy, Debug, PartialEq, Eq, Structural)]
pub struct RDMAThreads {
    pub post_send: usize,
    pub poll_recv: usize,
    pub poll_send: usize,
}

/// Where the results go.
pub struct Output {
    pub filename: String,
    pub show_result: bool,
}

/// Sampling of requests; the ratio is in parts per million.
#[derive(Clone, Copy, Debug, PartialEq, Eq, Structural)]
pub struct Sample {
    pub enabled: bool,
    pub ratio_ppm: u32,
}

/// Bandwidth control.
#[derive(Clone, Copy, Debug, PartialEq, Eq, Structural)]
pub struct BWControl {
    pub limiter: bool,
}

/// The whole configuration, cloned into each component.
pub struct Config {
    pub device: Device,
    pub connection: Connection,
    pub test: Test,
    pub client_threads: RDMAThreads,
    pub server_threads: RDMAThreads,
    pub output: Output,
    pub sample: Sample,
    pub bw_control: BWControl,
    pub is_agent: bool,
    /// Whether the probe measures the loopback round before each wire round;
    /// when it does not, the loop share of each sample is zero.
    pub test_switch: bool,
}

/// Why a configuration cannot run.
#[derive(Clone, Copy, Debug, PartialEq, Eq, Structural)]
pub enum ConfigError {
    /// The message size is zero.
    ZeroMessageSize,
    /// The send queue depth is zero.
    ZeroTxDepth,
    /// The receive queue depth is zero.
    ZeroRxDepth,
    /// The server port lies in the reserved range.
    ReservedPort { port: u16 },
    /// The send region, `msg_size * tx_depth` bytes, does not fit in memory.
    TxRegionTooLarge,
    /// The receive region, `msg_size * rx_depth` bytes, does not fit in memory.
    RxRegionTooLarge,
}

/// Thread counts of the client side when the file gives none.
pub fn default_client_threads() -> (r: RDMAThreads)
    ensures
        r == (RDMAThreads { post_send: 1, poll_recv: 1, poll_send: 1 }),
{
    RDMAThreads { post_send: 1, poll_recv: 1, poll_send: 1 }
}

/// Thread counts of the server side when the file gives none.
pub fn default_server_threads() -> (r: RDMAThreads)
    ensures
        r == (RDMAThreads { post_send: 1, poll_recv: 1, poll_send: 1 }),
{
    RDMAThreads { post_send: 1, poll_recv: 1, poll_send: 1 }
}

impl Default for TestType {
    fn default() -> (r: Self)
        ensures
            r == TestType::AckRTT,
    {
        TestType::AckRTT
    }
}

impl Default for Device {
    fn default() -> (r: Self)
        ensures
            r.name@ == "mlx5_0"@,
            r.ib_port == 0,
    {
        Device { name: "mlx5_0".to_owned(), ib_port: 0 }
    }
}

impl Clone for Device {
    fn clone(&self) -> (r: Self)
        ensures
            r == *self,
    {
        Device { name: self.name.clone(), ib_port: self.ib_port }
    }
}

impl Default for Connection {
    fn default() -> (r: Self)
        ensures
            r.server_port == 9999,
            r.server_addr@ == "0.0.0.0"@,
    {
        Connection { server_port: 9999, server_addr: "0.0.0.0".to_owned() }
    }
}

impl Clone for Connection {
    fn clone(&self) -> (r: Self)
        ensures
            r == *self,
    {
        Connection { server_port: self.server_port, server_addr: self.server_addr.clone() }
    }
}

impl Default for Test {
    fn default() -> (r: Self)
        ensures
            r == (Test {
                test_type: TestType::AckRTT,
                msg_size: 64,
                tx_depth: 8000,
                rx_depth: 8000,
                qps_num: 1,
                concurrent_msgs: 1,
                iterations: 5_000_000,
                duration: 15,
                burst_size: 1,
                rate_limiter: 15_000,
            }),
    {
        Test {
            test_type: TestType::AckRTT,
            msg_size: 64,
            tx_depth: 8000,
            rx_depth: 8000,
            qps_num: 1,
            concurrent_msgs: 1,
            iterations: 5_000_000,
            duration: 15,
            burst_size: 1,
            rate_limiter: 15_000,
        }
    }
}

impl Default for RDMAThreads {
    fn default() -> (r: Self)
        ensures
            r == (RDMAThreads { post_send: 1, poll_recv: 1, poll_send: 1 }),
    {
        RDMAThreads { post_send: 1, poll_recv: 1, poll_send: 1 }
    }
}

impl Default for Output {
    fn default() -> (r: Self)
        ensures
            r.filename@ == "histogram"@,
            r.show_result,
    {
        Output { filename: "histogram".to_owned(), show_result: true }
    }
}

impl Clone for Output {
    fn clone(&self) -> (r: Self)
        ensures
            r == *self,
    {
        Output { filename: self.filename.clone(), show_result: self.show_result }
    }
}

impl Default for Sample {
    fn default() -> (r: Self)
        ensures
            r == (Sample { enabled: true, ratio_ppm: 10_000 }),
    {
        Sample { enabled: true, ratio_ppm: 10_000 }
    }
}

impl Default for BWControl {
    fn default() -> (r: Self)
        ensures
            r == (BWControl { limiter: false }),
    {
        BWControl { limiter: false }
    }
}

impl Default for Config {
    fn default() -> (r: Self)
        ensures
            r.device.name@ == "mlx5_0"@,
            r.device.ib_port == 0,
            r.connection.server_port == 9999,
            r.connection.server_addr@ == "0.0.0.0"@,
            r.test.msg_size == 64,
            r.test.tx_depth == 8000,
            r.test.rx_depth == 8000,
            r.test.iterations == 5_000_000,
            r.client_threads == (RDMAThreads { post_send: 1, poll_recv: 1, poll_send: 1 }),
            r.server_threads == (RDMAThreads { post_send: 1, poll_recv: 1, poll_send: 1 }),
            r.output.filename@ == "histogram"@,
            r.output.show_result,
            r.sample == (Sample { enabled: true, ratio_ppm: 10_000 }),
            r.bw_control == (BWControl { limiter: false }),
            !r.is_agent,
            r.test_switch,
    {
        Config {
            device: Device::default(),
            connection: Connection::default(),
            test: Test::default(),
            client_threads: default_client_threads(),
            server_threads: default_server_threads(),
            output: Output::default(),
            sample: Sample::default(),
            bw_control: BWControl::default(),
            is_agent: false,
            test_switch: true,
        }
    }
}

impl Clone for Config {
    fn clone(&self) -> (r: Self)
        ensures
            r == *self,
    {
        Config {
            device: self.device.clone(),
            connection: self.connection.clone(),
            test: self.test,
            client_threads: self.client_threads,
            server_threads: self.server_threads,
            output: self.output.clone(),
            sample: self.sample,
            bw_control: self.bw_control,
            is_agent: self.is_agent,
            test_switch: self.test_switch,
        }
    }
}

/// The layout of `depth` slots of `msg_size` bytes.
pub open spec fn layout_of(msg_size: usize, depth: usize) -> SlotLayout {
    SlotLayout { msg_size, depth }
}

/// The first fault of a configuration, checked in a fixed order.
pub open spec fn config_fault(t: Test, port: u16) -> Option<ConfigError> {
    if t.msg_size == 0 {
        Some(ConfigError::ZeroMessageSize)
    } else if t.tx_depth == 0 {
        Some(ConfigError::ZeroTxDepth)
    } else if t.rx_depth == 0 {
        Some(ConfigError::ZeroRxDepth)
    } else if port < FIRST_UNRESERVED_PORT {
        Some(ConfigError::ReservedPort { port })
    } else if !layout_of(t.msg_size, t.tx_depth).wf() {
        Some(ConfigError::TxRegionTooLarge)
    } else if !layout_of(t.msg_size, t.rx_depth).wf() {
        Some(ConfigError::RxRegionTooLarge)
    } else {
        None
    }
}

impl Config {
    /// The configuration can run: positive sizes and depths, an unreserved
    /// port, and regions that fit in memory.
    pub open spec fn valid(&self) -> bool {
        config_fault(self.test, self.connection.server_port) is None
    }

    /// Checks the configuration, reporting the first fault.
    pub fn validate(&self) -> (r: Result<(), ConfigError>)
        ensures
            r is Ok <==> self.valid(),
            r matches Err(e) ==> config_fault(self.test, self.connection.server_port) == Some(e),
    {
        let t = &self.test;
        if t.msg_size == 0 {
            return Err(ConfigError::ZeroMessageSize);
        }
        if t.tx_depth == 0 {
            return Err(ConfigError::ZeroTxDepth);
        }
        if t.rx_depth == 0 {
            return Err(ConfigError::ZeroRxDepth);
        }
        if self.connection.server_port < FIRST_UNRESERVED_PORT {
            return Err(ConfigError::ReservedPort { port: self.connection.server_port });
        }
        if SlotLayout::new(t.msg_size, t.tx_depth).is_none() {
            return Err(ConfigError::TxRegionTooLarge);
        }
        if SlotLayout::new(t.msg_size, t.rx_depth).is_none() {
            return Err(ConfigError::RxRegionTooLarge);
        }
        Ok(())
    }

    /// The layout of the send region: `tx_depth` slots of `msg_size` bytes.
    pub fn tx_layout(&self) -> (r: SlotLayout)
        requires
            self.valid(),
        ensures
            r == layout_of(self.test.msg_size, self.test.tx_depth),
            r.wf(),
    {
        SlotLayout { msg_size: self.test.msg_size, depth: self.test.tx_depth }
    }

    /// The layout of the receive region: `rx_depth` slots of `msg_size` bytes.
    pub fn rx_layout(&self) -> (r: SlotLayout)
        requires
            self.valid(),
        ensures
            r == layout_of(self.test.msg_size, self.test.rx_depth),
            r.wf(),
    {
        SlotLayout { msg_size: self.test.msg_size, depth: self.test.rx_depth }
    }

    /// The configuration of the colocated loopback agent: the agent role, on
    /// all local addresses, one port below the server port.
    pub fn loopback_server_config(&self) -> (r: Config)
        requires
            self.connection.server_port >= 1,
        ensures
            r.is_agent,
            r.connection.server_addr@ == "0.0.0.0"@,
            r.connection.server_port == self.connection.server_port - 1,
            r.device == self.device,
            r.test == self.test,
            r.output == self.output,
            r.test_switch == self.test_switch,
    {
        let mut c = self.clone();
        c.is_agent = true;
        c.connection.server_addr = "0.0.0.0".to_owned();
        c.connection.server_port = self.connection.server_port - 1;
        c
    }

    /// The configuration of the probe's loopback adapter: the probe role,
    /// connecting to the local loopback agent one port below the server port.
    pub fn loopback_client_config(&self) -> (r: Config)
        requires
            self.connection.server_port >= 1,
        ensures
            r.is_agent == self.is_agent,
            r.connection.server_addr@ == "0.0.0.0"@,
            r.connection.server_port == self.connection.server_port - 1,
            r.device == self.device,
            r.test == self.test,
            r.output == self.output,
            r.test_switch == self.test_switch,
    {
        let mut c = self.clone();
        c.connection.server_addr = "0.0.0.0".to_owned();
        c.connection.server_port = self.connection.server_port - 1;
        c
    }
}

/// The depth of a completion queue for a queue of `depth` requests: one
/// entry more, where that fits the device's 32-bit count.
pub fn completion_queue_depth(depth: usize) -> (r: Option<u32>)
    ensures
        r is Some <==> depth + 1 <= u32::MAX,
        r matches Some(d) ==> d == depth + 1,
{
    if depth < u32::MAX as usize {
        Some((depth + 1) as u32)
    } else {
        None
    }
}

} // verus!
