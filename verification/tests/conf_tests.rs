//! The defaulting rules of the configuration surface.

use kinesin::conf::default_bus_bufsize;
use kinesin::conf::default_cfg_env;
use kinesin::conf::default_cfg_ver;
use kinesin::conf::default_must_be_up;
use kinesin::conf::default_read_bufsize;
use kinesin::conf::default_src_config;
use kinesin::conf::default_src_watch;
use kinesin::conf::Cli;
use kinesin::conf::Config;
use kinesin::conf::ConsumerConf;
use kinesin::conf::ConsumerKind;
use kinesin::conf::ProducerConf;
use kinesin::conf::ServiceConf;

#[test]
fn stream_defaults_watch_with_two_kilobyte_reads_and_no_staging() {
    let c = default_src_config();
    assert!(c.watch);
    assert_eq!(c.read_bufsize, 2048);
    assert_eq!(c.bus_bufsize, 0);
}

#[test]
fn scalar_defaults() {
    assert_eq!(default_cfg_ver(), 1);
    assert!(default_must_be_up());
    assert!(default_src_watch());
    assert_eq!(default_read_bufsize(), 2048);
    assert_eq!(default_bus_bufsize(), 0);
    assert!(default_cfg_env().is_empty());
}

#[test]
fn configuration_values_carry_their_fields() {
    let cli = Cli { config: "kinesin.toml".to_string() };
    assert_eq!(cli.config, "kinesin.toml");
    let service = ServiceConf {
        name: "echo".to_string(),
        stdout: default_src_config(),
        stderr: default_src_config(),
        argv: vec!["/bin/echo".to_string(), "hello".to_string()],
        env: default_cfg_env(),
        must_be_up: default_must_be_up(),
    };
    let consumer = ConsumerConf {
        consumes: ProducerConf::StdOut("echo".to_string()),
        kind: ConsumerKind::Log("/tmp/out".to_string()),
    };
    let config = Config { version: default_cfg_ver(), service: vec![service], consumer: vec![consumer] };
    assert_eq!(config.service.len(), 1);
    assert_eq!(config.service[0].argv[0], "/bin/echo");
    assert!(config.service[0].must_be_up);
    assert!(matches!(&config.consumer[0].consumes, ProducerConf::StdOut(n) if n == "echo"));
    assert!(matches!(&config.consumer[0].kind, ConsumerKind::Log(p) if p == "/tmp/out"));
}
