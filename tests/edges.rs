use kamu_core::engine::{engine_image, ingest_engine_image};
use kamu_core::docker_client::{parse_host_port, wait_step, DockerClient, DockerRunArgs, ExecArgs};
use kamu_core::error::{ContractError, DomainError, EngineError, ProcessError, ResourceKind, TimeoutError};
use kamu_core::ingest::IngestStage;
use kamu_core::sql_shell::{DropContainer, SqlShellImpl};
use kamu_core::text::{i64_to_decimal, u64_to_decimal};

fn strs(v: &[String]) -> Vec<&str> {
    v.iter().map(|s| s.as_str()).collect()
}

#[test]
fn run_command_lists_every_option_in_order() {
    let docker = DockerClient::new();
    let args = DockerRunArgs {
        args: vec!["--verbose".to_owned()],
        container_name: Some("c1".to_owned()),
        detached: true,
        entry_point: Some("sh".to_owned()),
        environment_vars: vec![("A".to_owned(), "1".to_owned())],
        expose_all_ports: true,
        expose_ports: vec![8080],
        expose_port_map: vec![(1, 2)],
        expose_port_map_range: vec![((10, 20), (30, 40))],
        hostname: Some("h".to_owned()),
        image: "img:1".to_owned(),
        interactive: true,
        network: Some("net".to_owned()),
        remove: true,
        tty: true,
        user: Some("root".to_owned()),
        volume_map: vec![("/host".to_owned(), "/cont".to_owned())],
        work_dir: Some("/w".to_owned()),
    };
    assert_eq!(docker.program(), "docker");
    assert_eq!(
        strs(&docker.run_cmd(&args)),
        vec![
            "run", "--rm", "-t", "-i", "-d", "--name=c1", "--hostname=h", "--network=net", "-P", "-p",
            "8080", "-p", "1:2", "-p", "10-20:30-40", "-v", "/host:/cont", "--user=root",
            "--workdir=/w", "-e", "A=1", "--entrypoint=sh", "img:1", "--verbose",
        ]
    );
    let plain = DockerRunArgs { image: "x".to_owned(), ..DockerRunArgs::default() };
    assert_eq!(strs(&docker.run_cmd(&plain)), vec!["run", "--rm", "x"]);
}

#[test]
fn shell_commands_wrap_in_bash() {
    let docker = DockerClient::new();
    let plain = DockerRunArgs { image: "x".to_owned(), remove: false, ..DockerRunArgs::default() };
    let cmd = vec!["echo".to_owned(), "hi".to_owned()];
    assert_eq!(
        strs(&docker.run_shell_cmd(plain, &cmd)),
        vec!["run", "--entrypoint=bash", "x", "-c", "echo hi"]
    );
    let exec = ExecArgs { tty: true, interactive: false, work_dir: Some("/w".to_owned()) };
    assert_eq!(
        strs(&docker.exec_shell_cmd(&exec, "c", &cmd)),
        vec!["exec", "-t", "--workdir=/w", "c", "bash", "-c", "echo hi"]
    );
    assert_eq!(strs(&docker.exec_cmd(&ExecArgs::default(), "c", &cmd)), vec!["exec", "c", "echo", "hi"]);
    assert_eq!(strs(&docker.kill_cmd("c")), vec!["kill", "c"]);
    assert_eq!(strs(&docker.create_network_cmd("n")), vec!["network", "create", "n"]);
    assert_eq!(strs(&docker.remove_network_cmd("n")), vec!["network", "rm", "n"]);
    assert_eq!(strs(&docker.inspect_cmd("c")), vec!["inspect", "c"]);
    assert_eq!(
        strs(&docker.host_port_query_cmd("c", 10000)),
        vec!["inspect", "--format={{ (index (index .NetworkSettings.Ports \"10000/tcp\") 0).HostPort }}", "c"]
    );
}

#[test]
fn host_port_text_is_parsed() {
    assert_eq!(parse_host_port("32768\n"), Some(32768));
    assert_eq!(parse_host_port("\r\n+80\r\n"), Some(80));
    assert_eq!(parse_host_port("65535"), Some(65535));
    assert_eq!(parse_host_port("65536"), None);
    assert_eq!(parse_host_port("700000"), None);
    assert_eq!(parse_host_port(""), None);
    assert_eq!(parse_host_port("\n"), None);
    assert_eq!(parse_host_port("8a"), None);
    assert_eq!(parse_host_port(" 80"), None);
    assert_eq!(parse_host_port("+"), None);
}

#[test]
fn wait_steps() {
    assert!(matches!(wait_step(true, 100, 10), Ok(true)));
    assert!(matches!(wait_step(false, 5, 10), Ok(false)));
    match wait_step(false, 10, 10) {
        Err(TimeoutError { duration_ms }) => assert_eq!(duration_ms, 10),
        _ => panic!("expected a timeout"),
    }
    assert_eq!(TimeoutError::new(30).duration_ms, 30);
}

#[test]
fn shell_init_script_has_a_view_per_dataset() {
    let s = SqlShellImpl::prepare_shell_init(&vec!["a.b".to_owned(), "c".to_owned()]);
    assert_eq!(
        s,
        "CREATE TEMP VIEW `a.b` AS (SELECT * FROM parquet.`kamu_data/a.b`);\nCREATE TEMP VIEW `c` AS (SELECT * FROM parquet.`kamu_data/c`);\n"
    );
    assert_eq!(SqlShellImpl::prepare_shell_init(&vec![]), "");
    let args = SqlShellImpl::container_args(Some("/d".to_owned()), "/cwd".to_owned(), "/tmp/init.sql".to_owned());
    assert_eq!(args.image, "bitnami/spark:3.0.0");
    assert_eq!(args.container_name.as_deref(), Some("kamu-spark"));
    assert_eq!(args.expose_ports, vec![8080, 10000]);
    assert_eq!(args.volume_map.len(), 3);
    assert_eq!(args.volume_map[2].1, "/opt/bitnami/spark/shell_init.sql");
    let bare = SqlShellImpl::container_args(None, "/cwd".to_owned(), "/tmp/init.sql".to_owned());
    assert!(bare.volume_map.is_empty());
    assert_eq!(DropContainer::new(DockerClient::new(), "kamu-spark").name, "kamu-spark");
}

#[test]
fn error_messages() {
    let e = ProcessError::new(Some(1), Some("/tmp/o".to_owned()), None);
    assert_eq!(e.message(), "Process exited with code 1, process stdout: /tmp/o");
    let e = ProcessError::new(Some(-9), None, Some("/tmp/e".to_owned()));
    assert_eq!(e.message(), "Process exited with code -9, process stderr: /tmp/e");
    assert_eq!(ProcessError::new(None, None, None).message(), "Process terminated by a signal");
    let c = ContractError::new("bad response", Some("/o".to_owned()), Some("/e".to_owned()));
    assert_eq!(c.message(), "bad response, process stdout: /o, process stderr: /e");
    match EngineError::not_found("spark") {
        EngineError::NotFound { id } => assert_eq!(id, "spark"),
        _ => panic!(),
    }
    match EngineError::internal("boom") {
        EngineError::InternalError { message } => assert_eq!(message, "boom"),
        _ => panic!(),
    }
    match DomainError::does_not_exist(ResourceKind::Dataset, "x".to_owned()) {
        DomainError::DoesNotExist { kind, id } => {
            assert_eq!(kind, ResourceKind::Dataset);
            assert_eq!(id, "x");
        }
        _ => panic!(),
    }
}

#[test]
fn stages_and_numbers() {
    assert_eq!(IngestStage::CheckCache.step(), 0);
    assert_eq!(IngestStage::Commit.step(), 6);
    assert_eq!(IngestStage::Fetch.description(), "Downloading data");
    assert_eq!(IngestStage::Merge.description(), "Merging data");
    assert!(IngestStage::Fetch.shows_progress_bar());
    assert!(!IngestStage::Read.shows_progress_bar());
    assert_eq!(u64_to_decimal(0), "0");
    assert_eq!(u64_to_decimal(1234567890123), "1234567890123");
    assert_eq!(i64_to_decimal(i64::MIN), "-9223372036854775808");
    assert_eq!(i64_to_decimal(-5), "-5");
}

#[test]
fn domain_engine_and_timeout_messages() {
    assert_eq!(
        DomainError::does_not_exist(ResourceKind::Dataset, "foo".to_owned()).message(),
        "Dataset foo does not exist"
    );
    assert_eq!(
        DomainError::already_exists(ResourceKind::Dataset, "foo".to_owned()).message(),
        "Dataset foo already exists"
    );
    assert_eq!(
        DomainError::missing_reference(ResourceKind::Dataset, "d".to_owned(), ResourceKind::Dataset, "m".to_owned())
            .message(),
        "Dataset d references non existent Dataset m"
    );
    assert_eq!(
        DomainError::dangling_reference(
            vec![(ResourceKind::Dataset, "d.out".to_owned()), (ResourceKind::Dataset, "e".to_owned())],
            ResourceKind::Dataset,
            "a".to_owned()
        )
        .message(),
        "Dataset a is referenced by [(Dataset, \"d.out\"), (Dataset, \"e\")]"
    );
    assert_eq!(EngineError::not_found("spark").message(), "Engine spark was not found");
    assert_eq!(EngineError::internal("boom").message(), "Internal error: boom");
    assert_eq!(
        EngineError::ProcessError(ProcessError::new(Some(2), None, None)).message(),
        "Process error: Process exited with code 2"
    );
    for (ms, text) in [(0u64, "0ns"), (250, "250ms"), (1000, "1s"), (1500, "1.5s"), (10000, "10s"), (1050, "1.05s"), (1001, "1.001s")] {
        assert_eq!(TimeoutError::new(ms).message(), format!("Timed out after {}", text));
        assert_eq!(text, format!("{:?}", std::time::Duration::from_millis(ms)));
    }
}

#[test]
fn engines_are_found_by_name() {
    assert_eq!(engine_image("sparkSQL").unwrap(), "kamudata/engine-spark:0.8.0");
    assert_eq!(engine_image("flink").unwrap(), "kamudata/engine-flink:0.6.0");
    match engine_image("nope") {
        Err(EngineError::NotFound { id }) => assert_eq!(id, "nope"),
        _ => panic!("expected not found"),
    }
    assert_eq!(ingest_engine_image(), "kamudata/engine-spark:0.8.0");
}
