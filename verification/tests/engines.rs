use sqllogictest_bin::engines::{
    connect, connect_to, fill_template, postgres_config, ConnectTarget, DBConfig, EngineConfig,
    EngineType,
};
use sqllogictest_bin::setup::{
    pair_addrs, prepare, run_mode, select_engine, Color, RunMode, SetupError,
};

fn config(addrs: Vec<(String, u16)>) -> DBConfig {
    DBConfig {
        addrs,
        db: "dev".to_string(),
        user: "root".to_string(),
        pass: "secret".to_string(),
        options: None,
    }
}

fn local() -> DBConfig {
    config(vec![("localhost".to_string(), 5432)])
}

#[test]
fn template_items_are_replaced() {
    let template = "java -cp a.jar com.risingwave.sqllogictest.App \
                    jdbc:postgresql://{host}:{port}/{db} {user}";
    assert_eq!(
        fill_template(template, &local(), "localhost", 5432),
        "java -cp a.jar com.risingwave.sqllogictest.App jdbc:postgresql://localhost:5432/dev root"
    );
    assert_eq!(
        fill_template("{pass}{pass} {x} {db", &local(), "h", 1),
        "secretsecret {x} {db"
    );
}

#[test]
fn values_may_complete_later_items() {
    let mut config = local();
    config.db = "{host}".to_string();
    config.pass = "{db}".to_string();
    assert_eq!(fill_template("{db} {pass}", &config, "h", 1), "h {db}");
}

#[test]
fn postgres_settings_come_from_the_configuration() {
    let settings = postgres_config(&local(), "localhost", 5432);
    assert_eq!(settings.get_user(), Some("root"));
    assert_eq!(settings.get_password(), Some(&b"secret"[..]));
    assert_eq!(settings.get_dbname(), Some("dev"));
    assert_eq!(settings.get_ports(), &[5432]);
    assert_eq!(settings.get_options(), None);
    assert_eq!(
        settings.get_hosts(),
        &[tokio_postgres::config::Host::Tcp("localhost".to_string())]
    );
}

#[test]
fn postgres_settings_take_the_options() {
    let mut config = local();
    config.options = Some("-c search_path=x".to_string());
    let settings = postgres_config(&config, "localhost", 5432);
    assert_eq!(settings.get_options(), Some("-c search_path=x"));
    match connect(&EngineConfig::PostgresExtended, &config) {
        ConnectTarget::PostgresExtended(settings) => {
            assert_eq!(settings.get_options(), Some("-c search_path=x"))
        }
        _ => panic!(),
    }
}

#[test]
fn mysql_urls_are_encoded() {
    let mut config = local();
    config.user = "a:b".to_string();
    config.pass = "p@/é%".to_string();
    config.db = "d-1_x.~y".to_string();
    match connect_to(&EngineConfig::MySql, &config, "h", 3306) {
        ConnectTarget::MySql(params) => assert_eq!(
            params.url(),
            "mysql://a%3Ab:p%40%2F%C3%A9%25@h:3306/d-1_x.~y"
        ),
        _ => panic!(),
    }
}

#[test]
fn engines_have_their_targets() {
    let config = local();
    match connect_to(&EngineConfig::MySql, &config, "h", 3306) {
        ConnectTarget::MySql(params) => {
            assert_eq!(params.host, "h");
            assert_eq!(params.port, 3306);
            assert_eq!(params.db, "dev");
            assert_eq!(params.user, "root");
            assert_eq!(params.pass, "secret");
        }
        _ => panic!(),
    }
    match connect_to(&EngineConfig::Postgres, &config, "h", 1) {
        ConnectTarget::Postgres(settings) => assert_eq!(settings.get_ports(), &[1]),
        _ => panic!(),
    }
    match connect_to(&EngineConfig::PostgresExtended, &config, "h", 2) {
        ConnectTarget::PostgresExtended(settings) => assert_eq!(settings.get_ports(), &[2]),
        _ => panic!(),
    }
    let external = EngineConfig::External("x {host}:{port}".to_string());
    match connect_to(&external, &config, "h", 3) {
        ConnectTarget::External(command) => assert_eq!(command, "x h:3"),
        _ => panic!(),
    }
}

#[test]
fn connections_go_to_one_of_the_addresses() {
    let config = config(vec![
        ("a".to_string(), 1),
        ("b".to_string(), 2),
        ("c".to_string(), 3),
    ]);
    let engine = EngineConfig::External("{host}:{port}".to_string());
    let mut seen = vec![];
    for _ in 0..200 {
        let (host, port) = config.random_addr();
        assert!(config.addrs.contains(&(host.to_string(), port)));
        match connect(&engine, &config) {
            ConnectTarget::External(command) => {
                assert!(["a:1", "b:2", "c:3"].contains(&command.as_str()));
                if !seen.contains(&command) {
                    seen.push(command);
                }
            }
            _ => panic!(),
        }
    }
    assert_eq!(seen.len(), 3);
}

#[test]
fn a_database_of_its_own_keeps_the_rest() {
    let mut config = local();
    config.options = Some("-c x=1".to_string());
    let other = config.for_database("t_1");
    assert_eq!(other.db, "t_1");
    assert_eq!(other.addrs, config.addrs);
    assert_eq!(other.user, config.user);
    assert_eq!(other.pass, config.pass);
    assert_eq!(other.options, config.options);
}

#[test]
fn hosts_and_ports_are_paired() {
    let hosts = vec!["a".to_string(), "b".to_string()];
    match pair_addrs(&hosts, &vec![1, 2]) {
        Ok(addrs) => assert_eq!(addrs, vec![("a".to_string(), 1), ("b".to_string(), 2)]),
        Err(_) => panic!(),
    }
    match pair_addrs(&hosts, &vec![1]) {
        Err(error) => assert_eq!(
            error.message(),
            "2 hosts are provided while 1 ports are provided"
        ),
        Ok(_) => panic!(),
    }
}

#[test]
fn engines_are_selected() {
    assert!(matches!(
        select_engine(EngineType::Mysql, None),
        Ok(EngineConfig::MySql)
    ));
    assert!(matches!(
        select_engine(EngineType::Postgres, Some("x".to_string())),
        Ok(EngineConfig::Postgres)
    ));
    assert!(matches!(
        select_engine(EngineType::PostgresExtended, None),
        Ok(EngineConfig::PostgresExtended)
    ));
    match select_engine(EngineType::External, Some("x".to_string())) {
        Ok(EngineConfig::External(template)) => assert_eq!(template, "x"),
        _ => panic!(),
    }
    match select_engine(EngineType::External, None) {
        Err(error) => assert_eq!(
            error.message(),
            "`--external-engine-command-template` is required for `--engine=external`"
        ),
        Ok(_) => panic!(),
    }
}

#[test]
fn unpaired_addresses_are_reported_first() {
    let hosts = vec!["a".to_string()];
    assert!(matches!(
        prepare(&hosts, &vec![], EngineType::External, None),
        Err(SetupError::HostPortMismatch { hosts: 1, ports: 0 })
    ));
    assert!(matches!(
        prepare(&hosts, &vec![1], EngineType::External, None),
        Err(SetupError::MissingCommandTemplate)
    ));
    match prepare(&hosts, &vec![1], EngineType::Postgres, None) {
        Ok((addrs, EngineConfig::Postgres)) => assert_eq!(addrs, vec![("a".to_string(), 1)]),
        _ => panic!(),
    }
}

#[test]
fn colours_are_forced_or_detected() {
    assert_eq!(Color::default(), Color::Auto);
    assert_eq!(Color::Auto.forced(), None);
    assert_eq!(Color::Always.forced(), Some(true));
    assert_eq!(Color::Never.forced(), Some(false));
}

#[test]
fn modes_of_running() {
    match run_mode(0, true, true, Some(1)) {
        Err(error) => assert_eq!(error.message(), "no test case found"),
        Ok(_) => panic!(),
    }
    assert!(matches!(
        run_mode(1, true, false, Some(4)),
        Ok(RunMode::Update { format: false })
    ));
    assert!(matches!(
        run_mode(1, false, true, None),
        Ok(RunMode::Update { format: true })
    ));
    assert!(matches!(
        run_mode(1, false, false, Some(4)),
        Ok(RunMode::Parallel { jobs: 4 })
    ));
    assert!(matches!(
        run_mode(1, false, false, None),
        Ok(RunMode::Serial)
    ));
}

#[test]
fn braces_that_open_no_item_stay() {
    assert_eq!(
        fill_template("awk '{print $1}' {db} {{user}} {", &local(), "h", 1),
        "awk '{print $1}' dev {root} {"
    );
}
