use tartiflette::config::{
    AppConfig, Config, ConfigError, ExeConfig, FeedBackMethod, IOConfig, DEFAULT_MAX_FILE_SIZE,
    MAX_JOBS,
};

fn some(text: &str) -> Option<String> {
    Some(text.to_string())
}

fn app_config(jobs: usize) -> AppConfig {
    AppConfig {
        verbose: 0,
        jobs,
        minimize: false,
        feedback_method: FeedBackMethod::SOFT,
        persistent: false,
        netdriver: false,
        crash_exit: false,
        mutation_per_run: 5,
        mutation_num: None,
        socket_fuzzer: false,
        timeout: 10,
        max_input_size: 0,
        random_ascii: false,
    }
}

#[test]
fn the_number_of_jobs_is_checked() {
    assert_eq!(MAX_JOBS, 1024);
    assert_eq!(app_config(1).validate(), Ok(()));
    assert_eq!(app_config(4).validate(), Ok(()));
    assert_eq!(app_config(1023).validate(), Ok(()));
    assert_eq!(
        app_config(0).validate(),
        Err("Too few fuzzing threads specified".to_string())
    );
    assert_eq!(
        app_config(1024).validate(),
        Err("Too many fuzzing threads specified 1024 >= 1024".to_string())
    );
    assert_eq!(
        app_config(70000).validate(),
        Err("Too many fuzzing threads specified 70000 >= 1024".to_string())
    );
}

#[test]
fn the_socket_fuzzer_has_no_timeout() {
    let mut config = app_config(2);
    assert_eq!(config.validate(), Ok(()));
    assert_eq!(config.timeout, 10);
    config.socket_fuzzer = true;
    assert_eq!(config.validate(), Ok(()));
    assert_eq!(config.timeout, 0);
    // the timeout is dropped even where the jobs are refused
    let mut config = app_config(0);
    config.socket_fuzzer = true;
    assert!(config.validate().is_err());
    assert_eq!(config.timeout, 0);
}

#[test]
fn the_whole_configuration_is_checked() {
    let exe = || ExeConfig {
        cmdline: Some(vec!["target".to_string()]),
        mutation_cmdline: None,
        post_mutation_cmdline: None,
        fb_mutation_cmdline: None,
    };
    let io = || IOConfig::from_args(some("in"), None, None, None, None).unwrap();
    assert_eq!(exe().validate(), Ok(()));
    let mut config = Config { io_config: io(), exe_config: exe(), app_config: app_config(3) };
    assert_eq!(config.validate(), Ok(()));
    let mut config = Config { io_config: io(), exe_config: exe(), app_config: app_config(0) };
    assert_eq!(config.validate(), Err("Too few fuzzing threads specified".to_string()));
    let mut config = Config { io_config: io(), exe_config: exe(), app_config: app_config(2000) };
    config.app_config.socket_fuzzer = true;
    assert_eq!(
        config.validate(),
        Err("Too many fuzzing threads specified 2000 >= 1024".to_string())
    );
    assert_eq!(config.app_config.timeout, 0);
}

#[test]
fn directories_default_to_the_input_directory() {
    let config = IOConfig::from_args(some("in"), None, None, None, None).unwrap();
    assert_eq!(config.input_dir, "in");
    assert_eq!(config.output_dir, "in");
    assert_eq!(config.crash_dir, "in");
    assert_eq!(config.cov_dir, "in");
    assert_eq!(config.max_file_size, 128 * 1024 * 1024);
    assert_eq!(config.max_file_size, DEFAULT_MAX_FILE_SIZE);
    assert_eq!(config.input_file_count, 0);

    let config =
        IOConfig::from_args(some("in"), some("out"), some("crash"), some("cov"), some("4096"))
            .unwrap();
    assert_eq!(config.input_dir, "in");
    assert_eq!(config.output_dir, "out");
    assert_eq!(config.crash_dir, "crash");
    assert_eq!(config.cov_dir, "cov");
    assert_eq!(config.max_file_size, 4096);
}

#[test]
fn the_input_directory_is_required() {
    match IOConfig::from_args(None, some("out"), None, None, some("x")) {
        Err(ConfigError::Required(field)) => assert_eq!(field, "input"),
        other => panic!("{:?}", other),
    }
    match IOConfig::from_args(some("in"), None, None, None, some("12k")) {
        Err(ConfigError::Conversion(field)) => assert_eq!(field, "max_file_size"),
        other => panic!("{:?}", other),
    }
}

fn app_args(
    jobs: Option<String>,
    per_run: Option<String>,
    num: Option<String>,
    timeout: Option<String>,
) -> Result<AppConfig, ConfigError> {
    AppConfig::from_args(2, jobs, per_run, num, timeout, true, false, true, false, true, false)
}

#[test]
fn application_options() {
    let config = app_args(some("4"), some("6"), None, some("10")).unwrap();
    assert_eq!(config.verbose, 2);
    assert_eq!(config.jobs, 4);
    assert_eq!(config.mutation_per_run, 6);
    assert_eq!(config.mutation_num, None);
    assert_eq!(config.timeout, 10);
    assert_eq!(config.feedback_method, FeedBackMethod::SOFT);
    assert_eq!(config.max_input_size, 0);
    assert!(config.minimize && !config.persistent && config.netdriver);
    assert!(!config.crash_exit && config.socket_fuzzer && !config.random_ascii);
    let config = app_args(some("1"), some("0"), some("1000"), some("0")).unwrap();
    assert_eq!(config.mutation_num, Some(1000));
}

#[test]
fn application_options_must_be_numbers() {
    let field = |r: Result<AppConfig, ConfigError>| match r {
        Err(ConfigError::Required(f)) => format!("required {}", f),
        Err(ConfigError::Conversion(f)) => format!("conversion {}", f),
        Ok(_) => "ok".to_string(),
    };
    assert_eq!(field(app_args(None, some("6"), None, some("10"))), "required jobs");
    assert_eq!(field(app_args(some("four"), some("6"), None, some("10"))), "conversion jobs");
    assert_eq!(field(app_args(some("4"), None, None, some("10"))), "required mutation_per_run");
    assert_eq!(
        field(app_args(some("4"), some("-1"), None, some("10"))),
        "conversion mutation_per_run"
    );
    assert_eq!(
        field(app_args(some("4"), some("6"), some(""), some("10"))),
        "conversion mutation_num"
    );
    assert_eq!(field(app_args(some("4"), some("6"), None, None)), "required timeout");
    assert_eq!(field(app_args(some("4"), some("6"), None, some("1.5"))), "conversion timeout");
}
