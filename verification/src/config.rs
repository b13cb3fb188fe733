//! The fuzzer's configuration and its rules.

use vstd::prelude::*;
use crate::text::{decimal, parse_usize, parsed_usize, push_decimal};

verus! {

/// Largest number of jobs, exclusive.
pub const MAX_JOBS: usize = 1024;

/// The largest input file that is read where no size is given: 128 MiB.
pub const DEFAULT_MAX_FILE_SIZE: usize = 0x800_0000;

/// The mark of a binary built for the persistent mode: byte 1, an underscore,
/// `LIBHFUZZ_PERSISTENT_BINARY_SIGNATURE`, an underscore, and the bytes 2
/// and 255.
pub const PERSISTENT_SIG: [u8; 41] = [
    0x01, 0x5f, 0x4c, 0x49, 0x42, 0x48, 0x46, 0x55, 0x5a, 0x5a, 0x5f, 0x50, 0x45, 0x52, 0x53, 0x49,
    0x53, 0x54, 0x45, 0x4e, 0x54, 0x5f, 0x42, 0x49, 0x4e, 0x41, 0x52, 0x59, 0x5f, 0x53, 0x49, 0x47,
    0x4e, 0x41, 0x54, 0x55, 0x52, 0x45, 0x5f, 0x02, 0xff,
];

/// The mark of a binary built with the net driver: byte 1, an underscore,
/// `LIBHFUZZ_NETDRIVER_BINARY_SIGNATURE`, an underscore, and the bytes 2 and
/// 255.
pub const NETDRIVER_SIG: [u8; 40] = [
    0x01, 0x5f, 0x4c, 0x49, 0x42, 0x48, 0x46, 0x55, 0x5a, 0x5a, 0x5f, 0x4e, 0x45, 0x54, 0x44, 0x52,
    0x49, 0x56, 0x45, 0x52, 0x5f, 0x42, 0x49, 0x4e, 0x41, 0x52, 0x59, 0x5f, 0x53, 0x49, 0x47, 0x4e,
    0x41, 0x54, 0x55, 0x52, 0x45, 0x5f, 0x02, 0xff,
];

/// How the feedback from a run is gathered.
#[derive(Clone, Copy, Debug, PartialEq, Eq, Structural)]
pub enum FeedBackMethod {
    /// Not at all.
    NONE,
    /// From software breakpoints.
    SOFT,
}

/// What is wrong with the command line.
#[derive(Debug)]
pub enum ConfigError {
    /// This option is needed and was not given.
    Required(String),
    /// The value of this option is no number.
    Conversion(String),
}

/// Where inputs come from and results go.
#[derive(Debug)]
pub struct IOConfig {
    /// Directory of the seed inputs.
    pub input_dir: String,
    /// Directory for inputs that gave new coverage.
    pub output_dir: String,
    /// Directory for crashes.
    pub crash_dir: String,
    /// Directory for coverage.
    pub cov_dir: String,
    /// Largest input file that is read.
    pub max_file_size: usize,
    /// Number of input files.
    pub input_file_count: usize,
}

impl IOConfig {
    /// The directory that an option names, or `input` where it was not
    /// given.
    pub open spec fn dir_given(option: Option<String>, input: String) -> Seq<char> {
        match option {
            Some(dir) => dir@,
            None => input@,
        }
    }

    /// The largest file size that the option gives: 128 MiB where it was not
    /// given, nothing where its value is no number.
    pub open spec fn size_given(option: Option<String>) -> Option<usize> {
        match option {
            Some(text) => parsed_usize(text@),
            None => Some(DEFAULT_MAX_FILE_SIZE),
        }
    }

    /// The configuration that the options give: the input directory is
    /// needed; the other directories are the input directory where they are
    /// not given; the largest file size is 128 MiB where it is not given,
    /// and must be a number where it is.
    pub fn from_args(
        input: Option<String>,
        output: Option<String>,
        crashdir: Option<String>,
        covdir: Option<String>,
        max_file_size: Option<String>,
    ) -> (r: Result<IOConfig, ConfigError>)
        ensures
            match input {
                None => (r matches Err(ConfigError::Required(field)) && field@ == "input"@),
                Some(dir) => match Self::size_given(max_file_size) {
                    None => (r matches Err(ConfigError::Conversion(field)) && field@
                        == "max_file_size"@),
                    Some(size) => (r matches Ok(config) && {
                        &&& config.input_dir@ == dir@
                        &&& config.output_dir@ == Self::dir_given(output, dir)
                        &&& config.crash_dir@ == Self::dir_given(crashdir, dir)
                        &&& config.cov_dir@ == Self::dir_given(covdir, dir)
                        &&& config.max_file_size == size
                        &&& config.input_file_count == 0
                    }),
                },
            },
    {
        let input_dir = match input {
            Some(dir) => dir,
            None => {
                return Err(ConfigError::Required(String::from_str("input")));
            },
        };
        let output_dir = match output {
            Some(dir) => dir,
            None => input_dir.clone(),
        };
        let crash_dir = match crashdir {
            Some(dir) => dir,
            None => input_dir.clone(),
        };
        let cov_dir = match covdir {
            Some(dir) => dir,
            None => input_dir.clone(),
        };
        let max_file_size = match max_file_size {
            None => DEFAULT_MAX_FILE_SIZE,
            Some(text) => match parse_usize(text.as_str()) {
                Some(size) => size,
                None => {
                    return Err(ConfigError::Conversion(String::from_str("max_file_size")));
                },
            },
        };
        Ok(IOConfig { input_dir, input_file_count: 0, output_dir, crash_dir, cov_dir, max_file_size })
    }
}

/// What is run.
#[derive(Debug)]
pub struct ExeConfig {
    /// The target's command line.
    pub cmdline: Option<Vec<String>>,
    /// A command that mutates inputs in place of the built-in mutator.
    pub mutation_cmdline: Option<String>,
    /// A command that is run on each mutated input.
    pub post_mutation_cmdline: Option<String>,
    /// A command that mutates inputs after the built-in choice of an input.
    pub fb_mutation_cmdline: Option<String>,
}

impl ExeConfig {
    /// Every such configuration is valid.
    pub fn validate(&mut self) -> (r: Result<(), String>)
        ensures
            r is Ok,
            *final(self) == *old(self),
    {
        Ok(())
    }
}

/// How the fuzzer works.
#[derive(Debug)]
pub struct AppConfig {
    pub verbose: u64,
    /// Number of workers.
    pub jobs: usize,
    pub minimize: bool,
    pub feedback_method: FeedBackMethod,
    pub persistent: bool,
    pub netdriver: bool,
    /// Stop at the first crash.
    pub crash_exit: bool,
    pub mutation_per_run: usize,
    /// Number of mutations after which the fuzzer stops, if any.
    pub mutation_num: Option<usize>,
    pub socket_fuzzer: bool,
    /// Seconds that a run may take.
    pub timeout: usize,
    /// Largest input, in bytes.
    pub max_input_size: usize,
    pub random_ascii: bool,
}

/// What `validate` says of too many jobs.
pub open spec fn too_many_jobs(jobs: int) -> Seq<char> {
    "Too many fuzzing threads specified "@ + decimal(jobs) + " >= "@ + decimal(1024)
}

impl AppConfig {
    /// The configuration that the options give. `jobs`, `mutation_per_run`
    /// and `timeout` are needed and must be numbers, as must `mutation_num`
    /// where it is given. The first of them that is not, in this order with
    /// `mutation_num` before `timeout`, is the one that the error names.
    pub fn from_args(
        verbose: u64,
        jobs: Option<String>,
        mutation_per_run: Option<String>,
        mutation_num: Option<String>,
        timeout: Option<String>,
        minimize: bool,
        persistent: bool,
        netdriver: bool,
        crash_exit: bool,
        socket_fuzzer: bool,
        random_ascii: bool,
    ) -> (r: Result<AppConfig, ConfigError>)
        ensures
            r matches Ok(config) ==> {
                &&& (jobs matches Some(text) && parsed_usize(text@) == Some(config.jobs))
                &&& (mutation_per_run matches Some(text) && parsed_usize(text@) == Some(
                    config.mutation_per_run,
                ))
                &&& (timeout matches Some(text) && parsed_usize(text@) == Some(config.timeout))
                &&& match mutation_num {
                    Some(text) => parsed_usize(text@) is Some && config.mutation_num
                        == parsed_usize(text@),
                    None => config.mutation_num is None,
                }
                &&& config.verbose == verbose
                &&& config.minimize == minimize
                &&& config.feedback_method == FeedBackMethod::SOFT
                &&& config.persistent == persistent
                &&& config.netdriver == netdriver
                &&& config.crash_exit == crash_exit
                &&& config.socket_fuzzer == socket_fuzzer
                &&& config.max_input_size == 0
                &&& config.random_ascii == random_ascii
            },
            r is Ok <==> Self::given(jobs) is Some && Self::given(mutation_per_run) is Some && (
            mutation_num is Some ==> Self::given(mutation_num) is Some) && Self::given(timeout)
                is Some,
            r matches Err(e) ==> (if Self::given(jobs) is None {
                Self::refused("jobs"@, jobs, e)
            } else if Self::given(mutation_per_run) is None {
                Self::refused("mutation_per_run"@, mutation_per_run, e)
            } else if mutation_num is Some && Self::given(mutation_num) is None {
                Self::refused("mutation_num"@, mutation_num, e)
            } else {
                Self::refused("timeout"@, timeout, e)
            }),
    {
        let jobs = match Self::number("jobs", &jobs) {
            Ok(v) => v,
            Err(e) => {
                return Err(e);
            },
        };
        let mutation_per_run = match Self::number("mutation_per_run", &mutation_per_run) {
            Ok(v) => v,
            Err(e) => {
                return Err(e);
            },
        };
        let mutation_num = match mutation_num {
            None => None,
            Some(text) => match parse_usize(text.as_str()) {
                Some(v) => Some(v),
                None => {
                    return Err(ConfigError::Conversion(String::from_str("mutation_num")));
                },
            },
        };
        let timeout = match Self::number("timeout", &timeout) {
            Ok(v) => v,
            Err(e) => {
                return Err(e);
            },
        };
        Ok(
            AppConfig {
                verbose,
                jobs,
                minimize,
                feedback_method: FeedBackMethod::SOFT,
                persistent,
                netdriver,
                crash_exit,
                mutation_per_run,
                mutation_num,
                socket_fuzzer,
                timeout,
                max_input_size: 0,
                random_ascii,
            },
        )
    }

    /// The number that an option gives, if it was given and is a number.
    pub open spec fn given(value: Option<String>) -> Option<usize> {
        match value {
            Some(text) => parsed_usize(text@),
            None => None,
        }
    }

    /// `e` says what is wrong with the value of the needed option `field`:
    /// the option was not given, or its value is no number.
    pub open spec fn refused(field: Seq<char>, value: Option<String>, e: ConfigError) -> bool {
        match (value, e) {
            (None, ConfigError::Required(f)) => f@ == field,
            (Some(text), ConfigError::Conversion(f)) => parsed_usize(text@) is None && f@ == field,
            _ => false,
        }
    }

    /// The number that the needed option `field` was given.
    fn number(field: &str, value: &Option<String>) -> (r: Result<usize, ConfigError>)
        ensures
            match r {
                Ok(v) => (value matches Some(text) && parsed_usize(text@) == Some(v)),
                Err(e) => Self::refused(field@, *value, e),
            },
    {
        match value {
            None => Err(ConfigError::Required(String::from_str(field))),
            Some(text) => match parse_usize(text.as_str()) {
                Some(v) => Ok(v),
                None => Err(ConfigError::Conversion(String::from_str(field))),
            },
        }
    }

    /// Checks the configuration and makes it consistent: with the socket
    /// fuzzer there is no timeout; there must be at least one job and fewer
    /// than `MAX_JOBS`.
    pub fn validate(&mut self) -> (r: Result<(), String>)
        ensures
            *final(self) == (AppConfig {
                timeout: if old(self).socket_fuzzer {
                    0
                } else {
                    old(self).timeout
                },
                ..*old(self)
            }),
            r is Ok <==> 1 <= old(self).jobs < 1024,
            old(self).jobs == 0 ==> (r matches Err(msg) && msg@
                == "Too few fuzzing threads specified"@),
            old(self).jobs >= 1024 ==> (r matches Err(msg) && msg@ == too_many_jobs(
                old(self).jobs as int,
            )),
    {
        if self.socket_fuzzer {
            self.timeout = 0;
        }
        if self.jobs == 0 {
            return Err(String::from_str("Too few fuzzing threads specified"));
        }
        if self.jobs >= MAX_JOBS {
            let mut msg = String::from_str("Too many fuzzing threads specified ");
            push_decimal(&mut msg, self.jobs as u64);
            msg.append(" >= ");
            push_decimal(&mut msg, MAX_JOBS as u64);
            return Err(msg);
        }
        Ok(())
    }
}

/// The whole configuration.
#[derive(Debug)]
pub struct Config {
    /// Where inputs come from and results go.
    pub io_config: IOConfig,
    /// What is run.
    pub exe_config: ExeConfig,
    /// How the fuzzer works.
    pub app_config: AppConfig,
}

impl Config {
    /// Checks the parts of the configuration that need nothing but the
    /// configuration itself, and makes them consistent. The directories are
    /// looked after where files are.
    pub fn validate(&mut self) -> (r: Result<(), String>)
        ensures
            final(self).io_config == old(self).io_config,
            final(self).exe_config == old(self).exe_config,
            final(self).app_config == (AppConfig {
                timeout: if old(self).app_config.socket_fuzzer {
                    0
                } else {
                    old(self).app_config.timeout
                },
                ..old(self).app_config
            }),
            r is Ok <==> 1 <= old(self).app_config.jobs < 1024,
            old(self).app_config.jobs == 0 ==> (r matches Err(msg) && msg@
                == "Too few fuzzing threads specified"@),
            old(self).app_config.jobs >= 1024 ==> (r matches Err(msg) && msg@ == too_many_jobs(
                old(self).app_config.jobs as int,
            )),
    {
        match self.exe_config.validate() {
            Ok(()) => {},
            Err(e) => {
                return Err(e);
            },
        }
        self.app_config.validate()
    }
}

} // verus!
