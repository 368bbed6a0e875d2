//! Configuration: the query, the file path and the case policy, taken
//! from the argument list and the case-insensitivity toggle.

use vstd::prelude::*;
use vstd::string::StringExecFns;

verus! {

/// Why no configuration could be built from the arguments.
#[derive(Clone, Copy, Debug, PartialEq, Eq)]
pub enum ConfigError {
    /// No argument stood where the query was expected.
    MissingQuery,
    /// No argument stood where the file path was expected.
    MissingFilePath,
    /// The query argument was the empty string.
    EmptyQuery,
    /// The file path argument was the empty string.
    EmptyFilePath,
    /// More arguments stood after the file path.
    TooManyArguments,
}

/// What a run searches for, where, and under which case policy.
#[derive(Debug)]
pub struct Config {
    pub query: String,
    pub file_path: String,
    pub ignore_case: bool,
}

/// The toggle enables the case-insensitive policy only when it is set to
/// exactly "1".
pub open spec fn toggle_on(toggle: Option<Seq<char>>) -> bool {
    match toggle {
        Some(v) => v == seq!['1'],
        None => false,
    }
}

/// What `Config::build` returns for an argument list and a toggle: either
/// the query, the file path and the case policy, or the error owed.
pub open spec fn build_result(args: Seq<Seq<char>>, toggle: Option<Seq<char>>) -> Result<
    (Seq<char>, Seq<char>, bool),
    ConfigError,
> {
    if args.len() <= 1 {
        Err(ConfigError::MissingQuery)
    } else if args.len() == 2 {
        Err(ConfigError::MissingFilePath)
    } else if args.len() > 3 {
        Err(ConfigError::TooManyArguments)
    } else if args[1].len() == 0 {
        Err(ConfigError::EmptyQuery)
    } else if args[2].len() == 0 {
        Err(ConfigError::EmptyFilePath)
    } else {
        Ok((args[1], args[2], toggle_on(toggle)))
    }
}

/// The message shown for each configuration error.
pub open spec fn message_view(e: ConfigError) -> Seq<char> {
    match e {
        ConfigError::MissingQuery => "未找到查询字符串"@,
        ConfigError::MissingFilePath => "未找到文件路径"@,
        ConfigError::EmptyQuery => "查询字符串为空"@,
        ConfigError::EmptyFilePath => "文件路径为空"@,
        ConfigError::TooManyArguments => "参数过多"@,
    }
}

impl ConfigError {
    /// The human-readable description of this error.
    pub fn message(&self) -> (r: String)
        ensures
            r@ == message_view(*self),
    {
        match self {
            ConfigError::MissingQuery => String::from_str("未找到查询字符串"),
            ConfigError::MissingFilePath => String::from_str("未找到文件路径"),
            ConfigError::EmptyQuery => String::from_str("查询字符串为空"),
            ConfigError::EmptyFilePath => String::from_str("文件路径为空"),
            ConfigError::TooManyArguments => String::from_str("参数过多"),
        }
    }
}

impl Config {
    /// Build a configuration from the process argument list, whose first
    /// element is the program name and is discarded, and from the value of
    /// the case-insensitivity toggle, if it was set.
    pub fn build(args: &Vec<String>, toggle: Option<String>) -> (r: Result<Config, ConfigError>)
        ensures
            match (r, build_result(args.deep_view(), toggle.deep_view())) {
                (Ok(c), Ok(t)) => c.query@ == t.0 && c.file_path@ == t.1 && c.ignore_case == t.2,
                (Err(e), Err(t)) => e == t,
                _ => false,
            },
    {
        if args.len() <= 1 {
            return Err(ConfigError::MissingQuery);
        }
        if args.len() == 2 {
            return Err(ConfigError::MissingFilePath);
        }
        if args.len() > 3 {
            return Err(ConfigError::TooManyArguments);
        }
        let query = args[1].clone();
        let file_path = args[2].clone();
        if query.as_str().is_empty() {
            return Err(ConfigError::EmptyQuery);
        }
        if file_path.as_str().is_empty() {
            return Err(ConfigError::EmptyFilePath);
        }
        let ignore_case = match &toggle {
            Some(v) => {
                let one = String::from_str("1");
                proof {
                    reveal_strlit("1");
                    assert("1"@ =~= seq!['1']);
                }
                v.eq(&one)
            },
            None => false,
        };
        Ok(Config { query, file_path, ignore_case })
    }
}

} // verus!
