//! The settings of the service: their defaults, and what the environment
//! puts in their place.

use vstd::prelude::*;
use vstd::string::*;
use crate::text::{pieces_trimmed, split_trimmed};

verus! {

/// How much the service logs.
#[derive(Clone, Copy, Debug, PartialEq, Eq, Structural)]
pub enum LogLevel {
    Trace,
    Debug,
    Info,
    Warn,
    Error,
}

/// The settings of the service.
#[derive(Debug)]
pub struct Config {
    pub max_level_log: LogLevel,
    pub mode: String,
    pub port: String,
    pub host: String,
    pub smtp_server: String,
    pub smtp_user: String,
    pub smtp_password: String,
    pub smtp_from: String,
    pub admin_emails: Vec<String>,
}

/// What the environment says of each setting that it can replace; `None`
/// where it says nothing. `admin_emails` is one text, the addresses
/// separated by commas.
#[derive(Debug)]
pub struct Environment {
    pub mode: Option<String>,
    pub port: Option<String>,
    pub host: Option<String>,
    pub smtp_server: Option<String>,
    pub smtp_user: Option<String>,
    pub smtp_password: Option<String>,
    pub smtp_from: Option<String>,
    pub admin_emails: Option<String>,
}

/// The text of a setting: what the environment gives for it, else its
/// default.
pub open spec fn chosen(given: Option<String>, default: Seq<char>) -> Seq<char> {
    match given {
        Some(text) => text@,
        None => default,
    }
}

/// What the environment gives for a setting, else its default.
fn choose_text(given: Option<String>, default: &str) -> (text: String)
    ensures
        text@ == chosen(given, default@),
{
    match given {
        Some(text) => text,
        None => default.to_owned(),
    }
}

/// A copy of every text of `texts`.
fn clone_all(texts: &Vec<String>) -> (copies: Vec<String>)
    ensures
        copies@ == texts@,
{
    let mut copies: Vec<String> = Vec::new();
    let mut i: usize = 0;
    while i < texts.len()
        invariant
            i <= texts.len(),
            copies@ == texts@.take(i as int),
        decreases texts.len() - i,
    {
        copies.push(texts[i].clone());
        proof {
            texts@.lemma_take_succ_push(i as int);
        }
        i = i + 1;
    }
    proof {
        texts@.lemma_take_len();
    }
    copies
}

/// What every service's settings answer.
pub trait ApplicationConfig {
    /// The address to listen on: host, a colon, port.
    fn get_addrs(&self) -> String;

    fn get_max_level_log(&self) -> LogLevel;

    fn get_mode(&self) -> &str;

    fn get_port(&self) -> &str;

    fn get_host(&self) -> &str;

    fn get_max_pool_size(&self) -> u32;

    fn get_with_migrations(&self) -> bool;
}

impl ApplicationConfig for Config {
    fn get_addrs(&self) -> (addrs: String)
        ensures
            addrs@ == self.host@ + ":"@ + self.port@,
    {
        self.host.clone().concat(":").concat(self.port.as_str())
    }

    fn get_max_level_log(&self) -> (level: LogLevel)
        ensures
            level == self.max_level_log,
    {
        self.max_level_log
    }

    fn get_mode(&self) -> (mode: &str)
        ensures
            mode@ == self.mode@,
    {
        self.mode.as_str()
    }

    fn get_port(&self) -> (port: &str)
        ensures
            port@ == self.port@,
    {
        self.port.as_str()
    }

    fn get_host(&self) -> (host: &str)
        ensures
            host@ == self.host@,
    {
        self.host.as_str()
    }

    fn get_max_pool_size(&self) -> (size: u32)
        ensures
            size == 8,
    {
        8
    }

    fn get_with_migrations(&self) -> (with: bool)
        ensures
            with,
    {
        true
    }
}

impl Default for Config {
    /// The settings of a development machine.
    fn default() -> (config: Self)
        ensures
            config.max_level_log == LogLevel::Debug,
            config.mode@ == "dev"@,
            config.port@ == "8080"@,
            config.host@ == "0.0.0.0"@,
            config.smtp_server@ == "smtp.gmail.com"@,
            config.smtp_user@ == "usuario@gmail.com"@,
            config.smtp_password@ == "password"@,
            config.smtp_from@ == "no-reply@tusitio.com"@,
            config.admin_emails@.len() == 1,
            config.admin_emails@[0]@ == "admin@example.com"@,
    {
        let mut admin_emails: Vec<String> = Vec::new();
        admin_emails.push("admin@example.com".to_owned());
        Config {
            max_level_log: LogLevel::Debug,
            mode: "dev".to_owned(),
            port: "8080".to_owned(),
            host: "0.0.0.0".to_owned(),
            smtp_server: "smtp.gmail.com".to_owned(),
            smtp_user: "usuario@gmail.com".to_owned(),
            smtp_password: "password".to_owned(),
            smtp_from: "no-reply@tusitio.com".to_owned(),
            admin_emails,
        }
    }
}

impl Config {
    /// The default settings, each replaced by what the environment gives
    /// for it. The log level is not taken from the environment. The text
    /// for the admin addresses is split at its commas, and each part is
    /// trimmed.
    pub fn from_environment(environment: Environment) -> (config: Self)
        ensures
            config.max_level_log == LogLevel::Debug,
            config.mode@ == chosen(environment.mode, "dev"@),
            config.port@ == chosen(environment.port, "8080"@),
            config.host@ == chosen(environment.host, "0.0.0.0"@),
            config.smtp_server@ == chosen(environment.smtp_server, "smtp.gmail.com"@),
            config.smtp_user@ == chosen(environment.smtp_user, "usuario@gmail.com"@),
            config.smtp_password@ == chosen(environment.smtp_password, "password"@),
            config.smtp_from@ == chosen(environment.smtp_from, "no-reply@tusitio.com"@),
            match environment.admin_emails {
                Some(list) => config.admin_emails.deep_view() == pieces_trimmed(list@),
                None => config.admin_emails.deep_view() == seq!["admin@example.com"@],
            },
    {
        let defaults = Config::default();
        let admin_emails = match environment.admin_emails {
            Some(list) => split_trimmed(list.as_str()),
            None => {
                assert(defaults.admin_emails.deep_view() =~= seq!["admin@example.com"@]);
                defaults.admin_emails
            },
        };
        Config {
            max_level_log: defaults.max_level_log,
            mode: choose_text(environment.mode, "dev"),
            port: choose_text(environment.port, "8080"),
            host: choose_text(environment.host, "0.0.0.0"),
            smtp_server: choose_text(environment.smtp_server, "smtp.gmail.com"),
            smtp_user: choose_text(environment.smtp_user, "usuario@gmail.com"),
            smtp_password: choose_text(environment.smtp_password, "password"),
            smtp_from: choose_text(environment.smtp_from, "no-reply@tusitio.com"),
            admin_emails,
        }
    }

    pub fn get_smtp_server(&self) -> (server: &str)
        ensures
            server@ == self.smtp_server@,
    {
        self.smtp_server.as_str()
    }

    pub fn get_smtp_user(&self) -> (user: &str)
        ensures
            user@ == self.smtp_user@,
    {
        self.smtp_user.as_str()
    }

    pub fn get_smtp_password(&self) -> (password: &str)
        ensures
            password@ == self.smtp_password@,
    {
        self.smtp_password.as_str()
    }

    pub fn get_smtp_from(&self) -> (from: &str)
        ensures
            from@ == self.smtp_from@,
    {
        self.smtp_from.as_str()
    }

    /// A copy of the admin addresses.
    pub fn get_admin_emails_list(&self) -> (list: Vec<String>)
        ensures
            list@ == self.admin_emails@,
    {
        clone_all(&self.admin_emails)
    }
}

} // verus!
