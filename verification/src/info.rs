//! What the application knows of itself: its name and version, where its
//! control plane listens, and the paths it works with.

use vstd::prelude::*;
use crate::stdio::{in_dir, path_in_dir};
use crate::text::{parse_decimal, parse_unsigned};

verus! {

/// The paths that matter to the application.
#[derive(Debug)]
pub struct Paths {
    /// The path of the executable.
    pub executable: String,
    /// The directory from which the application was started.
    pub working_dir: String,
    /// The home directory: that of the executable, unless `KURV_HOME` names
    /// another.
    pub kurv_home: String,
    /// The state file in the home directory.
    pub kurv_file: String,
    /// The directory of the plugins in the home directory.
    pub plugins_dir: String,
    /// The directory of the task logs.
    pub logs_dir: String,
}

impl Clone for Paths {
    fn clone(&self) -> (r: Self)
        ensures
            r == *self,
    {
        Paths {
            executable: self.executable.clone(),
            working_dir: self.working_dir.clone(),
            kurv_home: self.kurv_home.clone(),
            kurv_file: self.kurv_file.clone(),
            plugins_dir: self.plugins_dir.clone(),
            logs_dir: self.logs_dir.clone(),
        }
    }
}

impl Paths {
    /// The paths of an application whose executable lies in
    /// `executable_dir`. `home_var` and `logs_var` are what the environment
    /// holds under `KURV_HOME` and `KURV_LOGS_DIR`: the first, where set, is
    /// the home directory in place of the executable's; the second, where
    /// set, is the logs directory in place of `task_logs` in the home
    /// directory.
    pub fn resolve(
        executable: String,
        executable_dir: String,
        working_dir: String,
        home_var: Option<String>,
        logs_var: Option<String>,
    ) -> (r: Paths)
        ensures
            r.executable == executable,
            r.working_dir == working_dir,
            r.kurv_home == (match home_var {
                Some(h) => h,
                None => executable_dir,
            }),
            r.logs_dir@ == (match logs_var {
                Some(l) => l@,
                None => in_dir(r.kurv_home@, "task_logs"@),
            }),
            r.kurv_file@ == in_dir(r.kurv_home@, ".kurv"@),
            r.plugins_dir@ == in_dir(r.kurv_home@, "plugins"@),
    {
        let kurv_home = match home_var {
            Some(h) => h,
            None => executable_dir,
        };
        let logs_dir = match logs_var {
            Some(l) => l,
            None => path_in_dir(kurv_home.as_str(), "task_logs"),
        };
        let kurv_file = path_in_dir(kurv_home.as_str(), ".kurv");
        let plugins_dir = path_in_dir(kurv_home.as_str(), "plugins");
        Paths { executable, working_dir, kurv_home, kurv_file, plugins_dir, logs_dir }
    }
}

/// The host on which the control plane listens where none is named.
pub open spec fn default_api_host() -> Seq<char> {
    "127.0.0.1"@
}

/// The port on which the control plane listens where none is named.
pub open spec fn default_api_port() -> u16 {
    58787
}

/// The port that the text of `KURV_API_PORT` names: the default where the
/// variable is not set or is no port number.
pub open spec fn api_port_of(var: Option<Seq<char>>) -> u16 {
    match var {
        Some(text) => match parse_unsigned(text, u16::MAX as nat) {
            Some(port) => port as u16,
            None => default_api_port(),
        },
        None => default_api_port(),
    }
}

/// The host of the control plane: what `KURV_API_HOST` holds, or the
/// default.
pub fn api_host(var: Option<String>) -> (r: String)
    ensures
        r@ == (match var {
            Some(h) => h@,
            None => default_api_host(),
        }),
{
    match var {
        Some(h) => h,
        None => "127.0.0.1".to_string(),
    }
}

/// The port of the control plane: what `KURV_API_PORT` holds if that is a
/// port number, else the default.
pub fn api_port(var: Option<&str>) -> (r: u16)
    ensures
        r == api_port_of(
            match var {
                Some(t) => Some(t@),
                None => None,
            },
        ),
{
    match var {
        Some(text) => match parse_decimal(text, u16::MAX as u64) {
            Some(port) => port as u16,
            None => 58787,
        },
        None => 58787,
    }
}

/// General information about the application.
#[derive(Debug)]
pub struct Info {
    /// The name of the application.
    pub name: String,
    /// The version of the application.
    pub version: String,
    /// The host of the control plane.
    pub api_host: String,
    /// The port of the control plane.
    pub api_port: u16,
    /// The name of the build, where it has one.
    pub version_name: Option<String>,
    pub description: String,
    /// The process id of the application.
    pub pid: u32,
    pub paths: Paths,
}

impl Clone for Info {
    fn clone(&self) -> (r: Self)
        ensures
            r == *self,
    {
        Info {
            name: self.name.clone(),
            version: self.version.clone(),
            api_host: self.api_host.clone(),
            api_port: self.api_port,
            version_name: self.version_name.clone(),
            description: self.description.clone(),
            pid: self.pid,
            paths: self.paths.clone(),
        }
    }
}

} // verus!
