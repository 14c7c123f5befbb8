//! Plugins: executables in the plugins directory that describe themselves
//! as eggs. What is found on disk and what a plugin prints is handed to
//! this module; it says which files are plugins and what becomes of a
//! plugin's description.

use vstd::prelude::*;
use crate::egg::{Egg, EggView};
use crate::info::Info;
use crate::strmap::StrMap;
use crate::text::{decimal, ends_with, starts_with, u64_to_string};

verus! {

/// The argument with which a plugin is asked to describe itself.
pub open spec fn probe_flag() -> Seq<char> {
    "--kurv-cfg"@
}

/// The argument with which a plugin is asked to describe itself.
pub fn plugin_probe_flag() -> (r: String)
    ensures
        r@ == probe_flag(),
{
    "--kurv-cfg".to_string()
}

/// How the name of a plugin's file begins.
pub open spec fn plugin_prefix() -> Seq<char> {
    "kurv-"@
}

/// Whether a file of that name may be a plugin: its name begins with
/// `kurv-`.
pub fn is_plugin_file_name(name: &str) -> (r: bool)
    ensures
        r == plugin_prefix().is_prefix_of(name@),
{
    starts_with(name, "kurv-")
}

/// Whether a file with those permission bits can be executed by its
/// owner, its group or anyone.
pub fn has_execute_bit(mode: u32) -> (r: bool)
    ensures
        r == (mode & 0o111 != 0),
{
    mode & 0o111 != 0
}

/// Whether a file of that name is executable where the ending of the name
/// decides: it ends in `.exe`, `.bat` or `.cmd`.
pub fn has_executable_extension(name: &str) -> (r: bool)
    ensures
        r == (".exe"@.is_suffix_of(name@) || ".bat"@.is_suffix_of(name@) || ".cmd"@.is_suffix_of(name@)),
{
    ends_with(name, ".exe") || ends_with(name, ".bat") || ends_with(name, ".cmd")
}

/// Whether an entry of the plugins directory is asked to describe itself:
/// it is no directory, its name begins with `kurv-`, and it is executable.
pub fn is_plugin_candidate(name: &str, is_dir: bool, executable: bool) -> (r: bool)
    ensures
        r == (!is_dir && plugin_prefix().is_prefix_of(name@) && executable),
{
    !is_dir && is_plugin_file_name(name) && executable
}

/// The environment of a plugin: its own, with the host's address, home and
/// logs directory put over it.
pub open spec fn plugin_env(env: Map<Seq<char>, Seq<char>>, info: Info) -> Map<Seq<char>, Seq<char>> {
    env.insert("KURV_API_HOST"@, info.api_host@).insert(
        "KURV_API_PORT"@,
        decimal(info.api_port as nat),
    ).insert("KURV_HOME"@, info.paths.kurv_home@).insert("KURV_LOGS_DIR"@, info.paths.logs_dir@)
}

/// The egg that the description `e` of the plugin at `path` becomes: it
/// has no id, is marked as a plugin with its path, and has the host's
/// context in its environment.
pub open spec fn as_plugin(e: EggView, path: Seq<char>, info: Info) -> EggView {
    EggView {
        id: None,
        plugin: Some(true),
        plugin_path: Some(path),
        env: Some(
            plugin_env(
                match e.env {
                    Some(env) => env,
                    None => Map::empty(),
                },
                info,
            ),
        ),
        ..e
    }
}

/// Makes an egg of what the plugin at `path` said of itself.
pub fn prepare_plugin(egg: Egg, path: String, info: &Info) -> (r: Egg)
    ensures
        r@ == as_plugin(egg@, path@, *info),
{
    let mut egg = egg;
    let mut env = match egg.env.take() {
        Some(env) => env,
        None => StrMap::new(),
    };
    env.insert("KURV_API_HOST".to_string(), info.api_host.clone());
    env.insert("KURV_API_PORT".to_string(), u64_to_string(info.api_port as u64));
    env.insert("KURV_HOME".to_string(), info.paths.kurv_home.clone());
    env.insert("KURV_LOGS_DIR".to_string(), info.paths.logs_dir.clone());
    egg.id = None;
    egg.plugin = Some(true);
    egg.plugin_path = Some(path);
    egg.env = Some(env);
    egg
}

} // verus!
