//! Where the program keeps its files, and whose files it makes: the current
//! user, the home directory, and the configuration and data directories.

use vstd::prelude::*;

use crate::path::{
    lemma_join_plain_name, opt_path_view, parse_components, spec_join, spec_tildefy, spec_untildefy,
    ComponentView, FilePath,
};

pub use crate::path::{tildefy_with, untildefy_with};

verus! {

/// The name of the program's own directories.
pub const APP_NAME: &'static str = "decster";

/// Why the directories couldn't be determined.
#[derive(Clone, Copy, Debug, PartialEq, Eq)]
pub enum EnvError {
    /// The home directory is unknown.
    NoHomeDir,
    /// No configuration directory was given and the system has none.
    NoConfigDir,
    /// The system has no data directory.
    NoDataDir,
}

/// The directory `name` inside `dir`.
pub open spec fn spec_child(dir: Seq<ComponentView>, name: Seq<char>) -> Seq<ComponentView> {
    spec_join(dir, parse_components(name))
}

/// What the directory layout holds.
pub struct EnvView {
    pub uid: u32,
    pub gid: u32,
    pub home: Seq<ComponentView>,
    pub config: Seq<ComponentView>,
    pub modules: Seq<ComponentView>,
    pub static_sources: Seq<ComponentView>,
    pub dynamic_sources: Seq<ComponentView>,
    pub named_sources: Seq<ComponentView>,
    pub unnamed_sources: Seq<ComponentView>,
    pub state: Seq<ComponentView>,
}

/// The layout that a configuration directory and a data directory give.
pub open spec fn spec_layout(
    uid: u32,
    gid: u32,
    home: Seq<ComponentView>,
    config_dir: Seq<ComponentView>,
    data_dir: Seq<ComponentView>,
) -> EnvView {
    EnvView {
        uid,
        gid,
        home,
        config: spec_child(config_dir, "config.toml"@),
        modules: spec_child(config_dir, "modules"@),
        static_sources: spec_child(config_dir, "sources"@),
        dynamic_sources: spec_child(config_dir, "sources.toml"@),
        named_sources: spec_child(data_dir, "named-sources"@),
        unnamed_sources: spec_child(data_dir, "unnamed-sources"@),
        state: spec_child(data_dir, "state"@),
    }
}

/// The files and directories of a layout are seven different paths, each
/// named in full below its directory: the configuration file, the module
/// and static source directories and the dynamic source file inside the
/// configuration directory, the named and unnamed source directories and
/// the state file inside the data directory.
pub proof fn law_layout_distinct(
    uid: u32,
    gid: u32,
    home: Seq<ComponentView>,
    config_dir: Seq<ComponentView>,
    data_dir: Seq<ComponentView>,
)
    ensures
        ({
            let v = spec_layout(uid, gid, home, config_dir, data_dir);
            let all = seq![
                v.config,
                v.modules,
                v.static_sources,
                v.dynamic_sources,
                v.named_sources,
                v.unnamed_sources,
                v.state,
            ];
            forall|i: int, j: int| 0 <= i < j < 7 ==> all[i] != all[j]
        }),
{
    reveal_strlit("config.toml");
    reveal_strlit("modules");
    reveal_strlit("sources");
    reveal_strlit("sources.toml");
    reveal_strlit("named-sources");
    reveal_strlit("unnamed-sources");
    reveal_strlit("state");
    let names = seq![
        "config.toml"@,
        "modules"@,
        "sources"@,
        "sources.toml"@,
        "named-sources"@,
        "unnamed-sources"@,
        "state"@,
    ];
    let dirs = seq![config_dir, config_dir, config_dir, config_dir, data_dir, data_dir, data_dir];
    let v = spec_layout(uid, gid, home, config_dir, data_dir);
    let all = seq![
        v.config,
        v.modules,
        v.static_sources,
        v.dynamic_sources,
        v.named_sources,
        v.unnamed_sources,
        v.state,
    ];
    assert forall|k: int| 0 <= k < 7 implies (#[trigger] all[k]).len() > 0 && all[k].last()
        == ComponentView::Normal(names[k]) by {
        assert(!names[k].contains('/') && names[k].len() > 0 && names[k][0] != '.');
        lemma_join_plain_name(dirs[k], names[k]);
        assert(all[k] == spec_join(dirs[k], parse_components(names[k])));
    }
    assert forall|i: int, j: int| 0 <= i < j < 7 implies all[i] != all[j] by {
        assert(all[i].last() == ComponentView::Normal(names[i]));
        assert(all[j].last() == ComponentView::Normal(names[j]));
        assert(names[i] != names[j]);
    }
}

/// The layout for the given user and directories: the configuration
/// directory is the one given, or the program's directory in the system's
/// configuration directory; the data directory is the program's directory in
/// the system's data directory.
pub open spec fn spec_load(
    uid: u32,
    gid: u32,
    home: Option<Seq<ComponentView>>,
    config_dir: Option<Seq<ComponentView>>,
    system_config_dir: Option<Seq<ComponentView>>,
    system_data_dir: Option<Seq<ComponentView>>,
) -> Result<EnvView, EnvError> {
    match home {
        None => Err(EnvError::NoHomeDir),
        Some(home) => {
            let config = match config_dir {
                Some(dir) => Some(dir),
                None => match system_config_dir {
                    Some(dir) => Some(spec_child(dir, APP_NAME@)),
                    None => None,
                },
            };
            match config {
                None => Err(EnvError::NoConfigDir),
                Some(config) => match system_data_dir {
                    None => Err(EnvError::NoDataDir),
                    Some(data) => Ok(spec_layout(uid, gid, home, config, spec_child(data, APP_NAME@))),
                },
            }
        },
    }
}

/// The user the program runs as, and where its files are.
pub struct Env {
    uid: u32,
    gid: u32,
    home: FilePath,
    config: FilePath,
    modules: FilePath,
    static_sources: FilePath,
    dynamic_sources: FilePath,
    named_sources: FilePath,
    unnamed_sources: FilePath,
    state: FilePath,
}

impl View for Env {
    type V = EnvView;

    closed spec fn view(&self) -> EnvView {
        EnvView {
            uid: self.uid,
            gid: self.gid,
            home: self.home@,
            config: self.config@,
            modules: self.modules@,
            static_sources: self.static_sources@,
            dynamic_sources: self.dynamic_sources@,
            named_sources: self.named_sources@,
            unnamed_sources: self.unnamed_sources@,
            state: self.state@,
        }
    }
}

/// The paths of the layout for a configuration and a data directory.
fn layout(config_dir: &FilePath, data_dir: &FilePath) -> (r: (
    FilePath,
    FilePath,
    FilePath,
    FilePath,
    FilePath,
    FilePath,
    FilePath,
))
    ensures
        r.0@ == spec_child(config_dir@, "config.toml"@),
        r.1@ == spec_child(config_dir@, "modules"@),
        r.2@ == spec_child(config_dir@, "sources"@),
        r.3@ == spec_child(config_dir@, "sources.toml"@),
        r.4@ == spec_child(data_dir@, "named-sources"@),
        r.5@ == spec_child(data_dir@, "unnamed-sources"@),
        r.6@ == spec_child(data_dir@, "state"@),
{
    (
        config_dir.join_str("config.toml"),
        config_dir.join_str("modules"),
        config_dir.join_str("sources"),
        config_dir.join_str("sources.toml"),
        data_dir.join_str("named-sources"),
        data_dir.join_str("unnamed-sources"),
        data_dir.join_str("state"),
    )
}

/// The configuration and data directories, as `spec_load` determines them.
fn load_dirs(
    home: Option<FilePath>,
    config_dir: Option<FilePath>,
    system_config_dir: Option<FilePath>,
    system_data_dir: Option<FilePath>,
) -> (r: Result<(FilePath, FilePath, FilePath), EnvError>)
    ensures
        match spec_load(
            0,
            0,
            opt_path_view(home),
            opt_path_view(config_dir),
            opt_path_view(system_config_dir),
            opt_path_view(system_data_dir),
        ) {
            Ok(v) => r matches Ok((h, c, d)) && h@ == v.home && spec_layout(0, 0, h@, c@, d@) == v,
            Err(e) => r == Err::<(FilePath, FilePath, FilePath), EnvError>(e),
        },
{
    let home = match home {
        Some(home) => home,
        None => {
            return Err(EnvError::NoHomeDir);
        },
    };
    let config = match config_dir {
        Some(dir) => dir,
        None => match system_config_dir {
            Some(dir) => dir.join_str(APP_NAME),
            None => {
                return Err(EnvError::NoConfigDir);
            },
        },
    };
    let data = match system_data_dir {
        Some(dir) => dir.join_str(APP_NAME),
        None => {
            return Err(EnvError::NoDataDir);
        },
    };
    Ok((home, config, data))
}

impl Env {
    /// The layout for the user `uid`/`gid` with the home directory `home`:
    /// the configuration directory is `config_dir` if given, else the
    /// program's directory in `system_config_dir`; the data directory is the
    /// program's directory in `system_data_dir`.
    pub fn load(
        uid: u32,
        gid: u32,
        home: Option<FilePath>,
        config_dir: Option<FilePath>,
        system_config_dir: Option<FilePath>,
        system_data_dir: Option<FilePath>,
    ) -> (r: Result<Env, EnvError>)
        ensures
            match spec_load(
                uid,
                gid,
                opt_path_view(home),
                opt_path_view(config_dir),
                opt_path_view(system_config_dir),
                opt_path_view(system_data_dir),
            ) {
                Ok(v) => r matches Ok(env) && env@ == v,
                Err(e) => r is Err && r->Err_0 == e,
            },
    {
        let (home, config_dir, data_dir) = match load_dirs(
            home,
            config_dir,
            system_config_dir,
            system_data_dir,
        ) {
            Ok(dirs) => dirs,
            Err(e) => {
                return Err(e);
            },
        };
        let (config, modules, static_sources, dynamic_sources, named_sources, unnamed_sources, state) =
            layout(&config_dir, &data_dir);
        Ok(
            Env {
                uid,
                gid,
                home,
                config,
                modules,
                static_sources,
                dynamic_sources,
                named_sources,
                unnamed_sources,
                state,
            },
        )
    }

    /// The current user's ID.
    pub fn uid(&self) -> (r: u32)
        ensures
            r == self@.uid,
    {
        self.uid
    }

    /// The current user's group ID.
    pub fn gid(&self) -> (r: u32)
        ensures
            r == self@.gid,
    {
        self.gid
    }

    /// The home directory.
    pub fn home(&self) -> (r: &FilePath)
        ensures
            r@ == self@.home,
    {
        &self.home
    }

    /// The configuration file.
    pub fn config(&self) -> (r: &FilePath)
        ensures
            r@ == self@.config,
    {
        &self.config
    }

    /// The directory of module definitions.
    pub fn modules(&self) -> (r: &FilePath)
        ensures
            r@ == self@.modules,
    {
        &self.modules
    }

    /// The directory of static sources.
    pub fn static_sources(&self) -> (r: &FilePath)
        ensures
            r@ == self@.static_sources,
    {
        &self.static_sources
    }

    /// The file that defines dynamic sources.
    pub fn dynamic_sources(&self) -> (r: &FilePath)
        ensures
            r@ == self@.dynamic_sources,
    {
        &self.dynamic_sources
    }

    /// The directory where named sources are fetched to.
    pub fn named_sources(&self) -> (r: &FilePath)
        ensures
            r@ == self@.named_sources,
    {
        &self.named_sources
    }

    /// The directory where unnamed sources are fetched to.
    pub fn unnamed_sources(&self) -> (r: &FilePath)
        ensures
            r@ == self@.unnamed_sources,
    {
        &self.unnamed_sources
    }

    /// The state file.
    pub fn state(&self) -> (r: &FilePath)
        ensures
            r@ == self@.state,
    {
        &self.state
    }

    /// Writes the home directory `home` at the start of `path` as `~`.
    pub fn tildefy_with(path: &FilePath, home: &FilePath) -> (r: FilePath)
        ensures
            r@ == spec_tildefy(path@, home@),
    {
        tildefy_with(path, home)
    }

    /// Writes a leading `~` of `path` as the home directory `home`.
    pub fn untildefy_with(path: &FilePath, home: &FilePath) -> (r: FilePath)
        ensures
            r@ == spec_untildefy(path@, home@),
    {
        untildefy_with(path, home)
    }

    /// Writes the user's home directory at the start of `path` as `~`.
    pub fn tildefy(&self, path: &FilePath) -> (r: FilePath)
        ensures
            r@ == spec_tildefy(path@, self@.home),
    {
        tildefy_with(path, &self.home)
    }

    /// Writes a leading `~` of `path` as the user's home directory.
    pub fn untildefy(&self, path: &FilePath) -> (r: FilePath)
        ensures
            r@ == spec_untildefy(path@, self@.home),
    {
        untildefy_with(path, &self.home)
    }
}

/// The directories of the program, by what they hold.
pub struct Dirs {
    home: FilePath,
    config: FilePath,
    modules: FilePath,
    static_sources: FilePath,
    dynamic_sources: FilePath,
    named_sources: FilePath,
    unnamed_sources: FilePath,
    state: FilePath,
}

impl View for Dirs {
    type V = EnvView;

    closed spec fn view(&self) -> EnvView {
        EnvView {
            uid: 0,
            gid: 0,
            home: self.home@,
            config: self.config@,
            modules: self.modules@,
            static_sources: self.static_sources@,
            dynamic_sources: self.dynamic_sources@,
            named_sources: self.named_sources@,
            unnamed_sources: self.unnamed_sources@,
            state: self.state@,
        }
    }
}

impl Dirs {
    /// The directories for the given home, configuration and data
    /// directories, as `Env::load` determines them (without a user).
    pub fn load(
        home: Option<FilePath>,
        config_dir: Option<FilePath>,
        system_config_dir: Option<FilePath>,
        system_data_dir: Option<FilePath>,
    ) -> (r: Result<Dirs, EnvError>)
        ensures
            match spec_load(
                0,
                0,
                opt_path_view(home),
                opt_path_view(config_dir),
                opt_path_view(system_config_dir),
                opt_path_view(system_data_dir),
            ) {
                Ok(v) => r matches Ok(dirs) && dirs@ == v,
                Err(e) => r is Err && r->Err_0 == e,
            },
    {
        let (home, config_dir, data_dir) = match load_dirs(
            home,
            config_dir,
            system_config_dir,
            system_data_dir,
        ) {
            Ok(dirs) => dirs,
            Err(e) => {
                return Err(e);
            },
        };
        let (config, modules, static_sources, dynamic_sources, named_sources, unnamed_sources, state) =
            layout(&config_dir, &data_dir);
        Ok(
            Dirs {
                home,
                config,
                modules,
                static_sources,
                dynamic_sources,
                named_sources,
                unnamed_sources,
                state,
            },
        )
    }

    /// The home directory.
    pub fn home(&self) -> (r: &FilePath)
        ensures
            r@ == self@.home,
    {
        &self.home
    }

    /// The configuration file.
    pub fn config(&self) -> (r: &FilePath)
        ensures
            r@ == self@.config,
    {
        &self.config
    }

    /// The directory of module definitions.
    pub fn modules(&self) -> (r: &FilePath)
        ensures
            r@ == self@.modules,
    {
        &self.modules
    }

    /// The directory of static sources.
    pub fn static_sources(&self) -> (r: &FilePath)
        ensures
            r@ == self@.static_sources,
    {
        &self.static_sources
    }

    /// The file that defines dynamic sources.
    pub fn dynamic_sources(&self) -> (r: &FilePath)
        ensures
            r@ == self@.dynamic_sources,
    {
        &self.dynamic_sources
    }

    /// The directory where named sources are fetched to.
    pub fn named_sources(&self) -> (r: &FilePath)
        ensures
            r@ == self@.named_sources,
    {
        &self.named_sources
    }

    /// The directory where unnamed sources are fetched to.
    pub fn unnamed_sources(&self) -> (r: &FilePath)
        ensures
            r@ == self@.unnamed_sources,
    {
        &self.unnamed_sources
    }

    /// The state file.
    pub fn state(&self) -> (r: &FilePath)
        ensures
            r@ == self@.state,
    {
        &self.state
    }
}

/// The paths of the program's files and directories.
pub struct Paths {
    home_dir: FilePath,
    config_file: FilePath,
    module_dir: FilePath,
    static_source_dir: FilePath,
    dynamic_source_file: FilePath,
    named_source_dir: FilePath,
    unnamed_source_dir: FilePath,
    state_file: FilePath,
}

impl View for Paths {
    type V = EnvView;

    closed spec fn view(&self) -> EnvView {
        EnvView {
            uid: 0,
            gid: 0,
            home: self.home_dir@,
            config: self.config_file@,
            modules: self.module_dir@,
            static_sources: self.static_source_dir@,
            dynamic_sources: self.dynamic_source_file@,
            named_sources: self.named_source_dir@,
            unnamed_sources: self.unnamed_source_dir@,
            state: self.state_file@,
        }
    }
}

impl Paths {
    /// The paths for the given home, configuration and data directories,
    /// as `Env::load` determines them (without a user).
    pub fn load(
        home: Option<FilePath>,
        config_dir: Option<FilePath>,
        system_config_dir: Option<FilePath>,
        system_data_dir: Option<FilePath>,
    ) -> (r: Result<Paths, EnvError>)
        ensures
            match spec_load(
                0,
                0,
                opt_path_view(home),
                opt_path_view(config_dir),
                opt_path_view(system_config_dir),
                opt_path_view(system_data_dir),
            ) {
                Ok(v) => r matches Ok(paths) && paths@ == v,
                Err(e) => r is Err && r->Err_0 == e,
            },
    {
        let (home, config_dir, data_dir) = match load_dirs(
            home,
            config_dir,
            system_config_dir,
            system_data_dir,
        ) {
            Ok(dirs) => dirs,
            Err(e) => {
                return Err(e);
            },
        };
        let (config, modules, static_sources, dynamic_sources, named_sources, unnamed_sources, state) =
            layout(&config_dir, &data_dir);
        Ok(
            Paths {
                home_dir: home,
                config_file: config,
                module_dir: modules,
                static_source_dir: static_sources,
                dynamic_source_file: dynamic_sources,
                named_source_dir: named_sources,
                unnamed_source_dir: unnamed_sources,
                state_file: state,
            },
        )
    }

    /// The home directory.
    pub fn home_dir(&self) -> (r: &FilePath)
        ensures
            r@ == self@.home,
    {
        &self.home_dir
    }

    /// The configuration file.
    pub fn config_file(&self) -> (r: &FilePath)
        ensures
            r@ == self@.config,
    {
        &self.config_file
    }

    /// The directory of module definitions.
    pub fn module_dir(&self) -> (r: &FilePath)
        ensures
            r@ == self@.modules,
    {
        &self.module_dir
    }

    /// The directory of static sources.
    pub fn static_source_dir(&self) -> (r: &FilePath)
        ensures
            r@ == self@.static_sources,
    {
        &self.static_source_dir
    }

    /// The file that defines dynamic sources.
    pub fn dynamic_source_file(&self) -> (r: &FilePath)
        ensures
            r@ == self@.dynamic_sources,
    {
        &self.dynamic_source_file
    }

    /// The directory where named sources are fetched to.
    pub fn named_source_dir(&self) -> (r: &FilePath)
        ensures
            r@ == self@.named_sources,
    {
        &self.named_source_dir
    }

    /// The directory where unnamed sources are fetched to.
    pub fn unnamed_source_dir(&self) -> (r: &FilePath)
        ensures
            r@ == self@.unnamed_sources,
    {
        &self.unnamed_source_dir
    }

    /// The state file.
    pub fn state_file(&self) -> (r: &FilePath)
        ensures
            r@ == self@.state,
    {
        &self.state_file
    }
}

/// The current user's ID.
pub fn uid(env: &Env) -> (r: u32)
    ensures
        r == env@.uid,
{
    env.uid()
}

/// The current user's group ID.
pub fn gid(env: &Env) -> (r: u32)
    ensures
        r == env@.gid,
{
    env.gid()
}

/// The home directory.
pub fn home(env: &Env) -> (r: &FilePath)
    ensures
        r@ == env@.home,
{
    env.home()
}

/// The configuration file.
pub fn config(env: &Env) -> (r: &FilePath)
    ensures
        r@ == env@.config,
{
    env.config()
}

/// The directory of module definitions.
pub fn modules(env: &Env) -> (r: &FilePath)
    ensures
        r@ == env@.modules,
{
    env.modules()
}

/// The directory of sources kept in the configuration directory.
pub fn config_sources(env: &Env) -> (r: &FilePath)
    ensures
        r@ == env@.static_sources,
{
    env.static_sources()
}

/// The directory of static sources.
pub fn static_sources(env: &Env) -> (r: &FilePath)
    ensures
        r@ == env@.static_sources,
{
    env.static_sources()
}

/// The directory where named sources are fetched to.
pub fn named_sources(env: &Env) -> (r: &FilePath)
    ensures
        r@ == env@.named_sources,
{
    env.named_sources()
}

/// The directory where unnamed sources are fetched to.
pub fn unnamed_sources(env: &Env) -> (r: &FilePath)
    ensures
        r@ == env@.unnamed_sources,
{
    env.unnamed_sources()
}

/// The state file.
pub fn state(env: &Env) -> (r: &FilePath)
    ensures
        r@ == env@.state,
{
    env.state()
}

/// Writes the user's home directory at the start of `path` as `~`.
pub fn tildefy(env: &Env, path: &FilePath) -> (r: FilePath)
    ensures
        r@ == spec_tildefy(path@, env@.home),
{
    env.tildefy(path)
}

/// Writes a leading `~` of `path` as the user's home directory.
pub fn untildefy(env: &Env, path: &FilePath) -> (r: FilePath)
    ensures
        r@ == spec_untildefy(path@, env@.home),
{
    env.untildefy(path)
}

} // verus!
