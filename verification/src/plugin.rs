//! The plugin's start: from the host's configuration document and the
//! plugin's name to the plugin's settings and the place where its background
//! work runs.

use crate::bridge_args::{
    assembled_doc, bridge_doc, lemma_fork, lemma_one_plugin_section, port_value, with_section,
    ConfigKey,
};
use crate::config::{
    lemma_empty_subsection, parse, Config, ConfigError, ConfigErrorModel, ConfigModel,
};
use crate::dispatch::{Dispatch, Dispatcher, Event, PoolSize};
use crate::json::{lemma_lookup_apart, lemma_lookup_prefix, path_view, JsonModel, JsonValue};
use vstd::prelude::*;

verus! {

/// The plugin. Its name in a configuration document is
/// [`TemplatePlugin::DEFAULT_NAME`] unless the host registers it under
/// another.
#[derive(Clone, Copy, Debug, PartialEq, Eq, Structural)]
pub struct TemplatePlugin;

/// Why the plugin did not start.
#[derive(Clone, Debug, PartialEq, Eq)]
pub enum StartError {
    /// The host's configuration holds no subsection under the plugin's name.
    MissingConfig,
    /// The subsection does not fit the schema.
    InvalidConfig(ConfigError),
}

/// The mathematical content of a [`StartError`].
pub ghost enum StartErrorModel {
    MissingConfig,
    InvalidConfig(ConfigErrorModel),
}

impl View for StartError {
    type V = StartErrorModel;

    open spec fn view(&self) -> StartErrorModel {
        match self {
            StartError::MissingConfig => StartErrorModel::MissingConfig,
            StartError::InvalidConfig(e) => StartErrorModel::InvalidConfig(e@),
        }
    }
}

/// A plugin that has started.
#[derive(Clone, Debug, PartialEq, Eq)]
pub struct Started {
    /// The settings that the plugin runs with.
    pub config: Config,
    /// Where its background work is to be submitted.
    pub dispatch: Dispatch,
}

/// The path of the subsection of the plugin `name`.
pub open spec fn section_path(name: Seq<char>) -> Seq<Seq<char>> {
    seq!["plugins"@, name]
}

/// The settings that a plugin named `name` starts with under `host_config`,
/// or the reason why it does not start.
pub open spec fn resolved(host_config: JsonModel, name: Seq<char>) -> Result<
    ConfigModel,
    StartErrorModel,
> {
    match host_config.lookup(section_path(name)) {
        None => Err(StartErrorModel::MissingConfig),
        Some(section) => match parse(section) {
            Ok(config) => Ok(config),
            Err(e) => Err(StartErrorModel::InvalidConfig(e)),
        },
    }
}

/// The thread counts of the settings.
pub open spec fn pool_size(config: ConfigModel) -> PoolSize {
    PoolSize {
        work_thread_num: config.work_thread_num,
        max_block_thread_num: config.max_block_thread_num,
    }
}

impl StartErrorModel {
    /// The error in words, for a plugin named `name`.
    pub open spec fn message(self, name: Seq<char>) -> Seq<char> {
        match self {
            StartErrorModel::MissingConfig => "Plugin `"@ + name + "`: missing config"@,
            StartErrorModel::InvalidConfig(e) => "Plugin `"@ + name + "` configuration error: "@
                + e.message(),
        }
    }
}

impl StartError {
    /// The error in words, for a plugin named `name`.
    pub fn message(&self, name: &str) -> (r: String)
        ensures
            r@ == self@.message(name@),
    {
        let mut text = "Plugin `".to_owned();
        text.append(name);
        match self {
            StartError::MissingConfig => {
                text.append("`: missing config");
            },
            StartError::InvalidConfig(e) => {
                text.append("` configuration error: ");
                let cause = e.message();
                text.append(cause.as_str());
            },
        }
        text
    }
}

/// The subsection of the plugin `name` in a configuration document.
pub fn plugin<'a>(config: &'a JsonValue, name: &str) -> (r: Option<&'a JsonValue>)
    ensures
        match r {
            Some(section) => config@.lookup(section_path(name@)) == Some(section@),
            None => config@.lookup(section_path(name@)) is None,
        },
{
    let path = ["plugins", name];
    assert(path_view(&path) =~= section_path(name@));
    config.lookup(&path)
}

impl TemplatePlugin {
    /// The name under which the plugin is registered by default.
    pub const DEFAULT_NAME: &'static str = "template";

    /// The settings that the plugin named `name` starts with under the host's
    /// configuration: those of the subsection of that name, read against the
    /// schema. Fails if there is no such subsection, or if it does not fit.
    pub fn resolve(name: &str, host_config: &JsonValue) -> (r: Result<Config, StartError>)
        ensures
            match r {
                Ok(config) => resolved(host_config@, name@) == Ok::<ConfigModel, StartErrorModel>(
                    config@,
                ),
                Err(e) => resolved(host_config@, name@) == Err::<ConfigModel, StartErrorModel>(e@),
            },
    {
        let section = match plugin(host_config, name) {
            Some(section) => section,
            None => {
                return Err(StartError::MissingConfig);
            },
        };
        match Config::from_json(section) {
            Ok(config) => Ok(config),
            Err(e) => Err(StartError::InvalidConfig(e)),
        }
    }

    /// Starts the plugin named `name` under the host's configuration.
    ///
    /// The subsection of that name is read against the schema. If it is
    /// missing or does not fit, the start fails and the shared state is as it
    /// was. Otherwise the thread counts are recorded, and the background work
    /// is dispatched: onto the caller's execution context if `ambient` says
    /// there is one, onto the fallback context if not.
    pub fn start(name: &str, host_config: &JsonValue, shared: &mut Dispatcher, ambient: bool) -> (r:
        Result<Started, StartError>)
        ensures
            match r {
                Ok(started) => {
                    &&& resolved(host_config@, name@) == Ok::<ConfigModel, StartErrorModel>(
                        started.config@,
                    )
                    &&& started.dispatch == old(shared)@.step(
                        Event::Record(pool_size(started.config@)),
                    ).target(ambient)
                    &&& final(shared)@ == old(shared)@.step(
                        Event::Record(pool_size(started.config@)),
                    ).step(Event::Dispatch { ambient })
                },
                Err(e) => resolved(host_config@, name@) == Err::<ConfigModel, StartErrorModel>(e@)
                    && final(shared)@ == old(shared)@,
            },
    {
        let config = match TemplatePlugin::resolve(name, host_config) {
            Ok(config) => config,
            Err(e) => {
                return Err(e);
            },
        };
        shared.record(
            PoolSize {
                work_thread_num: config.work_thread_num,
                max_block_thread_num: config.max_block_thread_num,
            },
        );
        let dispatch = shared.dispatch(ambient);
        Ok(Started { config, dispatch })
    }
}

/// Whether the REST plugin is to be declared: whether the configuration
/// holds a subsection for it.
pub fn rest_plugin_configured(config: &JsonValue) -> (r: bool)
    ensures
        r == config@.lookup(section_path("rest"@)) is Some,
{
    plugin(config, "rest").is_some()
}

/// Under an assembled document the plugin, started under its default name,
/// always finds its subsection; and where the session gave none, it starts
/// with the default thread counts.
pub proof fn lemma_start_finds_section(session: JsonModel, port: Option<Seq<char>>)
    ensures
        resolved(assembled_doc(session, port), TemplatePlugin::DEFAULT_NAME@)
            != Err::<ConfigModel, StartErrorModel>(StartErrorModel::MissingConfig),
        session.lookup(section_path(TemplatePlugin::DEFAULT_NAME@)) is None ==> resolved(
            assembled_doc(session, port),
            TemplatePlugin::DEFAULT_NAME@,
        ) == Ok::<ConfigModel, StartErrorModel>(
            ConfigModel {
                work_thread_num: 2,
                max_block_thread_num: 50,
                required: None,
                path: None,
            },
        ),
{
    lemma_one_plugin_section(session, port);
    lemma_empty_subsection();
    assert(section_path(TemplatePlugin::DEFAULT_NAME@) =~= ConfigKey::PluginSection.spec_path());
}

/// With a REST argument the assembled document holds a subsection for the
/// REST plugin, so that plugin is declared.
pub proof fn lemma_rest_plugin_declared(session: JsonModel, port: Seq<char>)
    ensures
        assembled_doc(session, Some(port)).lookup(section_path("rest"@)) is Some,
{
    let on = JsonModel::Bool(true);
    let rest = ConfigKey::RestHttpPort;
    let d1 = with_section(session);
    let d2 = bridge_doc(session, Some(port));
    lemma_lookup_prefix(d1, rest.spec_path(), port_value(port), 2);
    assert(rest.spec_path().take(2) =~= section_path("rest"@));
    let path = section_path("rest"@);
    lemma_fork(ConfigKey::Timestamping, rest);
    lemma_fork(ConfigKey::AdminSpace, rest);
    lemma_fork(ConfigKey::PluginsLoading, rest);
    lemma_lookup_apart(d2, ConfigKey::Timestamping.spec_path(), on, path, 0);
    let d3 = d2.inserted(ConfigKey::Timestamping.spec_path(), on);
    lemma_lookup_apart(d3, ConfigKey::AdminSpace.spec_path(), on, path, 0);
    let d4 = d3.inserted(ConfigKey::AdminSpace.spec_path(), on);
    lemma_lookup_apart(d4, ConfigKey::PluginsLoading.spec_path(), on, path, 0);
}

} // verus!
