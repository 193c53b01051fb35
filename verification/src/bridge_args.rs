//! The bridge's arguments, and the configuration document assembled from
//! them.

use crate::json::{
    distinct_keys, key_index, lemma_blocked_apart, lemma_inserted_same,
    lemma_inserted_unique_keys, lemma_key_index, lemma_lookup_accepts, lemma_lookup_apart,
    lemma_lookup_inserted, names_view, JsonModel, JsonNumber, JsonValue,
};
use vstd::prelude::*;

verus! {

/// The largest port number.
pub const MAX_PORT: u16 = 65535;

/// `c` is one of the ten decimal digits.
pub open spec fn is_digit(c: char) -> bool {
    '0' <= c <= '9'
}

/// Every character is a decimal digit.
pub open spec fn all_digits(s: Seq<char>) -> bool {
    forall|i: int| 0 <= i < s.len() ==> is_digit(#[trigger] s[i])
}

/// The number that a string of decimal digits denotes.
pub open spec fn decimal_value(s: Seq<char>) -> nat
    decreases s.len(),
{
    if s.len() == 0 {
        0
    } else {
        (decimal_value(s.drop_last()) * 10 + (s.last() as int - '0' as int)) as nat
    }
}

/// The port that `s` names, where `s` is a bare port number: one or more
/// decimal digits that denote a number up to 65535.
pub open spec fn port_number(s: Seq<char>) -> Option<u16> {
    if s.len() > 0 && all_digits(s) && decimal_value(s) <= MAX_PORT {
        Some(decimal_value(s) as u16)
    } else {
        None
    }
}

/// Each digit more makes the number no smaller.
pub proof fn lemma_decimal_value_grows(s: Seq<char>, n: int)
    requires
        all_digits(s),
        0 <= n <= s.len(),
    ensures
        decimal_value(s.take(n)) <= decimal_value(s),
    decreases s.len() - n,
{
    if n < s.len() {
        lemma_decimal_value_grows(s, n + 1);
        let next = s.take(n + 1);
        assert(next.drop_last() =~= s.take(n));
        assert(is_digit(s[n]));
        assert(next.last() == s[n]);
    } else {
        assert(s.take(n) =~= s);
    }
}

/// Reads a bare port number: `Some` exactly for one or more decimal digits
/// that denote a number up to 65535.
pub fn parse_port(s: &str) -> (r: Option<u16>)
    ensures
        r == port_number(s@),
{
    if !s.is_ascii() {
        proof {
            if all_digits(s@) {
                assert forall|i: int| 0 <= i < s@.len() implies '\0' <= #[trigger] s@[i]
                    <= '\u{7f}' by {
                    assert(is_digit(s@[i]));
                }
            }
        }
        return None;
    }
    let bytes = s.as_bytes();
    proof {
        vstd::string::is_ascii_spec_bytes(s);
    }
    if bytes.len() == 0 {
        return None;
    }
    let mut value: u32 = 0;
    let mut i: usize = 0;
    while i < bytes.len()
        invariant
            i <= bytes@.len(),
            bytes@.len() == s@.len(),
            forall|j: int| 0 <= j < s@.len() ==> s@[j] as u8 == #[trigger] bytes@[j],
            vstd::string::is_ascii(s),
            forall|j: int| 0 <= j < i ==> is_digit(#[trigger] s@[j]),
            value == decimal_value(s@.take(i as int)),
            value <= MAX_PORT,
        decreases bytes.len() - i,
    {
        let b = bytes[i];
        proof {
            vstd::utf8::is_ascii_chars_nat_bound(s@);
            assert(s@[i as int] as u8 == bytes@[i as int]);
            assert((s@[i as int] as nat) < 128);
        }
        if b < 48 || b > 57 {
            assert(!is_digit(s@[i as int]));
            return None;
        }
        assert(is_digit(s@[i as int]));
        let next = value * 10 + (b - 48) as u32;
        proof {
            let taken = s@.take(i + 1);
            assert(taken.drop_last() =~= s@.take(i as int));
            assert(taken.last() == s@[i as int]);
            assert(next == decimal_value(taken));
        }
        if next > MAX_PORT as u32 {
            proof {
                if all_digits(s@) {
                    lemma_decimal_value_grows(s@, i + 1);
                }
            }
            return None;
        }
        value = next;
        i += 1;
    }
    proof {
        assert(s@.take(i as int) =~= s@);
    }
    Some(value as u16)
}

/// A place in the configuration document that assembly writes.
#[derive(Clone, Copy, Debug, PartialEq, Eq, Structural)]
pub enum ConfigKey {
    /// `plugins/template`: this plugin's subsection.
    PluginSection,
    /// `plugins/rest/http_port`: where the REST plugin listens.
    RestHttpPort,
    /// `timestamping/enabled`.
    Timestamping,
    /// `adminspace/enabled`.
    AdminSpace,
    /// `plugins_loading/enabled`.
    PluginsLoading,
}

impl ConfigKey {
    /// The path of this place, from the root of the document.
    pub open spec fn spec_path(self) -> Seq<Seq<char>> {
        match self {
            ConfigKey::PluginSection => seq!["plugins"@, "template"@],
            ConfigKey::RestHttpPort => seq!["plugins"@, "rest"@, "http_port"@],
            ConfigKey::Timestamping => seq!["timestamping"@, "enabled"@],
            ConfigKey::AdminSpace => seq!["adminspace"@, "enabled"@],
            ConfigKey::PluginsLoading => seq!["plugins_loading"@, "enabled"@],
        }
    }

    /// The path of this place, from the root of the document.
    pub fn path(self) -> (r: Vec<&'static str>)
        ensures
            names_view(r@) == self.spec_path(),
    {
        let r = match self {
            ConfigKey::PluginSection => vec!["plugins", "template"],
            ConfigKey::RestHttpPort => vec!["plugins", "rest", "http_port"],
            ConfigKey::Timestamping => vec!["timestamping", "enabled"],
            ConfigKey::AdminSpace => vec!["adminspace", "enabled"],
            ConfigKey::PluginsLoading => vec!["plugins_loading", "enabled"],
        };
        assert(names_view(r@) =~= self.spec_path());
        r
    }
}

/// A place could not be written: the session's document holds, on the way to
/// it, a value that is neither an object nor null.
#[derive(Clone, Copy, Debug, PartialEq, Eq, Structural)]
pub struct AssemblyError {
    /// The place that was to be written.
    pub key: ConfigKey,
    /// How many segments of its path lead to the value in the way.
    pub depth: usize,
}

/// `doc` with `value` written at `key`, or the reason why it cannot be.
pub open spec fn written(doc: JsonModel, key: ConfigKey, value: JsonModel) -> Result<
    JsonModel,
    AssemblyError,
> {
    match doc.blocked_at(key.spec_path()) {
        Some(depth) => Err(AssemblyError { key, depth: depth as usize }),
        None => Ok(doc.inserted(key.spec_path(), value)),
    }
}

/// Writes `value` at `key`; on failure `doc` stays as it was.
pub fn write_at(doc: &mut JsonValue, key: ConfigKey, value: JsonValue) -> (r: Result<
    (),
    AssemblyError,
>)
    ensures
        match r {
            Ok(_) => written(old(doc)@, key, value@) == Ok::<JsonModel, AssemblyError>(final(doc)@),
            Err(e) => written(old(doc)@, key, value@) == Err::<JsonModel, AssemblyError>(e)
                && final(doc)@ == old(doc)@,
        },
{
    let path = key.path();
    let r = doc.insert(path.as_slice(), value);
    match r {
        Ok(_) => Ok(()),
        Err(e) => Err(AssemblyError { key, depth: e.depth }),
    }
}

/// All the bridge's arguments.
#[derive(Debug, PartialEq, Eq)]
pub struct BridgeArgs {
    /// The session's configuration document, as the session-level arguments
    /// give it.
    pub session_args: JsonValue,
    /// Where the REST plugin's HTTP interface listens: a port number, or
    /// `<local_ip>:<port_number>`. The interface stays off when this is
    /// absent.
    pub rest_http_port: Option<String>,
    /// Reserved; carries nothing.
    pub ros_args: (),
}

/// The JSON value that stands for the REST argument: the number for a bare
/// port number, and the string as it is for anything else.
pub open spec fn port_value(port: Seq<char>) -> JsonModel {
    match port_number(port) {
        Some(n) => JsonModel::Number(JsonNumber::PosInt(n as u64)),
        None => JsonModel::String(port),
    }
}

/// The session's document with this plugin's subsection: an empty one is
/// added where the session gives none.
pub open spec fn with_section(session: JsonModel) -> JsonModel {
    if session.lookup(ConfigKey::PluginSection.spec_path()) is None {
        session.inserted(ConfigKey::PluginSection.spec_path(), JsonModel::empty_object())
    } else {
        session
    }
}

/// `doc` with the REST argument, where there is one.
pub open spec fn with_port(doc: JsonModel, port: Option<Seq<char>>) -> JsonModel {
    match port {
        Some(p) => doc.inserted(ConfigKey::RestHttpPort.spec_path(), port_value(p)),
        None => doc,
    }
}

/// `doc` with timestamping, the admin space and plugin loading enabled.
pub open spec fn with_toggles(doc: JsonModel) -> JsonModel {
    doc.inserted(ConfigKey::Timestamping.spec_path(), JsonModel::Bool(true)).inserted(
        ConfigKey::AdminSpace.spec_path(),
        JsonModel::Bool(true),
    ).inserted(ConfigKey::PluginsLoading.spec_path(), JsonModel::Bool(true))
}

/// The document that the bridge's arguments give, before the toggles.
pub open spec fn bridge_doc(session: JsonModel, port: Option<Seq<char>>) -> JsonModel {
    with_port(with_section(session), port)
}

/// The assembled configuration document.
pub open spec fn assembled_doc(session: JsonModel, port: Option<Seq<char>>) -> JsonModel {
    with_toggles(bridge_doc(session, port))
}

/// The error of `key`, if the session's document blocks its path.
pub open spec fn key_error(session: JsonModel, key: ConfigKey) -> Option<AssemblyError> {
    match session.blocked_at(key.spec_path()) {
        Some(depth) => Some(AssemblyError { key, depth: depth as usize }),
        None => None,
    }
}

/// Why the bridge's arguments give no document: the plugin's subsection or,
/// with a REST argument, the REST port cannot be written.
pub open spec fn bridge_error(session: JsonModel, port: Option<Seq<char>>) -> Option<
    AssemblyError,
> {
    if key_error(session, ConfigKey::PluginSection) is Some {
        key_error(session, ConfigKey::PluginSection)
    } else if port is Some && key_error(session, ConfigKey::RestHttpPort) is Some {
        key_error(session, ConfigKey::RestHttpPort)
    } else {
        None
    }
}

/// Why assembly fails: the error of the first place, in the order in which
/// they are written, whose path the session's document blocks.
pub open spec fn assembly_error(session: JsonModel, port: Option<Seq<char>>) -> Option<
    AssemblyError,
> {
    if bridge_error(session, port) is Some {
        bridge_error(session, port)
    } else if key_error(session, ConfigKey::Timestamping) is Some {
        key_error(session, ConfigKey::Timestamping)
    } else if key_error(session, ConfigKey::AdminSpace) is Some {
        key_error(session, ConfigKey::AdminSpace)
    } else {
        key_error(session, ConfigKey::PluginsLoading)
    }
}

/// What the bridge's arguments give: a document, or an error.
pub open spec fn bridge_config(session: JsonModel, port: Option<Seq<char>>) -> Result<
    JsonModel,
    AssemblyError,
> {
    match bridge_error(session, port) {
        Some(e) => Err(e),
        None => Ok(bridge_doc(session, port)),
    }
}

/// What assembly gives: the assembled document, or an error.
pub open spec fn assembled(session: JsonModel, port: Option<Seq<char>>) -> Result<
    JsonModel,
    AssemblyError,
> {
    match assembly_error(session, port) {
        Some(e) => Err(e),
        None => Ok(assembled_doc(session, port)),
    }
}

/// The depth at which the paths of two places part: 1 for the two places
/// under `plugins`, 0 otherwise.
pub open spec fn fork(a: ConfigKey, b: ConfigKey) -> int {
    if (a == ConfigKey::PluginSection && b == ConfigKey::RestHttpPort) || (a
        == ConfigKey::RestHttpPort && b == ConfigKey::PluginSection) {
        1
    } else {
        0
    }
}

/// The paths of two different places name different members at depth
/// `fork`.
pub proof fn lemma_fork(a: ConfigKey, b: ConfigKey)
    requires
        a != b,
    ensures
        0 <= fork(a, b) < a.spec_path().len(),
        fork(a, b) < b.spec_path().len(),
        a.spec_path()[fork(a, b)] != b.spec_path()[fork(a, b)],
{
    reveal_strlit("plugins");
    reveal_strlit("template");
    reveal_strlit("rest");
    reveal_strlit("timestamping");
    reveal_strlit("adminspace");
    reveal_strlit("plugins_loading");
    assert("plugins"@.len() == 7);
    assert("template"@.len() == 8);
    assert("rest"@.len() == 4);
    assert("timestamping"@.len() == 12);
    assert("adminspace"@.len() == 10);
    assert("plugins_loading"@.len() == 15);
}

/// Writing at one place changes neither what is read at another nor whether
/// the other can be written.
pub proof fn lemma_places_apart(doc: JsonModel, a: ConfigKey, value: JsonModel, b: ConfigKey)
    requires
        a != b,
    ensures
        doc.inserted(a.spec_path(), value).lookup(b.spec_path()) == doc.lookup(b.spec_path()),
        doc.accepts(a.spec_path()) ==> doc.inserted(a.spec_path(), value).blocked_at(
            b.spec_path(),
        ) == doc.blocked_at(b.spec_path()),
{
    lemma_fork(a, b);
    lemma_lookup_apart(doc, a.spec_path(), value, b.spec_path(), fork(a, b));
    if doc.accepts(a.spec_path()) {
        lemma_blocked_apart(doc, a.spec_path(), value, b.spec_path(), fork(a, b));
    }
}

/// The JSON value that stands for the REST argument: the number for a bare
/// port number, and the string as it is for anything else.
pub fn rest_port_value(port: &str) -> (r: JsonValue)
    ensures
        r@ == port_value(port@),
{
    match parse_port(port) {
        Some(n) => JsonValue::Number(JsonNumber::PosInt(n as u64)),
        None => JsonValue::String(port.to_owned()),
    }
}

impl BridgeArgs {
    /// The REST argument's characters.
    pub open spec fn spec_port(&self) -> Option<Seq<char>> {
        match self.rest_http_port {
            Some(p) => Some(p@),
            None => None,
        }
    }

    /// The configuration document that these arguments give: the session's
    /// document, with an empty subsection for this plugin where the session
    /// gives none, and with the REST port where the argument is present.
    pub fn into_config(self) -> (r: Result<JsonValue, AssemblyError>)
        ensures
            match r {
                Ok(doc) => bridge_config(self.session_args@, self.spec_port()) == Ok::<
                    JsonModel,
                    AssemblyError,
                >(doc@),
                Err(e) => bridge_config(self.session_args@, self.spec_port()) == Err::<
                    JsonModel,
                    AssemblyError,
                >(e),
            },
    {
        let ghost session = self.session_args@;
        let mut doc = self.session_args;
        let section = ConfigKey::PluginSection.path();
        if doc.lookup(section.as_slice()).is_none() {
            match write_at(&mut doc, ConfigKey::PluginSection, JsonValue::empty_object()) {
                Ok(_) => {},
                Err(e) => {
                    return Err(e);
                },
            }
        } else {
            proof {
                lemma_lookup_accepts(session, ConfigKey::PluginSection.spec_path());
            }
        }
        proof {
            if session.accepts(ConfigKey::PluginSection.spec_path()) {
                lemma_places_apart(
                    session,
                    ConfigKey::PluginSection,
                    JsonModel::empty_object(),
                    ConfigKey::RestHttpPort,
                );
            }
        }
        let value = match self.rest_http_port {
            Some(port) => Some(rest_port_value(port.as_str())),
            None => None,
        };
        let place = ConfigKey::RestHttpPort.path();
        match doc.insert_option(place.as_slice(), value) {
            Ok(_) => Ok(doc),
            Err(e) => Err(AssemblyError { key: ConfigKey::RestHttpPort, depth: e.depth }),
        }
    }

    /// The configuration document that these arguments give; the arguments
    /// stay with the caller.
    pub fn to_config(&self) -> (r: Result<JsonValue, AssemblyError>)
        ensures
            match r {
                Ok(doc) => bridge_config(self.session_args@, self.spec_port()) == Ok::<
                    JsonModel,
                    AssemblyError,
                >(doc@),
                Err(e) => bridge_config(self.session_args@, self.spec_port()) == Err::<
                    JsonModel,
                    AssemblyError,
                >(e),
            },
    {
        self.clone().into_config()
    }
}

impl Clone for BridgeArgs {
    /// A copy with the same content.
    fn clone(&self) -> (r: BridgeArgs)
        ensures
            r.session_args@ == self.session_args@,
            r.spec_port() == self.spec_port(),
    {
        BridgeArgs {
            session_args: self.session_args.clone(),
            rest_http_port: match &self.rest_http_port {
                Some(port) => Some(port.clone()),
                None => None,
            },
            ros_args: (),
        }
    }
}

/// Assembles the configuration document from the bridge's arguments: what
/// the arguments give, with timestamping, the admin space and plugin loading
/// enabled whatever the session's document says of them.
pub fn assemble_config(args: BridgeArgs) -> (r: Result<JsonValue, AssemblyError>)
    ensures
        match r {
            Ok(doc) => assembled(args.session_args@, args.spec_port()) == Ok::<
                JsonModel,
                AssemblyError,
            >(doc@),
            Err(e) => assembled(args.session_args@, args.spec_port()) == Err::<
                JsonModel,
                AssemblyError,
            >(e),
        },
{
    let ghost session = args.session_args@;
    let ghost port = args.spec_port();
    let mut doc = match args.into_config() {
        Ok(doc) => doc,
        Err(e) => {
            return Err(e);
        },
    };
    proof {
        lemma_toggles_open(session, port);
    }
    match write_at(&mut doc, ConfigKey::Timestamping, JsonValue::Bool(true)) {
        Ok(_) => {},
        Err(e) => {
            return Err(e);
        },
    }
    proof {
        lemma_places_apart(
            bridge_doc(session, port),
            ConfigKey::Timestamping,
            JsonModel::Bool(true),
            ConfigKey::AdminSpace,
        );
        lemma_places_apart(
            bridge_doc(session, port),
            ConfigKey::Timestamping,
            JsonModel::Bool(true),
            ConfigKey::PluginsLoading,
        );
    }
    match write_at(&mut doc, ConfigKey::AdminSpace, JsonValue::Bool(true)) {
        Ok(_) => {},
        Err(e) => {
            return Err(e);
        },
    }
    proof {
        lemma_places_apart(
            bridge_doc(session, port).inserted(
                ConfigKey::Timestamping.spec_path(),
                JsonModel::Bool(true),
            ),
            ConfigKey::AdminSpace,
            JsonModel::Bool(true),
            ConfigKey::PluginsLoading,
        );
    }
    match write_at(&mut doc, ConfigKey::PluginsLoading, JsonValue::Bool(true)) {
        Ok(_) => Ok(doc),
        Err(e) => Err(e),
    }
}

/// Where the bridge's arguments give a document, each toggle can be written
/// in it exactly if it can be written in the session's document.
proof fn lemma_toggles_open(session: JsonModel, port: Option<Seq<char>>)
    requires
        bridge_error(session, port) is None,
    ensures
        bridge_doc(session, port).blocked_at(ConfigKey::Timestamping.spec_path())
            == session.blocked_at(ConfigKey::Timestamping.spec_path()),
        bridge_doc(session, port).blocked_at(ConfigKey::AdminSpace.spec_path())
            == session.blocked_at(ConfigKey::AdminSpace.spec_path()),
        bridge_doc(session, port).blocked_at(ConfigKey::PluginsLoading.spec_path())
            == session.blocked_at(ConfigKey::PluginsLoading.spec_path()),
{
    let section = ConfigKey::PluginSection;
    let rest = ConfigKey::RestHttpPort;
    let empty = JsonModel::empty_object();
    lemma_places_apart(session, section, empty, rest);
    lemma_places_apart(session, section, empty, ConfigKey::Timestamping);
    lemma_places_apart(session, section, empty, ConfigKey::AdminSpace);
    lemma_places_apart(session, section, empty, ConfigKey::PluginsLoading);
    let d1 = with_section(session);
    if port is Some {
        let value = port_value(port->Some_0);
        lemma_places_apart(d1, rest, value, ConfigKey::Timestamping);
        lemma_places_apart(d1, rest, value, ConfigKey::AdminSpace);
        lemma_places_apart(d1, rest, value, ConfigKey::PluginsLoading);
    }
}

/// What is read at each place of the assembled document, in terms of the
/// session's document.
proof fn lemma_assembled_places(session: JsonModel, port: Option<Seq<char>>)
    ensures
        assembled_doc(session, port).lookup(ConfigKey::PluginSection.spec_path()) == Some(
            match session.lookup(ConfigKey::PluginSection.spec_path()) {
                Some(section) => section,
                None => JsonModel::empty_object(),
            },
        ),
        assembled_doc(session, port).lookup(ConfigKey::RestHttpPort.spec_path()) == match port {
            Some(p) => Some(port_value(p)),
            None => session.lookup(ConfigKey::RestHttpPort.spec_path()),
        },
        assembled_doc(session, port).lookup(ConfigKey::Timestamping.spec_path()) == Some(
            JsonModel::Bool(true),
        ),
        assembled_doc(session, port).lookup(ConfigKey::AdminSpace.spec_path()) == Some(
            JsonModel::Bool(true),
        ),
        assembled_doc(session, port).lookup(ConfigKey::PluginsLoading.spec_path()) == Some(
            JsonModel::Bool(true),
        ),
{
    let section = ConfigKey::PluginSection;
    let rest = ConfigKey::RestHttpPort;
    let stamps = ConfigKey::Timestamping;
    let admin = ConfigKey::AdminSpace;
    let loading = ConfigKey::PluginsLoading;
    let empty = JsonModel::empty_object();
    let on = JsonModel::Bool(true);
    let d1 = with_section(session);
    lemma_lookup_inserted(session, section.spec_path(), empty);
    lemma_places_apart(session, section, empty, rest);
    let d2 = with_port(d1, port);
    if port is Some {
        let value = port_value(port->Some_0);
        lemma_lookup_inserted(d1, rest.spec_path(), value);
        lemma_places_apart(d1, rest, value, section);
    }
    let d3 = d2.inserted(stamps.spec_path(), on);
    lemma_lookup_inserted(d2, stamps.spec_path(), on);
    lemma_places_apart(d2, stamps, on, section);
    lemma_places_apart(d2, stamps, on, rest);
    let d4 = d3.inserted(admin.spec_path(), on);
    lemma_lookup_inserted(d3, admin.spec_path(), on);
    lemma_places_apart(d3, admin, on, section);
    lemma_places_apart(d3, admin, on, rest);
    lemma_places_apart(d3, admin, on, stamps);
    lemma_lookup_inserted(d4, loading.spec_path(), on);
    lemma_places_apart(d4, loading, on, section);
    lemma_places_apart(d4, loading, on, rest);
    lemma_places_apart(d4, loading, on, stamps);
    lemma_places_apart(d4, loading, on, admin);
}

/// Member `i` is the only member named `key`.
pub open spec fn only_member(members: Seq<(Seq<char>, JsonModel)>, key: Seq<char>, i: int) -> bool {
    &&& 0 <= i < members.len()
    &&& members[i].0 == key
    &&& forall|j: int| 0 <= j < members.len() && j != i ==> (#[trigger] members[j]).0 != key
}

/// The assembled document has a subsection for this plugin: the session's
/// own where it gives one, an empty one where it does not. Where no object
/// of the session's document has two members of one name, none of the
/// assembled document has, and so its `plugins` object holds exactly one
/// member named `template`.
pub proof fn lemma_one_plugin_section(session: JsonModel, port: Option<Seq<char>>)
    ensures
        assembled_doc(session, port).lookup(ConfigKey::PluginSection.spec_path()) == Some(
            match session.lookup(ConfigKey::PluginSection.spec_path()) {
                Some(section) => section,
                None => JsonModel::empty_object(),
            },
        ),
        session.unique_keys() ==> assembled_doc(session, port).unique_keys(),
        session.unique_keys() ==> (assembled_doc(session, port).member("plugins"@) matches Some(
            JsonModel::Object(plugins),
        ) && exists|i: int| only_member(plugins, "template"@, i)),
{
    lemma_assembled_places(session, port);
    let doc = assembled_doc(session, port);
    if session.unique_keys() {
        let on = JsonModel::Bool(true);
        let d1 = with_section(session);
        lemma_inserted_unique_keys(
            session,
            ConfigKey::PluginSection.spec_path(),
            JsonModel::empty_object(),
        );
        let d2 = with_port(d1, port);
        if port is Some {
            lemma_inserted_unique_keys(
                d1,
                ConfigKey::RestHttpPort.spec_path(),
                port_value(port->Some_0),
            );
        }
        lemma_inserted_unique_keys(d2, ConfigKey::Timestamping.spec_path(), on);
        let d3 = d2.inserted(ConfigKey::Timestamping.spec_path(), on);
        lemma_inserted_unique_keys(d3, ConfigKey::AdminSpace.spec_path(), on);
        let d4 = d3.inserted(ConfigKey::AdminSpace.spec_path(), on);
        lemma_inserted_unique_keys(d4, ConfigKey::PluginsLoading.spec_path(), on);
        let path = ConfigKey::PluginSection.spec_path();
        assert(path[0] == "plugins"@);
        assert(path.drop_first()[0] == "template"@);
        let top = doc->Object_0;
        lemma_key_index(top, "plugins"@);
        let below = top[key_index(top, "plugins"@)].1;
        assert(doc.member("plugins"@) == Some(below));
        assert(below.lookup(path.drop_first()) is Some);
        let plugins = below->Object_0;
        lemma_key_index(plugins, "template"@);
        assert(below.unique_keys());
        assert(distinct_keys(plugins));
        assert(only_member(plugins, "template"@, key_index(plugins, "template"@)));
    }
}

/// Assembling again from an assembled document, with the same REST argument,
/// gives that document again: nothing is added a second time, and nothing
/// fails that did not fail before.
pub proof fn lemma_assembly_idempotent(session: JsonModel, port: Option<Seq<char>>)
    ensures
        assembled_doc(assembled_doc(session, port), port) == assembled_doc(session, port),
        assembly_error(assembled_doc(session, port), port) is None,
        assembled(assembled_doc(session, port), port) == Ok::<JsonModel, AssemblyError>(
            assembled_doc(session, port),
        ),
{
    lemma_assembled_places(session, port);
    let doc = assembled_doc(session, port);
    let on = JsonModel::Bool(true);
    lemma_lookup_accepts(doc, ConfigKey::PluginSection.spec_path());
    lemma_lookup_accepts(doc, ConfigKey::Timestamping.spec_path());
    lemma_lookup_accepts(doc, ConfigKey::AdminSpace.spec_path());
    lemma_lookup_accepts(doc, ConfigKey::PluginsLoading.spec_path());
    if port is Some {
        lemma_lookup_accepts(doc, ConfigKey::RestHttpPort.spec_path());
        lemma_inserted_same(doc, ConfigKey::RestHttpPort.spec_path(), port_value(port->Some_0));
    }
    lemma_inserted_same(doc, ConfigKey::Timestamping.spec_path(), on);
    lemma_inserted_same(doc, ConfigKey::AdminSpace.spec_path(), on);
    lemma_inserted_same(doc, ConfigKey::PluginsLoading.spec_path(), on);
}

/// With a REST argument the assembled document holds its value at
/// `plugins/rest/http_port`: the number for a bare port number, the string
/// as it is otherwise. Without one, that place is as the session's document
/// has it: absent where it was absent.
pub proof fn lemma_rest_port(session: JsonModel, port: Option<Seq<char>>)
    ensures
        assembled_doc(session, port).lookup(ConfigKey::RestHttpPort.spec_path()) == match port {
            Some(p) => Some(port_value(p)),
            None => session.lookup(ConfigKey::RestHttpPort.spec_path()),
        },
{
    lemma_assembled_places(session, port);
}

/// Whatever the session's document and the REST argument are, the assembled
/// document has timestamping, the admin space and plugin loading enabled.
pub proof fn lemma_toggles_enabled(session: JsonModel, port: Option<Seq<char>>)
    ensures
        assembled_doc(session, port).lookup(ConfigKey::Timestamping.spec_path()) == Some(
            JsonModel::Bool(true),
        ),
        assembled_doc(session, port).lookup(ConfigKey::AdminSpace.spec_path()) == Some(
            JsonModel::Bool(true),
        ),
        assembled_doc(session, port).lookup(ConfigKey::PluginsLoading.spec_path()) == Some(
            JsonModel::Bool(true),
        ),
{
    lemma_assembled_places(session, port);
}

/// `path` names, at some depth, a member other than the one that the path
/// of `key` names there.
pub open spec fn apart_from(path: Seq<Seq<char>>, key: ConfigKey) -> bool {
    exists|k: int| parts_at(path, key, k)
}

/// `path` and the path of `key` name different members at depth `k`.
pub open spec fn parts_at(path: Seq<Seq<char>>, key: ConfigKey, k: int) -> bool {
    0 <= k < path.len() && k < key.spec_path().len() && path[k] != key.spec_path()[k]
}

/// What the session's document holds anywhere apart from the five places
/// that assembly writes is in the assembled document as it was.
pub proof fn lemma_session_verbatim(
    session: JsonModel,
    port: Option<Seq<char>>,
    path: Seq<Seq<char>>,
)
    requires
        forall|key: ConfigKey| apart_from(path, key),
    ensures
        assembled_doc(session, port).lookup(path) == session.lookup(path),
{
    let on = JsonModel::Bool(true);
    let d1 = with_section(session);
    lemma_verbatim_step(session, ConfigKey::PluginSection, JsonModel::empty_object(), path);
    let d2 = with_port(d1, port);
    if port is Some {
        lemma_verbatim_step(d1, ConfigKey::RestHttpPort, port_value(port->Some_0), path);
    }
    lemma_verbatim_step(d2, ConfigKey::Timestamping, on, path);
    let d3 = d2.inserted(ConfigKey::Timestamping.spec_path(), on);
    lemma_verbatim_step(d3, ConfigKey::AdminSpace, on, path);
    let d4 = d3.inserted(ConfigKey::AdminSpace.spec_path(), on);
    lemma_verbatim_step(d4, ConfigKey::PluginsLoading, on, path);
}

/// Writing at a place changes nothing that is read at a path apart from it.
proof fn lemma_verbatim_step(doc: JsonModel, key: ConfigKey, value: JsonModel, path: Seq<Seq<char>>)
    requires
        apart_from(path, key),
    ensures
        doc.inserted(key.spec_path(), value).lookup(path) == doc.lookup(path),
{
    let k = choose|k: int| parts_at(path, key, k);
    lemma_lookup_apart(doc, key.spec_path(), value, path, k);
}

} // verus!
