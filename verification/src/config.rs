//! Settings of the plugin's own configuration subsection.
//!
//! The subsection is a JSON object. It may give `work_thread_num` and
//! `max_block_thread_num`, and the two members that the host's plugin loader
//! reserves, `__required__` and `__path__`. Any other member is refused.

use crate::json::{
    items_view, key_index, lemma_array_view, lemma_key_index, lemma_object_view, members_view,
    JsonModel, JsonNumber, JsonValue,
};
use vstd::prelude::*;

verus! {

/// Worker threads of the fallback execution context when the subsection
/// leaves `work_thread_num` out.
pub const DEFAULT_WORK_THREAD_NUM: usize = 2;

/// Upper bound on blocking threads of the fallback execution context when the
/// subsection leaves `max_block_thread_num` out.
pub const DEFAULT_MAX_BLOCK_THREAD_NUM: usize = 50;

/// The default worker-thread count.
pub fn default_work_thread_num() -> (n: usize)
    ensures
        n == DEFAULT_WORK_THREAD_NUM,
        n == 2,
{
    DEFAULT_WORK_THREAD_NUM
}

/// The default bound on blocking threads.
pub fn default_max_block_thread_num() -> (n: usize)
    ensures
        n == DEFAULT_MAX_BLOCK_THREAD_NUM,
        n == 50,
{
    DEFAULT_MAX_BLOCK_THREAD_NUM
}

/// The plugin's settings.
#[derive(Clone, Debug, PartialEq, Eq)]
pub struct Config {
    /// Worker threads of the fallback execution context.
    pub work_thread_num: usize,
    /// Upper bound on its blocking threads.
    pub max_block_thread_num: usize,
    /// The loader's `__required__` flag, if given.
    pub required: Option<bool>,
    /// The loader's `__path__`, always as a list, if given.
    pub path: Option<Vec<String>>,
}

/// The mathematical content of a [`Config`].
pub ghost struct ConfigModel {
    pub work_thread_num: usize,
    pub max_block_thread_num: usize,
    pub required: Option<bool>,
    pub path: Option<Seq<Seq<char>>>,
}

/// The content of a list of strings.
pub open spec fn strings_view(strings: Seq<String>) -> Seq<Seq<char>> {
    Seq::new(strings.len(), |i: int| strings[i]@)
}

impl View for Config {
    type V = ConfigModel;

    open spec fn view(&self) -> ConfigModel {
        ConfigModel {
            work_thread_num: self.work_thread_num,
            max_block_thread_num: self.max_block_thread_num,
            required: self.required,
            path: match self.path {
                Some(list) => Some(strings_view(list@)),
                None => None,
            },
        }
    }
}

/// A member that the schema knows.
#[derive(Clone, Copy, Debug, PartialEq, Eq, Structural)]
pub enum Field {
    WorkThreadNum,
    MaxBlockThreadNum,
    Required,
    Path,
}

impl Field {
    /// The member's name in the subsection.
    pub open spec fn spec_name(self) -> Seq<char> {
        match self {
            Field::WorkThreadNum => "work_thread_num"@,
            Field::MaxBlockThreadNum => "max_block_thread_num"@,
            Field::Required => "__required__"@,
            Field::Path => "__path__"@,
        }
    }

    /// The member's name in the subsection.
    pub fn name(self) -> (r: &'static str)
        ensures
            r@ == self.spec_name(),
    {
        match self {
            Field::WorkThreadNum => "work_thread_num",
            Field::MaxBlockThreadNum => "max_block_thread_num",
            Field::Required => "__required__",
            Field::Path => "__path__",
        }
    }
}

/// Why a subsection does not fit the schema.
#[derive(Clone, Debug, PartialEq, Eq)]
pub enum ConfigError {
    /// The subsection is not an object.
    NotAnObject,
    /// A member of this name is not part of the schema.
    UnknownField(String),
    /// The member occurs a second time.
    DuplicateField(Field),
    /// The member's value has the wrong JSON type.
    InvalidType(Field),
    /// The member's value is an integer that is negative or too large.
    InvalidValue(Field),
}

/// The mathematical content of a [`ConfigError`].
pub ghost enum ConfigErrorModel {
    NotAnObject,
    UnknownField(Seq<char>),
    DuplicateField(Field),
    InvalidType(Field),
    InvalidValue(Field),
}

impl View for ConfigError {
    type V = ConfigErrorModel;

    open spec fn view(&self) -> ConfigErrorModel {
        match self {
            ConfigError::NotAnObject => ConfigErrorModel::NotAnObject,
            ConfigError::UnknownField(name) => ConfigErrorModel::UnknownField(name@),
            ConfigError::DuplicateField(f) => ConfigErrorModel::DuplicateField(*f),
            ConfigError::InvalidType(f) => ConfigErrorModel::InvalidType(*f),
            ConfigError::InvalidValue(f) => ConfigErrorModel::InvalidValue(*f),
        }
    }
}

/// The field that a member name stands for.
pub open spec fn field_named(name: Seq<char>) -> Option<Field> {
    if name == Field::WorkThreadNum.spec_name() {
        Some(Field::WorkThreadNum)
    } else if name == Field::MaxBlockThreadNum.spec_name() {
        Some(Field::MaxBlockThreadNum)
    } else if name == Field::Required.spec_name() {
        Some(Field::Required)
    } else if name == Field::Path.spec_name() {
        Some(Field::Path)
    } else {
        None
    }
}

/// The thread count that `value` gives for `field`: a JSON integer from 0 to
/// `usize::MAX`.
pub open spec fn count_of(field: Field, value: JsonModel) -> Result<usize, ConfigErrorModel> {
    match value {
        JsonModel::Number(JsonNumber::PosInt(u)) => if u <= usize::MAX {
            Ok(u as usize)
        } else {
            Err(ConfigErrorModel::InvalidValue(field))
        },
        JsonModel::Number(JsonNumber::NegInt(i)) => if 0 <= i <= usize::MAX {
            Ok(i as usize)
        } else {
            Err(ConfigErrorModel::InvalidValue(field))
        },
        _ => Err(ConfigErrorModel::InvalidType(field)),
    }
}

/// The `__required__` flag that `value` gives: a boolean, or null for none.
pub open spec fn flag_of(value: JsonModel) -> Result<Option<bool>, ConfigErrorModel> {
    match value {
        JsonModel::Null => Ok(None),
        JsonModel::Bool(b) => Ok(Some(b)),
        _ => Err(ConfigErrorModel::InvalidType(Field::Required)),
    }
}

/// Every item is a string.
pub open spec fn all_strings(items: Seq<JsonModel>) -> bool {
    forall|i: int| 0 <= i < items.len() ==> #[trigger] items[i] is String
}

/// The `__path__` that `value` gives: null for none, one string as a list of
/// one, or a list of strings as it stands.
pub open spec fn path_of(value: JsonModel) -> Result<Option<Seq<Seq<char>>>, ConfigErrorModel> {
    match value {
        JsonModel::Null => Ok(None),
        JsonModel::String(s) => Ok(Some(seq![s])),
        JsonModel::Array(items) => if all_strings(items) {
            Ok(Some(Seq::new(items.len(), |i: int| items[i]->String_0)))
        } else {
            Err(ConfigErrorModel::InvalidType(Field::Path))
        },
        _ => Err(ConfigErrorModel::InvalidType(Field::Path)),
    }
}

/// What is wrong with `value` as the value of `field`, if anything.
pub open spec fn value_error(field: Field, value: JsonModel) -> Option<ConfigErrorModel> {
    match field {
        Field::WorkThreadNum | Field::MaxBlockThreadNum => match count_of(field, value) {
            Ok(_) => None,
            Err(e) => Some(e),
        },
        Field::Required => match flag_of(value) {
            Ok(_) => None,
            Err(e) => Some(e),
        },
        Field::Path => match path_of(value) {
            Ok(_) => None,
            Err(e) => Some(e),
        },
    }
}

/// What is wrong with member `i`, if anything: its name is unknown, or was
/// used by an earlier member, or its value does not fit.
pub open spec fn member_error(members: Seq<(Seq<char>, JsonModel)>, i: int) -> Option<
    ConfigErrorModel,
> {
    match field_named(members[i].0) {
        None => Some(ConfigErrorModel::UnknownField(members[i].0)),
        Some(field) => if key_index(members, members[i].0) != i {
            Some(ConfigErrorModel::DuplicateField(field))
        } else {
            value_error(field, members[i].1)
        },
    }
}

/// The error of the first of the members before position `n` that has one.
pub open spec fn first_error(members: Seq<(Seq<char>, JsonModel)>, n: int) -> Option<
    ConfigErrorModel,
>
    decreases n,
{
    if n <= 0 {
        None
    } else {
        match first_error(members, n - 1) {
            Some(e) => Some(e),
            None => member_error(members, n - 1),
        }
    }
}

/// The settings that a subsection without errors gives: each member's value,
/// and the default where the member is missing.
pub open spec fn settings_of(subsection: JsonModel) -> ConfigModel {
    ConfigModel {
        work_thread_num: match subsection.member(Field::WorkThreadNum.spec_name()) {
            Some(v) => count_of(Field::WorkThreadNum, v)->Ok_0,
            None => DEFAULT_WORK_THREAD_NUM,
        },
        max_block_thread_num: match subsection.member(Field::MaxBlockThreadNum.spec_name()) {
            Some(v) => count_of(Field::MaxBlockThreadNum, v)->Ok_0,
            None => DEFAULT_MAX_BLOCK_THREAD_NUM,
        },
        required: match subsection.member(Field::Required.spec_name()) {
            Some(v) => flag_of(v)->Ok_0,
            None => None,
        },
        path: match subsection.member(Field::Path.spec_name()) {
            Some(v) => path_of(v)->Ok_0,
            None => None,
        },
    }
}

/// What reading a subsection against the schema gives: the settings, or the
/// error of the first member that has one.
pub open spec fn parse(subsection: JsonModel) -> Result<ConfigModel, ConfigErrorModel> {
    match subsection {
        JsonModel::Object(members) => match first_error(members, members.len() as int) {
            Some(e) => Err(e),
            None => Ok(settings_of(subsection)),
        },
        _ => Err(ConfigErrorModel::NotAnObject),
    }
}

/// The four member names differ from one another.
pub proof fn lemma_field_names(a: Field, b: Field)
    ensures
        a.spec_name() == b.spec_name() <==> a == b,
        field_named(a.spec_name()) == Some(a),
{
    reveal_strlit("work_thread_num");
    reveal_strlit("max_block_thread_num");
    reveal_strlit("__required__");
    reveal_strlit("__path__");
    assert("work_thread_num"@.len() == 15);
    assert("max_block_thread_num"@.len() == 20);
    assert("__required__"@.len() == 12);
    assert("__path__"@.len() == 8);
}

/// `first_error` names the error of the first member that has one, and is
/// `None` exactly when no member before `n` has an error.
pub proof fn lemma_first_error(members: Seq<(Seq<char>, JsonModel)>, n: int)
    requires
        0 <= n <= members.len(),
    ensures
        first_error(members, n) is None <==> forall|i: int|
            0 <= i < n ==> member_error(members, i) is None,
        first_error(members, n) matches Some(e) ==> exists|i: int|
            0 <= i < n && member_error(members, i) == Some(e) && forall|j: int|
                0 <= j < i ==> member_error(members, j) is None,
    decreases n,
{
    if n > 0 {
        lemma_first_error(members, n - 1);
        if first_error(members, n - 1) is None {
            if member_error(members, n - 1) is Some {
                let e = member_error(members, n - 1)->Some_0;
                assert(0 <= n - 1 < n && member_error(members, n - 1) == Some(e) && forall|j: int|
                    0 <= j < n - 1 ==> member_error(members, j) is None);
            }
        }
    }
}

/// The field that a member name stands for.
pub fn field_of(name: &String) -> (r: Option<Field>)
    ensures
        r == field_named(name@),
{
    if *name == Field::WorkThreadNum.name().to_owned() {
        Some(Field::WorkThreadNum)
    } else if *name == Field::MaxBlockThreadNum.name().to_owned() {
        Some(Field::MaxBlockThreadNum)
    } else if *name == Field::Required.name().to_owned() {
        Some(Field::Required)
    } else if *name == Field::Path.name().to_owned() {
        Some(Field::Path)
    } else {
        None
    }
}

/// Reads a thread count: a JSON integer from 0 to `usize::MAX`. A negative
/// or larger integer is an invalid value; anything else, a number with a
/// fraction too, is an invalid type.
pub fn read_count(field: Field, value: &JsonValue) -> (r: Result<usize, ConfigError>)
    ensures
        match r {
            Ok(n) => count_of(field, value@) == Ok::<usize, ConfigErrorModel>(n),
            Err(e) => count_of(field, value@) == Err::<usize, ConfigErrorModel>(e@),
        },
{
    match value {
        JsonValue::Number(JsonNumber::PosInt(u)) => {
            if *u <= usize::MAX as u64 {
                Ok(*u as usize)
            } else {
                Err(ConfigError::InvalidValue(field))
            }
        },
        JsonValue::Number(JsonNumber::NegInt(i)) => {
            if 0 <= *i && *i as u64 <= usize::MAX as u64 {
                Ok(*i as usize)
            } else {
                Err(ConfigError::InvalidValue(field))
            }
        },
        _ => Err(ConfigError::InvalidType(field)),
    }
}

/// Reads the `__required__` flag: a boolean, or null for none.
pub fn read_flag(value: &JsonValue) -> (r: Result<Option<bool>, ConfigError>)
    ensures
        match r {
            Ok(flag) => flag_of(value@) == Ok::<Option<bool>, ConfigErrorModel>(flag),
            Err(e) => flag_of(value@) == Err::<Option<bool>, ConfigErrorModel>(e@),
        },
{
    match value {
        JsonValue::Null => Ok(None),
        JsonValue::Bool(b) => Ok(Some(*b)),
        _ => Err(ConfigError::InvalidType(Field::Required)),
    }
}

/// Collects the strings of an array, in order; `None` where an item is not a
/// string.
fn collect_strings(items: &Vec<JsonValue>) -> (r: Option<Vec<String>>)
    ensures
        match r {
            Some(list) => all_strings(items_view(items@)) && strings_view(list@) == Seq::new(
                items@.len(),
                |i: int| items_view(items@)[i]->String_0,
            ),
            None => !all_strings(items_view(items@)),
        },
{
    let mut list: Vec<String> = Vec::new();
    let mut i: usize = 0;
    while i < items.len()
        invariant
            i <= items.len(),
            list@.len() == i,
            forall|j: int| 0 <= j < i ==> #[trigger] items_view(items@)[j] is String,
            forall|j: int|
                0 <= j < i ==> (#[trigger] list@[j])@ == items_view(items@)[j]->String_0,
        decreases items.len() - i,
    {
        match &items[i] {
            JsonValue::String(s) => {
                list.push(s.clone());
            },
            _ => {
                assert(!(items_view(items@)[i as int] is String));
                return None;
            },
        }
        i += 1;
    }
    assert(strings_view(list@) =~= Seq::new(
        items@.len(),
        |i: int| items_view(items@)[i]->String_0,
    ));
    Some(list)
}

/// Reads the `__path__` member: null gives none, one string gives a list of
/// one, a list of strings gives that list; anything else is an invalid type.
pub fn deserialize_path(value: &JsonValue) -> (r: Result<Option<Vec<String>>, ConfigError>)
    ensures
        match r {
            Ok(Some(list)) => path_of(value@) == Ok::<Option<Seq<Seq<char>>>, ConfigErrorModel>(
                Some(strings_view(list@)),
            ),
            Ok(None) => path_of(value@) == Ok::<Option<Seq<Seq<char>>>, ConfigErrorModel>(None),
            Err(e) => path_of(value@) == Err::<Option<Seq<Seq<char>>>, ConfigErrorModel>(e@),
        },
{
    match value {
        JsonValue::Null => Ok(None),
        JsonValue::String(s) => {
            let mut list: Vec<String> = Vec::new();
            list.push(s.clone());
            assert(strings_view(list@) =~= seq![s@]);
            Ok(Some(list))
        },
        JsonValue::Array(items) => {
            proof {
                lemma_array_view(*value);
            }
            match collect_strings(items) {
                Some(list) => Ok(Some(list)),
                None => Err(ConfigError::InvalidType(Field::Path)),
            }
        },
        _ => Err(ConfigError::InvalidType(Field::Path)),
    }
}

/// An error found among the first members stays the answer when more
/// members are looked at.
pub proof fn lemma_first_error_stays(members: Seq<(Seq<char>, JsonModel)>, n: int, m: int)
    requires
        0 <= n <= m,
        first_error(members, n) is Some,
    ensures
        first_error(members, m) == first_error(members, n),
    decreases m - n,
{
    if n < m {
        lemma_first_error_stays(members, n, m - 1);
    }
}

/// An empty subsection gives the defaults: 2 worker threads, at most 50
/// blocking threads, and neither of the loader's members.
pub proof fn lemma_empty_subsection()
    ensures
        parse(JsonModel::empty_object()) == Ok::<ConfigModel, ConfigErrorModel>(
            ConfigModel {
                work_thread_num: 2,
                max_block_thread_num: 50,
                required: None,
                path: None,
            },
        ),
{
}

/// A subsection with a member that the schema does not know is refused,
/// whatever else it holds.
pub proof fn lemma_unknown_field_refused(members: Seq<(Seq<char>, JsonModel)>, i: int)
    requires
        0 <= i < members.len(),
        field_named(members[i].0) is None,
    ensures
        parse(JsonModel::Object(members)) is Err,
{
    lemma_first_error(members, members.len() as int);
    assert(member_error(members, i) is Some);
}

/// Whether the member of `field` occurs before position `n`.
pub open spec fn seen(members: Seq<(Seq<char>, JsonModel)>, field: Field, n: int) -> bool {
    key_index(members, field.spec_name()) < n
}

/// The value of the member of `field`: that of the first member of its name.
pub open spec fn value_of(members: Seq<(Seq<char>, JsonModel)>, field: Field) -> JsonModel {
    members[key_index(members, field.spec_name())].1
}

/// Member `i` is named after `field`, and no earlier member is: then it is
/// the first of that name, and the other fields are seen before `i + 1`
/// exactly if they are seen before `i`.
proof fn lemma_first_occurrence(members: Seq<(Seq<char>, JsonModel)>, field: Field, i: int)
    requires
        0 <= i < members.len(),
        members[i].0 == field.spec_name(),
        !seen(members, field, i),
    ensures
        key_index(members, field.spec_name()) == i,
        forall|other: Field| other != field ==> (seen(members, other, i + 1) <==> seen(members, other, i)),
{
    lemma_key_index(members, field.spec_name());
    assert forall|other: Field| other != field implies (seen(members, other, i + 1) <==> seen(
        members,
        other,
        i,
    )) by {
        lemma_key_index(members, other.spec_name());
        lemma_field_names(other, field);
    }
}

impl Config {
    /// Reads the plugin's subsection against the schema. The subsection is
    /// an object; each member is one of the four that the schema knows,
    /// occurs once and has a fitting value; a missing thread count takes its
    /// default. The first member that breaks a rule decides the error.
    pub fn from_json(subsection: &JsonValue) -> (r: Result<Config, ConfigError>)
        ensures
            match r {
                Ok(config) => parse(subsection@) == Ok::<ConfigModel, ConfigErrorModel>(config@),
                Err(e) => parse(subsection@) == Err::<ConfigModel, ConfigErrorModel>(e@),
            },
    {
        let members = match subsection {
            JsonValue::Object(members) => members,
            _ => {
                return Err(ConfigError::NotAnObject);
            },
        };
        let ghost ms = members_view(members@);
        proof {
            lemma_object_view(*subsection);
            lemma_key_index(ms, Field::WorkThreadNum.spec_name());
            lemma_key_index(ms, Field::MaxBlockThreadNum.spec_name());
            lemma_key_index(ms, Field::Required.spec_name());
            lemma_key_index(ms, Field::Path.spec_name());
        }
        let mut work_thread_num: Option<usize> = None;
        let mut max_block_thread_num: Option<usize> = None;
        let mut required: Option<Option<bool>> = None;
        let mut path: Option<Option<Vec<String>>> = None;
        let mut i: usize = 0;
        while i < members.len()
            invariant
                i <= members.len(),
                ms == members_view(members@),
                subsection@ == JsonModel::Object(ms),
                first_error(ms, i as int) is None,
                work_thread_num is Some <==> seen(ms, Field::WorkThreadNum, i as int),
                max_block_thread_num is Some <==> seen(ms, Field::MaxBlockThreadNum, i as int),
                required is Some <==> seen(ms, Field::Required, i as int),
                path is Some <==> seen(ms, Field::Path, i as int),
                work_thread_num matches Some(n) ==> count_of(
                    Field::WorkThreadNum,
                    value_of(ms, Field::WorkThreadNum),
                ) == Ok::<usize, ConfigErrorModel>(n),
                max_block_thread_num matches Some(n) ==> count_of(
                    Field::MaxBlockThreadNum,
                    value_of(ms, Field::MaxBlockThreadNum),
                ) == Ok::<usize, ConfigErrorModel>(n),
                required matches Some(flag) ==> flag_of(value_of(ms, Field::Required)) == Ok::<
                    Option<bool>,
                    ConfigErrorModel,
                >(flag),
                path matches Some(list) ==> path_of(value_of(ms, Field::Path)) == Ok::<
                    Option<Seq<Seq<char>>>,
                    ConfigErrorModel,
                >(
                    match list {
                        Some(l) => Some(strings_view(l@)),
                        None => None,
                    },
                ),
            decreases members.len() - i,
        {
            let name = &members[i].0;
            let value = &members[i].1;
            assert(ms[i as int] == (name@, value@));
            proof {
                if member_error(ms, i as int) is Some {
                    lemma_first_error_stays(ms, i + 1, ms.len() as int);
                }
            }
            let field = match field_of(name) {
                Some(field) => field,
                None => {
                    return Err(ConfigError::UnknownField(name.clone()));
                },
            };
            proof {
                lemma_field_names(field, field);
                lemma_key_index(ms, field.spec_name());
            }
            let duplicate = match field {
                Field::WorkThreadNum => work_thread_num.is_some(),
                Field::MaxBlockThreadNum => max_block_thread_num.is_some(),
                Field::Required => required.is_some(),
                Field::Path => path.is_some(),
            };
            if duplicate {
                return Err(ConfigError::DuplicateField(field));
            }
            proof {
                lemma_first_occurrence(ms, field, i as int);
            }
            match field {
                Field::WorkThreadNum => {
                    match read_count(field, value) {
                        Ok(n) => {
                            work_thread_num = Some(n);
                        },
                        Err(e) => {
                            return Err(e);
                        },
                    }
                },
                Field::MaxBlockThreadNum => {
                    match read_count(field, value) {
                        Ok(n) => {
                            max_block_thread_num = Some(n);
                        },
                        Err(e) => {
                            return Err(e);
                        },
                    }
                },
                Field::Required => {
                    match read_flag(value) {
                        Ok(flag) => {
                            required = Some(flag);
                        },
                        Err(e) => {
                            return Err(e);
                        },
                    }
                },
                Field::Path => {
                    match deserialize_path(value) {
                        Ok(list) => {
                            path = Some(list);
                        },
                        Err(e) => {
                            return Err(e);
                        },
                    }
                },
            }
            i += 1;
        }
        proof {
            lemma_key_index(ms, Field::WorkThreadNum.spec_name());
            lemma_key_index(ms, Field::MaxBlockThreadNum.spec_name());
            lemma_key_index(ms, Field::Required.spec_name());
            lemma_key_index(ms, Field::Path.spec_name());
        }
        Ok(
            Config {
                work_thread_num: match work_thread_num {
                    Some(n) => n,
                    None => default_work_thread_num(),
                },
                max_block_thread_num: match max_block_thread_num {
                    Some(n) => n,
                    None => default_max_block_thread_num(),
                },
                required: match required {
                    Some(flag) => flag,
                    None => None,
                },
                path: match path {
                    Some(list) => list,
                    None => None,
                },
            },
        )
    }
}

impl ConfigErrorModel {
    /// The error in words.
    pub open spec fn message(self) -> Seq<char> {
        match self {
            ConfigErrorModel::NotAnObject => "invalid type: expected an object"@,
            ConfigErrorModel::UnknownField(name) => "unknown field `"@ + name + "`"@,
            ConfigErrorModel::DuplicateField(field) => "duplicate field `"@ + field.spec_name()
                + "`"@,
            ConfigErrorModel::InvalidType(field) => "invalid type for `"@ + field.spec_name()
                + "`"@,
            ConfigErrorModel::InvalidValue(field) => "invalid value for `"@ + field.spec_name()
                + "`"@,
        }
    }
}

impl ConfigError {
    /// The error in words.
    pub fn message(&self) -> (r: String)
        ensures
            r@ == self@.message(),
    {
        match self {
            ConfigError::NotAnObject => "invalid type: expected an object".to_owned(),
            ConfigError::UnknownField(name) => {
                let mut text = "unknown field `".to_owned();
                text.append(name.as_str());
                text.append("`");
                text
            },
            ConfigError::DuplicateField(field) => {
                let mut text = "duplicate field `".to_owned();
                text.append(field.name());
                text.append("`");
                text
            },
            ConfigError::InvalidType(field) => {
                let mut text = "invalid type for `".to_owned();
                text.append(field.name());
                text.append("`");
                text
            },
            ConfigError::InvalidValue(field) => {
                let mut text = "invalid value for `".to_owned();
                text.append(field.name());
                text.append("`");
                text
            },
        }
    }
}

} // verus!
