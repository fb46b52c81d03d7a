//! The settings and history of the graphical player (`gui-player.json`).
//!
//! The file only holds current values. Everything else about a setting
//! (whether the user can edit it, its title, data type, control, limits and
//! default) comes from the schema, a list of [`SettingDef`]s. Values are
//! normalized against the schema: converted to their type, reset to their
//! default when invalid, added when missing.

use vstd::prelude::*;
use vstd::string::*;

use crate::i18n::{setting_spec, Lang};
use crate::model::KeyValue;
use crate::number::{bool_text, int_text, read_bool, read_int};
use crate::text::{str_eq, trim_chars, trimmed};

verus! {

// ----- schema ------------------------------------------------------------

/// Whether the user can change a setting in Tools > Settings.
#[derive(Debug, Clone, Copy, PartialEq, Eq, Structural)]
pub enum SettingType {
    User,
    System,
}

/// The type of a setting's value.
#[derive(Debug, Clone, Copy, PartialEq, Eq, Structural)]
pub enum DataType {
    Integer,
    Boolean,
    String,
}

/// The widget Tools > Settings uses to edit a setting.
#[derive(Debug, Clone, Copy, PartialEq, Eq, Structural)]
pub enum ControlType {
    Input,
    Spinner,
    Slider,
    Checkbox,
    Combo,
}

/// A value of the settings file. JSON values the settings never read as
/// such (null, numbers that are not an `i64`, arrays, objects) are kept as
/// their JSON text.
#[derive(Debug, PartialEq, Eq)]
pub enum SettingValue {
    Int(i64),
    Bool(bool),
    Text(String),
    Other(String),
}

/// A setting value as plain values.
pub enum ValueSpec {
    Int(i64),
    Bool(bool),
    Text(Seq<char>),
    Other(Seq<char>),
}

impl View for SettingValue {
    type V = ValueSpec;

    open spec fn view(&self) -> ValueSpec {
        match self {
            SettingValue::Int(n) => ValueSpec::Int(*n),
            SettingValue::Bool(b) => ValueSpec::Bool(*b),
            SettingValue::Text(s) => ValueSpec::Text(s@),
            SettingValue::Other(s) => ValueSpec::Other(s@),
        }
    }
}

impl Clone for SettingValue {
    fn clone(&self) -> (r: Self)
        ensures
            r == *self,
    {
        match self {
            SettingValue::Int(n) => SettingValue::Int(*n),
            SettingValue::Bool(b) => SettingValue::Bool(*b),
            SettingValue::Text(s) => SettingValue::Text(s.clone()),
            SettingValue::Other(s) => SettingValue::Other(s.clone()),
        }
    }
}

pub open spec fn opt_value(v: Option<SettingValue>) -> Option<ValueSpec> {
    match v {
        Some(x) => Some(x@),
        None => None,
    }
}

/// Whether two values are the same.
pub fn same_value(a: &SettingValue, b: &SettingValue) -> (r: bool)
    ensures
        r == (a@ == b@),
{
    match (a, b) {
        (SettingValue::Int(x), SettingValue::Int(y)) => *x == *y,
        (SettingValue::Bool(x), SettingValue::Bool(y)) => *x == *y,
        (SettingValue::Text(x), SettingValue::Text(y)) => str_eq(x.as_str(), y.as_str()),
        (SettingValue::Other(x), SettingValue::Other(y)) => str_eq(x.as_str(), y.as_str()),
        _ => false,
    }
}

/// One entry of the schema.
#[derive(Debug)]
pub struct SettingDef {
    pub key: String,
    pub setting_type: SettingType,
    pub title: String,
    pub description: String,
    pub data_type: DataType,
    pub control_type: Option<ControlType>,
    pub min: Option<i64>,
    pub max: Option<i64>,
    /// The allowed values when the setting is a choice (empty otherwise).
    pub choices: Vec<SettingValue>,
    /// `None` for entries without a meaningful default.
    pub default: Option<SettingValue>,
}

/// Whether `n` is within the limits of `def`.
pub open spec fn within_limits(def: SettingDef, n: i64) -> bool {
    &&& (def.min matches Some(m) ==> m <= n)
    &&& (def.max matches Some(m) ==> n <= m)
}

/// Whether `v` is one of the choices of `def` (any value when it has none).
pub open spec fn allowed_choice(def: SettingDef, v: ValueSpec) -> bool {
    def.choices@.len() == 0 || exists|i: int| 0 <= i < def.choices@.len() && def.choices@[i]@ == v
}

/// `v` converted to the type of `def`: integers and truth values may also
/// be given as text; an integer must be within the limits.
pub open spec fn typed_value(def: SettingDef, v: ValueSpec) -> Option<ValueSpec> {
    match def.data_type {
        DataType::Integer => {
            let n = match v {
                ValueSpec::Int(n) => Some(n as int),
                ValueSpec::Text(s) => int_text(trimmed(s)),
                _ => None,
            };
            match n {
                Some(n) => if within_limits(def, n as i64) {
                    Some(ValueSpec::Int(n as i64))
                } else {
                    None
                },
                None => None,
            }
        },
        DataType::Boolean => match v {
            ValueSpec::Bool(b) => Some(ValueSpec::Bool(b)),
            ValueSpec::Text(s) => match bool_text(trimmed(s)) {
                Some(b) => Some(ValueSpec::Bool(b)),
                None => None,
            },
            _ => None,
        },
        DataType::String => match v {
            ValueSpec::Text(s) => Some(ValueSpec::Text(s)),
            _ => None,
        },
    }
}

/// What `def` makes of `v`: its converted value, if that is one of the
/// choices.
pub open spec fn coerce_spec(def: SettingDef, v: ValueSpec) -> Option<ValueSpec> {
    match typed_value(def, v) {
        Some(c) => if allowed_choice(def, c) {
            Some(c)
        } else {
            None
        },
        None => None,
    }
}

impl SettingDef {
    /// Converts `value` to this setting's type (accepting text such as
    /// `"10"` or `"true"`) and checks it against the limits and the
    /// choices. `None` if it is not acceptable.
    pub fn coerce(&self, value: &SettingValue) -> (r: Option<SettingValue>)
        ensures
            opt_value(r) == coerce_spec(*self, value@),
    {
        let converted = match self.data_type {
            DataType::Integer => {
                let n = match value {
                    SettingValue::Int(n) => *n,
                    SettingValue::Text(s) => match read_int(s.as_str()) {
                        Some(n) => n,
                        None => {
                            return None;
                        },
                    },
                    _ => {
                        return None;
                    },
                };
                let below = match self.min {
                    Some(m) => n < m,
                    None => false,
                };
                let above = match self.max {
                    Some(m) => n > m,
                    None => false,
                };
                if below || above {
                    return None;
                }
                SettingValue::Int(n)
            },
            DataType::Boolean => match value {
                SettingValue::Bool(b) => SettingValue::Bool(*b),
                SettingValue::Text(s) => match read_bool(s.as_str()) {
                    Some(b) => SettingValue::Bool(b),
                    None => {
                        return None;
                    },
                },
                _ => {
                    return None;
                },
            },
            DataType::String => match value {
                SettingValue::Text(s) => SettingValue::Text(s.clone()),
                _ => {
                    return None;
                },
            },
        };
        assert(typed_value(*self, value@) == Some(converted@));
        if self.choices.len() == 0 {
            return Some(converted);
        }
        let mut i: usize = 0;
        while i < self.choices.len()
            invariant
                i <= self.choices@.len(),
                typed_value(*self, value@) == Some(converted@),
                forall|k: int| 0 <= k < i ==> self.choices@[k]@ != converted@,
            decreases self.choices.len() - i,
        {
            if same_value(&self.choices[i], &converted) {
                assert(self.choices@[i as int]@ == converted@);
                assert(allowed_choice(*self, converted@));
                return Some(converted);
            }
            i = i + 1;
        }
        None
    }
}


/// The file the settings are kept in, next to the executable.
pub const CONFIG_FILE: &'static str = "gui-player.json";
pub const MAX_LAST_OPENED: &'static str = "maxLastOpened";
pub const LANG: &'static str = "lang";
pub const PATH: &'static str = "path";
pub const WINDOW_MAXIMIZED: &'static str = "windowMaximized";
pub const WINDOW_X: &'static str = "windowX";
pub const WINDOW_Y: &'static str = "windowY";
pub const WINDOW_WIDTH: &'static str = "windowWidth";
pub const WINDOW_HEIGHT: &'static str = "windowHeight";
pub const TABS_WIDTH_PERCENT: &'static str = "tabsWidthPercent";
pub const ARRANGEMENT_HEIGHT_PERCENT: &'static str = "arrangementHeightPercent";

/// Index of the first definition of `defs` from `i` on whose key is `key`
/// (`defs.len()` if there is none).
pub open spec fn def_index_from(defs: Seq<SettingDef>, key: Seq<char>, i: int) -> int
    decreases defs.len() - i,
{
    if i < 0 || i >= defs.len() {
        defs.len() as int
    } else if defs[i].key@ == key {
        i
    } else {
        def_index_from(defs, key, i + 1)
    }
}

/// Index of the definition of `key` in `defs` (`defs.len()` if none).
pub open spec fn def_index(defs: Seq<SettingDef>, key: Seq<char>) -> int {
    def_index_from(defs, key, 0)
}

/// No key is defined twice.
pub open spec fn keys_distinct(defs: Seq<SettingDef>) -> bool {
    forall|i: int, j: int| 0 <= i < j < defs.len() ==> defs[i].key@ != defs[j].key@
}

/// The schema default of `key`, if the schema defines one.
pub open spec fn schema_default(defs: Seq<SettingDef>, key: Seq<char>) -> Option<ValueSpec> {
    let d = def_index(defs, key);
    if d < defs.len() {
        opt_value(defs[d].default)
    } else {
        None
    }
}

/// The schema: every setting it defines, each key once.
pub struct Schema {
    defs: Vec<SettingDef>,
}

pub proof fn lemma_def_index_from(defs: Seq<SettingDef>, key: Seq<char>, i: int)
    requires
        0 <= i <= defs.len(),
    ensures
        i <= def_index_from(defs, key, i) <= defs.len(),
        def_index_from(defs, key, i) < defs.len() ==> defs[def_index_from(defs, key, i)].key@ == key,
        forall|k: int| i <= k < def_index_from(defs, key, i) ==> defs[k].key@ != key,
    decreases defs.len() - i,
{
    if i < defs.len() && defs[i].key@ != key {
        lemma_def_index_from(defs, key, i + 1);
    }
}

/// With distinct keys, the definition at `k` is the one of its key.
pub proof fn lemma_def_index_of(defs: Seq<SettingDef>, k: int)
    requires
        keys_distinct(defs),
        0 <= k < defs.len(),
    ensures
        def_index(defs, defs[k].key@) == k,
{
    lemma_def_index_from(defs, defs[k].key@, 0);
}

impl Schema {
    /// The definitions, in the order they were given.
    pub closed spec fn defs(self) -> Seq<SettingDef> {
        self.defs@
    }

    #[verifier::type_invariant]
    spec fn keys_once(self) -> bool {
        keys_distinct(self.defs@)
    }

    /// A schema of `defs`; `None` if a key is defined twice.
    pub fn new(defs: Vec<SettingDef>) -> (r: Option<Schema>)
        ensures
            r is Some <==> keys_distinct(defs@),
            r matches Some(s) ==> s.defs() == defs@,
    {
        let n = defs.len();
        let mut i: usize = 0;
        while i < n
            invariant
                n == defs@.len(),
                i <= n,
                forall|a: int, b: int| 0 <= a < b < n && a < i ==> defs@[a].key@ != defs@[b].key@,
            decreases n - i,
        {
            let mut j = i + 1;
            while j < n
                invariant
                    n == defs@.len(),
                    i < n,
                    i + 1 <= j <= n,
                    forall|a: int, b: int| 0 <= a < b < n && a < i ==> defs@[a].key@ != defs@[b].key@,
                    forall|b: int| i < b < j ==> defs@[i as int].key@ != defs@[b].key@,
                decreases n - j,
            {
                if str_eq(defs[i].key.as_str(), defs[j].key.as_str()) {
                    return None;
                }
                j = j + 1;
            }
            i = i + 1;
        }
        Some(Schema { defs })
    }

    /// Every setting the schema defines.
    pub fn definitions(&self) -> (r: &Vec<SettingDef>)
        ensures
            r@ == self.defs(),
    {
        &self.defs
    }

    /// Where `key` is defined.
    fn position(&self, key: &str) -> (r: Option<usize>)
        ensures
            keys_distinct(self.defs()),
            match r {
                Some(i) => i < self.defs().len() && i == def_index(self.defs(), key@),
                None => def_index(self.defs(), key@) == self.defs().len(),
            },
    {
        proof {
            use_type_invariant(self);
        }
        let mut i: usize = 0;
        while i < self.defs.len()
            invariant
                i <= self.defs@.len(),
                keys_distinct(self.defs@),
                def_index(self.defs@, key@) == def_index_from(self.defs@, key@, i as int),
            decreases self.defs.len() - i,
        {
            if str_eq(self.defs[i].key.as_str(), key) {
                return Some(i);
            }
            i = i + 1;
        }
        None
    }

    /// The definition of `key`.
    pub fn definition(&self, key: &str) -> (r: Option<&SettingDef>)
        ensures
            match r {
                Some(d) => def_index(self.defs(), key@) < self.defs().len() && *d == self.defs()[def_index(self.defs(), key@)],
                None => def_index(self.defs(), key@) == self.defs().len(),
            },
    {
        match self.position(key) {
            Some(i) => Some(&self.defs[i]),
            None => None,
        }
    }

    /// The settings the user can edit in Tools > Settings, in schema order.
    pub fn user_definitions(&self) -> (r: Vec<&SettingDef>)
        ensures
            r@.len() <= self.defs().len(),
            forall|k: int| 0 <= k < r@.len() ==> (#[trigger] r@[k]).setting_type == SettingType::User,
            r@.map_values(|d: &SettingDef| *d) == self.defs().filter(|d: SettingDef| d.setting_type == SettingType::User),
    {
        let mut out: Vec<&SettingDef> = Vec::new();
        let mut i: usize = 0;
        while i < self.defs.len()
            invariant
                i <= self.defs@.len(),
                out@.len() <= i,
                forall|k: int| 0 <= k < out@.len() ==> (#[trigger] out@[k]).setting_type == SettingType::User,
                out@.map_values(|d: &SettingDef| *d) == self.defs@.take(i as int).filter(|d: SettingDef| d.setting_type == SettingType::User),
            decreases self.defs.len() - i,
        {
            let d = &self.defs[i];
            proof {
                assert(self.defs@.take(i + 1).drop_last() =~= self.defs@.take(i as int));
                reveal(Seq::filter);
            }
            if d.setting_type == SettingType::User {
                out.push(d);
            }
            i = i + 1;
            proof {
                assert(out@.map_values(|d: &SettingDef| *d) =~= self.defs@.take(i as int).filter(|d: SettingDef| d.setting_type == SettingType::User));
            }
        }
        assert(self.defs@.take(self.defs@.len() as int) =~= self.defs@);
        out
    }
}


// ----- values ------------------------------------------------------------

/// One stored setting.
#[derive(Debug, PartialEq, Eq)]
pub struct Setting {
    pub key: String,
    pub value: SettingValue,
}

/// A stored setting as plain values.
pub struct SettingSpec {
    pub key: Seq<char>,
    pub value: ValueSpec,
}

impl View for Setting {
    type V = SettingSpec;

    open spec fn view(&self) -> SettingSpec {
        SettingSpec { key: self.key@, value: self.value@ }
    }
}

impl Clone for Setting {
    fn clone(&self) -> (r: Self)
        ensures
            r == *self,
    {
        Setting { key: self.key.clone(), value: self.value.clone() }
    }
}

/// The settings and the history of recently opened files (newest first,
/// each entry's key and value both the path).
#[derive(Debug)]
pub struct Config {
    pub settings: Vec<Setting>,
    pub last_opened: Vec<KeyValue>,
}

impl Default for Config {
    fn default() -> (r: Config)
        ensures
            r.settings@.len() == 0,
            r.last_opened@.len() == 0,
    {
        Config { settings: Vec::new(), last_opened: Vec::new() }
    }
}

pub open spec fn settings_view(v: Seq<Setting>) -> Seq<SettingSpec> {
    v.map_values(|s: Setting| s@)
}

pub open spec fn history_view(v: Seq<KeyValue>) -> Seq<(Seq<char>, Seq<char>)> {
    v.map_values(|e: KeyValue| (e.key@, e.value@))
}

/// Index of the first setting of `s` from `i` on whose key is `key`
/// (`s.len()` if there is none).
pub open spec fn key_index_from(s: Seq<SettingSpec>, key: Seq<char>, i: int) -> int
    decreases s.len() - i,
{
    if i < 0 || i >= s.len() {
        s.len() as int
    } else if s[i].key == key {
        i
    } else {
        key_index_from(s, key, i + 1)
    }
}

/// Index of the first setting of `key` (`s.len()` if none).
pub open spec fn key_index(s: Seq<SettingSpec>, key: Seq<char>) -> int {
    key_index_from(s, key, 0)
}

/// The stored value of `key`: that of its first setting.
pub open spec fn stored(s: Seq<SettingSpec>, key: Seq<char>) -> Option<ValueSpec> {
    let i = key_index(s, key);
    if i < s.len() {
        Some(s[i].value)
    } else {
        None
    }
}

/// The value of `key`: the stored one, else the schema default.
pub open spec fn value_of(defs: Seq<SettingDef>, s: Seq<SettingSpec>, key: Seq<char>) -> Option<ValueSpec> {
    match stored(s, key) {
        Some(v) => Some(v),
        None => schema_default(defs, key),
    }
}

pub open spec fn int_of(defs: Seq<SettingDef>, s: Seq<SettingSpec>, key: Seq<char>) -> Option<i64> {
    match value_of(defs, s, key) {
        Some(ValueSpec::Int(n)) => Some(n),
        _ => None,
    }
}

pub open spec fn flag_of(defs: Seq<SettingDef>, s: Seq<SettingSpec>, key: Seq<char>) -> Option<bool> {
    match value_of(defs, s, key) {
        Some(ValueSpec::Bool(b)) => Some(b),
        _ => None,
    }
}

pub open spec fn text_of(defs: Seq<SettingDef>, s: Seq<SettingSpec>, key: Seq<char>) -> Option<Seq<char>> {
    match value_of(defs, s, key) {
        Some(ValueSpec::Text(t)) => Some(t),
        _ => None,
    }
}

/// `s` with `key` set to `v`: its first setting changed, or a new one at
/// the end.
pub open spec fn set_spec(s: Seq<SettingSpec>, key: Seq<char>, v: ValueSpec) -> Seq<SettingSpec> {
    let i = key_index(s, key);
    if i < s.len() {
        s.update(i, SettingSpec { key: s[i].key, value: v })
    } else {
        s.push(SettingSpec { key, value: v })
    }
}

/// `s` without any setting of `key`.
pub open spec fn without_key(s: Seq<SettingSpec>, key: Seq<char>) -> Seq<SettingSpec>
    decreases s.len(),
{
    if s.len() == 0 {
        s
    } else if s.last().key == key {
        without_key(s.drop_last(), key)
    } else {
        without_key(s.drop_last(), key).push(s.last())
    }
}

pub proof fn lemma_key_index_from(s: Seq<SettingSpec>, key: Seq<char>, i: int)
    requires
        0 <= i <= s.len(),
    ensures
        i <= key_index_from(s, key, i) <= s.len(),
        key_index_from(s, key, i) < s.len() ==> s[key_index_from(s, key, i)].key == key,
        forall|k: int| i <= k < key_index_from(s, key, i) ==> s[k].key != key,
    decreases s.len() - i,
{
    if i < s.len() && s[i].key != key {
        lemma_key_index_from(s, key, i + 1);
    }
}

/// The first setting of a key is the one at `i` exactly when it has that
/// key and none before it has.
pub proof fn lemma_key_index_is(s: Seq<SettingSpec>, key: Seq<char>, i: int)
    requires
        0 <= i <= s.len(),
        i < s.len() ==> s[i].key == key,
        forall|k: int| 0 <= k < i ==> s[k].key != key,
    ensures
        key_index(s, key) == i,
{
    lemma_key_index_from(s, key, 0);
}

/// Finds the first setting of `key`.
fn find_setting(settings: &Vec<Setting>, key: &str) -> (r: Option<usize>)
    ensures
        match r {
            Some(i) => i < settings@.len() && i == key_index(settings_view(settings@), key@),
            None => key_index(settings_view(settings@), key@) == settings@.len(),
        },
{
    let ghost sv = settings_view(settings@);
    let mut i: usize = 0;
    while i < settings.len()
        invariant
            sv == settings_view(settings@),
            i <= settings@.len(),
            key_index(sv, key@) == key_index_from(sv, key@, i as int),
        decreases settings.len() - i,
    {
        if str_eq(settings[i].key.as_str(), key) {
            return Some(i);
        }
        i = i + 1;
    }
    None
}

impl Config {
    /// The stored value of `key`, or its schema default.
    pub fn value(&self, key: &str, schema: &Schema) -> (r: Option<SettingValue>)
        ensures
            opt_value(r) == value_of(schema.defs(), settings_view(self.settings@), key@),
    {
        match find_setting(&self.settings, key) {
            Some(i) => Some(self.settings[i].value.clone()),
            None => match schema.definition(key) {
                Some(d) => match &d.default {
                    Some(v) => Some(v.clone()),
                    None => None,
                },
                None => None,
            },
        }
    }

    pub fn integer(&self, key: &str, schema: &Schema) -> (r: Option<i64>)
        ensures
            r == int_of(schema.defs(), settings_view(self.settings@), key@),
    {
        match self.value(key, schema) {
            Some(SettingValue::Int(n)) => Some(n),
            _ => None,
        }
    }

    pub fn flag(&self, key: &str, schema: &Schema) -> (r: Option<bool>)
        ensures
            r == flag_of(schema.defs(), settings_view(self.settings@), key@),
    {
        match self.value(key, schema) {
            Some(SettingValue::Bool(b)) => Some(b),
            _ => None,
        }
    }

    pub fn text(&self, key: &str, schema: &Schema) -> (r: Option<String>)
        ensures
            match r {
                Some(t) => text_of(schema.defs(), settings_view(self.settings@), key@) == Some(t@),
                None => text_of(schema.defs(), settings_view(self.settings@), key@) is None,
            },
    {
        match self.value(key, schema) {
            Some(SettingValue::Text(t)) => Some(t),
            _ => None,
        }
    }

    /// Sets a setting, adding it if it is not there yet.
    pub fn set(&mut self, key: &str, value: SettingValue)
        ensures
            settings_view(final(self).settings@) == set_spec(settings_view(old(self).settings@), key@, value@),
            final(self).last_opened == old(self).last_opened,
    {
        let ghost sv = settings_view(self.settings@);
        match find_setting(&self.settings, key) {
            Some(i) => {
                self.settings[i].value = value;
                assert(settings_view(self.settings@) =~= set_spec(sv, key@, value@));
            },
            None => {
                self.settings.push(Setting { key: String::from_str(key), value });
                assert(settings_view(self.settings@) =~= set_spec(sv, key@, value@));
            },
        }
    }

    /// Removes every setting of `key`.
    pub fn remove(&mut self, key: &str)
        ensures
            settings_view(final(self).settings@) == without_key(settings_view(old(self).settings@), key@),
            final(self).last_opened == old(self).last_opened,
    {
        let ghost sv = settings_view(self.settings@);
        let mut kept: Vec<Setting> = Vec::new();
        let mut i: usize = 0;
        while i < self.settings.len()
            invariant
                sv == settings_view(self.settings@),
                i <= self.settings@.len(),
                settings_view(kept@) == without_key(sv.take(i as int), key@),
            decreases self.settings.len() - i,
        {
            proof {
                assert(sv.take(i + 1).drop_last() =~= sv.take(i as int));
            }
            if !str_eq(self.settings[i].key.as_str(), key) {
                kept.push(self.settings[i].clone());
            }
            i = i + 1;
            proof {
                assert(settings_view(kept@) =~= without_key(sv.take(i as int), key@));
            }
        }
        assert(sv.take(sv.len() as int) =~= sv);
        self.settings = kept;
    }
}


/// What normalizing makes of the setting at `i` of `s`: the first setting
/// of a key the schema defines is converted to its type, or reset to its
/// default when it is not valid, or dropped when there is no default; any
/// other setting is kept as it is.
pub open spec fn normalized_at(defs: Seq<SettingDef>, s: Seq<SettingSpec>, i: int) -> Seq<SettingSpec> {
    let x = s[i];
    let d = def_index(defs, x.key);
    if d < defs.len() && key_index(s, x.key) == i {
        match coerce_spec(defs[d], x.value) {
            Some(v) => seq![SettingSpec { key: x.key, value: v }],
            None => match defs[d].default {
                Some(dv) => seq![SettingSpec { key: x.key, value: dv@ }],
                None => Seq::empty(),
            },
        }
    } else {
        seq![x]
    }
}

/// The first `n` settings of `s`, normalized.
pub open spec fn normalized_prefix(defs: Seq<SettingDef>, s: Seq<SettingSpec>, n: int) -> Seq<SettingSpec>
    decreases n,
{
    if n <= 0 {
        Seq::empty()
    } else {
        normalized_prefix(defs, s, n - 1) + normalized_at(defs, s, n - 1)
    }
}

/// The defaults of the first `m` definitions whose key `s` lacks, in
/// schema order.
pub open spec fn missing_defaults(defs: Seq<SettingDef>, s: Seq<SettingSpec>, m: int) -> Seq<SettingSpec>
    decreases m,
{
    if m <= 0 {
        Seq::empty()
    } else {
        let d = defs[m - 1];
        let more = match d.default {
            Some(dv) => if key_index(s, d.key@) == s.len() {
                seq![SettingSpec { key: d.key@, value: dv@ }]
            } else {
                Seq::empty()
            },
            None => Seq::empty(),
        };
        missing_defaults(defs, s, m - 1) + more
    }
}

/// `s` normalized against the schema: each setting as [`normalized_at`]
/// makes it, in order, then the defaults of the settings that were missing.
pub open spec fn normalized(defs: Seq<SettingDef>, s: Seq<SettingSpec>) -> Seq<SettingSpec> {
    normalized_prefix(defs, s, s.len() as int) + missing_defaults(defs, s, defs.len() as int)
}

impl Config {
    /// Normalizes every setting against the schema: values are converted to
    /// their type, invalid ones are reset to their default (or removed when
    /// there is none), and missing ones are added with their default.
    /// Settings the schema does not know are kept.
    pub fn with_defaults(self, schema: &Schema) -> (r: Config)
        ensures
            settings_view(r.settings@) == normalized(schema.defs(), settings_view(self.settings@)),
            r.last_opened == self.last_opened,
    {
        let Config { settings, last_opened } = self;
        let ghost sv = settings_view(settings@);
        let ghost defs = schema.defs();
        let mut out: Vec<Setting> = Vec::new();
        let n = settings.len();
        let mut i: usize = 0;
        while i < n
            invariant
                n == settings@.len(),
                sv == settings_view(settings@),
                defs == schema.defs(),
                i <= n,
                settings_view(out@) == normalized_prefix(defs, sv, i as int),
            decreases n - i,
        {
            let s = &settings[i];
            let first = match find_setting(&settings, s.key.as_str()) {
                Some(j) => j == i,
                None => false,
            };
            let ghost before = settings_view(out@);
            match schema.definition(s.key.as_str()) {
                Some(d) if first => match d.coerce(&s.value) {
                    Some(v) => {
                        out.push(Setting { key: s.key.clone(), value: v });
                    },
                    None => match &d.default {
                        Some(dv) => {
                            out.push(Setting { key: s.key.clone(), value: dv.clone() });
                        },
                        None => {},
                    },
                },
                _ => {
                    out.push(s.clone());
                },
            }
            proof {
                assert(settings_view(out@) =~= before + normalized_at(defs, sv, i as int));
            }
            i = i + 1;
        }
        let defs_vec = schema.definitions();
        let m = defs_vec.len();
        let mut k: usize = 0;
        while k < m
            invariant
                n == settings@.len(),
                sv == settings_view(settings@),
                defs == schema.defs(),
                defs_vec@ == defs,
                m == defs.len(),
                k <= m,
                settings_view(out@) == normalized_prefix(defs, sv, n as int) + missing_defaults(defs, sv, k as int),
            decreases m - k,
        {
            let d = &defs_vec[k];
            let ghost before = settings_view(out@);
            let ghost head = normalized_prefix(defs, sv, n as int);
            let ghost md = missing_defaults(defs, sv, k as int);
            assert(*d == defs[k as int]);
            match &d.default {
                Some(dv) => {
                    if find_setting(&settings, d.key.as_str()).is_none() {
                        let setting = Setting { key: d.key.clone(), value: dv.clone() };
                        assert(setting@ == SettingSpec { key: d.key@, value: dv@ });
                        out.push(setting);
                        proof {
                            let more = seq![SettingSpec { key: d.key@, value: dv@ }];
                            assert(settings_view(out@) =~= before.push(SettingSpec { key: d.key@, value: dv@ }));
                            assert(missing_defaults(defs, sv, k + 1) == md + more);
                            assert(settings_view(out@) =~= head + (md + more));
                        }
                    } else {
                        proof {
                            assert(missing_defaults(defs, sv, k + 1) =~= md);
                        }
                    }
                },
                None => {
                    proof {
                        assert(missing_defaults(defs, sv, k + 1) =~= md);
                    }
                },
            }
            k = k + 1;
        }
        Config { settings: out, last_opened }
    }
}


// ----- what setting and removing do to the stored values ----------------

/// Adding a setting at the end changes the stored value of its key only if
/// that key had none.
pub proof fn lemma_stored_push(q: Seq<SettingSpec>, x: SettingSpec, k: Seq<char>)
    ensures
        stored(q.push(x), k) == match stored(q, k) {
            Some(v) => Some(v),
            None => if x.key == k {
                Some(x.value)
            } else {
                None
            },
        },
{
    let s = q.push(x);
    lemma_key_index_from(q, k, 0);
    let i = key_index(q, k);
    if i < q.len() {
        lemma_key_index_is(s, k, i);
    } else if x.key == k {
        lemma_key_index_is(s, k, q.len() as int);
    } else {
        lemma_key_index_is(s, k, s.len() as int);
    }
}

/// Changing the value of a setting keeps every key where it is.
proof fn lemma_key_index_update(s: Seq<SettingSpec>, i: int, v: ValueSpec, k: Seq<char>)
    requires
        0 <= i < s.len(),
    ensures
        key_index(s.update(i, SettingSpec { key: s[i].key, value: v }), k) == key_index(s, k),
{
    let t = s.update(i, SettingSpec { key: s[i].key, value: v });
    lemma_key_index_from(s, k, 0);
    let j = key_index(s, k);
    assert forall|m: int| 0 <= m < j implies t[m].key != k by {}
    lemma_key_index_is(t, k, j);
}

/// After setting `key` to `v`, `key` reads `v` and every other key reads
/// what it read before.
pub proof fn lemma_set_stored(s: Seq<SettingSpec>, key: Seq<char>, v: ValueSpec, other: Seq<char>)
    ensures
        stored(set_spec(s, key, v), key) == Some(v),
        other != key ==> stored(set_spec(s, key, v), other) == stored(s, other),
{
    lemma_key_index_from(s, key, 0);
    let i = key_index(s, key);
    if i < s.len() {
        lemma_key_index_update(s, i, v, key);
        lemma_key_index_update(s, i, v, other);
        lemma_key_index_from(s, other, 0);
    } else {
        lemma_stored_push(s, SettingSpec { key, value: v }, key);
        lemma_stored_push(s, SettingSpec { key, value: v }, other);
        assert(stored(s, key) is None);
    }
}

/// After removing `key`, it has no stored value and every other key reads
/// what it read before.
pub proof fn lemma_without_key_stored(s: Seq<SettingSpec>, key: Seq<char>, other: Seq<char>)
    ensures
        stored(without_key(s, key), key) is None,
        other != key ==> stored(without_key(s, key), other) == stored(s, other),
    decreases s.len(),
{
    if s.len() == 0 {
        lemma_key_index_from(s, key, 0);
        lemma_key_index_from(s, other, 0);
    } else {
        let p = s.drop_last();
        let x = s.last();
        assert(s == p.push(x));
        lemma_without_key_stored(p, key, other);
        lemma_stored_push(p, x, key);
        lemma_stored_push(p, x, other);
        if x.key != key {
            lemma_stored_push(without_key(p, key), x, key);
            lemma_stored_push(without_key(p, key), x, other);
        }
    }
}

// ----- window and dividers -------------------------------------------------

/// How the window was left: maximized, or restored with a position (when
/// the system tells it) and a size.
#[derive(Debug, Clone, Copy, PartialEq, Eq)]
pub struct WindowState {
    pub maximized: bool,
    pub position: Option<(i32, i32)>,
    pub width: i32,
    pub height: i32,
}

/// Where the dividers were left, as percentages: A's share of the width of
/// A + B, and C's share of the height.
#[derive(Debug, Clone, Copy, PartialEq, Eq, Structural)]
pub struct DividerState {
    pub tabs_width_percent: i32,
    pub arrangement_height_percent: i32,
}

/// How far the dividers can be dragged (the limits of their schema
/// entries), in percent, as `(min, max)`.
#[derive(Debug, Clone, Copy, PartialEq, Eq)]
pub struct DividerLimits {
    pub tabs_width: (i32, i32),
    pub arrangement_height: (i32, i32),
}

/// The window state the settings `s` describe.
pub open spec fn window_spec(defs: Seq<SettingDef>, s: Seq<SettingSpec>) -> WindowState {
    WindowState {
        maximized: match flag_of(defs, s, WINDOW_MAXIMIZED@) {
            Some(b) => b,
            None => true,
        },
        position: match (int_of(defs, s, WINDOW_X@), int_of(defs, s, WINDOW_Y@)) {
            (Some(x), Some(y)) => Some((x as i32, y as i32)),
            _ => None,
        },
        width: (match int_of(defs, s, WINDOW_WIDTH@) {
            Some(n) => n,
            None => 1100,
        }) as i32,
        height: (match int_of(defs, s, WINDOW_HEIGHT@) {
            Some(n) => n,
            None => 720,
        }) as i32,
    }
}

/// `s` with the window state `w` stored in it.
pub open spec fn set_window_spec(s: Seq<SettingSpec>, w: WindowState) -> Seq<SettingSpec> {
    let s1 = set_spec(s, WINDOW_MAXIMIZED@, ValueSpec::Bool(w.maximized));
    let s2 = match w.position {
        Some((x, y)) => set_spec(
            set_spec(s1, WINDOW_X@, ValueSpec::Int(x as i64)),
            WINDOW_Y@,
            ValueSpec::Int(y as i64),
        ),
        None => without_key(without_key(s1, WINDOW_X@), WINDOW_Y@),
    };
    set_spec(
        set_spec(s2, WINDOW_WIDTH@, ValueSpec::Int(w.width as i64)),
        WINDOW_HEIGHT@,
        ValueSpec::Int(w.height as i64),
    )
}

/// The integer default the schema gives `key`, if any.
pub open spec fn int_default(defs: Seq<SettingDef>, key: Seq<char>) -> Option<i64> {
    match schema_default(defs, key) {
        Some(ValueSpec::Int(n)) => Some(n),
        _ => None,
    }
}

/// The divider state the settings `s` describe, `d` where they say nothing.
pub open spec fn dividers_spec(defs: Seq<SettingDef>, s: Seq<SettingSpec>, d: DividerState) -> DividerState {
    DividerState {
        tabs_width_percent: match int_of(defs, s, TABS_WIDTH_PERCENT@) {
            Some(v) => v as i32,
            None => d.tabs_width_percent,
        },
        arrangement_height_percent: match int_of(defs, s, ARRANGEMENT_HEIGHT_PERCENT@) {
            Some(v) => v as i32,
            None => d.arrangement_height_percent,
        },
    }
}

/// `s` with the divider state `d` stored in it.
pub open spec fn set_dividers_spec(s: Seq<SettingSpec>, d: DividerState) -> Seq<SettingSpec> {
    set_spec(
        set_spec(s, TABS_WIDTH_PERCENT@, ValueSpec::Int(d.tabs_width_percent as i64)),
        ARRANGEMENT_HEIGHT_PERCENT@,
        ValueSpec::Int(d.arrangement_height_percent as i64),
    )
}

/// The language the settings `s` name (English unless `lang` is `SPANISH`).
pub open spec fn language_spec(defs: Seq<SettingDef>, s: Seq<SettingSpec>) -> Lang {
    match text_of(defs, s, LANG@) {
        Some(t) => if t == setting_spec(Lang::Spanish) {
            Lang::Spanish
        } else {
            Lang::English
        },
        None => Lang::English,
    }
}

impl DividerState {
    /// The schema defaults of the two dividers.
    pub fn defaults(schema: &Schema) -> (r: DividerState)
        requires
            int_default(schema.defs(), TABS_WIDTH_PERCENT@) is Some,
            int_default(schema.defs(), ARRANGEMENT_HEIGHT_PERCENT@) is Some,
        ensures
            r.tabs_width_percent == int_default(schema.defs(), TABS_WIDTH_PERCENT@)->0 as i32,
            r.arrangement_height_percent == int_default(schema.defs(), ARRANGEMENT_HEIGHT_PERCENT@)->0 as i32,
    {
        DividerState {
            tabs_width_percent: default_int(schema, TABS_WIDTH_PERCENT),
            arrangement_height_percent: default_int(schema, ARRANGEMENT_HEIGHT_PERCENT),
        }
    }
}

fn default_int(schema: &Schema, key: &str) -> (r: i32)
    requires
        int_default(schema.defs(), key@) is Some,
    ensures
        r == int_default(schema.defs(), key@)->0 as i32,
{
    match schema.definition(key) {
        Some(d) => match &d.default {
            Some(SettingValue::Int(n)) => *n as i32,
            _ => 0,
        },
        None => 0,
    }
}

fn limits_of(schema: &Schema, key: &str) -> (r: (i32, i32))
    requires
        def_index(schema.defs(), key@) < schema.defs().len(),
    ensures
        ({
            let d = schema.defs()[def_index(schema.defs(), key@)];
            r == ((match d.min {
                Some(m) => m,
                None => 10,
            }) as i32, (match d.max {
                Some(m) => m,
                None => 90,
            }) as i32)
        }),
{
    match schema.definition(key) {
        Some(d) => {
            let lo = match d.min {
                Some(m) => m,
                None => 10,
            };
            let hi = match d.max {
                Some(m) => m,
                None => 90,
            };
            (lo as i32, hi as i32)
        },
        None => (0, 0),
    }
}

impl DividerLimits {
    /// The limits of the two dividers' schema entries (10 and 90 where an
    /// entry gives none).
    pub fn defaults(schema: &Schema) -> (r: DividerLimits)
        requires
            def_index(schema.defs(), TABS_WIDTH_PERCENT@) < schema.defs().len(),
            def_index(schema.defs(), ARRANGEMENT_HEIGHT_PERCENT@) < schema.defs().len(),
        ensures
            ({
                let t = schema.defs()[def_index(schema.defs(), TABS_WIDTH_PERCENT@)];
                let a = schema.defs()[def_index(schema.defs(), ARRANGEMENT_HEIGHT_PERCENT@)];
                &&& r.tabs_width == ((match t.min {
                    Some(m) => m,
                    None => 10,
                }) as i32, (match t.max {
                    Some(m) => m,
                    None => 90,
                }) as i32)
                &&& r.arrangement_height == ((match a.min {
                    Some(m) => m,
                    None => 10,
                }) as i32, (match a.max {
                    Some(m) => m,
                    None => 90,
                }) as i32)
            }),
    {
        DividerLimits {
            tabs_width: limits_of(schema, TABS_WIDTH_PERCENT),
            arrangement_height: limits_of(schema, ARRANGEMENT_HEIGHT_PERCENT),
        }
    }
}

impl Config {
    /// The language of the interface (the `lang` setting).
    pub fn language(&self, schema: &Schema) -> (r: Lang)
        ensures
            r == language_spec(schema.defs(), settings_view(self.settings@)),
    {
        proof {
            reveal_strlit("ENGLISH");
            reveal_strlit("SPANISH");
        }
        let name = match self.text(LANG, schema) {
            Some(t) => t,
            None => String::new(),
        };
        assert("ENGLISH"@[0] != "SPANISH"@[0]);
        assert(setting_spec(Lang::English) != setting_spec(Lang::Spanish));
        assert(name@.len() == 0 ==> name@ != setting_spec(Lang::English) && name@ != setting_spec(Lang::Spanish));
        Lang::from_setting(name.as_str())
    }

    /// The folder file dialogs start in (the `path` setting), if it is not
    /// blank.
    pub fn files_path(&self, schema: &Schema) -> (r: Option<String>)
        ensures
            match r {
                Some(p) => text_of(schema.defs(), settings_view(self.settings@), PATH@) == Some(p@)
                    && trimmed(p@).len() > 0,
                None => match text_of(schema.defs(), settings_view(self.settings@), PATH@) {
                    Some(t) => trimmed(t).len() == 0,
                    None => true,
                },
            },
    {
        match self.text(PATH, schema) {
            Some(p) => {
                let t = trim_chars(p.as_str());
                if t.len() == 0 {
                    None
                } else {
                    Some(p)
                }
            },
            None => None,
        }
    }

    /// The window state stored in the settings.
    pub fn window(&self, schema: &Schema) -> (r: WindowState)
        ensures
            r == window_spec(schema.defs(), settings_view(self.settings@)),
    {
        let position = match (self.integer(WINDOW_X, schema), self.integer(WINDOW_Y, schema)) {
            (Some(x), Some(y)) => Some((x as i32, y as i32)),
            _ => None,
        };
        let maximized = match self.flag(WINDOW_MAXIMIZED, schema) {
            Some(b) => b,
            None => true,
        };
        let width = match self.integer(WINDOW_WIDTH, schema) {
            Some(n) => n,
            None => 1100,
        };
        let height = match self.integer(WINDOW_HEIGHT, schema) {
            Some(n) => n,
            None => 720,
        };
        WindowState { maximized, position, width: width as i32, height: height as i32 }
    }

    /// Stores the window state in the settings.
    pub fn set_window(&mut self, w: &WindowState)
        ensures
            settings_view(final(self).settings@) == set_window_spec(settings_view(old(self).settings@), *w),
            final(self).last_opened == old(self).last_opened,
    {
        self.set(WINDOW_MAXIMIZED, SettingValue::Bool(w.maximized));
        match w.position {
            Some((x, y)) => {
                self.set(WINDOW_X, SettingValue::Int(x as i64));
                self.set(WINDOW_Y, SettingValue::Int(y as i64));
            },
            None => {
                self.remove(WINDOW_X);
                self.remove(WINDOW_Y);
            },
        }
        self.set(WINDOW_WIDTH, SettingValue::Int(w.width as i64));
        self.set(WINDOW_HEIGHT, SettingValue::Int(w.height as i64));
    }

    /// The divider positions stored in the settings.
    pub fn dividers(&self, schema: &Schema) -> (r: DividerState)
        requires
            int_default(schema.defs(), TABS_WIDTH_PERCENT@) is Some,
            int_default(schema.defs(), ARRANGEMENT_HEIGHT_PERCENT@) is Some,
        ensures
            r == dividers_spec(schema.defs(), settings_view(self.settings@), DividerState {
                tabs_width_percent: int_default(schema.defs(), TABS_WIDTH_PERCENT@)->0 as i32,
                arrangement_height_percent: int_default(schema.defs(), ARRANGEMENT_HEIGHT_PERCENT@)->0 as i32,
            }),
    {
        let d = DividerState::defaults(schema);
        DividerState {
            tabs_width_percent: match self.integer(TABS_WIDTH_PERCENT, schema) {
                Some(v) => v as i32,
                None => d.tabs_width_percent,
            },
            arrangement_height_percent: match self.integer(ARRANGEMENT_HEIGHT_PERCENT, schema) {
                Some(v) => v as i32,
                None => d.arrangement_height_percent,
            },
        }
    }

    /// Stores the divider positions in the settings.
    pub fn set_dividers(&mut self, d: &DividerState)
        ensures
            settings_view(final(self).settings@) == set_dividers_spec(settings_view(old(self).settings@), *d),
            final(self).last_opened == old(self).last_opened,
    {
        self.set(TABS_WIDTH_PERCENT, SettingValue::Int(d.tabs_width_percent as i64));
        self.set(ARRANGEMENT_HEIGHT_PERCENT, SettingValue::Int(d.arrangement_height_percent as i64));
    }
}

proof fn lemma_window_keys_differ()
    ensures
        WINDOW_MAXIMIZED@ != WINDOW_X@,
        WINDOW_MAXIMIZED@ != WINDOW_Y@,
        WINDOW_MAXIMIZED@ != WINDOW_WIDTH@,
        WINDOW_MAXIMIZED@ != WINDOW_HEIGHT@,
        WINDOW_X@ != WINDOW_Y@,
        WINDOW_X@ != WINDOW_WIDTH@,
        WINDOW_X@ != WINDOW_HEIGHT@,
        WINDOW_Y@ != WINDOW_WIDTH@,
        WINDOW_Y@ != WINDOW_HEIGHT@,
        WINDOW_WIDTH@ != WINDOW_HEIGHT@,
        TABS_WIDTH_PERCENT@ != ARRANGEMENT_HEIGHT_PERCENT@,
{
    reveal_strlit("windowMaximized");
    reveal_strlit("windowX");
    reveal_strlit("windowY");
    reveal_strlit("windowWidth");
    reveal_strlit("windowHeight");
    reveal_strlit("tabsWidthPercent");
    reveal_strlit("arrangementHeightPercent");
    assert(WINDOW_X@ == "windowX"@);
    assert(WINDOW_X@.len() == 7);
    assert(WINDOW_MAXIMIZED@.len() == 15);
    assert(WINDOW_X@[6] != WINDOW_Y@[6]);
    assert(WINDOW_WIDTH@.len() != WINDOW_HEIGHT@.len());
    assert(TABS_WIDTH_PERCENT@.len() != ARRANGEMENT_HEIGHT_PERCENT@.len());
}

/// The window state read back after storing it is the one stored, unless
/// the schema gives both coordinates an integer default (then a state
/// without a position reads back with that default position).
pub proof fn lemma_window_round_trip(defs: Seq<SettingDef>, s: Seq<SettingSpec>, w: WindowState)
    requires
        int_default(defs, WINDOW_X@) is None || int_default(defs, WINDOW_Y@) is None,
    ensures
        window_spec(defs, set_window_spec(s, w)) == w,
{
    lemma_window_keys_differ();
    let s1 = set_spec(s, WINDOW_MAXIMIZED@, ValueSpec::Bool(w.maximized));
    lemma_set_stored(s, WINDOW_MAXIMIZED@, ValueSpec::Bool(w.maximized), WINDOW_MAXIMIZED@);
    let s2 = match w.position {
        Some((x, y)) => set_spec(
            set_spec(s1, WINDOW_X@, ValueSpec::Int(x as i64)),
            WINDOW_Y@,
            ValueSpec::Int(y as i64),
        ),
        None => without_key(without_key(s1, WINDOW_X@), WINDOW_Y@),
    };
    match w.position {
        Some((x, y)) => {
            let a = set_spec(s1, WINDOW_X@, ValueSpec::Int(x as i64));
            lemma_set_stored(s1, WINDOW_X@, ValueSpec::Int(x as i64), WINDOW_MAXIMIZED@);
            lemma_set_stored(a, WINDOW_Y@, ValueSpec::Int(y as i64), WINDOW_MAXIMIZED@);
            lemma_set_stored(a, WINDOW_Y@, ValueSpec::Int(y as i64), WINDOW_X@);
        },
        None => {
            let a = without_key(s1, WINDOW_X@);
            lemma_without_key_stored(s1, WINDOW_X@, WINDOW_MAXIMIZED@);
            lemma_without_key_stored(a, WINDOW_Y@, WINDOW_MAXIMIZED@);
            lemma_without_key_stored(a, WINDOW_Y@, WINDOW_X@);
        },
    }
    let s3 = set_spec(s2, WINDOW_WIDTH@, ValueSpec::Int(w.width as i64));
    let s4 = set_spec(s3, WINDOW_HEIGHT@, ValueSpec::Int(w.height as i64));
    lemma_set_stored(s2, WINDOW_WIDTH@, ValueSpec::Int(w.width as i64), WINDOW_MAXIMIZED@);
    lemma_set_stored(s2, WINDOW_WIDTH@, ValueSpec::Int(w.width as i64), WINDOW_X@);
    lemma_set_stored(s2, WINDOW_WIDTH@, ValueSpec::Int(w.width as i64), WINDOW_Y@);
    lemma_set_stored(s3, WINDOW_HEIGHT@, ValueSpec::Int(w.height as i64), WINDOW_MAXIMIZED@);
    lemma_set_stored(s3, WINDOW_HEIGHT@, ValueSpec::Int(w.height as i64), WINDOW_X@);
    lemma_set_stored(s3, WINDOW_HEIGHT@, ValueSpec::Int(w.height as i64), WINDOW_Y@);
    lemma_set_stored(s3, WINDOW_HEIGHT@, ValueSpec::Int(w.height as i64), WINDOW_WIDTH@);
    assert(s4 == set_window_spec(s, w));
}

/// The divider state read back after storing it is the one stored.
pub proof fn lemma_dividers_round_trip(defs: Seq<SettingDef>, s: Seq<SettingSpec>, d: DividerState, fallback: DividerState)
    ensures
        dividers_spec(defs, set_dividers_spec(s, d), fallback) == d,
{
    lemma_window_keys_differ();
    let a = set_spec(s, TABS_WIDTH_PERCENT@, ValueSpec::Int(d.tabs_width_percent as i64));
    lemma_set_stored(s, TABS_WIDTH_PERCENT@, ValueSpec::Int(d.tabs_width_percent as i64), TABS_WIDTH_PERCENT@);
    lemma_set_stored(a, ARRANGEMENT_HEIGHT_PERCENT@, ValueSpec::Int(d.arrangement_height_percent as i64), TABS_WIDTH_PERCENT@);
}


impl Config {
    /// The defaults of every setting that has one, and an empty history.
    pub fn defaults(schema: &Schema) -> (r: Config)
        ensures
            settings_view(r.settings@) == normalized(schema.defs(), Seq::empty()),
            r.last_opened@.len() == 0,
    {
        let c = Config::default();
        assert(settings_view(c.settings@) =~= Seq::<SettingSpec>::empty());
        c.with_defaults(schema)
    }

    /// Whether `self` and `other` hold the same settings, in the same
    /// order, and the same history.
    pub fn same_as(&self, other: &Config) -> (r: bool)
        ensures
            r == (settings_view(self.settings@) == settings_view(other.settings@) && history_view(
                self.last_opened@,
            ) == history_view(other.last_opened@)),
    {
        let ghost a = settings_view(self.settings@);
        let ghost b = settings_view(other.settings@);
        if self.settings.len() != other.settings.len() {
            return false;
        }
        let mut i: usize = 0;
        while i < self.settings.len()
            invariant
                a == settings_view(self.settings@),
                b == settings_view(other.settings@),
                a.len() == b.len(),
                i <= a.len(),
                forall|k: int| 0 <= k < i ==> a[k] == b[k],
            decreases self.settings.len() - i,
        {
            if !str_eq(self.settings[i].key.as_str(), other.settings[i].key.as_str()) || !same_value(
                &self.settings[i].value,
                &other.settings[i].value,
            ) {
                assert(a[i as int] != b[i as int]);
                return false;
            }
            i = i + 1;
        }
        assert(a =~= b);
        let ghost h = history_view(self.last_opened@);
        let ghost g = history_view(other.last_opened@);
        if self.last_opened.len() != other.last_opened.len() {
            assert(h.len() != g.len());
            return false;
        }
        let mut j: usize = 0;
        while j < self.last_opened.len()
            invariant
                h == history_view(self.last_opened@),
                g == history_view(other.last_opened@),
                h.len() == g.len(),
                j <= h.len(),
                forall|k: int| 0 <= k < j ==> h[k] == g[k],
            decreases self.last_opened.len() - j,
        {
            if !str_eq(self.last_opened[j].key.as_str(), other.last_opened[j].key.as_str()) || !str_eq(
                self.last_opened[j].value.as_str(),
                other.last_opened[j].value.as_str(),
            ) {
                assert(h[j as int] != g[j as int]);
                return false;
            }
            j = j + 1;
        }
        assert(h =~= g);
        true
    }
}

// ----- history and the Settings dialog -----------------------------------

/// The size limit of the history the settings `s` give: `maxLastOpened`
/// when it is at least 1, else 10.
pub open spec fn history_limit(defs: Seq<SettingDef>, s: Seq<SettingSpec>) -> usize {
    (match int_of(defs, s, MAX_LAST_OPENED@) {
        Some(n) => if n >= 1 {
            n
        } else {
            10
        },
        None => 10,
    }) as usize
}

/// `h` cut to its first `max` entries.
pub open spec fn cut(h: Seq<(Seq<char>, Seq<char>)>, max: usize) -> Seq<(Seq<char>, Seq<char>)> {
    if max < h.len() {
        h.take(max as int)
    } else {
        h
    }
}

/// `h` without the entries of `path`.
pub open spec fn without_path(h: Seq<(Seq<char>, Seq<char>)>, path: Seq<char>) -> Seq<(Seq<char>, Seq<char>)>
    decreases h.len(),
{
    if h.len() == 0 {
        h
    } else if h.last().0 == path {
        without_path(h.drop_last(), path)
    } else {
        without_path(h.drop_last(), path).push(h.last())
    }
}

/// The history after opening `path`: `path` first, its older entries
/// dropped, cut to `max` entries.
pub open spec fn recorded(h: Seq<(Seq<char>, Seq<char>)>, path: Seq<char>, max: usize) -> Seq<(Seq<char>, Seq<char>)> {
    cut(seq![(path, path)] + without_path(h, path), max)
}

/// No path occurs twice in `h`.
pub open spec fn paths_distinct(h: Seq<(Seq<char>, Seq<char>)>) -> bool {
    forall|i: int, j: int| 0 <= i < j < h.len() ==> h[i].0 != h[j].0
}

/// Every entry of `h` has its path as key and value.
pub open spec fn entries_are_paths(h: Seq<(Seq<char>, Seq<char>)>) -> bool {
    forall|i: int| 0 <= i < h.len() ==> h[i].0 == (#[trigger] h[i]).1
}

/// The settings `s` after "reset all": every user setting with a default
/// set back to it, in schema order (the first `m` definitions).
pub open spec fn reset_spec(defs: Seq<SettingDef>, s: Seq<SettingSpec>, m: int) -> Seq<SettingSpec>
    decreases m,
{
    if m <= 0 {
        s
    } else {
        let prev = reset_spec(defs, s, m - 1);
        let d = defs[m - 1];
        match d.default {
            Some(dv) => if d.setting_type == SettingType::User {
                set_spec(prev, d.key@, dv@)
            } else {
                prev
            },
            None => prev,
        }
    }
}

/// The settings `s` after taking the user settings from `e` (the first `m`
/// definitions, in schema order): each user setting `e` has a value for.
pub open spec fn adopt_spec(defs: Seq<SettingDef>, s: Seq<SettingSpec>, e: Seq<SettingSpec>, m: int) -> Seq<SettingSpec>
    decreases m,
{
    if m <= 0 {
        s
    } else {
        let prev = adopt_spec(defs, s, e, m - 1);
        let d = defs[m - 1];
        if d.setting_type == SettingType::User {
            match value_of(defs, e, d.key@) {
                Some(v) => set_spec(prev, d.key@, v),
                None => prev,
            }
        } else {
            prev
        }
    }
}

fn copy_history(h: &Vec<KeyValue>) -> (r: Vec<KeyValue>)
    ensures
        r@ == h@,
{
    let mut out: Vec<KeyValue> = Vec::new();
    let mut i: usize = 0;
    while i < h.len()
        invariant
            i <= h@.len(),
            out@ == h@.take(i as int),
        decreases h.len() - i,
    {
        out.push(KeyValue { key: h[i].key.clone(), value: h[i].value.clone() });
        assert(out@ =~= h@.take(i + 1));
        i = i + 1;
    }
    assert(h@.take(h@.len() as int) =~= h@);
    out
}

impl Config {
    /// The maximum size of the history.
    pub fn max_last_opened(&self, schema: &Schema) -> (r: usize)
        ensures
            r == history_limit(schema.defs(), settings_view(self.settings@)),
    {
        let n = match self.integer(MAX_LAST_OPENED, schema) {
            Some(n) => if n >= 1 {
                n
            } else {
                10
            },
            None => 10,
        };
        n as usize
    }

    /// Drops the oldest history entries beyond the maximum.
    pub fn trim_history(&mut self, schema: &Schema)
        ensures
            final(self).settings == old(self).settings,
            history_view(final(self).last_opened@) == cut(
                history_view(old(self).last_opened@),
                history_limit(schema.defs(), settings_view(old(self).settings@)),
            ),
    {
        let max = self.max_last_opened(schema);
        let ghost before = self.last_opened@;
        self.last_opened.truncate(max);
        assert(history_view(self.last_opened@) =~= cut(history_view(before), max));
    }

    /// Puts `path` first (most recent; moving it if it was already there)
    /// and drops the oldest ones beyond the maximum.
    pub fn record_opened(&mut self, path: &str, schema: &Schema)
        ensures
            final(self).settings == old(self).settings,
            history_view(final(self).last_opened@) == recorded(
                history_view(old(self).last_opened@),
                path@,
                history_limit(schema.defs(), settings_view(old(self).settings@)),
            ),
    {
        let ghost h = history_view(self.last_opened@);
        let mut kept: Vec<KeyValue> = Vec::new();
        let mut i: usize = 0;
        while i < self.last_opened.len()
            invariant
                h == history_view(self.last_opened@),
                i <= self.last_opened@.len(),
                history_view(kept@) == without_path(h.take(i as int), path@),
            decreases self.last_opened.len() - i,
        {
            proof {
                assert(h.take(i + 1).drop_last() =~= h.take(i as int));
            }
            if !str_eq(self.last_opened[i].key.as_str(), path) {
                kept.push(KeyValue { key: self.last_opened[i].key.clone(), value: self.last_opened[i].value.clone() });
            }
            i = i + 1;
            proof {
                assert(history_view(kept@) =~= without_path(h.take(i as int), path@));
            }
        }
        assert(h.take(h.len() as int) =~= h);
        kept.insert(0, KeyValue { key: String::from_str(path), value: String::from_str(path) });
        assert(history_view(kept@) =~= seq![(path@, path@)] + without_path(h, path@));
        self.last_opened = kept;
        self.trim_history(schema);
    }

    /// Puts every user-editable setting back to its default.
    pub fn reset_user_settings(&mut self, schema: &Schema)
        ensures
            settings_view(final(self).settings@) == reset_spec(
                schema.defs(),
                settings_view(old(self).settings@),
                schema.defs().len() as int,
            ),
            final(self).last_opened == old(self).last_opened,
    {
        let ghost s0 = settings_view(self.settings@);
        let defs = schema.definitions();
        let mut k: usize = 0;
        while k < defs.len()
            invariant
                defs@ == schema.defs(),
                k <= defs@.len(),
                settings_view(self.settings@) == reset_spec(defs@, s0, k as int),
                self.last_opened == old(self).last_opened,
            decreases defs.len() - k,
        {
            let d = &defs[k];
            if d.setting_type == SettingType::User {
                match &d.default {
                    Some(dv) => {
                        self.set(d.key.as_str(), dv.clone());
                    },
                    None => {},
                }
            }
            k = k + 1;
        }
    }

    /// Takes the user-editable settings and the history from `edited` (the
    /// result of the Settings dialog), then cuts the history to the
    /// (possibly new) maximum.
    pub fn adopt_user_settings(&mut self, edited: &Config, schema: &Schema)
        ensures
            settings_view(final(self).settings@) == adopt_spec(
                schema.defs(),
                settings_view(old(self).settings@),
                settings_view(edited.settings@),
                schema.defs().len() as int,
            ),
            history_view(final(self).last_opened@) == cut(
                history_view(edited.last_opened@),
                history_limit(schema.defs(), settings_view(final(self).settings@)),
            ),
    {
        let ghost s0 = settings_view(self.settings@);
        let ghost e = settings_view(edited.settings@);
        let defs = schema.definitions();
        let mut k: usize = 0;
        while k < defs.len()
            invariant
                defs@ == schema.defs(),
                e == settings_view(edited.settings@),
                k <= defs@.len(),
                settings_view(self.settings@) == adopt_spec(defs@, s0, e, k as int),
            decreases defs.len() - k,
        {
            let d = &defs[k];
            if d.setting_type == SettingType::User {
                match edited.value(d.key.as_str(), schema) {
                    Some(v) => {
                        self.set(d.key.as_str(), v);
                    },
                    None => {},
                }
            }
            k = k + 1;
        }
        self.last_opened = copy_history(&edited.last_opened);
        self.trim_history(schema);
    }
}


proof fn lemma_without_path(h: Seq<(Seq<char>, Seq<char>)>, path: Seq<char>)
    ensures
        forall|i: int| 0 <= i < without_path(h, path).len() ==> (#[trigger] without_path(h, path)[i]).0 != path,
        forall|i: int| 0 <= i < without_path(h, path).len() ==> exists|j: int| 0 <= j < h.len() && #[trigger] without_path(h, path)[i] == h[j],
        without_path(h, path).len() <= h.len(),
        paths_distinct(h) ==> paths_distinct(without_path(h, path)),
        entries_are_paths(h) ==> entries_are_paths(without_path(h, path)),
    decreases h.len(),
{
    if h.len() > 0 {
        let p = h.drop_last();
        let x = h.last();
        lemma_without_path(p, path);
        let w = without_path(p, path);
        assert forall|i: int| 0 <= i < w.len() implies exists|j: int| 0 <= j < h.len() && #[trigger] w[i] == h[j] by {
            let j = choose|j: int| 0 <= j < p.len() && w[i] == p[j];
            assert(h[j] == p[j]);
        }
        if x.0 != path {
            let w2 = w.push(x);
            assert forall|i: int| 0 <= i < w2.len() implies exists|j: int| 0 <= j < h.len() && #[trigger] w2[i] == h[j] by {
                if i == w.len() {
                    assert(w2[i] == h[h.len() - 1]);
                } else {
                    assert(w2[i] == w[i]);
                }
            }
            if paths_distinct(h) {
                assert(paths_distinct(p));
                assert forall|a: int, b: int| 0 <= a < b < w2.len() implies w2[a].0 != w2[b].0 by {
                    if b == w.len() {
                        let j = choose|j: int| 0 <= j < p.len() && w[a] == p[j];
                        assert(h[j] == p[j]);
                        assert(h[h.len() - 1] == x);
                    }
                }
            }
            if entries_are_paths(h) {
                assert(entries_are_paths(p));
                assert forall|i: int| 0 <= i < w2.len() implies w2[i].0 == (#[trigger] w2[i]).1 by {
                    if i < w.len() {
                        assert(w2[i] == w[i]);
                    } else {
                        assert(h[h.len() - 1] == x);
                    }
                }
            }
        } else {
            if paths_distinct(h) {
                assert(paths_distinct(p));
            }
            if entries_are_paths(h) {
                assert(entries_are_paths(p));
            }
        }
    }
}

/// Opening a file puts it first in the history; the history never holds
/// more entries than its limit, never holds a path twice if it did not
/// before, and keeps every entry's key equal to its value.
pub proof fn lemma_history_newest_first(h: Seq<(Seq<char>, Seq<char>)>, path: Seq<char>, max: usize)
    requires
        max >= 1,
    ensures
        recorded(h, path, max)[0] == (path, path),
        recorded(h, path, max).len() <= max,
        paths_distinct(h) ==> paths_distinct(recorded(h, path, max)),
        entries_are_paths(h) ==> entries_are_paths(recorded(h, path, max)),
{
    lemma_without_path(h, path);
    let w = without_path(h, path);
    let full = seq![(path, path)] + w;
    let r = recorded(h, path, max);
    assert(r.len() <= full.len());
    assert forall|i: int| 0 <= i < r.len() implies r[i] == full[i] by {}
    if paths_distinct(h) {
        assert forall|a: int, b: int| 0 <= a < b < r.len() implies r[a].0 != r[b].0 by {
            assert(r[a] == full[a] && r[b] == full[b]);
            if a == 0 {
                assert(full[b] == w[b - 1]);
            } else {
                assert(full[a] == w[a - 1] && full[b] == w[b - 1]);
            }
        }
    }
    if entries_are_paths(h) {
        assert forall|i: int| 0 <= i < r.len() implies r[i].0 == (#[trigger] r[i]).1 by {
            assert(r[i] == full[i]);
            if i > 0 {
                assert(full[i] == w[i - 1]);
            }
        }
    }
}

/// "Reset all" leaves every other setting (system state, unknown keys) as
/// it was, and sets each user setting that has a default back to it.
pub proof fn lemma_reset_restores_user_defaults(defs: Seq<SettingDef>, s: Seq<SettingSpec>, m: int, key: Seq<char>)
    requires
        0 <= m <= defs.len(),
    ensures
        (forall|i: int| 0 <= i < m && (#[trigger] defs[i]).key@ == key ==> defs[i].setting_type != SettingType::User
            || defs[i].default is None) ==> stored(reset_spec(defs, s, m), key) == stored(s, key),
        keys_distinct(defs) ==> forall|i: int|
            0 <= i < m && (#[trigger] defs[i]).key@ == key && defs[i].setting_type == SettingType::User
                && defs[i].default is Some ==> stored(reset_spec(defs, s, m), key) == Some(defs[i].default->0@),
    decreases m,
{
    if m > 0 {
        lemma_reset_restores_user_defaults(defs, s, m - 1, key);
        let prev = reset_spec(defs, s, m - 1);
        let d = defs[m - 1];
        match d.default {
            Some(dv) => {
                if d.setting_type == SettingType::User {
                    lemma_set_stored(prev, d.key@, dv@, key);
                }
            },
            None => {},
        }
    }
}


// ----- normalizing twice ---------------------------------------------------

/// Every default of the schema is a valid value of its setting.
pub open spec fn defaults_valid(defs: Seq<SettingDef>) -> bool {
    forall|k: int|
        0 <= k < defs.len() && (#[trigger] defs[k]).default is Some ==> coerce_spec(defs[k], defs[k].default->0@)
            == Some(defs[k].default->0@)
}

/// No key is stored twice.
pub open spec fn setting_keys_distinct(s: Seq<SettingSpec>) -> bool {
    forall|i: int, j: int| 0 <= i < j < s.len() ==> s[i].key != s[j].key
}

/// The setting at `i` of `t` has a valid value, if the schema defines it.
pub open spec fn valid_at(defs: Seq<SettingDef>, t: Seq<SettingSpec>, i: int) -> bool {
    let d = def_index(defs, t[i].key);
    d < defs.len() ==> coerce_spec(defs[d], t[i].value) == Some(t[i].value)
}

/// Settings that normalizing leaves as they are: no key twice, every
/// setting the schema defines with a valid value, and every setting that
/// has a default present.
pub open spec fn settled(defs: Seq<SettingDef>, t: Seq<SettingSpec>) -> bool {
    &&& setting_keys_distinct(t)
    &&& forall|i: int| 0 <= i < t.len() ==> #[trigger] valid_at(defs, t, i)
    &&& forall|k: int|
        0 <= k < defs.len() && (#[trigger] defs[k]).default is Some ==> key_index(t, defs[k].key@) < t.len()
}

/// A value `coerce` accepted is accepted again as it is.
pub proof fn lemma_coerce_idempotent(d: SettingDef, v: ValueSpec)
    ensures
        coerce_spec(d, v) matches Some(c) ==> coerce_spec(d, c) == Some(c),
{
}

/// Where a key first occurs in two settings lists one after the other.
proof fn lemma_key_index_concat(a: Seq<SettingSpec>, b: Seq<SettingSpec>, key: Seq<char>)
    ensures
        key_index(a, key) < a.len() ==> key_index(a + b, key) == key_index(a, key),
        key_index(a, key) >= a.len() ==> key_index(a + b, key) == a.len() + key_index(b, key),
{
    lemma_key_index_from(a, key, 0);
    lemma_key_index_from(b, key, 0);
    let t = a + b;
    if key_index(a, key) < a.len() {
        lemma_key_index_is(t, key, key_index(a, key));
    } else {
        let j = key_index(b, key);
        assert forall|k: int| 0 <= k < a.len() + j implies t[k].key != key by {
            if k >= a.len() {
                assert(t[k] == b[k - a.len()]);
            }
        }
        if j < b.len() {
            assert(t[a.len() + j] == b[j]);
        }
        lemma_key_index_is(t, key, a.len() + j);
    }
}

/// A key present in `t` has its first occurrence in `t`.
proof fn lemma_key_present(t: Seq<SettingSpec>, key: Seq<char>, i: int)
    requires
        0 <= i < t.len(),
        t[i].key == key,
    ensures
        key_index(t, key) <= i,
{
    lemma_key_index_from(t, key, 0);
}

/// With no key twice, the setting at `j` is the first of its key.
proof fn lemma_key_index_distinct(s: Seq<SettingSpec>, j: int)
    requires
        setting_keys_distinct(s),
        0 <= j < s.len(),
    ensures
        key_index(s, s[j].key) == j,
{
    lemma_key_index_is(s, s[j].key, j);
}

/// What the normalized first `n` settings are made of.
proof fn lemma_normalized_prefix(defs: Seq<SettingDef>, s: Seq<SettingSpec>, n: int)
    requires
        keys_distinct(defs),
        defaults_valid(defs),
        setting_keys_distinct(s),
        0 <= n <= s.len(),
    ensures
        ({
            let p = normalized_prefix(defs, s, n);
            &&& forall|i: int| 0 <= i < p.len() ==> key_index(s, (#[trigger] p[i]).key) < n
            &&& setting_keys_distinct(p)
            &&& forall|i: int| 0 <= i < p.len() ==> #[trigger] valid_at(defs, p, i)
            &&& forall|j: int|
                0 <= j < n && def_index(defs, (#[trigger] s[j]).key) < defs.len() && defs[def_index(
                    defs,
                    s[j].key,
                )].default is Some ==> key_index(p, s[j].key) < p.len()
        }),
    decreases n,
{
    if n > 0 {
        lemma_normalized_prefix(defs, s, n - 1);
        let q = normalized_prefix(defs, s, n - 1);
        let x = s[n - 1];
        let e = normalized_at(defs, s, n - 1);
        let p = q + e;
        assert(p == normalized_prefix(defs, s, n));
        lemma_key_index_distinct(s, n - 1);
        let d = def_index(defs, x.key);
        lemma_def_index_from(defs, x.key, 0);
        assert(e.len() <= 1);
        assert forall|i: int| 0 <= i < e.len() implies (#[trigger] e[i]).key == x.key by {}
        if d < defs.len() {
            match coerce_spec(defs[d], x.value) {
                Some(v) => {
                    lemma_coerce_idempotent(defs[d], x.value);
                },
                None => {},
            }
        }
        assert forall|i: int| 0 <= i < p.len() implies key_index(s, (#[trigger] p[i]).key) < n by {
            if i >= q.len() {
                assert(p[i] == e[i - q.len()]);
            } else {
                assert(p[i] == q[i]);
            }
        }
        assert forall|a: int, b: int| 0 <= a < b < p.len() implies p[a].key != p[b].key by {
            if b >= q.len() {
                assert(p[b] == e[b - q.len()]);
                assert(p[a] == q[a]);
                assert(key_index(s, q[a].key) < n - 1);
            } else {
                assert(p[a] == q[a] && p[b] == q[b]);
            }
        }
        assert forall|i: int| 0 <= i < p.len() implies #[trigger] valid_at(defs, p, i) by {
            if i >= q.len() {
                assert(p[i] == e[i - q.len()]);
                assert(p[i].key == x.key);
                if d < defs.len() {
                    if coerce_spec(defs[d], x.value) is None {
                        assert(defs[d].default is Some);
                    }
                }
            } else {
                assert(p[i] == q[i]);
                assert(valid_at(defs, q, i));
            }
        }
        assert forall|j: int|
            0 <= j < n && def_index(defs, (#[trigger] s[j]).key) < defs.len() && defs[def_index(
                defs,
                s[j].key,
            )].default is Some implies key_index(p, s[j].key) < p.len() by {
            lemma_key_index_concat(q, e, s[j].key);
            if j == n - 1 {
                assert(e.len() == 1);
                lemma_key_index_from(e, x.key, 0);
            }
        }
    }
}

/// What the defaults added for the first `m` definitions are made of.
proof fn lemma_missing_defaults(defs: Seq<SettingDef>, s: Seq<SettingSpec>, m: int)
    requires
        keys_distinct(defs),
        defaults_valid(defs),
        0 <= m <= defs.len(),
    ensures
        ({
            let md = missing_defaults(defs, s, m);
            &&& forall|i: int|
                0 <= i < md.len() ==> def_index(defs, (#[trigger] md[i]).key) < m && key_index(s, md[i].key)
                    == s.len()
            &&& setting_keys_distinct(md)
            &&& forall|i: int| 0 <= i < md.len() ==> #[trigger] valid_at(defs, md, i)
            &&& forall|k: int|
                0 <= k < m && (#[trigger] defs[k]).default is Some && key_index(s, defs[k].key@) == s.len()
                    ==> key_index(md, defs[k].key@) < md.len()
        }),
    decreases m,
{
    if m > 0 {
        lemma_missing_defaults(defs, s, m - 1);
        let q = missing_defaults(defs, s, m - 1);
        let d = defs[m - 1];
        lemma_def_index_of(defs, m - 1);
        let md = missing_defaults(defs, s, m);
        let more = md.subrange(q.len() as int, md.len() as int);
        assert(md == q + more);
        assert forall|i: int| 0 <= i < more.len() implies (#[trigger] more[i]).key == d.key@ && d.default is Some
            && more[i].value == d.default->0@ && key_index(s, d.key@) == s.len() by {}
        assert forall|i: int| 0 <= i < md.len() implies def_index(defs, (#[trigger] md[i]).key) < m && key_index(
            s,
            md[i].key,
        ) == s.len() by {
            if i >= q.len() {
                assert(md[i] == more[i - q.len()]);
            }
        }
        assert forall|a: int, b: int| 0 <= a < b < md.len() implies md[a].key != md[b].key by {
            if b >= q.len() {
                assert(md[b] == more[b - q.len()]);
                if a >= q.len() {
                    assert(md[a] == more[a - q.len()]);
                }
            }
        }
        assert forall|i: int| 0 <= i < md.len() implies #[trigger] valid_at(defs, md, i) by {
            if i >= q.len() {
                assert(md[i] == more[i - q.len()]);
            } else {
                assert(md[i] == q[i]);
                assert(valid_at(defs, q, i));
            }
        }
        assert forall|k: int|
            0 <= k < m && (#[trigger] defs[k]).default is Some && key_index(s, defs[k].key@) == s.len()
                implies key_index(md, defs[k].key@) < md.len() by {
            lemma_key_index_concat(q, more, defs[k].key@);
            if k == m - 1 {
                lemma_key_index_from(more, d.key@, 0);
            }
        }
    }
}

/// After normalizing, no key is stored twice, every setting the schema
/// defines has a valid value and every setting with a default is present,
/// provided the schema's defaults are valid and no key was stored twice.
pub proof fn lemma_normalized_is_settled(defs: Seq<SettingDef>, s: Seq<SettingSpec>)
    requires
        keys_distinct(defs),
        defaults_valid(defs),
        setting_keys_distinct(s),
    ensures
        settled(defs, normalized(defs, s)),
{
    let n = s.len() as int;
    let m = defs.len() as int;
    lemma_normalized_prefix(defs, s, n);
    lemma_missing_defaults(defs, s, m);
    let p = normalized_prefix(defs, s, n);
    let md = missing_defaults(defs, s, m);
    let t = p + md;
    assert forall|a: int, b: int| 0 <= a < b < t.len() implies t[a].key != t[b].key by {
        if a < p.len() && b >= p.len() {
            assert(t[a] == p[a] && t[b] == md[b - p.len()]);
        } else if a < p.len() {
            assert(t[a] == p[a] && t[b] == p[b]);
        } else {
            assert(t[a] == md[a - p.len()] && t[b] == md[b - p.len()]);
        }
    }
    assert forall|i: int| 0 <= i < t.len() implies #[trigger] valid_at(defs, t, i) by {
        if i < p.len() {
            assert(t[i] == p[i]);
            assert(valid_at(defs, p, i));
        } else {
            assert(t[i] == md[i - p.len()]);
            assert(valid_at(defs, md, i - p.len()));
        }
    }
    assert forall|k: int| 0 <= k < defs.len() && (#[trigger] defs[k]).default is Some implies key_index(
        t,
        defs[k].key@,
    ) < t.len() by {
        let key = defs[k].key@;
        lemma_key_index_concat(p, md, key);
        lemma_key_index_from(s, key, 0);
        lemma_def_index_of(defs, k);
        if key_index(s, key) < s.len() {
            let j = key_index(s, key);
            assert(s[j].key == key);
        } else {
            lemma_key_index_from(p, key, 0);
            if key_index(p, key) < p.len() {
                assert(key_index(s, p[key_index(p, key)].key) < n);
            }
        }
    }
}

/// Settings that are settled are left as they are by normalizing.
pub proof fn lemma_settled_is_normalized(defs: Seq<SettingDef>, t: Seq<SettingSpec>)
    requires
        settled(defs, t),
    ensures
        normalized(defs, t) == t,
{
    lemma_settled_prefix(defs, t, t.len() as int);
    lemma_settled_nothing_missing(defs, t, defs.len() as int);
    assert(t.take(t.len() as int) =~= t);
}

proof fn lemma_settled_prefix(defs: Seq<SettingDef>, t: Seq<SettingSpec>, n: int)
    requires
        settled(defs, t),
        0 <= n <= t.len(),
    ensures
        normalized_prefix(defs, t, n) == t.take(n),
    decreases n,
{
    if n > 0 {
        lemma_settled_prefix(defs, t, n - 1);
        lemma_key_index_distinct(t, n - 1);
        assert(valid_at(defs, t, n - 1));
        let x = t[n - 1];
        assert(normalized_at(defs, t, n - 1) =~= seq![x]);
        assert(t.take(n) =~= t.take(n - 1) + seq![x]);
    }
}

proof fn lemma_settled_nothing_missing(defs: Seq<SettingDef>, t: Seq<SettingSpec>, m: int)
    requires
        settled(defs, t),
        0 <= m <= defs.len(),
    ensures
        missing_defaults(defs, t, m) == Seq::<SettingSpec>::empty(),
    decreases m,
{
    if m > 0 {
        lemma_settled_nothing_missing(defs, t, m - 1);
        let d = defs[m - 1];
        if d.default is Some {
            assert(key_index(t, d.key@) < t.len());
        }
        assert(missing_defaults(defs, t, m) =~= Seq::<SettingSpec>::empty());
    }
}

/// Normalizing twice gives what normalizing once gives, provided the
/// schema's defaults are valid and no key was stored twice.
pub proof fn lemma_with_defaults_idempotent(defs: Seq<SettingDef>, s: Seq<SettingSpec>)
    requires
        keys_distinct(defs),
        defaults_valid(defs),
        setting_keys_distinct(s),
    ensures
        normalized(defs, normalized(defs, s)) == normalized(defs, s),
{
    lemma_normalized_is_settled(defs, s);
    lemma_settled_is_normalized(defs, normalized(defs, s));
}


// ----- normalizing, key by key -------------------------------------------------

/// What normalizing leaves stored under `key`: for a key the schema
/// defines, its stored value converted to the setting's type, else (the
/// value is invalid or missing) the default, if any; for any other key,
/// what was stored.
pub open spec fn normalized_value(defs: Seq<SettingDef>, s: Seq<SettingSpec>, key: Seq<char>) -> Option<ValueSpec> {
    let d = def_index(defs, key);
    if d < defs.len() {
        match stored(s, key) {
            Some(v) => match coerce_spec(defs[d], v) {
                Some(w) => Some(w),
                None => opt_value(defs[d].default),
            },
            None => opt_value(defs[d].default),
        }
    } else {
        stored(s, key)
    }
}

/// The value of the setting normalizing makes of the one at `j`, if it
/// keeps one.
pub open spec fn value_at(defs: Seq<SettingDef>, s: Seq<SettingSpec>, j: int) -> Option<ValueSpec> {
    let e = normalized_at(defs, s, j);
    if e.len() > 0 {
        Some(e[0].value)
    } else {
        None
    }
}

proof fn lemma_stored_concat(a: Seq<SettingSpec>, b: Seq<SettingSpec>, k: Seq<char>)
    ensures
        stored(a + b, k) == match stored(a, k) {
            Some(v) => Some(v),
            None => stored(b, k),
        },
{
    lemma_key_index_concat(a, b, k);
    lemma_key_index_from(a, k, 0);
    lemma_key_index_from(b, k, 0);
    let i = key_index(a, k);
    if i < a.len() {
        assert((a + b)[i] == a[i]);
    } else {
        let j = key_index(b, k);
        if j < b.len() {
            assert((a + b)[a.len() + j] == b[j]);
        }
    }
}

proof fn lemma_stored_single(x: SettingSpec, k: Seq<char>)
    ensures
        stored(seq![x], k) == if x.key == k {
            Some(x.value)
        } else {
            None
        },
{
    let e = Seq::<SettingSpec>::empty();
    lemma_key_index_from(e, k, 0);
    assert(seq![x] == e.push(x));
    lemma_stored_push(e, x, k);
}

proof fn lemma_stored_empty(k: Seq<char>)
    ensures
        stored(Seq::<SettingSpec>::empty(), k) is None,
{
    lemma_key_index_from(Seq::<SettingSpec>::empty(), k, 0);
}

proof fn lemma_prefix_stored(defs: Seq<SettingDef>, s: Seq<SettingSpec>, n: int, k: Seq<char>)
    requires
        setting_keys_distinct(s),
        0 <= n <= s.len(),
    ensures
        stored(normalized_prefix(defs, s, n), k) == if key_index(s, k) < n {
            value_at(defs, s, key_index(s, k))
        } else {
            None
        },
    decreases n,
{
    lemma_key_index_from(s, k, 0);
    if n == 0 {
        lemma_stored_empty(k);
    } else {
        lemma_prefix_stored(defs, s, n - 1, k);
        let q = normalized_prefix(defs, s, n - 1);
        let e = normalized_at(defs, s, n - 1);
        lemma_stored_concat(q, e, k);
        lemma_key_index_distinct(s, n - 1);
        let x = s[n - 1];
        if e.len() == 0 {
            lemma_stored_empty(k);
        } else {
            assert(e == seq![e[0]]);
            lemma_stored_single(e[0], k);
            assert(e[0].key == x.key);
        }
        if x.key == k {
            assert(key_index(s, k) == n - 1);
        } else if key_index(s, k) == n - 1 {
            assert(s[n - 1].key == k);
        }
    }
}

proof fn lemma_missing_stored(defs: Seq<SettingDef>, s: Seq<SettingSpec>, m: int, k: Seq<char>)
    requires
        keys_distinct(defs),
        0 <= m <= defs.len(),
    ensures
        stored(missing_defaults(defs, s, m), k) == if def_index(defs, k) < m && key_index(s, k) == s.len() {
            opt_value(defs[def_index(defs, k)].default)
        } else {
            None
        },
    decreases m,
{
    lemma_def_index_from(defs, k, 0);
    if m == 0 {
        lemma_stored_empty(k);
    } else {
        lemma_missing_stored(defs, s, m - 1, k);
        let q = missing_defaults(defs, s, m - 1);
        let md = missing_defaults(defs, s, m);
        let more = md.subrange(q.len() as int, md.len() as int);
        assert(md == q + more);
        lemma_stored_concat(q, more, k);
        let d = defs[m - 1];
        lemma_def_index_of(defs, m - 1);
        if more.len() == 0 {
            lemma_stored_empty(k);
        } else {
            assert(more == seq![more[0]]);
            lemma_stored_single(more[0], k);
        }
    }
}

/// Normalizing, key by key: a key the schema defines ends up with its
/// stored value converted to the setting's type, or with its default when
/// that value is invalid or missing (and with nothing when there is no
/// default); a key the schema does not know keeps what was stored.
/// Provided no key is stored twice.
pub proof fn lemma_normalized_value(defs: Seq<SettingDef>, s: Seq<SettingSpec>, key: Seq<char>)
    requires
        keys_distinct(defs),
        setting_keys_distinct(s),
    ensures
        stored(normalized(defs, s), key) == normalized_value(defs, s, key),
{
    let n = s.len() as int;
    let m = defs.len() as int;
    lemma_prefix_stored(defs, s, n, key);
    lemma_missing_stored(defs, s, m, key);
    lemma_stored_concat(normalized_prefix(defs, s, n), missing_defaults(defs, s, m), key);
    lemma_key_index_from(s, key, 0);
    lemma_def_index_from(defs, key, 0);
    let j = key_index(s, key);
    if j < n {
        lemma_key_index_distinct(s, j);
    }
}

} // verus!
