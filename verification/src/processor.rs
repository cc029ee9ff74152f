//! What every input and output shares: a name, the parameters it cannot do
//! without, and the checks on the parameters it is given.

use vstd::prelude::*;

use crate::params::Params;
use crate::text::{parse_u32, spec_parse_u32, string_views};

verus! {

/// The views of a list of string slices.
pub open spec fn str_views(v: Seq<&str>) -> Seq<Seq<char>> {
    v.map_values(|s: &str| s@)
}

/// The view of an optional set of parameters.
pub open spec fn config_view(config: Option<Params>) -> Option<Map<Seq<char>, Seq<char>>> {
    match config {
        Some(p) => Some(p@),
        None => None,
    }
}

/// The fields of `fields` that are not keys of `m`, in order.
pub open spec fn absent_from(m: Map<Seq<char>, Seq<char>>, fields: Seq<Seq<char>>) -> Seq<Seq<char>>
    decreases fields.len(),
{
    if fields.len() == 0 {
        Seq::empty()
    } else {
        let r = absent_from(m, fields.drop_last());
        if m.dom().contains(fields.last()) {
            r
        } else {
            r.push(fields.last())
        }
    }
}

/// The fields of `required` that the configuration does not give, in the
/// order of `required`; all of them where there is no configuration at all.
pub open spec fn missing_fields_of(
    config: Option<Map<Seq<char>, Seq<char>>>,
    required: Seq<Seq<char>>,
) -> Seq<Seq<char>> {
    match config {
        None => required,
        Some(m) => absent_from(m, required),
    }
}

/// Nothing is missing exactly when the configuration gives every required
/// field; without a configuration, exactly when nothing is required.
pub proof fn lemma_nothing_missing(config: Option<Map<Seq<char>, Seq<char>>>, required: Seq<Seq<char>>)
    ensures
        missing_fields_of(config, required).len() == 0 <==> match config {
            None => required.len() == 0,
            Some(m) => forall|i: int| 0 <= i < required.len() ==> m.dom().contains(#[trigger] required[i]),
        },
{
    if let Some(m) = config {
        lemma_absent_from_empty(m, required);
    }
}

proof fn lemma_absent_from_empty(m: Map<Seq<char>, Seq<char>>, fields: Seq<Seq<char>>)
    ensures
        absent_from(m, fields).len() == 0 <==> forall|i: int|
            0 <= i < fields.len() ==> m.dom().contains(#[trigger] fields[i]),
    decreases fields.len(),
{
    if fields.len() > 0 {
        let init = fields.drop_last();
        lemma_absent_from_empty(m, init);
        if absent_from(m, fields).len() == 0 {
            assert forall|i: int| 0 <= i < fields.len() implies m.dom().contains(#[trigger] fields[i]) by {
                if i < fields.len() - 1 {
                    assert(init[i] == fields[i]);
                }
            }
        }
        if forall|i: int| 0 <= i < fields.len() ==> m.dom().contains(#[trigger] fields[i]) {
            assert forall|i: int| 0 <= i < init.len() implies m.dom().contains(#[trigger] init[i]) by {
                assert(init[i] == fields[i]);
            }
            assert(m.dom().contains(fields[fields.len() - 1]));
        }
    }
}

/// Lists the fields of `required` that `config` does not give.
pub fn missing_fields(config: &Option<Params>, required: &Vec<&str>) -> (res: Vec<String>)
    ensures
        string_views(res@) == missing_fields_of(config_view(*config), str_views(required@)),
{
    let ghost req = str_views(required@);
    let mut res: Vec<String> = Vec::new();
    let mut i: usize = 0;
    assert(req.take(0) =~= Seq::empty());
    assert(string_views(res@) =~= Seq::empty());
    while i < required.len()
        invariant
            i <= required@.len(),
            req == str_views(required@),
            string_views(res@) == missing_fields_of(config_view(*config), req.take(i as int)),
        decreases required@.len() - i,
    {
        let f = required[i];
        let ghost before = string_views(res@);
        assert(req.take(i + 1).drop_last() =~= req.take(i as int));
        assert(req.take(i + 1).last() == f@);
        let absent = match config {
            Some(c) => !c.contains_key(f),
            None => true,
        };
        if absent {
            res.push(f.to_owned());
            assert(string_views(res@) =~= before.push(f@));
        }
        i = i + 1;
    }
    assert(req.take(required@.len() as int) =~= req);
    res
}

/// A parameter that an input or output needs is absent or unusable.
#[derive(PartialEq, Eq, Debug)]
pub enum ConfigError {
    /// No parameter block was given at all.
    MissingConfiguration,
    /// The named parameter is absent.
    MissingField(String),
    /// The named parameter is not a number that fits in a `u32`.
    BadNumber(String),
    /// A field definition of a field list has no `:` between name and type.
    MalformedField(String),
}

/// A `ConfigError` with its strings as character sequences.
pub enum ConfigFault {
    MissingConfiguration,
    MissingField(Seq<char>),
    BadNumber(Seq<char>),
    MalformedField(Seq<char>),
}

impl View for ConfigError {
    type V = ConfigFault;

    open spec fn view(&self) -> ConfigFault {
        match self {
            ConfigError::MissingConfiguration => ConfigFault::MissingConfiguration,
            ConfigError::MissingField(f) => ConfigFault::MissingField(f@),
            ConfigError::BadNumber(f) => ConfigFault::BadNumber(f@),
            ConfigError::MalformedField(f) => ConfigFault::MalformedField(f@),
        }
    }
}

/// A result that carries a string, with both sides as sequences.
pub open spec fn text_result(r: Result<String, ConfigError>) -> Result<Seq<char>, ConfigFault> {
    match r {
        Ok(v) => Ok(v@),
        Err(e) => Err(e@),
    }
}

/// A result that carries a number, with its error as sequences.
pub open spec fn number_result(r: Result<u32, ConfigError>) -> Result<u32, ConfigFault> {
    match r {
        Ok(v) => Ok(v),
        Err(e) => Err(e@),
    }
}

/// The value of the parameter `name`.
pub open spec fn field_of(config: Option<Map<Seq<char>, Seq<char>>>, name: Seq<char>) -> Result<
    Seq<char>,
    ConfigFault,
> {
    match config {
        None => Err(ConfigFault::MissingConfiguration),
        Some(m) => if m.dom().contains(name) {
            Ok(m[name])
        } else {
            Err(ConfigFault::MissingField(name))
        },
    }
}

/// The value of the parameter `name`, read as a `u32`.
pub open spec fn number_of(config: Option<Map<Seq<char>, Seq<char>>>, name: Seq<char>) -> Result<
    u32,
    ConfigFault,
> {
    match field_of(config, name) {
        Err(e) => Err(e),
        Ok(v) => match spec_parse_u32(v) {
            Some(n) => Ok(n),
            None => Err(ConfigFault::BadNumber(name)),
        },
    }
}

/// The value of `name` in the configuration.
pub fn config_field<'a>(config: &'a Option<Params>, name: &str) -> (res: Result<&'a String, ConfigError>)
    ensures
        match res {
            Ok(v) => field_of(config_view(*config), name@) == Ok::<Seq<char>, ConfigFault>(v@),
            Err(e) => field_of(config_view(*config), name@) == Err::<Seq<char>, ConfigFault>(e@),
        },
{
    match config {
        None => Err(ConfigError::MissingConfiguration),
        Some(c) => match c.get(name) {
            Some(v) => Ok(v),
            None => Err(ConfigError::MissingField(name.to_owned())),
        },
    }
}

/// The value of `name` in the configuration, read as a `u32` the way
/// `str::parse` reads it.
pub fn config_number(config: &Option<Params>, name: &str) -> (res: Result<u32, ConfigError>)
    ensures
        number_result(res) == number_of(config_view(*config), name@),
{
    let v = config_field(config, name)?;
    match parse_u32(v.as_str()) {
        Some(n) => Ok(n),
        None => Err(ConfigError::BadNumber(name.to_owned())),
    }
}

/// A configurable input or output.
pub trait Processor {
    /// The name of the configuration directive that created it.
    spec fn name_view(&self) -> Seq<char>;

    /// The parameters that it cannot start without.
    spec fn mandatory_view(&self) -> Seq<Seq<char>>;

    fn human_name(&self) -> (res: &str)
        ensures
            res@ == self.name_view(),
    ;

    fn mandatory_fields(&self) -> (res: Vec<&'static str>)
        ensures
            str_views(res@) == self.mandatory_view(),
    ;

    /// Checks that `optional_config` gives every field of `required_fields`;
    /// the error lists, in order, those that it does not give.
    fn requires_fields(&self, optional_config: &Option<Params>, required_fields: &Vec<&str>) -> (res:
        Result<(), Vec<String>>)
        ensures
            match res {
                Ok(()) => missing_fields_of(config_view(*optional_config), str_views(required_fields@)).len() == 0,
                Err(m) => string_views(m@) == missing_fields_of(config_view(*optional_config), str_views(required_fields@))
                    && m@.len() > 0,
            },
    {
        let missing = missing_fields(optional_config, required_fields);
        if missing.len() > 0 {
            Err(missing)
        } else {
            Ok(())
        }
    }
}

/// The state that the inputs share: the directive that created them.
pub(crate) struct Common {
    configuration_directive: String,
}

impl Common {
    pub fn new(configuration_directive: String) -> (res: Common)
        ensures
            res.name_view() == configuration_directive@,
    {
        Common { configuration_directive }
    }
}

impl Processor for Common {
    closed spec fn name_view(&self) -> Seq<char> {
        self.configuration_directive@
    }

    closed spec fn mandatory_view(&self) -> Seq<Seq<char>> {
        Seq::empty()
    }

    fn human_name(&self) -> (res: &str) {
        self.configuration_directive.as_str()
    }

    fn mandatory_fields(&self) -> (res: Vec<&'static str>) {
        let res = Vec::new();
        assert(str_views(res@) =~= Seq::empty());
        res
    }
}

} // verus!
