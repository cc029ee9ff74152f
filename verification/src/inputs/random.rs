//! The random input: at a steady rate it makes up a line with one value for
//! each field of its field list.

use vstd::prelude::*;

use crate::params::Params;
use crate::processor::{
    config_field, config_view, field_of, str_views, Common, ConfigError, Processor,
};
use crate::text::{
    join_strings, join_with, lemma_split_char_contains, lemma_split_join, split_char, split_on,
    string_views,
};

verus! {

/// The type of a generated field.
#[derive(Clone, Copy, PartialEq, Eq, Debug, Structural)]
pub enum Kind {
    String,
}

/// A field of the generated lines: its name and type.
pub struct GeneratedType {
    pub name: String,
    pub kind: Kind,
}

/// The value that every generated field holds.
pub open spec fn generated_value() -> Seq<char> {
    seq!['f', 'o', 'o']
}

impl GeneratedType {
    /// A value for this field.
    pub fn generate(&self) -> (res: String)
        ensures
            res@ == generated_value(),
    {
        let mut s = String::new();
        crate::text::push_char(&mut s, 'f');
        crate::text::push_char(&mut s, 'o');
        crate::text::push_char(&mut s, 'o');
        assert(s@ =~= generated_value());
        s
    }
}

/// The name of a field definition `name:type`: what comes before the first
/// colon.
pub open spec fn definition_name(f: Seq<char>) -> Seq<char> {
    split_char(f, ':')[0]
}

/// Reads a field definition `name:type`. Every type is read as a string.
pub fn typeize(f: &str) -> (res: GeneratedType)
    requires
        f@.contains(':'),
    ensures
        res.name@ == definition_name(f@),
        res.kind == Kind::String,
{
    let definition = split_on(f, ':');
    proof {
        lemma_split_char_contains(f@, ':');
        assert(string_views(definition@)[0] == definition@[0]@);
    }
    let name = definition[0].clone();
    GeneratedType { name, kind: Kind::String }
}

/// The field definitions of a comma-separated field list; `None` where one
/// of them has no colon.
pub open spec fn field_definitions(list: Seq<char>) -> Option<Seq<Seq<char>>> {
    let defs = split_char(list, ',');
    if forall|i: int| 0 <= i < defs.len() ==> (#[trigger] defs[i]).contains(':') {
        Some(defs.map_values(|d: Seq<char>| definition_name(d)))
    } else {
        None
    }
}

/// `d` is the first of the definitions that has no colon.
pub open spec fn first_malformed(defs: Seq<Seq<char>>, d: Seq<char>) -> bool {
    exists|i: int|
        0 <= i < defs.len() && #[trigger] defs[i] == d && !d.contains(':') && forall|j: int|
            0 <= j < i ==> (#[trigger] defs[j]).contains(':')
}

/// The names of a list of generated fields.
pub open spec fn field_names(v: Seq<GeneratedType>) -> Seq<Seq<char>> {
    v.map_values(|g: GeneratedType| g.name@)
}

/// The line made for `n` fields: `n` generated values separated by tabs.
pub open spec fn generated_line(n: nat) -> Seq<char> {
    join_with(Seq::new(n, |i: int| generated_value()), seq!['\t'])
}

/// A generated line splits at its tabs into exactly one generated value for
/// each field.
pub proof fn lemma_line_has_a_value_per_field(n: nat)
    requires
        n >= 1,
    ensures
        split_char(generated_line(n), '\t') == Seq::new(n, |i: int| generated_value()),
{
    let parts = Seq::new(n, |i: int| generated_value());
    assert forall|i: int| 0 <= i < parts.len() implies !(#[trigger] parts[i]).contains('\t') by {
        if parts[i].contains('\t') {
            let k = choose|k: int| 0 <= k < parts[i].len() && parts[i][k] == '\t';
            assert(generated_value()[k] != '\t');
        }
    }
    lemma_split_join(parts, '\t');
}

/// Makes up lines of tab-separated values, one for each configured field.
///
/// ### catapult.conf
///
/// ```text
/// random {
///   fieldlist = "name:string,message:string"
///   rate = 10
/// }
/// ```
pub struct Random {
    common: Common,
}

impl Random {
    pub fn new(configuration_directive: String) -> (res: Random)
        ensures
            res.name_view() == configuration_directive@,
    {
        Random { common: Common::new(configuration_directive) }
    }

    /// The fields that the `fieldlist` parameter defines, in its order.
    pub fn fields(config: &Option<Params>) -> (res: Result<Vec<GeneratedType>, ConfigError>)
        ensures
            match field_of(config_view(*config), fieldlist_name()) {
                Err(e) => res matches Err(x) && x@ == e,
                Ok(list) => match field_definitions(list) {
                    Some(names) => res matches Ok(v) && field_names(v@) == names
                        && forall|i: int| 0 <= i < v@.len() ==> (#[trigger] v@[i]).kind == Kind::String,
                    None => res matches Err(ConfigError::MalformedField(d))
                        && first_malformed(split_char(list, ','), d@),
                },
            },
    {
        let list = config_field(config, "fieldlist")?;
        assert(list@ == config_view(*config)->0[fieldlist_name()]);
        let defs = split_on(list.as_str(), ',');
        let ghost dv = string_views(defs@);
        let mut fields: Vec<GeneratedType> = Vec::new();
        let mut i: usize = 0;
        while i < defs.len()
            invariant
                i <= defs@.len(),
                dv == string_views(defs@),
                dv == split_char(list@, ','),
                config_view(*config) is Some,
                config_view(*config)->0.dom().contains(fieldlist_name()),
                list@ == config_view(*config)->0[fieldlist_name()],
                forall|j: int| 0 <= j < i ==> (#[trigger] dv[j]).contains(':'),
                field_names(fields@) == dv.take(i as int).map_values(|d: Seq<char>| definition_name(d)),
                forall|j: int| 0 <= j < fields@.len() ==> (#[trigger] fields@[j]).kind == Kind::String,
            decreases defs@.len() - i,
        {
            let d = defs[i].as_str();
            assert(dv[i as int] == d@);
            if !has_colon(d) {
                assert(!dv[i as int].contains(':'));
                let e = d.to_owned();
                assert(first_malformed(dv, e@)) by {
                    assert(dv[i as int] == e@);
                }
                return Err(ConfigError::MalformedField(e));
            }
            let g = typeize(d);
            let ghost before = field_names(fields@);
            fields.push(g);
            assert(field_names(fields@) =~= before.push(g.name@));
            assert(dv.take(i + 1).map_values(|d: Seq<char>| definition_name(d)) =~= dv.take(
                i as int,
            ).map_values(|d: Seq<char>| definition_name(d)).push(definition_name(dv[i as int])));
            i = i + 1;
        }
        assert(dv.take(defs@.len() as int) =~= dv);
        Ok(fields)
    }

    /// A line for the given fields: a generated value for each, separated by
    /// tabs.
    pub fn line(fields: &Vec<GeneratedType>) -> (res: String)
        ensures
            res@ == generated_line(fields@.len()),
    {
        let mut values: Vec<String> = Vec::new();
        let mut i: usize = 0;
        while i < fields.len()
            invariant
                i <= fields@.len(),
                string_views(values@) =~= Seq::new(i as nat, |j: int| generated_value()),
            decreases fields@.len() - i,
        {
            let v = fields[i].generate();
            let ghost before = string_views(values@);
            values.push(v);
            assert(string_views(values@) =~= before.push(generated_value()));
            i = i + 1;
        }
        let mut tab = String::new();
        crate::text::push_char(&mut tab, '\t');
        assert(tab@ =~= seq!['\t']);
        join_strings(&values, tab.as_str())
    }
}

/// `"fieldlist"`
pub open spec fn fieldlist_name() -> Seq<char> {
    "fieldlist"@
}

fn has_colon(d: &str) -> (res: bool)
    ensures
        res == d@.contains(':'),
{
    let n = d.unicode_len();
    let mut i: usize = 0;
    while i < n
        invariant
            n == d@.len(),
            i <= n,
            forall|j: int| 0 <= j < i ==> d@[j] != ':',
        decreases n - i,
    {
        if d.get_char(i) == ':' {
            return true;
        }
        i = i + 1;
    }
    false
}

impl Processor for Random {
    closed spec fn name_view(&self) -> Seq<char> {
        self.common.name_view()
    }

    open spec fn mandatory_view(&self) -> Seq<Seq<char>> {
        seq!["fieldlist"@, "rate"@]
    }

    fn human_name(&self) -> (res: &str) {
        self.common.human_name()
    }

    fn mandatory_fields(&self) -> (res: Vec<&'static str>) {
        let res = vec!["fieldlist", "rate"];
        assert(str_views(res@) =~= seq!["fieldlist"@, "rate"@]);
        res
    }
}

} // verus!
