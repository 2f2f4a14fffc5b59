//! Flags that a command accepts.
use vstd::prelude::*;

verus! {

/// The kind of value a flag takes.
#[derive(Clone, Copy, Debug, PartialEq, Eq, Structural)]
pub enum FlagType {
    Bool,
    String,
    Int,
    Float,
}

/// A flag of a command, such as `--bye` or `-b`.
#[derive(Debug)]
pub struct Flag {
    /// Flag name, written `--name` on the command line
    pub name: String,
    /// Flag description, shown in the help text
    pub description: Option<String>,
    /// Kind of value the flag takes
    pub flag_type: FlagType,
    /// Short names, written `-alias` on the command line
    pub alias: Option<Vec<String>>,
}

/// The characters of each string.
pub open spec fn strings_view(v: Seq<String>) -> Seq<Seq<char>> {
    v.map_values(|s: String| s@)
}

/// The characters of each string of an optional list; `None` reads as no string.
pub open spec fn opt_strings_view(v: Option<Vec<String>>) -> Seq<Seq<char>> {
    match v {
        Some(v) => strings_view(v@),
        None => Seq::empty(),
    }
}

/// A copy of a list of strings.
pub fn copy_strings(v: &Vec<String>) -> (r: Vec<String>)
    ensures
        r@ == v@,
{
    let mut r: Vec<String> = Vec::new();
    let mut i: usize = 0;
    while i < v.len()
        invariant
            i <= v.len(),
            r@ == v@.take(i as int),
        decreases v.len() - i,
    {
        r.push(v[i].clone());
        assert(r@ =~= v@.take(i + 1));
        i = i + 1;
    }
    assert(v@.take(v.len() as int) =~= v@);
    r
}

/// A copy of an optional string.
pub fn copy_opt_string(v: &Option<String>) -> (r: Option<String>)
    ensures
        r == *v,
{
    match v {
        Some(s) => Some(s.clone()),
        None => None,
    }
}

/// A copy of an optional list of strings.
pub fn copy_opt_strings(v: &Option<Vec<String>>) -> (r: Option<Vec<String>>)
    ensures
        r matches Some(rv) <==> v is Some,
        r matches Some(rv) ==> rv@ == v->0@,
{
    match v {
        Some(s) => Some(copy_strings(s)),
        None => None,
    }
}

impl Flag {
    /// A flag with the given name and kind, with no description and no alias.
    pub fn new(name: &str, flag_type: FlagType) -> (r: Flag)
        ensures
            r.name@ == name@,
            r.flag_type == flag_type,
            r.description is None,
            r.alias is None,
    {
        Flag { name: name.to_owned(), description: None, flag_type, alias: None }
    }

    /// Sets the description of the flag.
    pub fn description(self, description: &str) -> (r: Flag)
        ensures
            r.description matches Some(d) && d@ == description@,
            r.name == self.name,
            r.flag_type == self.flag_type,
            r.alias == self.alias,
    {
        Flag { description: Some(description.to_owned()), ..self }
    }

    /// Adds a short name to the flag.
    pub fn alias(self, name: &str) -> (r: Flag)
        ensures
            r.alias is Some,
            opt_strings_view(r.alias) == opt_strings_view(self.alias).push(name@),
            r.name == self.name,
            r.flag_type == self.flag_type,
            r.description == self.description,
    {
        let mut f = self;
        let ghost before = opt_strings_view(f.alias);
        match f.alias {
            Some(mut v) => {
                v.push(name.to_owned());
                assert(strings_view(v@) =~= before.push(name@));
                f.alias = Some(v);
            },
            None => {
                let mut v: Vec<String> = Vec::new();
                v.push(name.to_owned());
                assert(strings_view(v@) =~= before.push(name@));
                f.alias = Some(v);
            },
        }
        f
    }

    /// A copy of the flag.
    pub fn copy(&self) -> (r: Flag)
        ensures
            r.name == self.name,
            r.description == self.description,
            r.flag_type == self.flag_type,
            r.alias matches Some(ra) <==> self.alias is Some,
            r.alias matches Some(ra) ==> ra@ == self.alias->0@,
    {
        Flag {
            name: self.name.clone(),
            description: copy_opt_string(&self.description),
            flag_type: self.flag_type,
            alias: copy_opt_strings(&self.alias),
        }
    }
}

} // verus!
