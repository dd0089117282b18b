//! The records the scanner produces: one `Type` per declaration
//! block, and the errors a failed scan reports.

use vstd::prelude::*;

use crate::is_ident_start;
use crate::is_ident_char;

verus! {

/// Why a scan failed, as named by the grammar.
#[derive(Clone, Copy, Debug, PartialEq, Eq, Structural)]
pub enum ErrorKind {
    /// An identifier was required and the text does not begin with one.
    NoMatch,
    /// A property entry is missing its identifier, colon or type token.
    MalformedProperty,
    /// A declaration never opens or never closes its `{ ... }` body.
    UnterminatedBlock,
    /// A declaration body holds no properties at all.
    EmptyBlock,
}

/// A scan failure: its kind and the offset at which it arose,
/// measured in characters of the text (for ASCII text, the byte
/// offset).
#[derive(Clone, Copy, Debug, PartialEq, Eq, Structural)]
pub struct ScanError {
    pub kind: ErrorKind,
    pub offset: usize,
}

/// One declared interface or type alias.
///
/// `prop_type` maps each property name to the type token written for
/// it in the source, kept verbatim (so an array suffix such as
/// `string[]` stays on the token).
#[derive(Debug)]
pub struct Type {
    pub name: String,
    pub prop_type: Vec<(String, String)>,
}

/// Two records count as the same type when they bear the same name:
/// a name is unique within one scan, so identity is by name.
impl PartialEq for Type {
    fn eq(&self, other: &Type) -> (r: bool) {
        self.name == other.name
    }
}

impl vstd::std_specs::cmp::PartialEqSpecImpl for Type {
    open spec fn obeys_eq_spec() -> bool {
        true
    }

    open spec fn eq_spec(&self, other: &Type) -> bool {
        self.name@ == other.name@
    }
}

impl Clone for Type {
    /// A structural copy: the clone has the same view as the source value.
    fn clone(&self) -> (t: Type)
        ensures
            t@ == self@,
    {
        let mut props: Vec<(String, String)> = Vec::new();
        let mut k: usize = 0;
        proof {
            assert(props.deep_view() =~= self.prop_type.deep_view().take(0));
        }
        while k < self.prop_type.len()
            invariant
                k <= self.prop_type.len(),
                props.deep_view() == self.prop_type.deep_view().take(k as int),
            decreases self.prop_type.len() - k,
        {
            let pair = (self.prop_type[k].0.clone(), self.prop_type[k].1.clone());
            let ghost old_props = props.deep_view();
            props.push(pair);
            proof {
                assert(props.deep_view() =~= old_props.push(self.prop_type.deep_view()[k as int]));
                assert(self.prop_type.deep_view().take(k + 1 as int) =~= old_props.push(
                    self.prop_type.deep_view()[k as int],
                ));
            }
            k = k + 1;
        }
        proof {
            assert(self.prop_type.deep_view().take(self.prop_type.len() as int)
                =~= self.prop_type.deep_view());
        }
        Type { name: self.name.clone(), prop_type: props }
    }
}

/// The mathematical value of a `Type`: its name and properties as
/// character sequences.
pub struct TypeV {
    pub name: Seq<char>,
    pub props: Seq<(Seq<char>, Seq<char>)>,
}

impl View for Type {
    type V = TypeV;

    open spec fn view(&self) -> TypeV {
        TypeV { name: self.name@, props: self.prop_type.deep_view() }
    }
}

impl DeepView for Type {
    type V = TypeV;

    open spec fn deep_view(&self) -> TypeV {
        self@
    }
}

/// A syntactically valid identifier: non-empty, beginning with a
/// letter or underscore, continuing with letters, digits or
/// underscores.
pub open spec fn valid_ident(s: Seq<char>) -> bool {
    &&& s.len() > 0
    &&& is_ident_start(s[0])
    &&& forall|k: int| 0 <= k < s.len() ==> is_ident_char(#[trigger] s[k])
}

/// A syntactically valid type-reference token: an identifier,
/// optionally followed by the literal array marker `[]`.
pub open spec fn valid_type_token(s: Seq<char>) -> bool {
    valid_ident(s) || (s.len() > 2 && s[s.len() - 2] == '[' && s[s.len() - 1] == ']'
        && valid_ident(s.take(s.len() - 2)))
}

impl TypeV {
    /// A well-formed record: the name and every property name is a
    /// valid identifier, and every property value a valid type token.
    pub open spec fn wf(self) -> bool {
        &&& valid_ident(self.name)
        &&& forall|k: int| 0 <= k < self.props.len() ==> valid_ident(
            (#[trigger] self.props[k]).0,
        ) && valid_type_token(self.props[k].1)
    }
}

impl Type {
    /// A fresh record with no name and no properties yet.
    pub fn new() -> (t: Type)
        ensures
            t@.name == Seq::<char>::empty(),
            t@.props == Seq::<(Seq<char>, Seq<char>)>::empty(),
    {
        Type { name: String::new(), prop_type: Vec::new() }
    }

    /// Names (or renames) the record, leaving its properties alone.
    pub fn add_name(&mut self, name: &str)
        ensures
            final(self)@.name == name@,
            final(self)@.props == old(self)@.props,
    {
        self.name = name.to_owned();
    }
}

} // verus!
