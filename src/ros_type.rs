//! Type references: package, short name and builtin classification.

use vstd::prelude::*;

use crate::error::{ErrorView, IntrospectionError, ParseErrorKind};
use crate::text::{chars_of, find_char, find_from, lemma_find_from_bounds, str_eq};

verus! {

/// The scalar types that the dialect knows by name; `Other` is a type defined
/// by some package.
#[derive(Debug, Clone, Copy, PartialEq, Eq, Structural, Hash)]
pub enum BuiltinType {
    Bool,
    Byte,
    Char,
    Float32,
    Float64,
    Int8,
    Uint8,
    Int16,
    Uint16,
    Int32,
    Uint32,
    Int64,
    Uint64,
    String,
    WString,
    Time,
    Duration,
    Other,
}

/// The builtin named exactly `s`, or `Other`.
pub open spec fn builtin_of(s: Seq<char>) -> BuiltinType {
    if s == "bool"@ {
        BuiltinType::Bool
    } else if s == "byte"@ {
        BuiltinType::Byte
    } else if s == "char"@ {
        BuiltinType::Char
    } else if s == "float32"@ {
        BuiltinType::Float32
    } else if s == "float64"@ {
        BuiltinType::Float64
    } else if s == "int8"@ {
        BuiltinType::Int8
    } else if s == "uint8"@ {
        BuiltinType::Uint8
    } else if s == "int16"@ {
        BuiltinType::Int16
    } else if s == "uint16"@ {
        BuiltinType::Uint16
    } else if s == "int32"@ {
        BuiltinType::Int32
    } else if s == "uint32"@ {
        BuiltinType::Uint32
    } else if s == "int64"@ {
        BuiltinType::Int64
    } else if s == "uint64"@ {
        BuiltinType::Uint64
    } else if s == "string"@ {
        BuiltinType::String
    } else if s == "wstring"@ {
        BuiltinType::WString
    } else if s == "time"@ {
        BuiltinType::Time
    } else if s == "duration"@ {
        BuiltinType::Duration
    } else {
        BuiltinType::Other
    }
}

/// Classifies a short type name against the builtin vocabulary.
pub fn to_builtin_type(s: &str) -> (r: BuiltinType)
    ensures
        r == builtin_of(s@),
{
    if str_eq(s, "bool") {
        BuiltinType::Bool
    } else if str_eq(s, "byte") {
        BuiltinType::Byte
    } else if str_eq(s, "char") {
        BuiltinType::Char
    } else if str_eq(s, "float32") {
        BuiltinType::Float32
    } else if str_eq(s, "float64") {
        BuiltinType::Float64
    } else if str_eq(s, "int8") {
        BuiltinType::Int8
    } else if str_eq(s, "uint8") {
        BuiltinType::Uint8
    } else if str_eq(s, "int16") {
        BuiltinType::Int16
    } else if str_eq(s, "uint16") {
        BuiltinType::Uint16
    } else if str_eq(s, "int32") {
        BuiltinType::Int32
    } else if str_eq(s, "uint32") {
        BuiltinType::Uint32
    } else if str_eq(s, "int64") {
        BuiltinType::Int64
    } else if str_eq(s, "uint64") {
        BuiltinType::Uint64
    } else if str_eq(s, "string") {
        BuiltinType::String
    } else if str_eq(s, "wstring") {
        BuiltinType::WString
    } else if str_eq(s, "time") {
        BuiltinType::Time
    } else if str_eq(s, "duration") {
        BuiltinType::Duration
    } else {
        BuiltinType::Other
    }
}

/// What a hash of the characters of a type name gives.
pub uninterp spec fn str_hash(s: Seq<char>) -> u64;

/// Relies on `BuildHasher::hash_one` over `DefaultHasher`, whose keys are
/// fixed: the hash of a string depends on its characters alone.
#[verifier::external_body]
fn default_hash(s: &str) -> (r: u64)
    ensures
        r == str_hash(s@),
{
    std::hash::BuildHasher::hash_one(
        &std::hash::BuildHasherDefault::<std::collections::hash_map::DefaultHasher>::default(),
        s,
    )
}

/// The identity hash of a type name.
pub fn calculate_hash(s: &str) -> (r: u64)
    ensures
        r == str_hash(s@),
{
    default_hash(s)
}

/// Position of the first `/` of `s`, or its length.
pub open spec fn slash_pos(s: Seq<char>) -> int {
    find_from(s, '/', 0)
}

pub open spec fn has_slash(s: Seq<char>) -> bool {
    slash_pos(s) < s.len()
}

/// Whether `r` starts with `msg/` or `srv/`.
pub open spec fn has_kind_prefix(r: Seq<char>) -> bool {
    r.len() >= 4 && (r.subrange(0, 4) == seq!['m', 's', 'g', '/'] || r.subrange(0, 4) == seq![
        's',
        'r',
        'v',
        '/',
    ])
}

/// The package part of a type name: what stands before its first `/`.
pub open spec fn package_of(s: Seq<char>) -> Seq<char> {
    if has_slash(s) {
        s.subrange(0, slash_pos(s))
    } else {
        Seq::empty()
    }
}

/// The short name: after the first `/`, without a `msg/` or `srv/` prefix.
pub open spec fn short_name_of(s: Seq<char>) -> Seq<char> {
    if has_slash(s) {
        let r = s.subrange(slash_pos(s) + 1, s.len() as int);
        if has_kind_prefix(r) {
            r.subrange(4, r.len() as int)
        } else {
            r
        }
    } else {
        s
    }
}

/// A name is readable unless it is qualified with an empty package or short name.
pub open spec fn valid_type_name(s: Seq<char>) -> bool {
    has_slash(s) ==> package_of(s).len() > 0 && short_name_of(s).len() > 0
}

/// The mathematical content of a [`Type`].
pub struct TypeView {
    pub base_name: Seq<char>,
    pub pkg_name: Seq<char>,
    pub msg_name: Seq<char>,
    pub id: BuiltinType,
}

/// The type that `s` names; an unqualified, non-builtin name takes the package `hint`.
pub open spec fn type_view(s: Seq<char>, hint: Seq<char>) -> TypeView {
    let id = builtin_of(short_name_of(s));
    TypeView {
        base_name: s,
        pkg_name: if !has_slash(s) && id == BuiltinType::Other {
            hint
        } else {
            package_of(s)
        },
        msg_name: short_name_of(s),
        id,
    }
}

/// A name without package, put behind a `/`, still has no package, and its
/// short name is the whole name.
proof fn lemma_behind_slash(b: Seq<char>)
    requires
        package_of(b).len() == 0,
    ensures
        package_of(seq!['/'] + b).len() == 0,
        short_name_of(seq!['/'] + b) == b,
{
    let s = seq!['/'] + b;
    assert(s[0] == '/');
    assert(slash_pos(s) == 0);
    assert(s.subrange(1, s.len() as int) =~= b);
    lemma_find_from_bounds(b, '/', 0);
    if b.len() >= 4 {
        assert(b.subrange(0, 4)[0] == b[0]);
        assert(b.subrange(0, 4)[3] == b[3]);
    }
}

/// A reference to a message type. Two types are equal exactly when their base
/// names are; different spellings of one type are different types.
#[derive(Debug)]
pub struct Type {
    base_name: String,
    pkg_name: String,
    msg_name: String,
    id: BuiltinType,
    hash: u64,
}

impl View for Type {
    type V = TypeView;

    closed spec fn view(&self) -> TypeView {
        TypeView {
            base_name: self.base_name@,
            pkg_name: self.pkg_name@,
            msg_name: self.msg_name@,
            id: self.id,
        }
    }
}

impl Type {
    #[verifier::type_invariant]
    spec fn inv(self) -> bool {
        &&& self.hash == str_hash(self.base_name@)
        &&& self.pkg_name@.len() == 0 ==> self.msg_name@ == short_name_of(self.base_name@)
            && package_of(self.base_name@).len() == 0
    }

    /// The type that `name` denotes, whether or not it is a valid name, and
    /// whether it is.
    fn parse(name: &str, parent_pkg_name: &str) -> (r: (Type, bool))
        ensures
            r.0@ == type_view(name@, parent_pkg_name@),
            r.1 == valid_type_name(name@),
    {
        let cs = chars_of(name);
        let n = cs.len();
        let p = find_char(&cs, '/', 0);
        proof {
            lemma_find_from_bounds(cs@, '/', 0);
        }
        let hash = calculate_hash(name);
        if p < n {
            let pkg_name = name.substring_char(0, p).to_owned();
            let mut start = p + 1;
            if n - start >= 4 && cs[start + 3] == '/' && ((cs[start] == 'm' && cs[start + 1] == 's'
                && cs[start + 2] == 'g') || (cs[start] == 's' && cs[start + 1] == 'r' && cs[start
                + 2] == 'v')) {
                start = start + 4;
            }
            proof {
                let r = name@.subrange(p + 1, n as int);
                if r.len() >= 4 {
                    assert(r.subrange(0, 4) =~= seq![r[0], r[1], r[2], r[3]]);
                }
                assert(short_name_of(name@) =~= name@.subrange(start as int, n as int));
            }
            let msg_name = name.substring_char(start, n).to_owned();
            let id = to_builtin_type(&msg_name);
            (Type { base_name: name.to_owned(), pkg_name, msg_name, id, hash }, p != 0 && start != n)
        } else {
            let id = to_builtin_type(name);
            let pkg_name = if id == BuiltinType::Other {
                parent_pkg_name.to_owned()
            } else {
                String::new()
            };
            (Type { base_name: name.to_owned(), pkg_name, msg_name: name.to_owned(), id, hash }, true)
        }
    }

    /// The type that `name` denotes, read without rejecting any name.
    pub(crate) fn lenient(name: &str) -> (r: Type)
        ensures
            r@ == type_view(name@, Seq::empty()),
    {
        proof {
            reveal_strlit("");
            assert(""@ =~= Seq::<char>::empty());
        }
        Type::parse(name, "").0
    }

    /// The type named `name`, where an unqualified, non-builtin name belongs to
    /// `parent_pkg_name`.
    pub fn new_with_parent_package(name: &str, parent_pkg_name: &str) -> (r: Result<
        Type,
        IntrospectionError,
    >)
        ensures
            valid_type_name(name@) ==> r is Ok && r->Ok_0@ == type_view(name@, parent_pkg_name@),
            !valid_type_name(name@) ==> r is Err && r->Err_0@ == ErrorView::Parse(
                ParseErrorKind::BadTypeName,
                name@,
            ),
    {
        let (t, valid) = Type::parse(name, parent_pkg_name);
        if valid {
            Ok(t)
        } else {
            Err(IntrospectionError::Parse { kind: ParseErrorKind::BadTypeName, text: name.to_owned() })
        }
    }

    /// The type named `name`.
    pub fn new(name: &str) -> (r: Result<Type, IntrospectionError>)
        ensures
            valid_type_name(name@) ==> r is Ok && r->Ok_0@ == type_view(name@, Seq::empty()),
            !valid_type_name(name@) ==> r is Err && r->Err_0@ == ErrorView::Parse(
                ParseErrorKind::BadTypeName,
                name@,
            ),
    {
        proof {
            reveal_strlit("");
            assert(""@ =~= Seq::<char>::empty());
        }
        Type::new_with_parent_package(name, "")
    }

    pub fn pkg_name(&self) -> (r: &str)
        ensures
            r@ == self@.pkg_name,
    {
        self.pkg_name.as_str()
    }

    pub fn msg_name(&self) -> (r: &str)
        ensures
            r@ == self@.msg_name,
    {
        self.msg_name.as_str()
    }

    pub fn id(&self) -> (r: &BuiltinType)
        ensures
            *r == self@.id,
    {
        &self.id
    }

    /// The name as it was written.
    pub fn name(&self) -> (r: &str)
        ensures
            r@ == self@.base_name,
    {
        self.base_name.as_str()
    }

    /// The hash of the base name, which identifies the type.
    pub fn identity(&self) -> (r: u64)
        ensures
            r == str_hash(self@.base_name),
    {
        proof {
            use_type_invariant(self);
        }
        self.hash
    }

    /// The base name, as the type is displayed.
    pub fn to_string(&self) -> (r: String)
        ensures
            r@ == self@.base_name,
    {
        self.base_name.clone()
    }

    /// Gives a type without a package the package `new_pkg`; its base name
    /// becomes `new_pkg/<old base name>`, which is also its new short name.
    pub fn set_pkg_name(&mut self, new_pkg: &str)
        requires
            old(self)@.pkg_name.len() == 0,
        ensures
            final(self)@ == (TypeView {
                base_name: new_pkg@ + seq!['/'] + old(self)@.base_name,
                pkg_name: new_pkg@,
                msg_name: old(self)@.base_name,
                id: old(self)@.id,
            }),
            old(self)@.msg_name == short_name_of(old(self)@.base_name),
    {
        proof {
            use_type_invariant(&*self);
        }
        let mut base = new_pkg.to_owned();
        base.append("/");
        base.append(self.base_name.as_str());
        proof {
            reveal_strlit("/");
            assert(base@ =~= new_pkg@ + seq!['/'] + self.base_name@);
        }
        let hash = calculate_hash(base.as_str());
        let msg_name = self.base_name.clone();
        proof {
            if new_pkg@.len() == 0 {
                assert(base@ =~= seq!['/'] + self.base_name@);
                lemma_behind_slash(self.base_name@);
            }
        }
        *self = Type { base_name: base, pkg_name: new_pkg.to_owned(), msg_name, id: self.id, hash };
    }
}

impl Clone for Type {
    fn clone(&self) -> (r: Type)
        ensures
            r == *self,
    {
        proof {
            use_type_invariant(self);
        }
        Type {
            base_name: self.base_name.clone(),
            pkg_name: self.pkg_name.clone(),
            msg_name: self.msg_name.clone(),
            id: self.id,
            hash: self.hash,
        }
    }
}

impl PartialEq for Type {
    fn eq(&self, other: &Type) -> (r: bool) {
        self.base_name == other.base_name
    }
}

impl vstd::std_specs::cmp::PartialEqSpecImpl for Type {
    open spec fn obeys_eq_spec() -> bool {
        true
    }

    open spec fn eq_spec(&self, other: &Type) -> bool {
        self@.base_name == other@.base_name
    }
}

impl Eq for Type {}

} // verus!
