//! Fields: one line of a message definition.

use vstd::prelude::*;

use crate::error::{ErrorView, IntrospectionError, ParseErrorKind};
use crate::ros_type::{type_view, valid_type_name, Type, TypeView};
use crate::text::{
    chars_of, find_char, find_from, is_alpha, is_digit, lemma_run_end_bounds,
    run_end, skip_ws, str_eq, trim, trimmed, scan_run, CharClass,
};

verus! {

/// The mathematical content of a [`Field`].
pub struct FieldView {
    pub name: Seq<char>,
    pub ty: TypeView,
    pub is_array: bool,
    /// The declared bound of an array, `-1` for an unbounded one, `1` for a scalar.
    pub array_size: int,
    pub is_constant: bool,
    pub value: Seq<char>,
}

pub open spec fn starts_name(s: Seq<char>, i: int) -> bool {
    0 <= i < s.len() && is_alpha(s[i])
}

/// Where the type token of a field line starts.
pub open spec fn type_start(s: Seq<char>) -> int {
    skip_ws(s, 0)
}

/// Where the type name (a name, optionally `/` and a second name) ends.
pub open spec fn type_name_end(s: Seq<char>) -> int {
    let e1 = run_end(s, type_start(s) + 1, CharClass::Word);
    if e1 < s.len() && s[e1] == '/' && starts_name(s, e1 + 1) {
        run_end(s, e1 + 2, CharClass::Word)
    } else {
        e1
    }
}

/// Where the digits of an array suffix end.
pub open spec fn digits_end(s: Seq<char>) -> int {
    run_end(s, type_name_end(s) + 1, CharClass::Digit)
}

/// Whether the type name is followed by `[`, digits and `]`.
pub open spec fn has_array_suffix(s: Seq<char>) -> bool {
    let e = type_name_end(s);
    e < s.len() && s[e] == '[' && digits_end(s) < s.len() && s[digits_end(s)] == ']'
}

pub open spec fn type_token_end(s: Seq<char>) -> int {
    if has_array_suffix(s) {
        digits_end(s) + 1
    } else {
        type_name_end(s)
    }
}

pub open spec fn name_start(s: Seq<char>) -> int {
    skip_ws(s, type_token_end(s))
}

pub open spec fn name_end(s: Seq<char>) -> int {
    run_end(s, name_start(s) + 1, CharClass::Word)
}

/// The type of a field line, without its array suffix.
pub open spec fn base_type(s: Seq<char>) -> Seq<char> {
    s.subrange(type_start(s), type_name_end(s))
}

pub open spec fn array_digits(s: Seq<char>) -> Seq<char> {
    s.subrange(type_name_end(s) + 1, digits_end(s))
}

/// The number that a run of decimal digits denotes.
pub open spec fn decimal_value(d: Seq<char>) -> int
    decreases d.len(),
{
    if d.len() == 0 {
        0
    } else {
        decimal_value(d.drop_last()) * 10 + (d.last() as u32 - 0x30)
    }
}

/// The declared size: `1` for a scalar, `-1` for `[]`, the bound otherwise.
pub open spec fn array_size_of(s: Seq<char>) -> int {
    if !has_array_suffix(s) {
        1
    } else if array_digits(s).len() == 0 {
        -1
    } else {
        decimal_value(array_digits(s))
    }
}

/// Whether the line after the name starts (past whitespace) with `=`.
pub open spec fn is_constant_line(s: Seq<char>) -> bool {
    let p = skip_ws(s, name_end(s));
    p < s.len() && s[p] == '='
}

/// The literal of a field line: after `=` the rest of the line (strings) or
/// the rest up to `#`; without `=` the rest up to `#` unless that is all a
/// comment; trimmed in every case.
pub open spec fn value_of(s: Seq<char>) -> Seq<char> {
    let p = skip_ws(s, name_end(s));
    if p >= s.len() || s[p] == '#' {
        Seq::empty()
    } else if s[p] == '=' {
        if base_type(s) == "string"@ {
            trim(s.subrange(p + 1, s.len() as int))
        } else {
            trim(s.subrange(p + 1, find_from(s, '#', p + 1)))
        }
    } else {
        trim(s.subrange(name_end(s), find_from(s, '#', name_end(s))))
    }
}

/// What parsing the field line `s` gives.
pub open spec fn field_line(s: Seq<char>) -> Result<FieldView, ErrorView> {
    if !starts_name(s, type_start(s)) {
        Err(ErrorView::Parse(ParseErrorKind::BadType, s))
    } else if !starts_name(s, name_start(s)) {
        Err(ErrorView::Parse(ParseErrorKind::BadField, s))
    } else if has_array_suffix(s) && array_digits(s).len() > 0 && decimal_value(array_digits(s))
        > isize::MAX {
        Err(ErrorView::Parse(ParseErrorKind::BadArraySize, s))
    } else if !valid_type_name(base_type(s)) {
        Err(ErrorView::Parse(ParseErrorKind::BadTypeName, base_type(s)))
    } else {
        Ok(
            FieldView {
                name: s.subrange(name_start(s), name_end(s)),
                ty: type_view(base_type(s), Seq::empty()),
                is_array: has_array_suffix(s),
                array_size: array_size_of(s),
                is_constant: is_constant_line(s),
                value: value_of(s),
            },
        )
    }
}

proof fn lemma_decimal_prefix(d: Seq<char>, i: int)
    requires
        0 <= i <= d.len(),
        forall|j: int| 0 <= j < d.len() ==> is_digit(#[trigger] d[j]),
    ensures
        0 <= decimal_value(d.take(i)) <= decimal_value(d),
    decreases d.len(),
{
    if d.len() > 0 {
        if i == d.len() {
            assert(d.take(i) =~= d);
            lemma_decimal_prefix(d.drop_last(), d.len() - 1);
            assert(d.drop_last().take(d.len() - 1) =~= d.drop_last());
        } else {
            lemma_decimal_prefix(d.drop_last(), i);
            assert(d.drop_last().take(i) =~= d.take(i));
        }
    }
}

/// The value of the digits `cs[a..b]`, or `None` where it exceeds `isize::MAX`.
fn parse_size(cs: &Vec<char>, a: usize, b: usize) -> (r: Option<isize>)
    requires
        a <= b <= cs.len(),
        forall|j: int| a <= j < b ==> is_digit(#[trigger] cs@[j]),
    ensures
        r is Some <==> decimal_value(cs@.subrange(a as int, b as int)) <= isize::MAX,
        r is Some ==> r->0 == decimal_value(cs@.subrange(a as int, b as int)),
{
    let ghost d = cs@.subrange(a as int, b as int);
    let mut v: u128 = 0;
    let mut i = a;
    while i < b
        invariant
            a <= i <= b <= cs.len(),
            d == cs@.subrange(a as int, b as int),
            forall|j: int| a <= j < b ==> is_digit(#[trigger] cs@[j]),
            v == decimal_value(cs@.subrange(a as int, i as int)),
            v <= isize::MAX,
        decreases b - i,
    {
        let c = cs[i];
        let digit = (c as u32 - 0x30u32) as u128;
        proof {
            assert(is_digit(cs@[i as int]));
            assert(cs@.subrange(a as int, i + 1).drop_last() =~= cs@.subrange(a as int, i as int));
        }
        let next = v * 10 + digit;
        if next > isize::MAX as u128 {
            proof {
                assert forall|j: int| 0 <= j < d.len() implies is_digit(#[trigger] d[j]) by {
                    assert(d[j] == cs@[a + j]);
                }
                lemma_decimal_prefix(d, i + 1 - a);
                assert(d.take(i + 1 - a) =~= cs@.subrange(a as int, i + 1));
            }
            return None;
        }
        v = next;
        i += 1;
    }
    Some(v as isize)
}

/// A field of a message: its name, type, array shape and constant literal.
#[derive(Debug)]
pub struct Field {
    fieldname: String,
    field_type: Type,
    is_array: bool,
    array_size: isize,
    is_constant: bool,
    value: String,
}

impl View for Field {
    type V = FieldView;

    closed spec fn view(&self) -> FieldView {
        FieldView {
            name: self.fieldname@,
            ty: self.field_type@,
            is_array: self.is_array,
            array_size: self.array_size as int,
            is_constant: self.is_constant,
            value: self.value@,
        }
    }
}

impl Field {
    /// A scalar, non-constant field of the given type and name.
    pub fn new_with_type(field_type: Type, name: &str) -> (r: Field)
        ensures
            r@ == (FieldView {
                name: name@,
                ty: field_type@,
                is_array: false,
                array_size: 1,
                is_constant: false,
                value: Seq::empty(),
            }),
    {
        Field {
            fieldname: name.to_owned(),
            field_type,
            is_array: false,
            array_size: 1,
            is_constant: false,
            value: String::new(),
        }
    }

    /// Parses one line `<type>[<size>?]? <name> [= <value>] [# comment]`.
    pub fn new_with_definition(definition: &str) -> (r: Result<Field, IntrospectionError>)
        ensures
            match field_line(definition@) {
                Ok(v) => r is Ok && r->Ok_0@ == v,
                Err(e) => r is Err && r->Err_0@ == e,
            },
    {
        let ghost s = definition@;
        let cs = chars_of(definition);
        let n = cs.len();
        let ts = scan_run(&cs, 0, CharClass::Space);
        if !(ts < n && is_alpha_exec(cs[ts])) {
            return Err(
                IntrospectionError::Parse {
                    kind: ParseErrorKind::BadType,
                    text: definition.to_owned(),
                },
            );
        }
        let e1 = scan_run(&cs, ts + 1, CharClass::Word);
        let mut te = e1;
        if e1 < n && cs[e1] == '/' && e1 + 1 < n && is_alpha_exec(cs[e1 + 1]) {
            te = scan_run(&cs, e1 + 2, CharClass::Word);
        }
        assert(te == type_name_end(s));
        let mut is_array = false;
        let mut tok_end = te;
        let mut de = te;
        if te < n && cs[te] == '[' {
            let d = scan_run(&cs, te + 1, CharClass::Digit);
            proof {
                lemma_run_end_bounds(s, te + 1, CharClass::Digit);
            }
            if d < n && cs[d] == ']' {
                is_array = true;
                tok_end = d + 1;
                de = d;
            }
        }
        assert(is_array == has_array_suffix(s));
        assert(tok_end == type_token_end(s));
        let ns = scan_run(&cs, tok_end, CharClass::Space);
        if !(ns < n && is_alpha_exec(cs[ns])) {
            return Err(
                IntrospectionError::Parse {
                    kind: ParseErrorKind::BadField,
                    text: definition.to_owned(),
                },
            );
        }
        let ne = scan_run(&cs, ns + 1, CharClass::Word);
        let mut array_size: isize = 1;
        if is_array {
            if de == te + 1 {
                array_size = -1;
            } else {
                proof {
                    lemma_run_end_bounds(s, te + 1, CharClass::Digit);
                }
                match parse_size(&cs, te + 1, de) {
                    Some(v) => {
                        array_size = v;
                    },
                    None => {
                        return Err(
                            IntrospectionError::Parse {
                                kind: ParseErrorKind::BadArraySize,
                                text: definition.to_owned(),
                            },
                        );
                    },
                }
            }
        }
        let type_str = definition.substring_char(ts, te);
        let field_type = match Type::new(type_str) {
            Ok(t) => t,
            Err(e) => {
                return Err(e);
            },
        };
        let p = scan_run(&cs, ne, CharClass::Space);
        let mut is_constant = false;
        let value = if p == n {
            String::new()
        } else if cs[p] == '=' {
            is_constant = true;
            if str_eq(type_str, "string") {
                trimmed(definition.substring_char(p + 1, n))
            } else {
                let h = find_char(&cs, '#', p + 1);
                trimmed(definition.substring_char(p + 1, h))
            }
        } else if cs[p] == '#' {
            String::new()
        } else {
            let h = find_char(&cs, '#', ne);
            trimmed(definition.substring_char(ne, h))
        };
        Ok(
            Field {
                fieldname: definition.substring_char(ns, ne).to_owned(),
                field_type,
                is_array,
                array_size,
                is_constant,
                value,
            },
        )
    }

    pub fn type_(&self) -> (r: &Type)
        ensures
            r@ == self@.ty,
    {
        &self.field_type
    }

    /// Rebinds the field to another type; nothing else changes.
    pub fn change_type(&mut self, new_type: Type)
        ensures
            final(self)@ == (FieldView { ty: new_type@, ..old(self)@ }),
    {
        self.field_type = new_type;
    }

    pub fn name(&self) -> (r: &str)
        ensures
            r@ == self@.name,
    {
        self.fieldname.as_str()
    }

    pub fn is_array(&self) -> (r: bool)
        ensures
            r == self@.is_array,
    {
        self.is_array
    }

    pub fn is_constant(&self) -> (r: bool)
        ensures
            r == self@.is_constant,
    {
        self.is_constant
    }

    pub fn array_size(&self) -> (r: isize)
        ensures
            r as int == self@.array_size,
    {
        self.array_size
    }

    pub fn value(&self) -> (r: &str)
        ensures
            r@ == self@.value,
    {
        self.value.as_str()
    }
}

impl Clone for Field {
    fn clone(&self) -> (r: Field)
        ensures
            r == *self,
    {
        Field {
            fieldname: self.fieldname.clone(),
            field_type: self.field_type.clone(),
            is_array: self.is_array,
            array_size: self.array_size,
            is_constant: self.is_constant,
            value: self.value.clone(),
        }
    }
}

fn is_alpha_exec(c: char) -> (r: bool)
    ensures
        r == is_alpha(c),
{
    let u = c as u32;
    (0x61 <= u && u <= 0x7a) || (0x41 <= u && u <= 0x5a)
}

} // verus!
