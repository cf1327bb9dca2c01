//! Messages: one definition block, the splitting of a bundle into blocks, and
//! the resolution of unqualified type references among a bundle's messages.

use std::sync::Arc;

use vstd::prelude::*;

use crate::error::{ErrorView, IntrospectionError, ParseErrorKind};
use crate::field::{field_line, Field, FieldView};
use crate::ros_type::{type_view, valid_type_name, BuiltinType, Type, TypeView};
use crate::text::{
    chars_of, find_char, find_from, is_blank, lemma_find_from_bounds, scan_run, skip_ws, str_eq, trim,
    trimmed, CharClass,
};

verus! {

/// `l` without one trailing carriage return.
pub open spec fn strip_cr(l: Seq<char>) -> Seq<char> {
    if l.len() > 0 && l.last() == '\r' {
        l.drop_last()
    } else {
        l
    }
}

/// The lines of `s` from position `i` on, as `str::lines` gives them: split at
/// `\n`, without a carriage return before it, and no empty line after a final `\n`.
pub open spec fn lines_from(s: Seq<char>, i: int) -> Seq<Seq<char>>
    decreases s.len() + 1 - i,
    via lines_from_decreases
{
    if 0 <= i < s.len() {
        let e = find_from(s, '\n', i);
        seq![strip_cr(s.subrange(i, e))] + lines_from(s, e + 1)
    } else {
        Seq::empty()
    }
}

#[via_fn]
proof fn lines_from_decreases(s: Seq<char>, i: int) {
    if 0 <= i < s.len() {
        lemma_find_from_bounds(s, '\n', i);
    }
}

pub open spec fn lines_of(s: Seq<char>) -> Seq<Seq<char>> {
    lines_from(s, 0)
}

pub open spec fn strings_view(v: Seq<String>) -> Seq<Seq<char>> {
    v.map_values(|l: String| l@)
}

/// The lines of `s`.
pub fn split_lines(s: &str) -> (r: Vec<String>)
    ensures
        strings_view(r@) == lines_of(s@),
{
    let cs = chars_of(s);
    let n = cs.len();
    let mut r: Vec<String> = Vec::new();
    let mut i: usize = 0;
    while i < n
        invariant
            cs@ == s@,
            n == cs.len(),
            i <= n + 1,
            strings_view(r@) + lines_from(s@, i as int) == lines_of(s@),
        decreases n + 1 - i,
    {
        let e = find_char(&cs, '\n', i);
        let line = if e > i && cs[e - 1] == '\r' {
            s.substring_char(i, e - 1)
        } else {
            s.substring_char(i, e)
        };
        let owned = line.to_owned();
        proof {
            let l = s@.subrange(i as int, e as int);
            if e > i && cs@[e - 1] == '\r' {
                assert(l.drop_last() =~= s@.subrange(i as int, e - 1));
            }
            assert(strings_view(r@.push(owned)) =~= strings_view(r@) + seq![owned@]);
        }
        r.push(owned);
        proof {
            assert(strings_view(r@) + lines_from(s@, e + 1) =~= lines_of(s@));
        }
        if e == n {
            assert(strings_view(r@) + lines_from(s@, e + 1) =~= strings_view(r@));
            return r;
        }
        i = e + 1;
    }
    assert(strings_view(r@) + lines_from(s@, i as int) =~= strings_view(r@));
    r
}

/// The mathematical content of a [`Message`].
pub struct MessageView {
    pub ty: TypeView,
    pub fields: Seq<FieldView>,
}

pub open spec fn fields_view(v: Seq<Field>) -> Seq<FieldView> {
    v.map_values(|f: Field| f@)
}

/// Blank lines and comment lines carry nothing.
pub open spec fn is_skipped(l: Seq<char>) -> bool {
    is_blank(l) || l[skip_ws(l, 0)] == '#'
}

/// Whether the trimmed line `t` is a `MSG:` header.
pub open spec fn is_header(t: Seq<char>) -> bool {
    t.len() >= 4 && t.subrange(0, 4) == seq!['M', 'S', 'G', ':']
}

/// The type name that the header `t` gives.
pub open spec fn header_name(t: Seq<char>) -> Seq<char> {
    trim(t.subrange(4, t.len() as int))
}

/// The header name and fields that the first `k` lines give.
pub open spec fn scan_lines(ls: Seq<Seq<char>>, k: int) -> Result<
    (Option<Seq<char>>, Seq<FieldView>),
    ErrorView,
>
    decreases k,
{
    if k <= 0 {
        Ok((None, Seq::empty()))
    } else {
        match scan_lines(ls, k - 1) {
            Err(e) => Err(e),
            Ok((h, fs)) => {
                let l = ls[k - 1];
                let t = trim(l);
                if is_skipped(l) {
                    Ok((h, fs))
                } else if is_header(t) {
                    if h is Some {
                        Ok((h, fs))
                    } else if valid_type_name(header_name(t)) {
                        Ok((Some(header_name(t)), fs))
                    } else {
                        Err(ErrorView::Parse(ParseErrorKind::BadTypeName, header_name(t)))
                    }
                } else {
                    match field_line(t) {
                        Ok(f) => Ok((h, fs.push(f))),
                        Err(e) => Err(e),
                    }
                }
            },
        }
    }
}

/// What parsing the definition block `def` gives: the first `MSG:` header
/// names the type (the empty type where there is none), every other line that
/// is neither blank nor a comment is a field, in order.
pub open spec fn message_of(def: Seq<char>) -> Result<MessageView, ErrorView> {
    let ls = lines_of(def);
    let st = scan_lines(ls, ls.len() as int);
    if st is Err {
        Err(st->Err_0)
    } else {
        let h = st->Ok_0.0;
        Ok(
            MessageView {
                ty: if h is Some {
                    type_view(h->0, Seq::empty())
                } else {
                    type_view(Seq::empty(), Seq::empty())
                },
                fields: st->Ok_0.1,
            },
        )
    }
}

proof fn lemma_scan_error_persists(ls: Seq<Seq<char>>, k: int, m: int)
    requires
        0 <= k <= m,
        scan_lines(ls, k) is Err,
    ensures
        scan_lines(ls, m) == scan_lines(ls, k),
    decreases m - k,
{
    if m > k {
        lemma_scan_error_persists(ls, k, m - 1);
    }
}

/// A message definition: its type and its fields in source order.
#[derive(Debug)]
pub struct Message {
    msg_type: Type,
    fields: Vec<Field>,
}

impl View for Message {
    type V = MessageView;

    closed spec fn view(&self) -> MessageView {
        MessageView { ty: self.msg_type@, fields: fields_view(self.fields@) }
    }
}

fn is_skipped_exec(l: &str) -> (r: bool)
    ensures
        r == is_skipped(l@),
{
    let cs = chars_of(l);
    let p = scan_run(&cs, 0, CharClass::Space);
    p == cs.len() || cs[p] == '#'
}

fn is_header_exec(t: &str) -> (r: bool)
    ensures
        r == is_header(t@),
{
    let cs = chars_of(t);
    let r = cs.len() >= 4 && cs[0] == 'M' && cs[1] == 'S' && cs[2] == 'G' && cs[3] == ':';
    proof {
        if cs.len() >= 4 {
            assert(t@.subrange(0, 4) =~= seq![cs@[0], cs@[1], cs@[2], cs@[3]]);
        }
    }
    r
}

impl Message {
    /// Parses one definition block.
    pub fn new(def: &str) -> (r: Result<Message, IntrospectionError>)
        ensures
            match message_of(def@) {
                Ok(v) => r is Ok && r->Ok_0@ == v,
                Err(e) => r is Err && r->Err_0@ == e,
            },
    {
        let lines = split_lines(def);
        let ghost ls = lines_of(def@);
        let mut header: Option<Type> = None;
        let mut fields: Vec<Field> = Vec::new();
        let mut i: usize = 0;
        while i < lines.len()
            invariant
                ls == lines_of(def@),
                strings_view(lines@) == ls,
                i <= lines.len(),
                scan_lines(ls, i as int) is Ok,
                ({
                    let st = scan_lines(ls, i as int)->Ok_0;
                    &&& st.0 is Some <==> header is Some
                    &&& header is Some ==> header->0@ == type_view(st.0->0, Seq::empty())
                    &&& fields_view(fields@) == st.1
                }),
            decreases lines.len() - i,
        {
            let line = &lines[i];
            assert(line@ == ls[i as int]);
            if is_skipped_exec(line.as_str()) {
            } else {
                let t = trimmed(line.as_str());
                if is_header_exec(t.as_str()) {
                    if header.is_none() {
                        let name = trimmed(t.as_str().substring_char(4, t.as_str().unicode_len()));
                        match Type::new(name.as_str()) {
                            Ok(ty) => {
                                header = Some(ty);
                            },
                            Err(e) => {
                                proof {
                                    lemma_scan_error_persists(ls, i + 1, ls.len() as int);
                                }
                                return Err(e);
                            },
                        }
                    }
                } else {
                    match Field::new_with_definition(t.as_str()) {
                        Ok(f) => {
                            proof {
                                assert(fields_view(fields@.push(f)) =~= fields_view(fields@).push(f@));
                            }
                            fields.push(f);
                        },
                        Err(e) => {
                            proof {
                                lemma_scan_error_persists(ls, i + 1, ls.len() as int);
                            }
                            return Err(e);
                        },
                    }
                }
            }
            i += 1;
        }
        let msg_type = match header {
            Some(ty) => ty,
            None => {
                let ty = Type::new("");
                proof {
                    reveal_strlit("");
                    assert(""@ =~= Seq::<char>::empty());
                }
                match ty {
                    Ok(ty) => ty,
                    Err(e) => {
                        return Err(e);
                    },
                }
            },
        };
        Ok(Message { msg_type, fields })
    }

    pub fn type_(&self) -> (r: &Type)
        ensures
            r@ == self@.ty,
    {
        &self.msg_type
    }

    pub fn set_type(&mut self, new_type: Type)
        ensures
            final(self)@ == (MessageView { ty: new_type@, fields: old(self)@.fields }),
    {
        self.msg_type = new_type;
    }

    pub fn fields(&self) -> (r: &Vec<Field>)
        ensures
            fields_view(r@) == self@.fields,
    {
        &self.fields
    }

    pub fn fields_mut(&mut self) -> (r: &mut Vec<Field>)
        ensures
            fields_view(r@) == old(self)@.fields,
            final(self)@ == (MessageView { ty: old(self)@.ty, fields: fields_view(final(r)@) }),
    {
        &mut self.fields
    }
}

impl Clone for Message {
    fn clone(&self) -> (r: Message)
        ensures
            r@ == self@,
    {
        Message { msg_type: self.msg_type.clone(), fields: clone_fields(&self.fields) }
    }
}

fn clone_fields(v: &Vec<Field>) -> (r: Vec<Field>)
    ensures
        fields_view(r@) == fields_view(v@),
{
    let mut r: Vec<Field> = Vec::new();
    let mut i: usize = 0;
    while i < v.len()
        invariant
            i <= v.len(),
            fields_view(r@) == fields_view(v@.take(i as int)),
        decreases v.len() - i,
    {
        let f = v[i].clone();
        proof {
            assert(f == v@[i as int]);
            assert(v@.take(i + 1) =~= v@.take(i as int).push(v@[i as int]));
            assert(fields_view(r@.push(f)) =~= fields_view(r@).push(f@));
            assert(fields_view(v@.take(i as int).push(f)) =~= fields_view(v@.take(i as int)).push(
                f@,
            ));
        }
        r.push(f);
        i += 1;
    }
    assert(v@.take(v.len() as int) =~= v@);
    r
}

/// Whether the trimmed line is a run of eight or more `=`.
pub open spec fn is_separator(l: Seq<char>) -> bool {
    let t = trim(l);
    t.len() >= 8 && forall|j: int| 0 <= j < t.len() ==> t[j] == '='
}

/// The finished blocks and the block under way after the first `k` lines.
pub open spec fn split_state(ls: Seq<Seq<char>>, k: int) -> (Seq<Seq<char>>, Seq<char>)
    decreases k,
{
    if k <= 0 {
        (Seq::empty(), Seq::empty())
    } else {
        let st = split_state(ls, k - 1);
        let l = ls[k - 1];
        if is_separator(l) {
            (st.0.push(st.1), Seq::empty())
        } else {
            (st.0, st.1 + trim(l) + seq!['\n'])
        }
    }
}

/// The blocks of a bundle: separator lines end a block, every other line
/// goes trimmed and newline-terminated into the current one, and the text
/// after the last separator is always the last block.
pub open spec fn blocks_of(s: Seq<char>) -> Seq<Seq<char>> {
    let ls = lines_of(s);
    let st = split_state(ls, ls.len() as int);
    st.0.push(st.1)
}

fn is_separator_exec(l: &str) -> (r: bool)
    ensures
        r == is_separator(l@),
{
    let t = trimmed(l);
    let cs = chars_of(t.as_str());
    if cs.len() < 8 {
        return false;
    }
    let mut i: usize = 0;
    while i < cs.len()
        invariant
            cs@ == trim(l@),
            i <= cs.len(),
            forall|j: int| 0 <= j < i ==> cs@[j] == '=',
        decreases cs.len() - i,
    {
        if cs[i] != '=' {
            return false;
        }
        i += 1;
    }
    true
}

/// Splits a bundle of concatenated definitions into its blocks.
pub fn split_multiple_message_definitions(multi_def: &str) -> (r: Vec<String>)
    ensures
        strings_view(r@) == blocks_of(multi_def@),
{
    let lines = split_lines(multi_def);
    let ghost ls = lines_of(multi_def@);
    let mut parts: Vec<String> = Vec::new();
    let mut part = String::new();
    let mut i: usize = 0;
    while i < lines.len()
        invariant
            ls == lines_of(multi_def@),
            strings_view(lines@) == ls,
            i <= lines.len(),
            strings_view(parts@) == split_state(ls, i as int).0,
            part@ == split_state(ls, i as int).1,
        decreases lines.len() - i,
    {
        let line = &lines[i];
        assert(line@ == ls[i as int]);
        if is_separator_exec(line.as_str()) {
            let done = part.clone();
            proof {
                assert(strings_view(parts@.push(done)) =~= strings_view(parts@).push(done@));
            }
            parts.push(done);
            part = String::new();
        } else {
            let t = trimmed(line.as_str());
            part.append(t.as_str());
            part.append("\n");
            proof {
                reveal_strlit("\n");
            }
        }
        i += 1;
    }
    proof {
        assert(strings_view(parts@.push(part)) =~= strings_view(parts@).push(part@));
    }
    parts.push(part);
    parts
}

pub open spec fn types_view(v: Seq<Type>) -> Seq<TypeView> {
    v.map_values(|t: Type| t@)
}

pub open spec fn messages_view(v: Seq<Message>) -> Seq<MessageView> {
    v.map_values(|m: Message| m@)
}

pub open spec fn shared_view(v: Seq<Arc<Message>>) -> Seq<MessageView> {
    v.map_values(|m: Arc<Message>| m@)
}

/// The messages of `blocks[i..]`, parsed from the last block towards block
/// `i`; block 0 takes the root type where it names none.
pub open spec fn parse_rev(blocks: Seq<Seq<char>>, root: TypeView, i: int) -> Result<
    Seq<MessageView>,
    ErrorView,
>
    decreases blocks.len() - i,
{
    if 0 <= i < blocks.len() {
        let acc = parse_rev(blocks, root, i + 1);
        let m = message_of(blocks[i]);
        if acc is Err {
            acc
        } else if m is Err {
            Err(m->Err_0)
        } else if i == 0 && m->Ok_0.ty.base_name.len() == 0 {
            if root.base_name.len() > 0 {
                Ok(acc->Ok_0.push(MessageView { ty: root, fields: m->Ok_0.fields }))
            } else {
                Err(ErrorView::UnspecifiedType)
            }
        } else {
            Ok(acc->Ok_0.push(m->Ok_0))
        }
    } else {
        Ok(Seq::empty())
    }
}

/// The first position at or after `j` of a known type with short name `name`.
pub open spec fn find_named(known: Seq<TypeView>, name: Seq<char>, j: int) -> int
    decreases known.len() - j,
{
    if 0 <= j < known.len() {
        if known[j].msg_name == name {
            j
        } else {
            find_named(known, name, j + 1)
        }
    } else {
        known.len() as int
    }
}

/// The first position at or after `j` of a known type with short name `name`
/// in package `pkg`.
pub open spec fn find_named_in(known: Seq<TypeView>, name: Seq<char>, pkg: Seq<char>, j: int) -> int
    decreases known.len() - j,
{
    if 0 <= j < known.len() {
        if known[j].msg_name == name && known[j].pkg_name == pkg {
            j
        } else {
            find_named_in(known, name, pkg, j + 1)
        }
    } else {
        known.len() as int
    }
}

/// An unqualified, non-builtin type becomes the known type of the same short
/// name, preferring one in the root's package, else the first one; without
/// such a known type it stays as it is.
pub open spec fn resolve_type(t: TypeView, known: Seq<TypeView>, root_pkg: Seq<char>) -> TypeView {
    if t.pkg_name.len() == 0 && t.id == BuiltinType::Other {
        let p = find_named_in(known, t.msg_name, root_pkg, 0);
        let c = find_named(known, t.msg_name, 0);
        if p < known.len() {
            known[p]
        } else if c < known.len() {
            known[c]
        } else {
            t
        }
    } else {
        t
    }
}

pub open spec fn resolve_field(f: FieldView, known: Seq<TypeView>, root_pkg: Seq<char>) -> FieldView {
    FieldView { ty: resolve_type(f.ty, known, root_pkg), ..f }
}

pub open spec fn resolve_message(m: MessageView, known: Seq<TypeView>, root_pkg: Seq<char>) -> MessageView {
    MessageView {
        ty: m.ty,
        fields: m.fields.map_values(|f: FieldView| resolve_field(f, known, root_pkg)),
    }
}

/// What parsing the bundle `text` with root type `root` gives: its messages in
/// block order, every field resolved against the types of all blocks, listed
/// from the last block to the first.
pub open spec fn bundle_of(text: Seq<char>, root: TypeView) -> Result<Seq<MessageView>, ErrorView> {
    let r = parse_rev(blocks_of(text), root, 0);
    if r is Err {
        Err(r->Err_0)
    } else {
        let acc = r->Ok_0;
        let known = acc.map_values(|m: MessageView| m.ty);
        Ok(Seq::new(acc.len(), |i: int| resolve_message(acc[acc.len() - 1 - i], known, root.pkg_name)))
    }
}

proof fn lemma_parse_rev_error_persists(blocks: Seq<Seq<char>>, root: TypeView, i: int, k: int)
    requires
        0 <= k <= i,
        parse_rev(blocks, root, i) is Err,
    ensures
        parse_rev(blocks, root, k) == parse_rev(blocks, root, i),
    decreases i - k,
{
    if k < i {
        lemma_parse_rev_error_persists(blocks, root, i, k + 1);
    }
}

pub proof fn lemma_parse_rev_len(blocks: Seq<Seq<char>>, root: TypeView, i: int)
    requires
        0 <= i <= blocks.len(),
        parse_rev(blocks, root, i) is Ok,
    ensures
        parse_rev(blocks, root, i)->Ok_0.len() == blocks.len() - i,
    decreases blocks.len() - i,
{
    if i < blocks.len() {
        lemma_parse_rev_len(blocks, root, i + 1);
    }
}

fn resolve_type_exec(t: &Type, known: &Vec<Type>, root_pkg: &str) -> (r: Type)
    ensures
        r@ == resolve_type(t@, types_view(known@), root_pkg@),
{
    let ghost kv = types_view(known@);
    if !(t.pkg_name().is_empty() && *t.id() == BuiltinType::Other) {
        return t.clone();
    }
    let mut j: usize = 0;
    while j < known.len()
        invariant
            kv == types_view(known@),
            t@.pkg_name.len() == 0 && t@.id == BuiltinType::Other,
            j <= known.len(),
            find_named_in(kv, t@.msg_name, root_pkg@, j as int) == find_named_in(
                kv,
                t@.msg_name,
                root_pkg@,
                0,
            ),
        decreases known.len() - j,
    {
        let k = &known[j];
        assert(kv[j as int] == k@);
        if str_eq(k.msg_name(), t.msg_name()) && str_eq(k.pkg_name(), root_pkg) {
            return k.clone();
        }
        j += 1;
    }
    let mut j: usize = 0;
    while j < known.len()
        invariant
            kv == types_view(known@),
            t@.pkg_name.len() == 0 && t@.id == BuiltinType::Other,
            j <= known.len(),
            find_named_in(kv, t@.msg_name, root_pkg@, 0) == known.len(),
            find_named(kv, t@.msg_name, j as int) == find_named(kv, t@.msg_name, 0),
        decreases known.len() - j,
    {
        let k = &known[j];
        assert(kv[j as int] == k@);
        if str_eq(k.msg_name(), t.msg_name()) {
            return k.clone();
        }
        j += 1;
    }
    t.clone()
}

fn resolve_message_exec(m: &Message, known: &Vec<Type>, root_pkg: &str) -> (r: Message)
    ensures
        r@ == resolve_message(m@, types_view(known@), root_pkg@),
{
    let ghost kv = types_view(known@);
    let mut fields: Vec<Field> = Vec::new();
    let mut i: usize = 0;
    while i < m.fields.len()
        invariant
            kv == types_view(known@),
            i <= m.fields.len(),
            fields_view(fields@) == fields_view(m.fields@).take(i as int).map_values(
                |f: FieldView| resolve_field(f, kv, root_pkg@),
            ),
        decreases m.fields.len() - i,
    {
        let mut g = m.fields[i].clone();
        let ty = resolve_type_exec(m.fields[i].type_(), known, root_pkg);
        g.change_type(ty);
        proof {
            assert(fields_view(fields@.push(g)) =~= fields_view(fields@).push(g@));
            assert(fields_view(m.fields@).take(i + 1) =~= fields_view(m.fields@).take(i as int).push(
                m.fields@[i as int]@,
            ));
            assert(fields_view(fields@.push(g)) =~= fields_view(m.fields@).take(i + 1).map_values(
                |f: FieldView| resolve_field(f, kv, root_pkg@),
            ));
        }
        fields.push(g);
        i += 1;
    }
    assert(fields_view(m.fields@).take(m.fields.len() as int) =~= fields_view(m.fields@));
    Message { msg_type: m.msg_type.clone(), fields }
}

/// Parses a bundle of definitions with the given root type and resolves the
/// unqualified field types of all its messages.
pub fn parse_message_definitions(multi_def: &str, root_type: &Type) -> (r: Result<
    Vec<Arc<Message>>,
    IntrospectionError,
>)
    ensures
        match bundle_of(multi_def@, root_type@) {
            Ok(v) => r is Ok && shared_view(r->Ok_0@) == v,
            Err(e) => r is Err && r->Err_0@ == e,
        },
{
    let parts = split_multiple_message_definitions(multi_def);
    let ghost blocks = blocks_of(multi_def@);
    let ghost root = root_type@;
    let mut parsed: Vec<Message> = Vec::new();
    let mut known: Vec<Type> = Vec::new();
    let mut i = parts.len();
    while i > 0
        invariant
            blocks == blocks_of(multi_def@),
            root == root_type@,
            strings_view(parts@) == blocks,
            i <= parts.len(),
            parse_rev(blocks, root, i as int) is Ok,
            messages_view(parsed@) == parse_rev(blocks, root, i as int)->Ok_0,
            types_view(known@) == messages_view(parsed@).map_values(|m: MessageView| m.ty),
        decreases i,
    {
        let idx = i - 1;
        assert(parts@[idx as int]@ == blocks[idx as int]);
        let mut msg = match Message::new(parts[idx].as_str()) {
            Ok(m) => m,
            Err(e) => {
                proof {
                    lemma_parse_rev_error_persists(blocks, root, idx as int, 0);
                }
                return Err(e);
            },
        };
        if idx == 0 && msg.type_().name().is_empty() {
            if !root_type.name().is_empty() {
                msg.set_type(root_type.clone());
            } else {
                return Err(IntrospectionError::UnspecifiedType);
            }
        }
        let ty = msg.type_().clone();
        proof {
            assert(messages_view(parsed@.push(msg)) =~= messages_view(parsed@).push(msg@));
            assert(types_view(known@.push(ty)) =~= types_view(known@).push(ty@));
            assert(messages_view(parsed@.push(msg)).map_values(|m: MessageView| m.ty)
                =~= messages_view(parsed@).map_values(|m: MessageView| m.ty).push(msg@.ty));
        }
        known.push(ty);
        parsed.push(msg);
        i = idx;
    }
    let ghost acc = parse_rev(blocks, root, 0)->Ok_0;
    proof {
        lemma_parse_rev_len(blocks, root, 0);
    }
    let n = parsed.len();
    let mut out: Vec<Arc<Message>> = Vec::new();
    let mut t: usize = 0;
    while t < n
        invariant
            n == parsed.len(),
            acc.len() == n,
            messages_view(parsed@) == acc,
            types_view(known@) == acc.map_values(|m: MessageView| m.ty),
            t <= n,
            shared_view(out@) == Seq::new(
                t as nat,
                |j: int|
                    resolve_message(
                        acc[n - 1 - j],
                        acc.map_values(|m: MessageView| m.ty),
                        root_type@.pkg_name,
                    ),
            ),
        decreases n - t,
    {
        let m = resolve_message_exec(&parsed[n - 1 - t], &known, root_type.pkg_name());
        let shared = Arc::new(m);
        proof {
            assert(parsed@[n - 1 - t]@ == acc[n - 1 - t]);
            assert(shared@ == m@);
            assert(shared_view(out@.push(shared)) =~= shared_view(out@).push(shared@));
            assert(shared_view(out@.push(shared)) =~= Seq::new(
                (t + 1) as nat,
                |j: int|
                    resolve_message(
                        acc[n - 1 - j],
                        acc.map_values(|m: MessageView| m.ty),
                        root_type@.pkg_name,
                    ),
            ));
        }
        out.push(shared);
        t += 1;
    }
    Ok(out)
}

proof fn lemma_scan_errors(ls: Seq<Seq<char>>, k: int)
    requires
        scan_lines(ls, k) is Err,
    ensures
        scan_lines(ls, k)->Err_0 is Parse,
    decreases k,
{
    if k > 0 && scan_lines(ls, k - 1) is Err {
        lemma_scan_errors(ls, k - 1);
    }
}

proof fn lemma_parse_rev_errors(blocks: Seq<Seq<char>>, root: TypeView, i: int)
    requires
        parse_rev(blocks, root, i) is Err,
    ensures
        parse_rev(blocks, root, i)->Err_0 is Parse || parse_rev(blocks, root, i)->Err_0 is UnspecifiedType,
    decreases blocks.len() - i,
{
    if 0 <= i < blocks.len() {
        if parse_rev(blocks, root, i + 1) is Err {
            lemma_parse_rev_errors(blocks, root, i + 1);
        } else if message_of(blocks[i]) is Err {
            let ls = lines_of(blocks[i]);
            lemma_scan_errors(ls, ls.len() as int);
        }
    }
}

/// A bundle fails only on its own text: malformed lines or a missing root type.
pub proof fn lemma_bundle_errors(text: Seq<char>, root: TypeView)
    requires
        bundle_of(text, root) is Err,
    ensures
        bundle_of(text, root)->Err_0 is Parse || bundle_of(text, root)->Err_0 is UnspecifiedType,
{
    lemma_parse_rev_errors(blocks_of(text), root, 0);
}

/// Every bundle that parses holds at least one message.
pub proof fn lemma_bundle_nonempty(text: Seq<char>, root: TypeView)
    requires
        bundle_of(text, root) is Ok,
    ensures
        bundle_of(text, root)->Ok_0.len() >= 1,
{
    lemma_parse_rev_len(blocks_of(text), root, 0);
}

/// Whether `msg` is what block `b` parses to, with the root type for a first
/// block that names none.
pub open spec fn parsed_from_block(blocks: Seq<Seq<char>>, root: TypeView, msg: MessageView, b: int) -> bool {
    let m = message_of(blocks[b]);
    &&& m is Ok
    &&& msg.fields == m->Ok_0.fields
    &&& msg.ty == if b == 0 && m->Ok_0.ty.base_name.len() == 0 {
        root
    } else {
        m->Ok_0.ty
    }
}

proof fn lemma_parse_rev_blocks(blocks: Seq<Seq<char>>, root: TypeView, i: int)
    requires
        0 <= i <= blocks.len(),
        parse_rev(blocks, root, i) is Ok,
    ensures
        parse_rev(blocks, root, i)->Ok_0.len() == blocks.len() - i,
        forall|k: int|
            0 <= k < blocks.len() - i ==> #[trigger] parsed_from_block(
                blocks,
                root,
                parse_rev(blocks, root, i)->Ok_0[k],
                blocks.len() - 1 - k,
            ),
    decreases blocks.len() - i,
{
    if i < blocks.len() {
        lemma_parse_rev_blocks(blocks, root, i + 1);
        let prev = parse_rev(blocks, root, i + 1)->Ok_0;
        let acc = parse_rev(blocks, root, i)->Ok_0;
        assert(message_of(blocks[i]) is Ok);
        assert(acc.len() == prev.len() + 1);
        assert forall|k: int| 0 <= k < blocks.len() - i implies #[trigger] parsed_from_block(
            blocks,
            root,
            acc[k],
            blocks.len() - 1 - k,
        ) by {
            if k < prev.len() {
                assert(acc[k] == prev[k]);
                assert(parsed_from_block(blocks, root, prev[k], blocks.len() - 1 - k));
            } else {
                assert(blocks.len() - 1 - k == i);
            }
        }
    }
}

/// Whether `r` is `f` with at most its type changed, and that only where the
/// type of `f` is unqualified and not a builtin.
pub open spec fn resolved_from(r: FieldView, f: FieldView) -> bool {
    &&& r.name == f.name
    &&& r.is_array == f.is_array
    &&& r.array_size == f.array_size
    &&& r.is_constant == f.is_constant
    &&& r.value == f.value
    &&& (f.ty.pkg_name.len() > 0 || f.ty.id != BuiltinType::Other) ==> r == f
}

/// Whether `msg` is block `i` of `blocks` after resolution: its type is the
/// block's (the root type for a first block that names none), and its fields
/// are the block's, in order, each resolved from the block's field.
pub open spec fn follows_block(msg: MessageView, blocks: Seq<Seq<char>>, root: TypeView, i: int) -> bool {
    let m = message_of(blocks[i]);
    &&& m is Ok
    &&& msg.ty == if i == 0 && m->Ok_0.ty.base_name.len() == 0 {
        root
    } else {
        m->Ok_0.ty
    }
    &&& msg.fields.len() == m->Ok_0.fields.len()
    &&& forall|j: int|
        0 <= j < msg.fields.len() ==> resolved_from(#[trigger] msg.fields[j], m->Ok_0.fields[j])
}

/// The messages of a bundle stand in the order of its blocks, one for each:
/// the i-th message is the i-th block with its fields resolved, and
/// resolution changes only unqualified, non-builtin field types.
pub proof fn lemma_bundle_follows_blocks(text: Seq<char>, root: TypeView)
    requires
        bundle_of(text, root) is Ok,
    ensures
        bundle_of(text, root)->Ok_0.len() == blocks_of(text).len(),
        forall|i: int|
            0 <= i < blocks_of(text).len() ==> #[trigger] follows_block(
                bundle_of(text, root)->Ok_0[i],
                blocks_of(text),
                root,
                i,
            ),
{
    let blocks = blocks_of(text);
    lemma_parse_rev_blocks(blocks, root, 0);
    let acc = parse_rev(blocks, root, 0)->Ok_0;
    let known = acc.map_values(|m: MessageView| m.ty);
    let v = bundle_of(text, root)->Ok_0;
    assert forall|i: int| 0 <= i < blocks.len() implies #[trigger] follows_block(
        v[i],
        blocks,
        root,
        i,
    ) by {
        let k = acc.len() - 1 - i;
        assert(parsed_from_block(blocks, root, acc[k], blocks.len() - 1 - k));
        assert(v[i] == resolve_message(acc[k], known, root.pkg_name));
    }
}

} // verus!
