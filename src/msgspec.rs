//! Expansion of a root type into the tree of the definitions it depends on.

use std::sync::Arc;

use vstd::prelude::*;

use crate::error::{ErrorView, IntrospectionError, ParseErrorKind};
use crate::field::FieldView;
use crate::message::{
    bundle_of, lemma_bundle_errors, lemma_bundle_nonempty, parse_message_definitions, shared_view,
    Message, MessageView,
};
use crate::ros_type::{type_view, valid_type_name, BuiltinType, Type, TypeView};
use crate::text::str_eq;

verus! {

broadcast use {vstd::seq_lib::group_seq_properties, vstd::set::group_set_axioms};

/// A stored definition: package, message name and the text of its bundle.
pub type DefinitionEntry = (Seq<char>, Seq<char>, Seq<char>);

/// The text stored for `pkg`/`name`; a later entry shadows an earlier one.
pub open spec fn lookup(d: Seq<DefinitionEntry>, pkg: Seq<char>, name: Seq<char>) -> Option<
    Seq<char>,
>
    decreases d.len(),
{
    if d.len() == 0 {
        None
    } else if d.last().0 == pkg && d.last().1 == name {
        Some(d.last().2)
    } else {
        lookup(d.drop_last(), pkg, name)
    }
}

/// The package and message name of every stored definition.
pub open spec fn stored_keys(d: Seq<DefinitionEntry>) -> Set<(Seq<char>, Seq<char>)> {
    d.map_values(|e: DefinitionEntry| (e.0, e.1)).to_set()
}

proof fn lemma_lookup_stored(d: Seq<DefinitionEntry>, pkg: Seq<char>, name: Seq<char>)
    requires
        lookup(d, pkg, name) is Some,
    ensures
        stored_keys(d).contains((pkg, name)),
    decreases d.len(),
{
    let keys = d.map_values(|e: DefinitionEntry| (e.0, e.1));
    if d.last().0 == pkg && d.last().1 == name {
        assert(keys[d.len() - 1] == (pkg, name));
    } else {
        lemma_lookup_stored(d.drop_last(), pkg, name);
        let sub = d.drop_last().map_values(|e: DefinitionEntry| (e.0, e.1));
        let j = choose|j: int| 0 <= j < sub.len() && sub[j] == (pkg, name);
        assert(keys[j] == sub[j]);
    }
}

/// Message definitions by package and message name, the source that the
/// expansion of a type reads from.
pub struct Definitions {
    entries: Vec<(String, String, String)>,
}

impl View for Definitions {
    type V = Seq<DefinitionEntry>;

    closed spec fn view(&self) -> Seq<DefinitionEntry> {
        self.entries@.map_values(|e: (String, String, String)| (e.0@, e.1@, e.2@))
    }
}

impl Definitions {
    pub fn new() -> (r: Definitions)
        ensures
            r@ == Seq::<DefinitionEntry>::empty(),
    {
        let r = Definitions { entries: Vec::new() };
        assert(r@ =~= Seq::<DefinitionEntry>::empty());
        r
    }

    /// Stores `text` for `package`/`name`, replacing what was stored for it.
    pub fn insert(&mut self, package: &str, name: &str, text: &str)
        ensures
            final(self)@ == old(self)@.push((package@, name@, text@)),
    {
        let e = (package.to_owned(), name.to_owned(), text.to_owned());
        self.entries.push(e);
        assert(self@ =~= old(self)@.push((package@, name@, text@)));
    }

    /// The text stored for `package`/`name`.
    pub fn get(&self, package: &str, name: &str) -> (r: Option<&String>)
        ensures
            match lookup(self@, package@, name@) {
                Some(t) => r is Some && r->0@ == t,
                None => r is None,
            },
    {
        let mut i = self.entries.len();
        assert(self@.take(i as int) =~= self@);
        while i > 0
            invariant
                i <= self.entries.len(),
                lookup(self@.take(i as int), package@, name@) == lookup(self@, package@, name@),
            decreases i,
        {
            let e = &self.entries[i - 1];
            proof {
                assert(self@.take(i as int).drop_last() =~= self@.take(i - 1));
                assert(self@.take(i as int).last() == (e.0@, e.1@, e.2@));
            }
            if str_eq(e.0.as_str(), package) && str_eq(e.1.as_str(), name) {
                return Some(&e.2);
            }
            i -= 1;
        }
        None
    }
}

/// A resolved message together with the expansions of its non-builtin fields.
pub struct SpecTree {
    pub data: MessageView,
    pub children: Seq<SpecTree>,
}

pub open spec fn key_of(t: TypeView) -> (Seq<char>, Seq<char>) {
    (t.pkg_name, t.msg_name)
}

/// The first message of the bundle stored for `t`, parsed with `t` as root.
pub open spec fn definition_of(d: Seq<DefinitionEntry>, t: TypeView) -> Result<MessageView, ErrorView> {
    let text = lookup(d, t.pkg_name, t.msg_name);
    if text is None {
        Err(ErrorView::DefinitionNotFound(t.pkg_name, t.msg_name))
    } else {
        let b = bundle_of(text->0, t);
        if b is Err {
            Err(b->Err_0)
        } else {
            Ok(b->Ok_0[0])
        }
    }
}

/// The fields whose type is not a builtin, in order.
pub open spec fn other_fields(fs: Seq<FieldView>) -> Seq<FieldView>
    decreases fs.len(),
{
    if fs.len() == 0 {
        Seq::empty()
    } else {
        let sub = other_fields(fs.drop_last());
        if fs.last().ty.id == BuiltinType::Other {
            sub.push(fs.last())
        } else {
            sub
        }
    }
}

proof fn lemma_other_fields_prefix(fs: Seq<FieldView>, j: int)
    requires
        0 <= j <= fs.len(),
    ensures
        other_fields(fs.take(j)).len() <= other_fields(fs).len(),
        forall|k: int|
            0 <= k < other_fields(fs.take(j)).len() ==> #[trigger] other_fields(fs.take(j))[k]
                == other_fields(fs)[k],
    decreases fs.len(),
{
    if j == fs.len() {
        assert(fs.take(j) =~= fs);
    } else {
        lemma_other_fields_prefix(fs.drop_last(), j);
        assert(fs.drop_last().take(j) =~= fs.take(j));
    }
}

proof fn lemma_measure_drops(
    stored: Set<(Seq<char>, Seq<char>)>,
    path: Seq<(Seq<char>, Seq<char>)>,
    key: (Seq<char>, Seq<char>),
)
    requires
        stored.finite(),
        stored.contains(key),
        !path.contains(key),
    ensures
        stored.difference(path.push(key).to_set()).len() + 1 == stored.difference(path.to_set()).len(),
{
    let before = stored.difference(path.to_set());
    let after = stored.difference(path.push(key).to_set());
    assert forall|x| path.push(key).to_set().contains(x) <==> path.to_set().insert(key).contains(x) by {
        if path.push(key).to_set().contains(x) {
            let j = choose|j: int| 0 <= j < path.push(key).len() && path.push(key)[j] == x;
            if j < path.len() {
                assert(path[j] == x);
            }
        }
        if path.to_set().contains(x) && x != key {
            let j = choose|j: int| 0 <= j < path.len() && path[j] == x;
            assert(path.push(key)[j] == x);
        }
        if x == key {
            assert(path.push(key)[path.len() as int] == key);
        }
    }
    assert(after =~= before.remove(key));
    assert(before.contains(key));
}

/// The number of stored types that are not on `path`: it shrinks with every
/// level of an expansion.
pub open spec fn unexpanded(d: Seq<DefinitionEntry>, path: Seq<(Seq<char>, Seq<char>)>) -> nat {
    stored_keys(d).difference(path.to_set()).len()
}

/// What expanding the type `topic`, named inside a message of package
/// `parent`, gives while the types `path` are being expanded above it: a name
/// that does not parse, a type already on the path, a missing or unparsable
/// definition, or the first failing field expansion is the error; otherwise
/// the tree of the type's first stored message and its fields' expansions.
pub open spec fn expansion(
    d: Seq<DefinitionEntry>,
    topic: Seq<char>,
    parent: Seq<char>,
    path: Seq<(Seq<char>, Seq<char>)>,
) -> Result<SpecTree, ErrorView>
    decreases unexpanded(d, path), 0nat,
    via expansion_decreases
{
    let t = type_view(topic, parent);
    if !valid_type_name(topic) {
        Err(ErrorView::Parse(ParseErrorKind::BadTypeName, topic))
    } else if path.contains(key_of(t)) {
        Err(ErrorView::CyclicDefinition(t.pkg_name, t.msg_name))
    } else {
        let m = definition_of(d, t);
        if m is Err {
            Err(m->Err_0)
        } else {
            let fs = m->Ok_0.fields;
            let kids = expand_fields(d, fs, m->Ok_0.ty.pkg_name, path.push(key_of(t)), fs.len() as nat);
            if kids is Err {
                Err(kids->Err_0)
            } else {
                Ok(SpecTree { data: m->Ok_0, children: kids->Ok_0 })
            }
        }
    }
}

/// The expansions of the non-builtin fields among the first `n` of `fs`, in
/// order, or the error of the first one that fails.
pub open spec fn expand_fields(
    d: Seq<DefinitionEntry>,
    fs: Seq<FieldView>,
    pkg: Seq<char>,
    path: Seq<(Seq<char>, Seq<char>)>,
    n: nat,
) -> Result<Seq<SpecTree>, ErrorView>
    decreases unexpanded(d, path), n,
{
    if n == 0 || n > fs.len() {
        Ok(Seq::empty())
    } else {
        let prev = expand_fields(d, fs, pkg, path, (n - 1) as nat);
        let f = fs[n - 1];
        if prev is Err {
            prev
        } else if f.ty.id == BuiltinType::Other {
            let c = expansion(d, f.ty.base_name, pkg, path);
            if c is Err {
                Err(c->Err_0)
            } else {
                Ok(prev->Ok_0.push(c->Ok_0))
            }
        } else {
            prev
        }
    }
}

#[via_fn]
proof fn expansion_decreases(
    d: Seq<DefinitionEntry>,
    topic: Seq<char>,
    parent: Seq<char>,
    path: Seq<(Seq<char>, Seq<char>)>,
) {
    let t = type_view(topic, parent);
    if valid_type_name(topic) && !path.contains(key_of(t)) && definition_of(d, t) is Ok {
        lemma_lookup_stored(d, t.pkg_name, t.msg_name);
        lemma_measure_drops(stored_keys(d), path, key_of(t));
    }
}

pub open spec fn keys_view(v: Seq<(String, String)>) -> Seq<(Seq<char>, Seq<char>)> {
    v.map_values(|k: (String, String)| (k.0@, k.1@))
}

fn path_contains(path: &Vec<(String, String)>, pkg: &str, name: &str) -> (r: bool)
    ensures
        r == keys_view(path@).contains((pkg@, name@)),
{
    let mut i: usize = 0;
    while i < path.len()
        invariant
            i <= path.len(),
            forall|j: int| 0 <= j < i ==> keys_view(path@)[j] != (pkg@, name@),
        decreases path.len() - i,
    {
        let k = &path[i];
        if str_eq(k.0.as_str(), pkg) && str_eq(k.1.as_str(), name) {
            assert(keys_view(path@)[i as int] == (pkg@, name@));
            return true;
        }
        i += 1;
    }
    false
}

/// The specification tree of a message type: its resolved definition and the
/// trees of its non-builtin fields, in field order.
pub struct MsgSpec {
    data: Arc<Message>,
    children: Vec<MsgSpec>,
}

pub closed spec fn tree_of(m: MsgSpec) -> SpecTree
    decreases m,
{
    SpecTree {
        data: m.data@,
        children: Seq::new(
            m.children.len() as nat,
            |i: int|
                if 0 <= i < m.children.len() {
                    tree_of(m.children[i])
                } else {
                    arbitrary()
                },
        ),
    }
}

impl View for MsgSpec {
    type V = SpecTree;

    closed spec fn view(&self) -> SpecTree {
        tree_of(*self)
    }
}

/// Whether every node of `tree` has exactly as many children as its message
/// has fields of a non-builtin type.
pub open spec fn children_follow_fields(tree: SpecTree) -> bool
    decreases tree,
{
    &&& tree.children.len() == other_fields(tree.data.fields).len()
    &&& forall|k: int|
        0 <= k < tree.children.len() ==> children_follow_fields(#[trigger] tree.children[k])
}

proof fn lemma_expand_fields_error_persists(
    d: Seq<DefinitionEntry>,
    fs: Seq<FieldView>,
    pkg: Seq<char>,
    path: Seq<(Seq<char>, Seq<char>)>,
    k: nat,
    m: nat,
)
    requires
        k <= m <= fs.len(),
        expand_fields(d, fs, pkg, path, k) is Err,
    ensures
        expand_fields(d, fs, pkg, path, m) == expand_fields(d, fs, pkg, path, k),
    decreases m - k,
{
    if m > k {
        lemma_expand_fields_error_persists(d, fs, pkg, path, k, (m - 1) as nat);
    }
}

proof fn lemma_expand_fields_shape(
    d: Seq<DefinitionEntry>,
    fs: Seq<FieldView>,
    pkg: Seq<char>,
    path: Seq<(Seq<char>, Seq<char>)>,
    n: nat,
)
    requires
        n <= fs.len(),
        expand_fields(d, fs, pkg, path, n) is Ok,
    ensures
        expand_fields(d, fs, pkg, path, n)->Ok_0.len() == other_fields(fs.take(n as int)).len(),
        forall|k: int|
            0 <= k < expand_fields(d, fs, pkg, path, n)->Ok_0.len() ==> expansion(
                d,
                other_fields(fs.take(n as int))[k].ty.base_name,
                pkg,
                path,
            ) == Ok::<SpecTree, ErrorView>(#[trigger] expand_fields(d, fs, pkg, path, n)->Ok_0[k]),
    decreases n,
{
    if n > 0 {
        lemma_expand_fields_shape(d, fs, pkg, path, (n - 1) as nat);
        assert(fs.take(n as int).drop_last() =~= fs.take(n - 1));
    }
}

/// In an expansion, at every depth, a node has one child per field of its own
/// message whose type is not a builtin, and the k-th child is the expansion of
/// the k-th such field, named inside the node's package.
pub proof fn lemma_expansion_shape(
    d: Seq<DefinitionEntry>,
    topic: Seq<char>,
    parent: Seq<char>,
    path: Seq<(Seq<char>, Seq<char>)>,
)
    requires
        expansion(d, topic, parent, path) is Ok,
    ensures
        children_follow_fields(expansion(d, topic, parent, path)->Ok_0),
        ({
            let tree = expansion(d, topic, parent, path)->Ok_0;
            forall|k: int|
                0 <= k < tree.children.len() ==> expansion(
                    d,
                    other_fields(tree.data.fields)[k].ty.base_name,
                    tree.data.ty.pkg_name,
                    path.push(key_of(type_view(topic, parent))),
                ) == Ok::<SpecTree, ErrorView>(#[trigger] tree.children[k])
        }),
    decreases unexpanded(d, path),
{
    let t = type_view(topic, parent);
    let tree = expansion(d, topic, parent, path)->Ok_0;
    let fs = tree.data.fields;
    let p2 = path.push(key_of(t));
    lemma_expand_fields_shape(d, fs, tree.data.ty.pkg_name, p2, fs.len() as nat);
    assert(fs.take(fs.len() as int) =~= fs);
    lemma_lookup_stored(d, t.pkg_name, t.msg_name);
    lemma_measure_drops(stored_keys(d), path, key_of(t));
    let kids = expand_fields(d, fs, tree.data.ty.pkg_name, p2, fs.len() as nat)->Ok_0;
    assert(tree.children == kids);
    assert forall|k: int| 0 <= k < tree.children.len() implies expansion(
        d,
        other_fields(fs)[k].ty.base_name,
        tree.data.ty.pkg_name,
        p2,
    ) == Ok::<SpecTree, ErrorView>(#[trigger] tree.children[k]) by {
        assert(kids[k] == tree.children[k]);
    }
    assert forall|k: int| 0 <= k < tree.children.len() implies children_follow_fields(
        #[trigger] tree.children[k],
    ) by {
        assert(kids[k] == tree.children[k]);
        lemma_expansion_shape(d, other_fields(fs)[k].ty.base_name, tree.data.ty.pkg_name, p2);
    }
}

/// Whether no path from the root of `tree` down to a leaf has more than `k` nodes.
pub open spec fn within_depth(tree: SpecTree, k: nat) -> bool
    decreases tree,
{
    &&& k > 0
    &&& forall|j: int|
        0 <= j < tree.children.len() ==> within_depth(#[trigger] tree.children[j], (k - 1) as nat)
}

/// An expansion is never deeper than one more than the number of stored
/// definitions not already on the path: each level expands a new stored type.
pub proof fn lemma_expansion_depth(
    d: Seq<DefinitionEntry>,
    topic: Seq<char>,
    parent: Seq<char>,
    path: Seq<(Seq<char>, Seq<char>)>,
)
    requires
        expansion(d, topic, parent, path) is Ok,
    ensures
        within_depth(expansion(d, topic, parent, path)->Ok_0, unexpanded(d, path) + 1),
    decreases unexpanded(d, path),
{
    let t = type_view(topic, parent);
    let tree = expansion(d, topic, parent, path)->Ok_0;
    let p2 = path.push(key_of(t));
    lemma_expansion_shape(d, topic, parent, path);
    lemma_lookup_stored(d, t.pkg_name, t.msg_name);
    lemma_measure_drops(stored_keys(d), path, key_of(t));
    assert forall|j: int| 0 <= j < tree.children.len() implies within_depth(
        #[trigger] tree.children[j],
        unexpanded(d, path),
    ) by {
        let c = tree.children[j];
        assert(expansion(d, other_fields(tree.data.fields)[j].ty.base_name, tree.data.ty.pkg_name, p2)
            == Ok::<SpecTree, ErrorView>(c));
        lemma_expansion_depth(
            d,
            other_fields(tree.data.fields)[j].ty.base_name,
            tree.data.ty.pkg_name,
            p2,
        );
    }
}

/// A missing definition is reported only for a type that the store does not
/// hold.
pub proof fn lemma_not_found_is_missing(
    d: Seq<DefinitionEntry>,
    topic: Seq<char>,
    parent: Seq<char>,
    path: Seq<(Seq<char>, Seq<char>)>,
)
    ensures
        expansion(d, topic, parent, path) matches Err(ErrorView::DefinitionNotFound(p, n)) ==> lookup(
            d,
            p,
            n,
        ) is None,
    decreases unexpanded(d, path), 0nat,
{
    let t = type_view(topic, parent);
    if valid_type_name(topic) && !path.contains(key_of(t)) {
        let m = definition_of(d, t);
        if m is Err {
            if lookup(d, t.pkg_name, t.msg_name) is Some {
                lemma_bundle_errors(lookup(d, t.pkg_name, t.msg_name)->0, t);
            }
        } else {
            let fs = m->Ok_0.fields;
            lemma_lookup_stored(d, t.pkg_name, t.msg_name);
            lemma_measure_drops(stored_keys(d), path, key_of(t));
            lemma_fields_not_found(d, fs, m->Ok_0.ty.pkg_name, path.push(key_of(t)), fs.len() as nat);
        }
    }
}

proof fn lemma_fields_not_found(
    d: Seq<DefinitionEntry>,
    fs: Seq<FieldView>,
    pkg: Seq<char>,
    path: Seq<(Seq<char>, Seq<char>)>,
    n: nat,
)
    ensures
        expand_fields(d, fs, pkg, path, n) matches Err(ErrorView::DefinitionNotFound(p, q)) ==> lookup(
            d,
            p,
            q,
        ) is None,
    decreases unexpanded(d, path), n,
{
    if n > 0 && n <= fs.len() {
        lemma_fields_not_found(d, fs, pkg, path, (n - 1) as nat);
        if fs[n - 1].ty.id == BuiltinType::Other {
            lemma_not_found_is_missing(d, fs[n - 1].ty.base_name, pkg, path);
        }
    }
}

impl MsgSpec {
    /// Expands `topic_type` against the stored definitions: the result is
    /// exactly [`expansion`] of the type from an empty path, tree or error.
    pub fn new(topic_type: &str, definitions: &Definitions) -> (r: Result<MsgSpec, IntrospectionError>)
        ensures
            match expansion(definitions@, topic_type@, Seq::empty(), Seq::empty()) {
                Ok(t) => r is Ok && r->Ok_0@ == t,
                Err(e) => r is Err && r->Err_0@ == e,
            },
            r matches Err(IntrospectionError::DefinitionNotFound { package, name }) ==> lookup(
                definitions@,
                package@,
                name@,
            ) is None,
    {
        let mut path: Vec<(String, String)> = Vec::new();
        proof {
            reveal_strlit("");
            assert(""@ =~= Seq::<char>::empty());
            assert(keys_view(path@) =~= Seq::<(Seq<char>, Seq<char>)>::empty());
            lemma_not_found_is_missing(definitions@, topic_type@, Seq::empty(), Seq::empty());
        }
        MsgSpec::new_with_parent_package(topic_type, "", definitions, &mut path)
    }

    /// Expands `topic_type` named inside a message of package `parent_package`,
    /// with `path` the types being expanded above it.
    fn new_with_parent_package(
        topic_type: &str,
        parent_package: &str,
        definitions: &Definitions,
        path: &mut Vec<(String, String)>,
    ) -> (r: Result<MsgSpec, IntrospectionError>)
        ensures
            final(path)@ == old(path)@,
            match expansion(definitions@, topic_type@, parent_package@, keys_view(old(path)@)) {
                Ok(t) => r is Ok && r->Ok_0@ == t,
                Err(e) => r is Err && r->Err_0@ == e,
            },
        decreases unexpanded(definitions@, keys_view(old(path)@)),
    {
        let ghost d = definitions@;
        let ghost pv = keys_view(path@);
        let ty = match Type::new_with_parent_package(topic_type, parent_package) {
            Ok(t) => t,
            Err(e) => {
                return Err(e);
            },
        };
        let ghost key = key_of(ty@);
        if path_contains(path, ty.pkg_name(), ty.msg_name()) {
            return Err(
                IntrospectionError::CyclicDefinition {
                    package: ty.pkg_name().to_owned(),
                    name: ty.msg_name().to_owned(),
                },
            );
        }
        let text = match definitions.get(ty.pkg_name(), ty.msg_name()) {
            Some(t) => t,
            None => {
                return Err(
                    IntrospectionError::DefinitionNotFound {
                        package: ty.pkg_name().to_owned(),
                        name: ty.msg_name().to_owned(),
                    },
                );
            },
        };
        let mut msgs = match parse_message_definitions(text.as_str(), &ty) {
            Ok(m) => m,
            Err(e) => {
                return Err(e);
            },
        };
        proof {
            lemma_bundle_nonempty(text@, ty@);
            assert(shared_view(msgs@).len() == msgs@.len());
            lemma_lookup_stored(d, ty@.pkg_name, ty@.msg_name);
        }
        let data = msgs.remove(0);
        let ghost dv = data@;
        assert(definition_of(d, ty@) == Ok::<MessageView, ErrorView>(dv));
        let ghost fv = dv.fields;
        let ghost p2 = pv.push(key);
        let mut children: Vec<MsgSpec> = Vec::new();
        let n = data.fields().len();
        let mut i: usize = 0;
        while i < n
            invariant
                d == definitions@,
                pv == keys_view(old(path)@),
                p2 == pv.push(key),
                path@ == old(path)@,
                key == key_of(ty@),
                ty@ == type_view(topic_type@, parent_package@),
                valid_type_name(topic_type@),
                !pv.contains(key),
                stored_keys(d).contains(key),
                definition_of(d, ty@) == Ok::<MessageView, ErrorView>(dv),
                data@ == dv,
                fv == dv.fields,
                n == fv.len(),
                i <= n,
                expand_fields(d, fv, dv.ty.pkg_name, p2, i as nat) is Ok,
                children@.map_values(|c: MsgSpec| c@) == expand_fields(
                    d,
                    fv,
                    dv.ty.pkg_name,
                    p2,
                    i as nat,
                )->Ok_0,
            decreases n - i,
        {
            let f = &data.fields()[i];
            assert(f@ == fv[i as int]);
            if *f.type_().id() == BuiltinType::Other {
                path.push((ty.pkg_name().to_owned(), ty.msg_name().to_owned()));
                proof {
                    assert(keys_view(path@) =~= p2);
                    lemma_measure_drops(stored_keys(d), pv, key);
                }
                let child = MsgSpec::new_with_parent_package(
                    f.type_().name(),
                    data.type_().pkg_name(),
                    definitions,
                    path,
                );
                path.pop();
                proof {
                    assert(path@ =~= old(path)@);
                }
                match child {
                    Ok(c) => {
                        proof {
                            assert(children@.push(c).map_values(|c: MsgSpec| c@)
                                =~= children@.map_values(|c: MsgSpec| c@).push(c@));
                        }
                        children.push(c);
                    },
                    Err(e) => {
                        proof {
                            lemma_expand_fields_error_persists(
                                d,
                                fv,
                                dv.ty.pkg_name,
                                p2,
                                (i + 1) as nat,
                                n as nat,
                            );
                        }
                        return Err(e);
                    },
                }
            }
            i += 1;
        }
        let r = MsgSpec { data, children };
        proof {
            let kids = expand_fields(d, fv, dv.ty.pkg_name, p2, n as nat)->Ok_0;
            assert(r@.children =~= kids);
        }
        Ok(r)
    }

    pub fn data(&self) -> (r: &Arc<Message>)
        ensures
            r@ == self@.data,
    {
        &self.data
    }

    pub fn children(&self) -> (r: &Vec<MsgSpec>)
        ensures
            r@.len() == self@.children.len(),
            forall|k: int| 0 <= k < r@.len() ==> #[trigger] r@[k]@ == self@.children[k],
    {
        &self.children
    }
}

} // verus!
