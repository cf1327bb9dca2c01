//! The infallible API over the same model: types that accept any name, and
//! fields and messages whose text the caller knows to be well formed.

use std::sync::Arc;

use vstd::prelude::*;

use crate::field::{field_line, Field, FieldView};
use crate::message::{bundle_of, message_of, shared_view, Message, MessageView};
use crate::ros_type::{short_name_of, type_view, BuiltinType, Type, TypeView};

verus! {

/// A type reference read without rejecting any name: an empty package or
/// short name is kept as it is.
#[derive(Debug)]
pub struct ROSType {
    inner: Type,
}

impl View for ROSType {
    type V = TypeView;

    closed spec fn view(&self) -> TypeView {
        self.inner@
    }
}

impl ROSType {
    pub fn new(name: &str) -> (r: ROSType)
        ensures
            r@ == type_view(name@, Seq::empty()),
    {
        ROSType { inner: Type::lenient(name) }
    }

    /// Gives a type without a package the package `new_pkg`; its base name
    /// becomes `new_pkg/<old base name>`, which is also its new short name.
    pub fn set_pkg_name(&mut self, new_pkg: &str)
        requires
            old(self)@.pkg_name.len() == 0,
        ensures
            final(self)@ == (TypeView {
                base_name: new_pkg@ + seq!['/'] + old(self)@.base_name,
                pkg_name: new_pkg@,
                msg_name: old(self)@.base_name,
                id: old(self)@.id,
            }),
            old(self)@.msg_name == short_name_of(old(self)@.base_name),
    {
        self.inner.set_pkg_name(new_pkg);
    }

    pub fn pkg_name(&self) -> (r: &str)
        ensures
            r@ == self@.pkg_name,
    {
        self.inner.pkg_name()
    }

    pub fn msg_name(&self) -> (r: &str)
        ensures
            r@ == self@.msg_name,
    {
        self.inner.msg_name()
    }

    /// The name as it was written.
    pub fn name(&self) -> (r: &str)
        ensures
            r@ == self@.base_name,
    {
        self.inner.name()
    }

    pub fn id(&self) -> (r: &BuiltinType)
        ensures
            *r == self@.id,
    {
        self.inner.id()
    }
}

impl Clone for ROSType {
    fn clone(&self) -> (r: ROSType)
        ensures
            r == *self,
    {
        ROSType { inner: self.inner.clone() }
    }
}

impl PartialEq for ROSType {
    fn eq(&self, other: &ROSType) -> (r: bool) {
        self.inner == other.inner
    }
}

impl vstd::std_specs::cmp::PartialEqSpecImpl for ROSType {
    open spec fn obeys_eq_spec() -> bool {
        true
    }

    open spec fn eq_spec(&self, other: &ROSType) -> bool {
        self@.base_name == other@.base_name
    }
}

impl Eq for ROSType {}

/// A field whose type is a [`ROSType`].
#[derive(Debug)]
pub struct ROSField {
    fieldname: String,
    field_type: ROSType,
    is_array: bool,
    array_size: isize,
    is_constant: bool,
    value: String,
}

impl View for ROSField {
    type V = FieldView;

    closed spec fn view(&self) -> FieldView {
        FieldView {
            name: self.fieldname@,
            ty: self.field_type@,
            is_array: self.is_array,
            array_size: self.array_size as int,
            is_constant: self.is_constant,
            value: self.value@,
        }
    }
}

impl ROSField {
    fn from_field(f: &Field) -> (r: ROSField)
        ensures
            r@ == f@,
    {
        ROSField {
            fieldname: f.name().to_owned(),
            field_type: ROSType { inner: f.type_().clone() },
            is_array: f.is_array(),
            array_size: f.array_size(),
            is_constant: f.is_constant(),
            value: f.value().to_owned(),
        }
    }

    /// A scalar, non-constant field of the given type and name.
    pub fn new_with_type(field_type: ROSType, name: &str) -> (r: ROSField)
        ensures
            r@ == (FieldView {
                name: name@,
                ty: field_type@,
                is_array: false,
                array_size: 1,
                is_constant: false,
                value: Seq::empty(),
            }),
    {
        ROSField {
            fieldname: name.to_owned(),
            field_type,
            is_array: false,
            array_size: 1,
            is_constant: false,
            value: String::new(),
        }
    }

    /// Parses a field line that is known to be well formed.
    pub fn new_with_definition(definition: &str) -> (r: ROSField)
        requires
            field_line(definition@) is Ok,
        ensures
            r@ == field_line(definition@)->Ok_0,
    {
        match Field::new_with_definition(definition) {
            Ok(f) => ROSField::from_field(&f),
            Err(_) => unreached(),
        }
    }

    pub fn type_(&self) -> (r: &ROSType)
        ensures
            r@ == self@.ty,
    {
        &self.field_type
    }

    /// Rebinds the field to another type; nothing else changes.
    pub fn change_type(&mut self, new_type: ROSType)
        ensures
            final(self)@ == (FieldView { ty: new_type@, ..old(self)@ }),
    {
        self.field_type = new_type;
    }
}

pub open spec fn ros_fields_view(v: Seq<ROSField>) -> Seq<FieldView> {
    v.map_values(|f: ROSField| f@)
}

/// A message whose type and fields are [`ROSType`] and [`ROSField`].
#[derive(Debug)]
pub struct ROSMessage {
    msg_type: ROSType,
    fields: Vec<ROSField>,
}

impl View for ROSMessage {
    type V = MessageView;

    closed spec fn view(&self) -> MessageView {
        MessageView { ty: self.msg_type@, fields: ros_fields_view(self.fields@) }
    }
}

impl ROSMessage {
    fn from_message(msg: &Message) -> (r: ROSMessage)
        ensures
            r@ == msg@,
    {
        let src = msg.fields();
        let mut fields: Vec<ROSField> = Vec::new();
        let mut i: usize = 0;
        while i < src.len()
            invariant
                i <= src.len(),
                crate::message::fields_view(src@) == msg@.fields,
                ros_fields_view(fields@) == msg@.fields.take(i as int),
            decreases src.len() - i,
        {
            let f = ROSField::from_field(&src[i]);
            proof {
                assert(ros_fields_view(fields@.push(f)) =~= ros_fields_view(fields@).push(f@));
                assert(msg@.fields.take(i + 1) =~= msg@.fields.take(i as int).push(src@[i as int]@));
            }
            fields.push(f);
            i += 1;
        }
        assert(msg@.fields.take(src.len() as int) =~= msg@.fields);
        ROSMessage { msg_type: ROSType { inner: msg.type_().clone() }, fields }
    }

    /// Parses a definition block that is known to be well formed.
    pub fn new(def: &str) -> (r: ROSMessage)
        requires
            message_of(def@) is Ok,
        ensures
            r@ == message_of(def@)->Ok_0,
    {
        match Message::new(def) {
            Ok(m) => ROSMessage::from_message(&m),
            Err(_) => unreached(),
        }
    }

    pub fn type_(&self) -> (r: &ROSType)
        ensures
            r@ == self@.ty,
    {
        &self.msg_type
    }

    pub fn set_type(&mut self, new_type: ROSType)
        ensures
            final(self)@ == (MessageView { ty: new_type@, fields: old(self)@.fields }),
    {
        self.msg_type = new_type;
    }

    pub fn fields(&self) -> (r: &Vec<ROSField>)
        ensures
            ros_fields_view(r@) == self@.fields,
    {
        &self.fields
    }

    pub fn fields_mut(&mut self) -> (r: &mut Vec<ROSField>)
        ensures
            ros_fields_view(r@) == old(self)@.fields,
            final(self)@ == (MessageView {
                ty: old(self)@.ty,
                fields: ros_fields_view(final(r)@),
            }),
    {
        &mut self.fields
    }
}

pub open spec fn ros_shared_view(v: Seq<Arc<ROSMessage>>) -> Seq<MessageView> {
    v.map_values(|m: Arc<ROSMessage>| m@)
}

/// Parses a bundle that is known to parse with the given root type, and
/// resolves the unqualified field types of all its messages.
pub fn parse_message_definitions(multi_def: &str, root_type: &ROSType) -> (r: Vec<Arc<ROSMessage>>)
    requires
        bundle_of(multi_def@, root_type@) is Ok,
    ensures
        ros_shared_view(r@) == bundle_of(multi_def@, root_type@)->Ok_0,
{
    let msgs = match crate::message::parse_message_definitions(multi_def, &root_type.inner) {
        Ok(m) => m,
        Err(_) => unreached(),
    };
    let mut out: Vec<Arc<ROSMessage>> = Vec::new();
    let mut i: usize = 0;
    while i < msgs.len()
        invariant
            i <= msgs.len(),
            shared_view(msgs@) == bundle_of(multi_def@, root_type@)->Ok_0,
            ros_shared_view(out@) == shared_view(msgs@).take(i as int),
        decreases msgs.len() - i,
    {
        let m = Arc::new(ROSMessage::from_message(&msgs[i]));
        proof {
            assert(ros_shared_view(out@.push(m)) =~= ros_shared_view(out@).push(m@));
            assert(shared_view(msgs@).take(i + 1) =~= shared_view(msgs@).take(i as int).push(
                msgs@[i as int]@,
            ));
        }
        out.push(m);
        i += 1;
    }
    assert(shared_view(msgs@).take(msgs.len() as int) =~= shared_view(msgs@));
    out
}

} // verus!
