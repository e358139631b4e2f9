//! D-Bus message helpers.
//!
//! A `zbus` message is opaque to the proofs: its header fields, body and
//! encoding are read through the accessors below. What each of them returns
//! depends on the message alone and is named (`destination_of`,
//! `model_of` and the rest), so the contracts of the functions that read a
//! message say what they return in terms of those names. The decisions taken
//! on what was read are verified on `MessageFields`, which holds the same
//! parts as plain values.

pub mod error_names;

use vstd::prelude::*;

use std::sync::Arc;

use zbus::message::Message;
use zbus::zvariant::{Structure, Value};

use crate::client::{is_little, spec_read_u32};
use crate::error::MessageError;
use crate::match_rules::{body_args_of, body_arguments, opt_view, BodyField, BodyFieldModel, MessageFields, MessageModel, MessageType};
use crate::text::str_eq;

verus! {

#[verifier::external_type_specification]
#[verifier::external_body]
pub struct ExMessage(Message);

/// The bus name of the message bus itself.
pub const DBUS_NAME: &'static str = "org.freedesktop.DBus";

/// The signal that announces a change of a name's owner.
pub const NAME_OWNER_CHANGED: &'static str = "NameOwnerChanged";

/// The destination header field of a message, as text.
pub uninterp spec fn destination_of(msg: Message) -> Option<Seq<char>>;

/// `Header::destination` of `msg`, as text: a function of the message
/// alone, named `destination_of`.
#[verifier::external_body]
fn header_destination(msg: &Message) -> (r: Option<String>)
    ensures
        opt_view(r) == destination_of(*msg),
{
    msg.header().destination().map(|d| d.to_string())
}

/// The sender header field of a message, as text.
pub uninterp spec fn sender_of(msg: Message) -> Option<Seq<char>>;

/// `Header::sender` of `msg`, as text: a function of the message alone,
/// named `sender_of`.
#[verifier::external_body]
fn header_sender(msg: &Message) -> (r: Option<String>)
    ensures
        opt_view(r) == sender_of(*msg),
{
    msg.header().sender().map(|s| s.to_string())
}

/// The interface header field of a message, as text.
pub uninterp spec fn interface_of(msg: Message) -> Option<Seq<char>>;

/// `Header::interface` of `msg`, as text: a function of the message alone,
/// named `interface_of`.
#[verifier::external_body]
fn header_interface(msg: &Message) -> (r: Option<String>)
    ensures
        opt_view(r) == interface_of(*msg),
{
    msg.header().interface().map(|i| i.to_string())
}

/// The member header field of a message, as text.
pub uninterp spec fn member_of(msg: Message) -> Option<Seq<char>>;

/// `Header::member` of `msg`, as text: a function of the message alone,
/// named `member_of`.
#[verifier::external_body]
fn header_member(msg: &Message) -> (r: Option<String>)
    ensures
        opt_view(r) == member_of(*msg),
{
    msg.header().member().map(|m| m.to_string())
}

/// The path header field of a message, as text.
pub uninterp spec fn path_of(msg: Message) -> Option<Seq<char>>;

/// `Header::path` of `msg`, as text: a function of the message alone, named
/// `path_of`.
#[verifier::external_body]
fn header_path(msg: &Message) -> (r: Option<String>)
    ensures
        opt_view(r) == path_of(*msg),
{
    msg.header().path().map(|p| p.to_string())
}

/// The serial number of a message.
pub uninterp spec fn serial_of(msg: Message) -> u32;

/// `PrimaryHeader::serial_num` of `msg`: a function of the message alone,
/// named `serial_of`. It is a `NonZeroU32`, so the value is never zero.
#[verifier::external_body]
fn primary_serial(msg: &Message) -> (r: u32)
    ensures
        r == serial_of(*msg),
        r != 0,
{
    msg.primary_header().serial_num().get()
}

/// The reply serial header field of a message.
pub uninterp spec fn reply_serial_of(msg: Message) -> Option<u32>;

/// `Header::reply_serial` of `msg`: a function of the message alone, named
/// `reply_serial_of`. It is an `Option<NonZeroU32>`, so a present value is
/// never zero.
#[verifier::external_body]
fn header_reply_serial(msg: &Message) -> (r: Option<u32>)
    ensures
        r == reply_serial_of(*msg),
        r matches Some(n) ==> n != 0,
{
    msg.header().reply_serial().map(|n| n.get())
}

/// The kind of a message.
pub uninterp spec fn message_type_of(msg: Message) -> MessageType;

/// `PrimaryHeader::msg_type` of `msg`, variant for variant: a function of
/// the message alone, named `message_type_of`.
#[verifier::external_body]
fn primary_message_type(msg: &Message) -> (r: MessageType)
    ensures
        r == message_type_of(*msg),
{
    match msg.primary_header().msg_type() {
        zbus::message::Type::MethodCall => MessageType::MethodCall,
        zbus::message::Type::MethodReturn => MessageType::MethodReturn,
        zbus::message::Type::Error => MessageType::Error,
        zbus::message::Type::Signal => MessageType::Signal,
    }
}

/// The body of `msg` read as a `zvariant::Structure` (`Body::deserialize`),
/// each field mapped to a string, an object path, an array (each element a
/// string or not) or another kind of value; `None` when the body cannot be
/// read so.
pub uninterp spec fn body_fields_of(msg: Message) -> Option<Seq<BodyFieldModel>>;

/// The body of `msg` read as a `zvariant::Structure` (`Body::deserialize`),
/// each field mapped to a string, an object path, an array (each element a
/// string or not) or another kind of value; `None` when the body cannot be
/// read so. A function of the message alone, named `body_fields_of`.
#[verifier::external_body]
fn body_fields(msg: &Message) -> (r: Option<Vec<BodyField>>)
    ensures
        r matches Some(v) ==> body_fields_of(*msg) == Some(v@.map_values(|f: BodyField| f@)),
        r is None ==> body_fields_of(*msg) is None,
{
    let body = msg.body();
    match body.deserialize::<Structure>() {
        Ok(s) => Some(s.fields().iter().map(|v| match v {
            Value::Str(t) => BodyField::Str(t.to_string()),
            Value::ObjectPath(p) => BodyField::Path(p.to_string()),
            Value::Array(a) => BodyField::Array(a.iter().map(|e| match e {
                Value::Str(t) => Some(t.to_string()),
                _ => None,
            }).collect()),
            _ => BodyField::Other,
        }).collect()),
        Err(_) => None,
    }
}

/// The body of a message read as three strings; `None` when it has another
/// shape.
pub uninterp spec fn body_three_strings_of(msg: Message) -> Option<(Seq<char>, Seq<char>, Seq<char>)>;

/// The body of `msg` read as `(String, String, String)` (`Body::deserialize`),
/// or the error's text: a function of the message alone, named
/// `body_three_strings_of`. Nothing is claimed of the error's text.
#[verifier::external_body]
fn body_three_strings(msg: &Message) -> (r: Result<(String, String, String), String>)
    ensures
        r matches Ok((a, b, c)) ==> body_three_strings_of(*msg) == Some((a@, b@, c@)),
        r is Err ==> body_three_strings_of(*msg) is None,
{
    msg.body().deserialize::<(String, String, String)>().map_err(|e| e.to_string())
}

/// The body of a message read as a single string; `None` when it has
/// another shape.
pub uninterp spec fn body_string_of(msg: Message) -> Option<Seq<char>>;

/// The body of `msg` read as a single string (`Body::deserialize`), or the
/// error's text: a function of the message alone, named `body_string_of`.
/// Nothing is claimed of the error's text.
#[verifier::external_body]
fn body_string(msg: &Message) -> (r: Result<String, String>)
    ensures
        r matches Ok(a) ==> body_string_of(*msg) == Some(a@),
        r is Err ==> body_string_of(*msg) is None,
{
    msg.body().deserialize::<String>().map_err(|e| e.to_string())
}

/// The body of a message read as a string and a `u32`; `None` when it has
/// another shape.
pub uninterp spec fn body_string_u32_of(msg: Message) -> Option<(Seq<char>, u32)>;

/// The body of `msg` read as `(String, u32)` (`Body::deserialize`), or the
/// error's text: a function of the message alone, named
/// `body_string_u32_of`. Nothing is claimed of the error's text.
#[verifier::external_body]
fn body_string_u32(msg: &Message) -> (r: Result<(String, u32), String>)
    ensures
        r matches Ok((a, n)) ==> body_string_u32_of(*msg) == Some((a@, n)),
        r is Err ==> body_string_u32_of(*msg) is None,
{
    msg.body().deserialize::<(String, u32)>().map_err(|e| e.to_string())
}

/// The body of a message read as a single `u32`; `None` when it has another
/// shape.
pub uninterp spec fn body_u32_of(msg: Message) -> Option<u32>;

/// The body of `msg` read as a single `u32` (`Body::deserialize`), or the
/// error's text: a function of the message alone, named `body_u32_of`.
/// Nothing is claimed of the error's text.
#[verifier::external_body]
fn body_u32(msg: &Message) -> (r: Result<u32, String>)
    ensures
        r matches Ok(n) ==> body_u32_of(*msg) == Some(n),
        r is Err ==> body_u32_of(*msg) is None,
{
    msg.body().deserialize::<u32>().map_err(|e| e.to_string())
}

/// The encoded bytes of a message.
pub uninterp spec fn encoding_of(msg: Message) -> Seq<u8>;

/// The encoded bytes of `msg` (`Message::data`): a function of the message
/// alone, named `encoding_of`. They hold at least the 16-byte fixed header,
/// which every message starts with.
#[verifier::external_body]
fn encoded_bytes(msg: &Message) -> (r: Vec<u8>)
    ensures
        r@ == encoding_of(*msg),
        r@.len() >= 16,
{
    msg.data().bytes().to_vec()
}

/// Whether an optional text is present and equal to `s`.
pub fn opt_str_is(o: &Option<String>, s: &str) -> (r: bool)
    ensures
        r == (opt_view(*o) == Some(s@)),
{
    match o {
        Some(v) => str_eq(v.as_str(), s),
        None => false,
    }
}

/// Whether a message is addressed to the message bus itself.
pub open spec fn spec_is_daemon_call(m: MessageModel) -> bool {
    m.destination == Some(DBUS_NAME@)
}

/// Whether a message is the bus's NameOwnerChanged signal.
pub open spec fn spec_is_name_owner_changed(m: MessageModel) -> bool {
    &&& m.msg_type == MessageType::Signal
    &&& m.interface == Some(DBUS_NAME@)
    &&& m.member == Some(NAME_OWNER_CHANGED@)
}

impl MessageFields {
    /// Whether the message is addressed to the message bus itself.
    pub fn is_dbus_daemon_call(&self) -> (r: bool)
        ensures
            r == spec_is_daemon_call(self@),
    {
        opt_str_is(&self.destination, DBUS_NAME)
    }

    /// Whether the message is the bus's NameOwnerChanged signal.
    pub fn is_name_owner_changed(&self) -> (r: bool)
        ensures
            r == spec_is_name_owner_changed(self@),
    {
        self.msg_type == MessageType::Signal && opt_str_is(&self.interface, DBUS_NAME)
            && opt_str_is(&self.member, NAME_OWNER_CHANGED)
    }
}

/// The parts of a message that routing and match rules look at.
pub open spec fn model_of(msg: Message) -> MessageModel {
    MessageModel {
        msg_type: message_type_of(msg),
        sender: sender_of(msg),
        interface: interface_of(msg),
        member: member_of(msg),
        path: path_of(msg),
        destination: destination_of(msg),
        args: match body_fields_of(msg) {
            Some(f) => Some(body_args_of(f)),
            None => None,
        },
    }
}

/// The parts of `msg` that routing and match rules look at, read once.
pub fn message_fields(msg: &Message) -> (r: MessageFields)
    ensures
        r@ == model_of(*msg),
{
    MessageFields {
        msg_type: primary_message_type(msg),
        sender: header_sender(msg),
        interface: header_interface(msg),
        member: header_member(msg),
        path: header_path(msg),
        destination: header_destination(msg),
        args: match body_fields(msg) {
            Some(f) => Some(body_arguments(&f)),
            None => None,
        },
    }
}

/// Reading what a message holds.
pub trait MessageExt {
    /// Get the destination of the message.
    fn destination_str(&self) -> Option<String>;

    /// Get the sender of the message.
    fn sender_str(&self) -> Option<String>;

    /// Get the interface of the message.
    fn interface_str(&self) -> Option<String>;

    /// Get the member (method/signal name) of the message.
    fn member_str(&self) -> Option<String>;

    /// Get the path of the message.
    fn path_str(&self) -> Option<String>;

    /// Get the serial number of the message; never zero.
    fn serial(&self) -> (r: u32)
        ensures
            r != 0;

    /// Get the reply serial of the message (for replies); never zero.
    fn reply_serial(&self) -> (r: Option<u32>)
        ensures
            r matches Some(n) ==> n != 0;

    /// Check if this is a method call.
    fn is_method_call(&self) -> bool;

    /// Check if this is a method return.
    fn is_method_return(&self) -> bool;

    /// Check if this is an error reply.
    fn is_error(&self) -> bool;

    /// Check if this is a signal.
    fn is_signal(&self) -> bool;

    /// Check if this message is addressed to the D-Bus daemon itself.
    fn is_dbus_daemon_call(&self) -> bool;

    /// Check if this is a NameOwnerChanged signal.
    fn is_name_owner_changed(&self) -> bool;
}

impl MessageExt for Message {
    fn destination_str(&self) -> (r: Option<String>)
        ensures
            opt_view(r) == destination_of(*self),
    {
        header_destination(self)
    }

    fn sender_str(&self) -> (r: Option<String>)
        ensures
            opt_view(r) == sender_of(*self),
    {
        header_sender(self)
    }

    fn interface_str(&self) -> (r: Option<String>)
        ensures
            opt_view(r) == interface_of(*self),
    {
        header_interface(self)
    }

    fn member_str(&self) -> (r: Option<String>)
        ensures
            opt_view(r) == member_of(*self),
    {
        header_member(self)
    }

    fn path_str(&self) -> (r: Option<String>)
        ensures
            opt_view(r) == path_of(*self),
    {
        header_path(self)
    }

    fn serial(&self) -> (r: u32)
        ensures
            r == serial_of(*self),
    {
        primary_serial(self)
    }

    fn reply_serial(&self) -> (r: Option<u32>)
        ensures
            r == reply_serial_of(*self),
    {
        header_reply_serial(self)
    }

    fn is_method_call(&self) -> (r: bool)
        ensures
            r == (message_type_of(*self) == MessageType::MethodCall),
    {
        primary_message_type(self) == MessageType::MethodCall
    }

    fn is_method_return(&self) -> (r: bool)
        ensures
            r == (message_type_of(*self) == MessageType::MethodReturn),
    {
        primary_message_type(self) == MessageType::MethodReturn
    }

    fn is_error(&self) -> (r: bool)
        ensures
            r == (message_type_of(*self) == MessageType::Error),
    {
        primary_message_type(self) == MessageType::Error
    }

    fn is_signal(&self) -> (r: bool)
        ensures
            r == (message_type_of(*self) == MessageType::Signal),
    {
        primary_message_type(self) == MessageType::Signal
    }

    fn is_dbus_daemon_call(&self) -> (r: bool)
        ensures
            r == spec_is_daemon_call(model_of(*self)),
    {
        opt_str_is(&header_destination(self), DBUS_NAME)
    }

    fn is_name_owner_changed(&self) -> (r: bool)
        ensures
            r == spec_is_name_owner_changed(model_of(*self)),
    {
        self.is_signal() && opt_str_is(&header_interface(self), DBUS_NAME)
            && opt_str_is(&header_member(self), NAME_OWNER_CHANGED)
    }
}

impl MessageExt for Arc<Message> {
    fn destination_str(&self) -> (r: Option<String>)
        ensures
            opt_view(r) == destination_of(**self),
    {
        (**self).destination_str()
    }

    fn sender_str(&self) -> (r: Option<String>)
        ensures
            opt_view(r) == sender_of(**self),
    {
        (**self).sender_str()
    }

    fn interface_str(&self) -> (r: Option<String>)
        ensures
            opt_view(r) == interface_of(**self),
    {
        (**self).interface_str()
    }

    fn member_str(&self) -> (r: Option<String>)
        ensures
            opt_view(r) == member_of(**self),
    {
        (**self).member_str()
    }

    fn path_str(&self) -> (r: Option<String>)
        ensures
            opt_view(r) == path_of(**self),
    {
        (**self).path_str()
    }

    fn serial(&self) -> (r: u32)
        ensures
            r == serial_of(**self),
    {
        (**self).serial()
    }

    fn reply_serial(&self) -> (r: Option<u32>)
        ensures
            r == reply_serial_of(**self),
    {
        (**self).reply_serial()
    }

    fn is_method_call(&self) -> (r: bool)
        ensures
            r == (message_type_of(**self) == MessageType::MethodCall),
    {
        (**self).is_method_call()
    }

    fn is_method_return(&self) -> (r: bool)
        ensures
            r == (message_type_of(**self) == MessageType::MethodReturn),
    {
        (**self).is_method_return()
    }

    fn is_error(&self) -> (r: bool)
        ensures
            r == (message_type_of(**self) == MessageType::Error),
    {
        (**self).is_error()
    }

    fn is_signal(&self) -> (r: bool)
        ensures
            r == (message_type_of(**self) == MessageType::Signal),
    {
        (**self).is_signal()
    }

    fn is_dbus_daemon_call(&self) -> (r: bool)
        ensures
            r == spec_is_daemon_call(model_of(**self)),
    {
        (**self).is_dbus_daemon_call()
    }

    fn is_name_owner_changed(&self) -> (r: bool)
        ensures
            r == spec_is_name_owner_changed(model_of(**self)),
    {
        (**self).is_name_owner_changed()
    }
}

/// Parse a NameOwnerChanged signal body.
///
/// Returns (name, old_owner, new_owner). Empty strings indicate the name was
/// acquired (old_owner empty) or released (new_owner empty). A body of
/// another shape is reported as `DeserializeFailed`.
pub fn parse_name_owner_changed(msg: &Message) -> (r: Result<(String, String, String), MessageError>)
    ensures
        r is Ok <==> body_three_strings_of(*msg) is Some,
        r matches Ok((a, b, c)) ==> body_three_strings_of(*msg) == Some((a@, b@, c@)),
        r matches Err(e) ==> e matches MessageError::DeserializeFailed(_),
{
    match body_three_strings(msg) {
        Ok(t) => Ok(t),
        Err(e) => Err(MessageError::DeserializeFailed(e)),
    }
}

/// The single string argument of a method call (the name or rule that most
/// bus methods take); a body of another shape is `DeserializeFailed`.
pub fn string_arg(msg: &Message) -> (r: Result<String, MessageError>)
    ensures
        r is Ok <==> body_string_of(*msg) is Some,
        r matches Ok(a) ==> body_string_of(*msg) == Some(a@),
        r matches Err(e) ==> e matches MessageError::DeserializeFailed(_),
{
    match body_string(msg) {
        Ok(s) => Ok(s),
        Err(e) => Err(MessageError::DeserializeFailed(e)),
    }
}

/// The `(name, flags)` arguments of a RequestName call; a body of another
/// shape is `DeserializeFailed`.
pub fn string_u32_args(msg: &Message) -> (r: Result<(String, u32), MessageError>)
    ensures
        r is Ok <==> body_string_u32_of(*msg) is Some,
        r matches Ok((a, n)) ==> body_string_u32_of(*msg) == Some((a@, n)),
        r matches Err(e) ==> e matches MessageError::DeserializeFailed(_),
{
    match body_string_u32(msg) {
        Ok(t) => Ok(t),
        Err(e) => Err(MessageError::DeserializeFailed(e)),
    }
}

/// The reply code of a RequestName or ReleaseName reply from the bus; 0 when
/// the body is not a single `u32`.
pub fn reply_code(msg: &Message) -> (r: u32)
    ensures
        r == (match body_u32_of(*msg) {
            Some(c) => c,
            None => 0,
        }),
{
    match body_u32(msg) {
        Ok(c) => c,
        Err(_) => 0,
    }
}


/// The bytes of `n`, least significant first.
pub open spec fn le_bytes(n: u32) -> Seq<u8> {
    seq![(n % 256) as u8, (n / 256 % 256) as u8, (n / 65536 % 256) as u8, (n / 16777216) as u8]
}

/// The bytes of `n`, most significant first.
pub open spec fn be_bytes(n: u32) -> Seq<u8> {
    seq![(n / 16777216) as u8, (n / 65536 % 256) as u8, (n / 256 % 256) as u8, (n % 256) as u8]
}

/// The encoded message `b` with its serial (bytes 8..12, in the message's
/// byte order) set to `serial`.
pub open spec fn spec_with_serial(b: Seq<u8>, serial: u32) -> Seq<u8> {
    let sb = if is_little(b) { le_bytes(serial) } else { be_bytes(serial) };
    b.take(8) + sb + b.skip(12)
}

/// A serial given for a message: serial 0 is not a valid D-Bus serial and is
/// refused, any other is handed back.
pub fn check_serial(serial: u32) -> (r: Result<u32, MessageError>)
    ensures
        r is Ok <==> serial != 0,
        r matches Ok(s) ==> s == serial,
        r matches Err(e) ==> e is InvalidSerial,
{
    if serial == 0 {
        Err(MessageError::InvalidSerial)
    } else {
        Ok(serial)
    }
}

/// Set the serial of the encoded message `bytes`. Serial 0 is not a valid
/// D-Bus serial and is refused.
pub fn with_serial(bytes: Vec<u8>, serial: u32) -> (r: Result<Vec<u8>, MessageError>)
    requires
        bytes@.len() >= 12,
    ensures
        match r {
            Ok(v) => serial != 0 && v@ == spec_with_serial(bytes@, serial),
            Err(e) => serial == 0 && e is InvalidSerial,
        },
{
    let serial = match check_serial(serial) {
        Ok(s) => s,
        Err(e) => return Err(e),
    };
    let mut v = bytes;
    let little = v[0] == 108u8;
    let b0 = (serial % 256) as u8;
    let b1 = (serial / 256 % 256) as u8;
    let b2 = (serial / 65536 % 256) as u8;
    let b3 = (serial / 16777216) as u8;
    if little {
        v.set(8, b0);
        v.set(9, b1);
        v.set(10, b2);
        v.set(11, b3);
    } else {
        v.set(8, b3);
        v.set(9, b2);
        v.set(10, b1);
        v.set(11, b0);
    }
    assert(v@ =~= spec_with_serial(bytes@, serial));
    Ok(v)
}

/// The serial written into an encoded message reads back as that serial,
/// and the rest of the message is unchanged.
pub proof fn lemma_with_serial_reads_back(b: Seq<u8>, serial: u32)
    requires
        b.len() >= 16,
    ensures
        spec_with_serial(b, serial).len() == b.len(),
        spec_read_u32(spec_with_serial(b, serial), 8, is_little(b)) == serial,
        forall|i: int| 0 <= i < b.len() && !(8 <= i < 12) ==> #[trigger] spec_with_serial(b, serial)[i] == b[i],
{
    let n = serial as int;
    assert(n == n % 256 + (n / 256 % 256) * 256 + (n / 65536 % 256) * 65536 + (n / 16777216) * 16777216) by (nonlinear_arith)
        requires
            0 <= n < 4294967296,
    {
        assert(n == 256 * (n / 256) + n % 256);
        assert(n / 256 == 256 * (n / 65536) + n / 256 % 256);
        assert(n / 65536 == 256 * (n / 16777216) + n / 65536 % 256);
    }
}

/// The encoded bytes of `msg` (`encoding_of`) with the serial set to
/// `serial`; serial 0 is refused. Only the serial field of the bytes is
/// changed.
pub fn message_bytes_with_serial(msg: &Message, serial: u32) -> (r: Result<Vec<u8>, MessageError>)
    ensures
        r is Ok <==> serial != 0,
        r matches Err(e) ==> e is InvalidSerial,
        r matches Ok(v) ==> encoding_of(*msg).len() >= 16 && v@ == spec_with_serial(encoding_of(*msg), serial),
{
    let bytes = encoded_bytes(msg);
    let ghost b = bytes@;
    let r = with_serial(bytes, serial);
    assert(r matches Ok(v) ==> v@ == spec_with_serial(b, serial));
    r
}

} // verus!
