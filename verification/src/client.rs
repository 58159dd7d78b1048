//! The message-bus client: an ordered outgoing queue, call/reply
//! correlation by serial, signal dispatch by match rule, exported-object
//! dispatch, and a terminal kill.
//!
//! The client is a state machine. The unverified edge owns the actual
//! callbacks and registers each under a numeric callback id; every
//! operation returns the actions (callback invocations, reply tokens)
//! that the edge must perform. Messages placed into `outgoing` leave on
//! the wire in queue order; inbound messages are handed to [`Client::dispatch`]
//! one at a time, in wire order.

use vstd::prelude::*;
use vstd::pervasive::VecAdditionalExecFns;

use crate::msg::{Body, BodyV, BusMessage, BusMessageV, MatchRule, MatchRuleV, MsgHeader,
    MsgHeaderV, MsgKind, PropValue, PropValueV};
use crate::strutil::str_eq;

verus! {

/// An entry of the pending-replies table: an outgoing serial still awaiting
/// its reply, and the callback to hand that reply to.
#[derive(Copy, Clone, Debug, PartialEq, Eq, Structural)]
pub struct PendingEntry {
    pub serial: u32,
    pub callback: u64,
}

/// An entry of the signal-handler table, in registration order.
#[derive(Clone, Debug, PartialEq, Eq)]
pub struct HandlerEntry {
    pub id: u64,
    pub rule: MatchRule,
    pub callback: u64,
}

/// The view of a [`HandlerEntry`].
#[verifier::ext_equal]
pub struct HandlerEntryV {
    pub id: u64,
    pub rule: MatchRuleV,
    pub callback: u64,
}

impl View for HandlerEntry {
    type V = HandlerEntryV;

    open spec fn view(&self) -> HandlerEntryV {
        HandlerEntryV { id: self.id, rule: self.rule@, callback: self.callback }
    }
}

impl DeepView for HandlerEntry {
    type V = HandlerEntryV;

    open spec fn deep_view(&self) -> HandlerEntryV {
        self@
    }
}

/// A method handler of an exported object.
#[derive(Clone, Debug, PartialEq, Eq)]
pub struct MethodEntry {
    pub interface: String,
    pub member: String,
    pub callback: u64,
}

/// The view of a [`MethodEntry`].
#[verifier::ext_equal]
pub struct MethodEntryV {
    pub interface: Seq<char>,
    pub member: Seq<char>,
    pub callback: u64,
}

impl View for MethodEntry {
    type V = MethodEntryV;

    open spec fn view(&self) -> MethodEntryV {
        MethodEntryV { interface: self.interface@, member: self.member@, callback: self.callback }
    }
}

impl DeepView for MethodEntry {
    type V = MethodEntryV;

    open spec fn deep_view(&self) -> MethodEntryV {
        self@
    }
}

/// A property of an exported object.
#[derive(Clone, Debug, PartialEq, Eq)]
pub struct PropertyEntry {
    pub interface: String,
    pub member: String,
    pub value: PropValue,
}

/// The view of a [`PropertyEntry`].
#[verifier::ext_equal]
pub struct PropertyEntryV {
    pub interface: Seq<char>,
    pub member: Seq<char>,
    pub value: PropValueV,
}

impl View for PropertyEntry {
    type V = PropertyEntryV;

    open spec fn view(&self) -> PropertyEntryV {
        PropertyEntryV { interface: self.interface@, member: self.member@, value: self.value@ }
    }
}

impl DeepView for PropertyEntry {
    type V = PropertyEntryV;

    open spec fn deep_view(&self) -> PropertyEntryV {
        self@
    }
}

/// An exported object: its path, a reference count of live handles, its
/// method handlers and its property table.
#[derive(Clone, Debug, PartialEq, Eq)]
pub struct ObjectEntry {
    pub path: String,
    pub refs: u64,
    pub methods: Vec<MethodEntry>,
    pub properties: Vec<PropertyEntry>,
}

/// The view of an [`ObjectEntry`].
#[verifier::ext_equal]
pub struct ObjectEntryV {
    pub path: Seq<char>,
    pub refs: u64,
    pub methods: Seq<MethodEntryV>,
    pub properties: Seq<PropertyEntryV>,
}

impl View for ObjectEntry {
    type V = ObjectEntryV;

    open spec fn view(&self) -> ObjectEntryV {
        ObjectEntryV {
            path: self.path@,
            refs: self.refs,
            methods: self.methods.deep_view(),
            properties: self.properties.deep_view(),
        }
    }
}

impl DeepView for ObjectEntry {
    type V = ObjectEntryV;

    open spec fn deep_view(&self) -> ObjectEntryV {
        self@
    }
}

/// The error taxonomy surfaced to callers.
#[derive(Clone, Debug, PartialEq, Eq)]
pub enum BusError {
    /// The connection is no longer usable.
    Killed,
    /// The underlying write failed.
    Send,
    /// The peer sent an error message with no error name.
    NoErrorName,
    /// The peer's error body did not decode as a string.
    NoErrorBody,
    /// The peer returned a normal bus error: name and text.
    ErrorReply(String, String),
    /// A reply body did not match the expected signature.
    Deserialize,
    /// A property value could not be converted to the requested type.
    MapProperty,
}

/// The view of a [`BusError`].
#[verifier::ext_equal]
pub enum BusErrorV {
    Killed,
    Send,
    NoErrorName,
    NoErrorBody,
    ErrorReply(Seq<char>, Seq<char>),
    Deserialize,
    MapProperty,
}

impl View for BusError {
    type V = BusErrorV;

    open spec fn view(&self) -> BusErrorV {
        match self {
            BusError::Killed => BusErrorV::Killed,
            BusError::Send => BusErrorV::Send,
            BusError::NoErrorName => BusErrorV::NoErrorName,
            BusError::NoErrorBody => BusErrorV::NoErrorBody,
            BusError::ErrorReply(n, t) => BusErrorV::ErrorReply(n@, t@),
            BusError::Deserialize => BusErrorV::Deserialize,
            BusError::MapProperty => BusErrorV::MapProperty,
        }
    }
}

/// A token permitting one reply to an inbound method call.
#[derive(Clone, Debug, PartialEq, Eq)]
pub struct ReplyToken {
    /// The serial of the inbound call, used as the reply's reply-serial.
    pub serial: u32,
    /// The caller, used as the reply's destination.
    pub sender: Option<String>,
    /// Whether the caller asked for no reply.
    pub no_reply_expected: bool,
}

/// The view of a [`ReplyToken`].
#[verifier::ext_equal]
pub struct ReplyTokenV {
    pub serial: u32,
    pub sender: Option<Seq<char>>,
    pub no_reply_expected: bool,
}

impl View for ReplyToken {
    type V = ReplyTokenV;

    open spec fn view(&self) -> ReplyTokenV {
        ReplyTokenV {
            serial: self.serial,
            sender: self.sender.deep_view(),
            no_reply_expected: self.no_reply_expected,
        }
    }
}

/// One callback invocation owed to the unverified edge.
#[derive(Debug, PartialEq, Eq)]
pub enum Action {
    /// Invoke a reply callback with the peer's reply or an error.
    InvokeReply { callback: u64, result: Result<BusMessage, BusError> },
    /// Invoke a signal handler callback with the dispatched message.
    InvokeSignal { callback: u64 },
    /// Invoke a method handler with a one-shot reply token.
    InvokeMethod { callback: u64, token: ReplyToken },
}

/// The view of an [`Action`].
#[verifier::ext_equal]
pub enum ActionV {
    InvokeReply { callback: u64, result: Result<BusMessageV, BusErrorV> },
    InvokeSignal { callback: u64 },
    InvokeMethod { callback: u64, token: ReplyTokenV },
}

impl View for Action {
    type V = ActionV;

    open spec fn view(&self) -> ActionV {
        match self {
            Action::InvokeReply { callback, result } => ActionV::InvokeReply {
                callback: *callback,
                result: match result {
                    Ok(m) => Ok(m@),
                    Err(e) => Err(e@),
                },
            },
            Action::InvokeSignal { callback } => ActionV::InvokeSignal { callback: *callback },
            Action::InvokeMethod { callback, token } => ActionV::InvokeMethod {
                callback: *callback,
                token: token@,
            },
        }
    }
}

impl DeepView for Action {
    type V = ActionV;

    open spec fn deep_view(&self) -> ActionV {
        self@
    }
}

/// A scoped handle for a pending call. Dropping it through
/// [`Client::drop_call`] discards the reply; [`CallHandle::detach`]
/// keeps the callback alive instead.
#[derive(Clone, Debug, PartialEq, Eq, Structural)]
pub struct CallHandle {
    pub serial: u32,
    pub detached: bool,
}

impl CallHandle {
    /// After detaching, dropping the handle no longer cancels the call.
    pub fn detach(&mut self)
        ensures
            final(self).serial == old(self).serial,
            final(self).detached,
    {
        self.detached = true;
    }
}

/// A scoped handle for an installed signal handler.
#[derive(Clone, Debug, PartialEq, Eq)]
pub struct SignalHandlerHandle {
    pub id: u64,
    /// The rule, replayed in `RemoveMatch` on drop.
    pub rule: MatchRule,
    pub detached: bool,
}

impl SignalHandlerHandle {
    /// After detaching, dropping the handle no longer uninstalls the handler.
    pub fn detach(&mut self)
        ensures
            final(self).id == old(self).id,
            final(self).rule@ == old(self).rule@,
            final(self).detached,
    {
        self.detached = true;
    }
}

/// A scoped handle for an exported object.
#[derive(Clone, Debug, PartialEq, Eq)]
pub struct ObjectHandle {
    pub path: String,
}

/// The client state.
pub struct Client {
    /// Terminal flag: once set, nothing further reaches the wire.
    pub killed: bool,
    /// The serial the next outgoing message will carry.
    pub next_serial: u32,
    /// The id the next registered signal handler will get.
    pub next_handler_id: u64,
    /// Outgoing serials still awaiting replies.
    pub pending: Vec<PendingEntry>,
    /// Signal handlers, in registration order.
    pub handlers: Vec<HandlerEntry>,
    /// Exported objects.
    pub objects: Vec<ObjectEntry>,
    /// The outgoing FIFO; the wire sees exactly this order.
    pub outgoing: Vec<BusMessage>,
}

/// The view of a [`Client`].
#[verifier::ext_equal]
pub struct ClientV {
    pub killed: bool,
    pub next_serial: u32,
    pub next_handler_id: u64,
    pub pending: Seq<PendingEntry>,
    pub handlers: Seq<HandlerEntryV>,
    pub objects: Seq<ObjectEntryV>,
    pub outgoing: Seq<BusMessageV>,
}

impl View for Client {
    type V = ClientV;

    open spec fn view(&self) -> ClientV {
        ClientV {
            killed: self.killed,
            next_serial: self.next_serial,
            next_handler_id: self.next_handler_id,
            pending: self.pending@,
            handlers: self.handlers.deep_view(),
            objects: self.objects.deep_view(),
            outgoing: self.outgoing.deep_view(),
        }
    }
}

impl DeepView for BusMessage {
    type V = BusMessageV;

    open spec fn deep_view(&self) -> BusMessageV {
        self@
    }
}

impl ClientV {
    /// Whether a serial is present in the pending-replies table.
    pub open spec fn pending_has(self, serial: u32) -> bool {
        exists|i: int| 0 <= i < self.pending.len() && self.pending[i].serial == serial
    }

    /// The callbacks registered in the pending-replies table.
    pub open spec fn pending_callbacks(self) -> Seq<u64> {
        self.pending.map_values(|e: PendingEntry| e.callback)
    }

    /// Whether a callback id is registered in the pending-replies table.
    pub open spec fn has_pending_callback(self, cb: u64) -> bool {
        exists|i: int| 0 <= i < self.pending.len() && self.pending[i].callback == cb
    }

    /// Basic well-formedness: serials are unique and below the counter.
    pub open spec fn wf(self) -> bool {
        &&& 1 <= self.next_serial
        &&& forall|i: int| 0 <= i < self.pending.len() ==> 1 <= (#[trigger] self.pending[i]).serial
            < self.next_serial
        &&& forall|i: int, j: int|
            0 <= i < j < self.pending.len() ==> self.pending[i].serial != self.pending[j].serial
    }
}

/// The pending table with every entry for `serial` removed.
pub open spec fn remove_serial(p: Seq<PendingEntry>, serial: u32) -> Seq<PendingEntry> {
    p.filter(|e: PendingEntry| e.serial != serial)
}

/// The first pending entry for `serial`, if any.
pub open spec fn find_serial(p: Seq<PendingEntry>, serial: u32) -> Option<PendingEntry>
    decreases p.len(),
{
    if p.len() == 0 {
        Option::None
    } else if p[0].serial == serial {
        Option::Some(p[0])
    } else {
        find_serial(p.drop_first(), serial)
    }
}

/// A method-call message as the client builds it.
pub open spec fn method_call_v(
    serial: u32,
    destination: Seq<char>,
    interface: Seq<char>,
    path: Seq<char>,
    member: Seq<char>,
    body: BodyV,
    no_reply_expected: bool,
) -> BusMessageV {
    BusMessageV {
        header: MsgHeaderV {
            kind: MsgKind::MethodCall,
            serial,
            sender: Option::None,
            destination: Option::Some(destination),
            path: Option::Some(path),
            interface: Option::Some(interface),
            member: Option::Some(member),
            error_name: Option::None,
            reply_serial: Option::None,
            no_reply_expected,
        },
        body,
    }
}

/// A signal message as the client builds it.
pub open spec fn signal_v(
    serial: u32,
    interface: Seq<char>,
    path: Seq<char>,
    member: Seq<char>,
    body: BodyV,
) -> BusMessageV {
    BusMessageV {
        header: MsgHeaderV {
            kind: MsgKind::Signal,
            serial,
            sender: Option::None,
            destination: Option::None,
            path: Option::Some(path),
            interface: Option::Some(interface),
            member: Option::Some(member),
            error_name: Option::None,
            reply_serial: Option::None,
            no_reply_expected: false,
        },
        body,
    }
}

/// A successful method reply as the client builds it.
pub open spec fn method_reply_v(
    serial: u32,
    reply_to: u32,
    destination: Option<Seq<char>>,
    body: BodyV,
) -> BusMessageV {
    BusMessageV {
        header: MsgHeaderV {
            kind: MsgKind::MethodReturn,
            serial,
            sender: Option::None,
            destination,
            path: Option::None,
            interface: Option::None,
            member: Option::None,
            error_name: Option::None,
            reply_serial: Option::Some(reply_to),
            no_reply_expected: false,
        },
        body: body,
    }
}

/// An error reply as the client builds it: the fixed error name with a
/// single descriptive string.
pub open spec fn error_reply_v(
    serial: u32,
    reply_to: u32,
    destination: Option<Seq<char>>,
    text: Seq<char>,
) -> BusMessageV {
    BusMessageV {
        header: MsgHeaderV {
            kind: MsgKind::Error,
            serial,
            sender: Option::None,
            destination,
            path: Option::None,
            interface: Option::None,
            member: Option::None,
            error_name: Option::Some("Bussy.Unspecified"@),
            reply_serial: Option::Some(reply_to),
            no_reply_expected: false,
        },
        body: BodyV::Str(text),
    }
}

impl Client {
    /// A fresh, live client.
    pub fn new() -> (c: Client)
        ensures
            c@.killed == false,
            c@.next_serial == 1,
            c@.next_handler_id == 0,
            c@.pending == Seq::<PendingEntry>::empty(),
            c@.handlers == Seq::<HandlerEntryV>::empty(),
            c@.objects == Seq::<ObjectEntryV>::empty(),
            c@.outgoing == Seq::<BusMessageV>::empty(),
            c@.wf(),
    {
        let c = Client {
            killed: false,
            next_serial: 1,
            next_handler_id: 0,
            pending: Vec::new(),
            handlers: Vec::new(),
            objects: Vec::new(),
            outgoing: Vec::new(),
        };
        proof {
            assert(c@.pending =~= Seq::<PendingEntry>::empty());
            assert(c@.handlers =~= Seq::<HandlerEntryV>::empty());
            assert(c@.objects =~= Seq::<ObjectEntryV>::empty());
            assert(c@.outgoing =~= Seq::<BusMessageV>::empty());
        }
        c
    }

    /// Appends a message to the outgoing FIFO unless the client is killed,
    /// consuming a serial either way.
    fn enqueue(&mut self, msg: BusMessage)
        requires
            old(self).next_serial < u32::MAX,
            msg@.header.serial == old(self)@.next_serial,
        ensures
            final(self)@.killed == old(self)@.killed,
            final(self)@.next_serial == old(self)@.next_serial + 1,
            final(self)@.next_handler_id == old(self)@.next_handler_id,
            final(self)@.pending == old(self)@.pending,
            final(self)@.handlers == old(self)@.handlers,
            final(self)@.objects == old(self)@.objects,
            final(self)@.outgoing == if old(self)@.killed {
                old(self)@.outgoing
            } else {
                old(self)@.outgoing.push(msg@)
            },
    {
        if !self.killed {
            self.outgoing.push(msg);
            proof {
                assert(self.outgoing.deep_view() =~= old(self).outgoing.deep_view().push(msg@));
            }
        }
        self.next_serial = self.next_serial + 1;
    }

    /// Sends a signal: the message enters the outgoing FIFO at once.
    pub fn send_signal(&mut self, interface: String, path: String, member: String, body: Body)
        requires
            old(self).next_serial < u32::MAX,
        ensures
            final(self)@.killed == old(self)@.killed,
            final(self)@.next_serial == old(self)@.next_serial + 1,
            final(self)@.next_handler_id == old(self)@.next_handler_id,
            final(self)@.pending == old(self)@.pending,
            final(self)@.handlers == old(self)@.handlers,
            final(self)@.objects == old(self)@.objects,
            final(self)@.outgoing == if old(self)@.killed {
                old(self)@.outgoing
            } else {
                old(self)@.outgoing.push(
                    signal_v(old(self)@.next_serial, interface@, path@, member@, body@),
                )
            },
            old(self)@.wf() ==> final(self)@.wf(),
    {
        let serial = self.next_serial;
        let msg = BusMessage {
            header: MsgHeader {
                kind: MsgKind::Signal,
                serial,
                sender: None,
                destination: None,
                path: Some(path),
                interface: Some(interface),
                member: Some(member),
                error_name: None,
                reply_serial: None,
                no_reply_expected: false,
            },
            body,
        };
        self.enqueue(msg);
    }

    /// Calls a method without expecting a reply: the `NoReplyExpected`
    /// flag is set and no pending-reply entry is created.
    pub fn call_no_reply(
        &mut self,
        destination: String,
        interface: String,
        path: String,
        member: String,
        body: Body,
    )
        requires
            old(self).next_serial < u32::MAX,
        ensures
            final(self)@.killed == old(self)@.killed,
            final(self)@.next_serial == old(self)@.next_serial + 1,
            final(self)@.next_handler_id == old(self)@.next_handler_id,
            final(self)@.pending == old(self)@.pending,
            final(self)@.handlers == old(self)@.handlers,
            final(self)@.objects == old(self)@.objects,
            final(self)@.outgoing == if old(self)@.killed {
                old(self)@.outgoing
            } else {
                old(self)@.outgoing.push(
                    method_call_v(
                        old(self)@.next_serial,
                        destination@,
                        interface@,
                        path@,
                        member@,
                        body@,
                        true,
                    ),
                )
            },
            old(self)@.wf() ==> final(self)@.wf(),
    {
        let serial = self.next_serial;
        let msg = BusMessage {
            header: MsgHeader {
                kind: MsgKind::MethodCall,
                serial,
                sender: None,
                destination: Some(destination),
                path: Some(path),
                interface: Some(interface),
                member: Some(member),
                error_name: None,
                reply_serial: None,
                no_reply_expected: true,
            },
            body,
        };
        self.enqueue(msg);
    }

    /// Calls a method and registers `callback` for its reply. The message
    /// enters the outgoing FIFO before the function returns; the returned
    /// handle scopes the interest in the reply. On a killed client the
    /// callback is owed a `Killed` error instead, returned as an action.
    pub fn call_async(
        &mut self,
        destination: String,
        interface: String,
        path: String,
        member: String,
        body: Body,
        callback: u64,
    ) -> (r: (CallHandle, Option<Action>))
        requires
            old(self).next_serial < u32::MAX,
        ensures
            r.0.serial == old(self)@.next_serial,
            r.0.detached == false,
            final(self)@.killed == old(self)@.killed,
            final(self)@.next_serial == old(self)@.next_serial + 1,
            final(self)@.next_handler_id == old(self)@.next_handler_id,
            final(self)@.handlers == old(self)@.handlers,
            final(self)@.objects == old(self)@.objects,
            old(self)@.killed ==> {
                &&& final(self)@.pending == old(self)@.pending
                &&& final(self)@.outgoing == old(self)@.outgoing
                &&& r.1 matches Some(a) && a@ == (ActionV::InvokeReply {
                    callback,
                    result: Err::<BusMessageV, BusErrorV>(BusErrorV::Killed),
                })
            },
            !old(self)@.killed ==> {
                &&& final(self)@.pending == old(self)@.pending.push(
                    PendingEntry { serial: old(self)@.next_serial, callback },
                )
                &&& final(self)@.outgoing == old(self)@.outgoing.push(
                    method_call_v(
                        old(self)@.next_serial,
                        destination@,
                        interface@,
                        path@,
                        member@,
                        body@,
                        false,
                    ),
                )
                &&& r.1 is None
            },
            old(self)@.wf() ==> final(self)@.wf(),
    {
        let serial = self.next_serial;
        let msg = BusMessage {
            header: MsgHeader {
                kind: MsgKind::MethodCall,
                serial,
                sender: None,
                destination: Some(destination),
                path: Some(path),
                interface: Some(interface),
                member: Some(member),
                error_name: None,
                reply_serial: None,
                no_reply_expected: false,
            },
            body,
        };
        let handle = CallHandle { serial, detached: false };
        if self.killed {
            self.next_serial = self.next_serial + 1;
            let act = Action::InvokeReply { callback, result: Err(BusError::Killed) };
            (handle, Some(act))
        } else {
            self.pending.push(PendingEntry { serial, callback });
            self.enqueue(msg);
            proof {
                if old(self)@.wf() {
                    assert forall|i: int, j: int|
                        0 <= i < j < self@.pending.len() implies self@.pending[i].serial
                        != self@.pending[j].serial by {
                        assert(self@.pending[i] == if i < old(self)@.pending.len() {
                            old(self)@.pending[i]
                        } else {
                            PendingEntry { serial, callback }
                        });
                    }
                }
            }
            (handle, None)
        }
    }

    /// Retrieves a property: a `Get` call on the standard properties
    /// interface, with `callback` registered for the reply.
    pub fn get_property_async(
        &mut self,
        destination: String,
        interface: String,
        path: String,
        member: String,
        callback: u64,
    ) -> (r: (CallHandle, Option<Action>))
        requires
            old(self).next_serial < u32::MAX,
        ensures
            r.0.serial == old(self)@.next_serial,
            r.0.detached == false,
            final(self)@.killed == old(self)@.killed,
            final(self)@.next_serial == old(self)@.next_serial + 1,
            final(self)@.next_handler_id == old(self)@.next_handler_id,
            final(self)@.handlers == old(self)@.handlers,
            final(self)@.objects == old(self)@.objects,
            old(self)@.killed ==> {
                &&& final(self)@.pending == old(self)@.pending
                &&& final(self)@.outgoing == old(self)@.outgoing
                &&& r.1 matches Some(a) && a@ == (ActionV::InvokeReply {
                    callback,
                    result: Err::<BusMessageV, BusErrorV>(BusErrorV::Killed),
                })
            },
            !old(self)@.killed ==> {
                &&& final(self)@.pending == old(self)@.pending.push(
                    PendingEntry { serial: old(self)@.next_serial, callback },
                )
                &&& final(self)@.outgoing == old(self)@.outgoing.push(
                    method_call_v(
                        old(self)@.next_serial,
                        destination@,
                        "org.freedesktop.DBus.Properties"@,
                        path@,
                        "Get"@,
                        BodyV::StrPair(interface@, member@),
                        false,
                    ),
                )
                &&& r.1 is None
            },
            old(self)@.wf() ==> final(self)@.wf(),
    {
        let props = String::from_str("org.freedesktop.DBus.Properties");
        let get = String::from_str("Get");
        self.call_async(destination, props, path, get, Body::StrPair(interface, member), callback)
    }

    /// Requests a well-known name with flags 0, fire-and-forget.
    pub fn request_name(&mut self, name: String)
        requires
            old(self).next_serial < u32::MAX,
        ensures
            final(self)@.killed == old(self)@.killed,
            final(self)@.next_serial == old(self)@.next_serial + 1,
            final(self)@.next_handler_id == old(self)@.next_handler_id,
            final(self)@.pending == old(self)@.pending,
            final(self)@.handlers == old(self)@.handlers,
            final(self)@.objects == old(self)@.objects,
            final(self)@.outgoing == if old(self)@.killed {
                old(self)@.outgoing
            } else {
                old(self)@.outgoing.push(
                    method_call_v(
                        old(self)@.next_serial,
                        "org.freedesktop.DBus"@,
                        "org.freedesktop.DBus"@,
                        "/org/freedesktop/DBus"@,
                        "RequestName"@,
                        BodyV::NameFlags(name@, 0),
                        true,
                    ),
                )
            },
            old(self)@.wf() ==> final(self)@.wf(),
    {
        let dest = String::from_str("org.freedesktop.DBus");
        let iface = String::from_str("org.freedesktop.DBus");
        let path = String::from_str("/org/freedesktop/DBus");
        let member = String::from_str("RequestName");
        self.call_no_reply(dest, iface, path, member, Body::NameFlags(name, 0));
    }

    /// Releases a call handle. Unless the handle was detached, the
    /// pending-reply entry is removed and a late reply will be discarded.
    pub fn drop_call(&mut self, h: CallHandle)
        ensures
            final(self)@.killed == old(self)@.killed,
            final(self)@.next_serial == old(self)@.next_serial,
            final(self)@.next_handler_id == old(self)@.next_handler_id,
            final(self)@.handlers == old(self)@.handlers,
            final(self)@.objects == old(self)@.objects,
            final(self)@.outgoing == old(self)@.outgoing,
            final(self)@.pending == if h.detached {
                old(self)@.pending
            } else {
                remove_serial(old(self)@.pending, h.serial)
            },
            old(self)@.wf() ==> final(self)@.wf(),
    {
        if !h.detached {
            self.remove_pending(h.serial);
        }
    }

    /// Removes every pending entry carrying `serial`.
    fn remove_pending(&mut self, serial: u32)
        ensures
            final(self)@.killed == old(self)@.killed,
            final(self)@.next_serial == old(self)@.next_serial,
            final(self)@.next_handler_id == old(self)@.next_handler_id,
            final(self)@.handlers == old(self)@.handlers,
            final(self)@.objects == old(self)@.objects,
            final(self)@.outgoing == old(self)@.outgoing,
            final(self)@.pending == remove_serial(old(self)@.pending, serial),
            old(self)@.wf() ==> final(self)@.wf(),
    {
        let n = self.pending.len();
        let mut out: Vec<PendingEntry> = Vec::new();
        let mut i: usize = 0;
        while i < n
            invariant
                n == self.pending.len(),
                i <= n,
                out@ == remove_serial(self.pending@.take(i as int), serial),
            decreases n - i,
        {
            let e = self.pending[i];
            proof {
                assert(self.pending@.take(i + 1 as int).drop_last() =~= self.pending@.take(
                    i as int,
                ));
                assert(self.pending@.take(i + 1 as int).last() == self.pending@[i as int]);
                lemma_remove_serial_unfold(self.pending@.take(i + 1 as int), serial);
            }
            if e.serial != serial {
                out.push(e);
            }
            i = i + 1;
        }
        proof {
            assert(self.pending@.take(n as int) =~= self.pending@);
            lemma_remove_serial_subset(self.pending@, serial);
            if old(self)@.wf() {
                assert(self.pending@ == old(self)@.pending);
                assert(forall|k: int|
                    0 <= k < old(self)@.pending.len() ==> 1 <= (#[trigger] old(
                        self,
                    )@.pending[k]).serial < old(self)@.next_serial);
                lemma_remove_serial_wf(old(self)@.pending, serial, old(self)@.next_serial);
            }
        }
        self.pending = out;
    }

    /// Tears the client down: the terminal transition. Every pending
    /// entry is drained and its callback is owed exactly one `Killed`
    /// error, in table order; the handler and object tables are cleared.
    pub fn kill(&mut self) -> (failed: Vec<Action>)
        ensures
            final(self)@.killed == true,
            final(self)@.next_serial == old(self)@.next_serial,
            final(self)@.next_handler_id == old(self)@.next_handler_id,
            final(self)@.pending == Seq::<PendingEntry>::empty(),
            final(self)@.handlers == Seq::<HandlerEntryV>::empty(),
            final(self)@.objects == Seq::<ObjectEntryV>::empty(),
            final(self)@.outgoing == old(self)@.outgoing,
            failed.deep_view() == spec_kill_actions(old(self)@.pending),
            old(self)@.wf() ==> final(self)@.wf(),
    {
        self.killed = true;
        self.handlers.clear();
        self.objects.clear();
        let n = self.pending.len();
        let mut failed: Vec<Action> = Vec::new();
        let mut i: usize = 0;
        while i < n
            invariant
                n == self.pending.len(),
                i <= n,
                failed@.len() == i,
                failed.deep_view() == spec_kill_actions(self.pending@.take(i as int)),
            decreases n - i,
        {
            let e = self.pending[i];
            failed.push(Action::InvokeReply { callback: e.callback, result: Err(BusError::Killed) });
            proof {
                let t1 = self.pending@.take(i + 1 as int);
                assert(failed.deep_view().len() == i + 1);
                assert(spec_kill_actions(t1).len() == i + 1);
                assert(failed@[i as int]@ == (ActionV::InvokeReply {
                    callback: e.callback,
                    result: Err::<BusMessageV, BusErrorV>(BusErrorV::Killed),
                }));
                assert(spec_kill_actions(t1)[i as int] == (ActionV::InvokeReply {
                    callback: e.callback,
                    result: Err::<BusMessageV, BusErrorV>(BusErrorV::Killed),
                }));
                assert forall|j: int| 0 <= j < i implies failed.deep_view()[j] == spec_kill_actions(
                    t1,
                )[j] by {
                    assert(failed.deep_view()[j] == spec_kill_actions(
                        self.pending@.take(i as int),
                    )[j]);
                    assert(spec_kill_actions(self.pending@.take(i as int))[j]
                        == spec_kill_actions(t1)[j]);
                }
                assert(failed.deep_view() =~= spec_kill_actions(t1));
            }
            i = i + 1;
        }
        self.pending.clear();
        proof {
            assert(old(self).pending@.take(n as int) =~= old(self).pending@);
            assert(self@.pending =~= Seq::<PendingEntry>::empty());
            assert(self@.handlers =~= Seq::<HandlerEntryV>::empty());
            assert(self@.objects =~= Seq::<ObjectEntryV>::empty());
        }
        failed
    }
}

impl Client {
    /// Installs a signal handler and issues `AddMatch` to the broker.
    /// `callback` is invoked on each matching signal; `add_match_callback`
    /// receives the broker's reply to `AddMatch` and stays registered
    /// until that reply or the kill.
    pub fn handle_signal(&mut self, rule: MatchRule, callback: u64, add_match_callback: u64) -> (r:
        (SignalHandlerHandle, Option<Action>))
        requires
            old(self).next_serial < u32::MAX,
            old(self).next_handler_id < u64::MAX,
        ensures
            r.0.id == old(self)@.next_handler_id,
            r.0.detached == false,
            r.0.rule@ == rule@,
            final(self)@.killed == old(self)@.killed,
            final(self)@.next_serial == old(self)@.next_serial + 1,
            final(self)@.next_handler_id == old(self)@.next_handler_id + 1,
            final(self)@.objects == old(self)@.objects,
            old(self)@.killed ==> {
                &&& final(self)@.handlers == old(self)@.handlers
                &&& final(self)@.pending == old(self)@.pending
                &&& final(self)@.outgoing == old(self)@.outgoing
                &&& r.1 matches Some(a) && a@ == (ActionV::InvokeReply {
                    callback: add_match_callback,
                    result: Err::<BusMessageV, BusErrorV>(BusErrorV::Killed),
                })
            },
            !old(self)@.killed ==> {
                &&& final(self)@.handlers == old(self)@.handlers.push(
                    HandlerEntryV {
                        id: old(self)@.next_handler_id,
                        rule: rule@,
                        callback,
                    },
                )
                &&& final(self)@.pending == old(self)@.pending.push(
                    PendingEntry { serial: old(self)@.next_serial, callback: add_match_callback },
                )
                &&& final(self)@.outgoing == old(self)@.outgoing.push(
                    method_call_v(
                        old(self)@.next_serial,
                        "org.freedesktop.DBus"@,
                        "org.freedesktop.DBus"@,
                        "/org/freedesktop/DBus"@,
                        "AddMatch"@,
                        BodyV::Rule(rule@),
                        false,
                    ),
                )
                &&& r.1 is None
            },
            old(self)@.wf() ==> final(self)@.wf(),
    {
        let id = self.next_handler_id;
        self.next_handler_id = id + 1;
        let handle = SignalHandlerHandle { id, rule: rule.dup(), detached: false };
        if !self.killed {
            self.handlers.push(HandlerEntry { id, rule: rule.dup(), callback });
            proof {
                assert(self.handlers.deep_view() =~= old(self).handlers.deep_view().push(
                    HandlerEntryV { id, rule: rule@, callback },
                ));
            }
        }
        let dest = String::from_str("org.freedesktop.DBus");
        let iface = String::from_str("org.freedesktop.DBus");
        let path = String::from_str("/org/freedesktop/DBus");
        let member = String::from_str("AddMatch");
        proof {
            if old(self)@.wf() {
                assert(self@.pending == old(self)@.pending);
                assert(self@.wf());
            }
        }
        let (_call, act) = self.call_async(
            dest,
            iface,
            path,
            member,
            Body::Rule(rule),
            add_match_callback,
        );
        (handle, act)
    }

    /// Releases a signal-handler handle. Unless detached, the handler is
    /// removed from the table and `RemoveMatch` is sent to the broker.
    pub fn drop_signal_handler(&mut self, h: SignalHandlerHandle)
        requires
            old(self).next_serial < u32::MAX,
        ensures
            final(self)@.killed == old(self)@.killed,
            final(self)@.next_handler_id == old(self)@.next_handler_id,
            final(self)@.pending == old(self)@.pending,
            final(self)@.objects == old(self)@.objects,
            h.detached ==> {
                &&& final(self)@.handlers == old(self)@.handlers
                &&& final(self)@.outgoing == old(self)@.outgoing
                &&& final(self)@.next_serial == old(self)@.next_serial
            },
            !h.detached ==> {
                &&& final(self)@.handlers == remove_handler(old(self)@.handlers, h.id)
                &&& final(self)@.next_serial == old(self)@.next_serial + 1
                &&& final(self)@.outgoing == if old(self)@.killed {
                    old(self)@.outgoing
                } else {
                    old(self)@.outgoing.push(
                        method_call_v(
                            old(self)@.next_serial,
                            "org.freedesktop.DBus"@,
                            "org.freedesktop.DBus"@,
                            "/org/freedesktop/DBus"@,
                            "RemoveMatch"@,
                            BodyV::Rule(h.rule@),
                            true,
                        ),
                    )
                }
            },
            old(self)@.wf() ==> final(self)@.wf(),
    {
        if h.detached {
            return ;
        }
        let dest = String::from_str("org.freedesktop.DBus");
        let iface = String::from_str("org.freedesktop.DBus");
        let path = String::from_str("/org/freedesktop/DBus");
        let member = String::from_str("RemoveMatch");
        self.call_no_reply(dest, iface, path, member, Body::Rule(h.rule));
        let n = self.handlers.len();
        let mut out: Vec<HandlerEntry> = Vec::new();
        let mut i: usize = 0;
        while i < n
            invariant
                n == self.handlers.len(),
                i <= n,
                out.deep_view() == remove_handler(self.handlers.deep_view().take(i as int), h.id),
            decreases n - i,
        {
            proof {
                assert(self.handlers.deep_view().take(i + 1 as int).drop_last()
                    =~= self.handlers.deep_view().take(i as int));
                assert(self.handlers.deep_view().take(i + 1 as int).last()
                    == self.handlers.deep_view()[i as int]);
                lemma_remove_handler_unfold(
                    self.handlers.deep_view().take(i + 1 as int),
                    h.id,
                );
            }
            if self.handlers[i].id != h.id {
                let e = &self.handlers[i];
                out.push(HandlerEntry { id: e.id, rule: e.rule.dup(), callback: e.callback });
                proof {
                    assert(out.deep_view() =~= remove_handler(
                        self.handlers.deep_view().take(i + 1 as int),
                        h.id,
                    ));
                }
            }
            i = i + 1;
        }
        proof {
            assert(self.handlers.deep_view().take(n as int) =~= self.handlers.deep_view());
        }
        self.handlers = out;
    }
}

/// The handler table with the entry for `id` removed.
pub open spec fn remove_handler(hs: Seq<HandlerEntryV>, id: u64) -> Seq<HandlerEntryV>
    decreases hs.len(),
{
    if hs.len() == 0 {
        Seq::empty()
    } else {
        remove_handler(hs.drop_last(), id) + if hs.last().id != id {
            seq![hs.last()]
        } else {
            Seq::empty()
        }
    }
}

/// Unfolds [`remove_handler`] by one element at the back.
proof fn lemma_remove_handler_unfold(hs: Seq<HandlerEntryV>, id: u64)
    requires
        hs.len() > 0,
    ensures
        remove_handler(hs, id) == remove_handler(hs.drop_last(), id) + if hs.last().id != id {
            seq![hs.last()]
        } else {
            Seq::<HandlerEntryV>::empty()
        },
{
}

/// The first object whose path is `path`.
pub open spec fn find_object(objs: Seq<ObjectEntryV>, path: Seq<char>) -> Option<ObjectEntryV>
    decreases objs.len(),
{
    if objs.len() == 0 {
        Option::None
    } else if objs[0].path == path {
        Option::Some(objs[0])
    } else {
        find_object(objs.drop_first(), path)
    }
}

/// The first method entry for `(interface, member)`.
pub open spec fn find_method(ms: Seq<MethodEntryV>, interface: Seq<char>, member: Seq<char>) -> Option<
    MethodEntryV,
>
    decreases ms.len(),
{
    if ms.len() == 0 {
        Option::None
    } else if ms[0].interface == interface && ms[0].member == member {
        Option::Some(ms[0])
    } else {
        find_method(ms.drop_first(), interface, member)
    }
}

/// The first property entry for `(interface, member)`.
pub open spec fn find_property(
    ps: Seq<PropertyEntryV>,
    interface: Seq<char>,
    member: Seq<char>,
) -> Option<PropertyEntryV>
    decreases ps.len(),
{
    if ps.len() == 0 {
        Option::None
    } else if ps[0].interface == interface && ps[0].member == member {
        Option::Some(ps[0])
    } else {
        find_property(ps.drop_first(), interface, member)
    }
}

/// The properties of one interface, as `GetAll` serves them: table order,
/// member names paired with values.
pub open spec fn interface_props(ps: Seq<PropertyEntryV>, interface: Seq<char>) -> Seq<
    (Seq<char>, PropValueV),
>
    decreases ps.len(),
{
    if ps.len() == 0 {
        Seq::empty()
    } else {
        interface_props(ps.drop_last(), interface) + if ps.last().interface == interface {
            seq![(ps.last().member, ps.last().value)]
        } else {
            Seq::empty()
        }
    }
}

/// The object table after `add_object(path)`: the first entry for `path`
/// gains a reference, or a fresh entry is appended.
pub open spec fn spec_add_object(objs: Seq<ObjectEntryV>, path: Seq<char>) -> Seq<ObjectEntryV>
    decreases objs.len(),
{
    if objs.len() == 0 {
        seq![
            ObjectEntryV {
                path,
                refs: 1,
                methods: Seq::empty(),
                properties: Seq::empty(),
            },
        ]
    } else if objs[0].path == path {
        objs.update(
            0,
            ObjectEntryV {
                refs: (objs[0].refs + 1) as u64,
                path: objs[0].path,
                methods: objs[0].methods,
                properties: objs[0].properties,
            },
        )
    } else {
        seq![objs[0]] + spec_add_object(objs.drop_first(), path)
    }
}

/// The object table after a handle for `path` is dropped: the first entry
/// loses a reference and disappears when none is left.
pub open spec fn spec_drop_object(objs: Seq<ObjectEntryV>, path: Seq<char>) -> Seq<ObjectEntryV>
    decreases objs.len(),
{
    if objs.len() == 0 {
        objs
    } else if objs[0].path == path {
        if objs[0].refs <= 1 {
            objs.drop_first()
        } else {
            objs.update(
                0,
                ObjectEntryV {
                    refs: (objs[0].refs - 1) as u64,
                    path: objs[0].path,
                    methods: objs[0].methods,
                    properties: objs[0].properties,
                },
            )
        }
    } else {
        seq![objs[0]] + spec_drop_object(objs.drop_first(), path)
    }
}

/// A method table after `(interface, member)` is bound to `callback`:
/// the first matching entry is replaced, or a new one is appended.
pub open spec fn spec_set_method(
    ms: Seq<MethodEntryV>,
    interface: Seq<char>,
    member: Seq<char>,
    callback: u64,
) -> Seq<MethodEntryV>
    decreases ms.len(),
{
    let e = MethodEntryV { interface, member, callback };
    if ms.len() == 0 {
        seq![e]
    } else if ms[0].interface == interface && ms[0].member == member {
        ms.update(0, e)
    } else {
        seq![ms[0]] + spec_set_method(ms.drop_first(), interface, member, callback)
    }
}

/// A property table after `(interface, member)` is set to `value`.
pub open spec fn spec_set_prop(
    ps: Seq<PropertyEntryV>,
    interface: Seq<char>,
    member: Seq<char>,
    value: PropValueV,
) -> Seq<PropertyEntryV>
    decreases ps.len(),
{
    let e = PropertyEntryV { interface, member, value };
    if ps.len() == 0 {
        seq![e]
    } else if ps[0].interface == interface && ps[0].member == member {
        ps.update(0, e)
    } else {
        seq![ps[0]] + spec_set_prop(ps.drop_first(), interface, member, value)
    }
}

/// The object table with the first entry for `path` transformed: its
/// methods replaced by `ms` and its properties by `ps`.
pub open spec fn spec_update_object(
    objs: Seq<ObjectEntryV>,
    path: Seq<char>,
    ms: Seq<MethodEntryV>,
    ps: Seq<PropertyEntryV>,
) -> Seq<ObjectEntryV>
    decreases objs.len(),
{
    if objs.len() == 0 {
        objs
    } else if objs[0].path == path {
        objs.update(
            0,
            ObjectEntryV { path: objs[0].path, refs: objs[0].refs, methods: ms, properties: ps },
        )
    } else {
        seq![objs[0]] + spec_update_object(objs.drop_first(), path, ms, ps)
    }
}

/// [`find_object`] returns the first match.
pub proof fn lemma_find_object_at(objs: Seq<ObjectEntryV>, path: Seq<char>, i: int)
    requires
        0 <= i < objs.len(),
        objs[i].path == path,
        forall|j: int| 0 <= j < i ==> (#[trigger] objs[j]).path != path,
    ensures
        find_object(objs, path) == Option::Some(objs[i]),
    decreases i,
{
    if i > 0 {
        lemma_find_object_at(objs.drop_first(), path, i - 1);
    }
}

/// [`find_object`] finds nothing when no entry matches.
pub proof fn lemma_find_object_none(objs: Seq<ObjectEntryV>, path: Seq<char>)
    requires
        forall|j: int| 0 <= j < objs.len() ==> (#[trigger] objs[j]).path != path,
    ensures
        find_object(objs, path) is None,
    decreases objs.len(),
{
    if objs.len() > 0 {
        lemma_find_object_none(objs.drop_first(), path);
    }
}

/// [`find_method`] returns the first match.
pub proof fn lemma_find_method_at(
    ms: Seq<MethodEntryV>,
    interface: Seq<char>,
    member: Seq<char>,
    i: int,
)
    requires
        0 <= i < ms.len(),
        ms[i].interface == interface && ms[i].member == member,
        forall|j: int|
            0 <= j < i ==> !((#[trigger] ms[j]).interface == interface && ms[j].member == member),
    ensures
        find_method(ms, interface, member) == Option::Some(ms[i]),
    decreases i,
{
    if i > 0 {
        lemma_find_method_at(ms.drop_first(), interface, member, i - 1);
    }
}

/// [`find_method`] finds nothing when no entry matches.
pub proof fn lemma_find_method_none(ms: Seq<MethodEntryV>, interface: Seq<char>, member: Seq<char>)
    requires
        forall|j: int|
            0 <= j < ms.len() ==> !((#[trigger] ms[j]).interface == interface && ms[j].member
                == member),
    ensures
        find_method(ms, interface, member) is None,
    decreases ms.len(),
{
    if ms.len() > 0 {
        lemma_find_method_none(ms.drop_first(), interface, member);
    }
}

/// [`find_property`] returns the first match.
pub proof fn lemma_find_property_at(
    ps: Seq<PropertyEntryV>,
    interface: Seq<char>,
    member: Seq<char>,
    i: int,
)
    requires
        0 <= i < ps.len(),
        ps[i].interface == interface && ps[i].member == member,
        forall|j: int|
            0 <= j < i ==> !((#[trigger] ps[j]).interface == interface && ps[j].member == member),
    ensures
        find_property(ps, interface, member) == Option::Some(ps[i]),
    decreases i,
{
    if i > 0 {
        lemma_find_property_at(ps.drop_first(), interface, member, i - 1);
    }
}

/// [`find_property`] finds nothing when no entry matches.
pub proof fn lemma_find_property_none(
    ps: Seq<PropertyEntryV>,
    interface: Seq<char>,
    member: Seq<char>,
)
    requires
        forall|j: int|
            0 <= j < ps.len() ==> !((#[trigger] ps[j]).interface == interface && ps[j].member
                == member),
    ensures
        find_property(ps, interface, member) is None,
    decreases ps.len(),
{
    if ps.len() > 0 {
        lemma_find_property_none(ps.drop_first(), interface, member);
    }
}

/// [`spec_add_object`] bumps the first match.
proof fn lemma_spec_add_object_at(objs: Seq<ObjectEntryV>, path: Seq<char>, i: int)
    requires
        0 <= i < objs.len(),
        objs[i].path == path,
        forall|j: int| 0 <= j < i ==> (#[trigger] objs[j]).path != path,
    ensures
        spec_add_object(objs, path) == objs.update(
            i,
            ObjectEntryV {
                refs: (objs[i].refs + 1) as u64,
                path: objs[i].path,
                methods: objs[i].methods,
                properties: objs[i].properties,
            },
        ),
    decreases i,
{
    if i > 0 {
        lemma_spec_add_object_at(objs.drop_first(), path, i - 1);
        assert(spec_add_object(objs, path) =~= objs.update(
            i,
            ObjectEntryV {
                refs: (objs[i].refs + 1) as u64,
                path: objs[i].path,
                methods: objs[i].methods,
                properties: objs[i].properties,
            },
        ));
    }
}

/// [`spec_add_object`] appends a fresh entry when nothing matches.
proof fn lemma_spec_add_object_none(objs: Seq<ObjectEntryV>, path: Seq<char>)
    requires
        forall|j: int| 0 <= j < objs.len() ==> (#[trigger] objs[j]).path != path,
    ensures
        spec_add_object(objs, path) == objs.push(
            ObjectEntryV { path, refs: 1, methods: Seq::empty(), properties: Seq::empty() },
        ),
    decreases objs.len(),
{
    if objs.len() > 0 {
        lemma_spec_add_object_none(objs.drop_first(), path);
        assert(spec_add_object(objs, path) =~= objs.push(
            ObjectEntryV { path, refs: 1, methods: Seq::empty(), properties: Seq::empty() },
        ));
    }
}

/// [`spec_drop_object`] acts on the first match.
proof fn lemma_spec_drop_object_at(objs: Seq<ObjectEntryV>, path: Seq<char>, i: int)
    requires
        0 <= i < objs.len(),
        objs[i].path == path,
        forall|j: int| 0 <= j < i ==> (#[trigger] objs[j]).path != path,
    ensures
        spec_drop_object(objs, path) == if objs[i].refs <= 1 {
            objs.remove(i)
        } else {
            objs.update(
                i,
                ObjectEntryV {
                    refs: (objs[i].refs - 1) as u64,
                    path: objs[i].path,
                    methods: objs[i].methods,
                    properties: objs[i].properties,
                },
            )
        },
    decreases i,
{
    if i > 0 {
        lemma_spec_drop_object_at(objs.drop_first(), path, i - 1);
        if objs[i].refs <= 1 {
            assert(spec_drop_object(objs, path) =~= objs.remove(i));
        } else {
            assert(spec_drop_object(objs, path) =~= objs.update(
                i,
                ObjectEntryV {
                    refs: (objs[i].refs - 1) as u64,
                    path: objs[i].path,
                    methods: objs[i].methods,
                    properties: objs[i].properties,
                },
            ));
        }
    }
}

/// [`spec_drop_object`] is the identity when nothing matches.
proof fn lemma_spec_drop_object_none(objs: Seq<ObjectEntryV>, path: Seq<char>)
    requires
        forall|j: int| 0 <= j < objs.len() ==> (#[trigger] objs[j]).path != path,
    ensures
        spec_drop_object(objs, path) == objs,
    decreases objs.len(),
{
    if objs.len() > 0 {
        lemma_spec_drop_object_none(objs.drop_first(), path);
        assert(spec_drop_object(objs, path) =~= objs);
    }
}

/// [`spec_set_method`] replaces the first match.
proof fn lemma_spec_set_method_at(
    ms: Seq<MethodEntryV>,
    interface: Seq<char>,
    member: Seq<char>,
    callback: u64,
    i: int,
)
    requires
        0 <= i < ms.len(),
        ms[i].interface == interface && ms[i].member == member,
        forall|j: int|
            0 <= j < i ==> !((#[trigger] ms[j]).interface == interface && ms[j].member == member),
    ensures
        spec_set_method(ms, interface, member, callback) == ms.update(
            i,
            MethodEntryV { interface, member, callback },
        ),
    decreases i,
{
    if i > 0 {
        lemma_spec_set_method_at(ms.drop_first(), interface, member, callback, i - 1);
        assert(spec_set_method(ms, interface, member, callback) =~= ms.update(
            i,
            MethodEntryV { interface, member, callback },
        ));
    }
}

/// [`spec_set_method`] appends when nothing matches.
proof fn lemma_spec_set_method_none(
    ms: Seq<MethodEntryV>,
    interface: Seq<char>,
    member: Seq<char>,
    callback: u64,
)
    requires
        forall|j: int|
            0 <= j < ms.len() ==> !((#[trigger] ms[j]).interface == interface && ms[j].member
                == member),
    ensures
        spec_set_method(ms, interface, member, callback) == ms.push(
            MethodEntryV { interface, member, callback },
        ),
    decreases ms.len(),
{
    if ms.len() > 0 {
        lemma_spec_set_method_none(ms.drop_first(), interface, member, callback);
        assert(spec_set_method(ms, interface, member, callback) =~= ms.push(
            MethodEntryV { interface, member, callback },
        ));
    }
}

/// [`spec_set_prop`] replaces the first match.
proof fn lemma_spec_set_prop_at(
    ps: Seq<PropertyEntryV>,
    interface: Seq<char>,
    member: Seq<char>,
    value: PropValueV,
    i: int,
)
    requires
        0 <= i < ps.len(),
        ps[i].interface == interface && ps[i].member == member,
        forall|j: int|
            0 <= j < i ==> !((#[trigger] ps[j]).interface == interface && ps[j].member == member),
    ensures
        spec_set_prop(ps, interface, member, value) == ps.update(
            i,
            PropertyEntryV { interface, member, value },
        ),
    decreases i,
{
    if i > 0 {
        lemma_spec_set_prop_at(ps.drop_first(), interface, member, value, i - 1);
        assert(spec_set_prop(ps, interface, member, value) =~= ps.update(
            i,
            PropertyEntryV { interface, member, value },
        ));
    }
}

/// [`spec_set_prop`] appends when nothing matches.
proof fn lemma_spec_set_prop_none(
    ps: Seq<PropertyEntryV>,
    interface: Seq<char>,
    member: Seq<char>,
    value: PropValueV,
)
    requires
        forall|j: int|
            0 <= j < ps.len() ==> !((#[trigger] ps[j]).interface == interface && ps[j].member
                == member),
    ensures
        spec_set_prop(ps, interface, member, value) == ps.push(
            PropertyEntryV { interface, member, value },
        ),
    decreases ps.len(),
{
    if ps.len() > 0 {
        lemma_spec_set_prop_none(ps.drop_first(), interface, member, value);
        assert(spec_set_prop(ps, interface, member, value) =~= ps.push(
            PropertyEntryV { interface, member, value },
        ));
    }
}

/// [`spec_update_object`] rewrites the first match.
proof fn lemma_spec_update_object_at(
    objs: Seq<ObjectEntryV>,
    path: Seq<char>,
    ms: Seq<MethodEntryV>,
    ps: Seq<PropertyEntryV>,
    i: int,
)
    requires
        0 <= i < objs.len(),
        objs[i].path == path,
        forall|j: int| 0 <= j < i ==> (#[trigger] objs[j]).path != path,
    ensures
        spec_update_object(objs, path, ms, ps) == objs.update(
            i,
            ObjectEntryV { path: objs[i].path, refs: objs[i].refs, methods: ms, properties: ps },
        ),
    decreases i,
{
    if i > 0 {
        lemma_spec_update_object_at(objs.drop_first(), path, ms, ps, i - 1);
        assert(spec_update_object(objs, path, ms, ps) =~= objs.update(
            i,
            ObjectEntryV { path: objs[i].path, refs: objs[i].refs, methods: ms, properties: ps },
        ));
    }
}

/// [`spec_update_object`] is the identity when nothing matches.
proof fn lemma_spec_update_object_none(
    objs: Seq<ObjectEntryV>,
    path: Seq<char>,
    ms: Seq<MethodEntryV>,
    ps: Seq<PropertyEntryV>,
)
    requires
        forall|j: int| 0 <= j < objs.len() ==> (#[trigger] objs[j]).path != path,
    ensures
        spec_update_object(objs, path, ms, ps) == objs,
    decreases objs.len(),
{
    if objs.len() > 0 {
        lemma_spec_update_object_none(objs.drop_first(), path, ms, ps);
        assert(spec_update_object(objs, path, ms, ps) =~= objs);
    }
}

impl Client {
    /// The index of the first exported object at `path`.
    fn find_object_index(&self, path: &str) -> (r: Option<usize>)
        ensures
            match r {
                Some(i) => {
                    &&& i < self@.objects.len()
                    &&& self@.objects[i as int].path == path@
                    &&& forall|j: int| 0 <= j < i ==> (#[trigger] self@.objects[j]).path != path@
                },
                None => forall|j: int|
                    0 <= j < self@.objects.len() ==> (#[trigger] self@.objects[j]).path != path@,
            },
    {
        let n = self.objects.len();
        let mut i: usize = 0;
        while i < n
            invariant
                n == self.objects.len(),
                i <= n,
                forall|j: int| 0 <= j < i ==> (#[trigger] self@.objects[j]).path != path@,
            decreases n - i,
        {
            if str_eq(self.objects[i].path.as_str(), path) {
                return Some(i);
            }
            i = i + 1;
        }
        None
    }

    /// Exports an object, or takes one more handle to an already exported
    /// one. On a killed client a fresh path is not exported; the handle is
    /// still returned.
    pub fn add_object(&mut self, path: String) -> (h: ObjectHandle)
        requires
            forall|i: int|
                0 <= i < old(self)@.objects.len() ==> (#[trigger] old(
                    self,
                )@.objects[i]).refs < u64::MAX,
        ensures
            h.path@ == path@,
            final(self)@.killed == old(self)@.killed,
            final(self)@.next_serial == old(self)@.next_serial,
            final(self)@.next_handler_id == old(self)@.next_handler_id,
            final(self)@.pending == old(self)@.pending,
            final(self)@.handlers == old(self)@.handlers,
            final(self)@.outgoing == old(self)@.outgoing,
            final(self)@.objects == if (exists|i: int|
                0 <= i < old(self)@.objects.len() && (#[trigger] old(self)@.objects[i]).path
                    == path@) || !old(self)@.killed {
                spec_add_object(old(self)@.objects, path@)
            } else {
                old(self)@.objects
            },
            old(self)@.wf() ==> final(self)@.wf(),
    {
        match self.find_object_index(path.as_str()) {
            Some(i) => {
                let mut e = self.objects.remove(i);
                e.refs = e.refs + 1;
                let ghost ev = e@;
                self.objects.insert(i, e);
                proof {
                    lemma_spec_add_object_at(old(self)@.objects, path@, i as int);
                    assert(self.objects.deep_view() =~= old(self)@.objects.update(i as int, ev));
                    assert(self@.pending == old(self)@.pending);
                    assert(self@.next_serial == old(self)@.next_serial);
                }
                ObjectHandle { path }
            },
            None => {
                if !self.killed {
                    self.objects.push(
                        ObjectEntry {
                            path: path.clone(),
                            refs: 1,
                            methods: Vec::new(),
                            properties: Vec::new(),
                        },
                    );
                    proof {
                        lemma_spec_add_object_none(old(self)@.objects, path@);
                        assert(self.objects.deep_view() =~~= old(self)@.objects.push(
                            ObjectEntryV {
                                path: path@,
                                refs: 1,
                                methods: Seq::empty(),
                                properties: Seq::empty(),
                            },
                        ));
                    }
                }
                proof {
                    assert(self@.pending == old(self)@.pending);
                    assert(self@.next_serial == old(self)@.next_serial);
                }
                ObjectHandle { path }
            },
        }
    }

    /// Releases an object handle; the object is unexported when the last
    /// handle goes.
    pub fn drop_object(&mut self, h: ObjectHandle)
        ensures
            final(self)@.killed == old(self)@.killed,
            final(self)@.next_serial == old(self)@.next_serial,
            final(self)@.next_handler_id == old(self)@.next_handler_id,
            final(self)@.pending == old(self)@.pending,
            final(self)@.handlers == old(self)@.handlers,
            final(self)@.outgoing == old(self)@.outgoing,
            final(self)@.objects == spec_drop_object(old(self)@.objects, h.path@),
            old(self)@.wf() ==> final(self)@.wf(),
    {
        match self.find_object_index(h.path.as_str()) {
            Some(i) => {
                proof {
                    lemma_spec_drop_object_at(old(self)@.objects, h.path@, i as int);
                }
                let e = self.objects.remove(i);
                if e.refs > 1 {
                    let mut e = e;
                    e.refs = e.refs - 1;
                    let ghost ev = e@;
                    self.objects.insert(i, e);
                    proof {
                        assert(self.objects.deep_view() =~= old(self)@.objects.update(
                            i as int,
                            ev,
                        ));
                    }
                } else {
                    proof {
                        assert(self.objects.deep_view() =~= old(self)@.objects.remove(i as int));
                    }
                }
            },
            None => {
                proof {
                    lemma_spec_drop_object_none(old(self)@.objects, h.path@);
                }
            },
        }
        proof {
            assert(self@.pending == old(self)@.pending);
            assert(self@.next_serial == old(self)@.next_serial);
        }
    }

    /// Binds a method handler of an exported object.
    pub fn add_method(&mut self, h: &ObjectHandle, interface: String, member: String, callback: u64)
        ensures
            final(self)@.killed == old(self)@.killed,
            final(self)@.next_serial == old(self)@.next_serial,
            final(self)@.next_handler_id == old(self)@.next_handler_id,
            final(self)@.pending == old(self)@.pending,
            final(self)@.handlers == old(self)@.handlers,
            final(self)@.outgoing == old(self)@.outgoing,
            final(self)@.objects == match find_object(old(self)@.objects, h.path@) {
                Option::Some(o) => spec_update_object(
                    old(self)@.objects,
                    h.path@,
                    spec_set_method(o.methods, interface@, member@, callback),
                    o.properties,
                ),
                Option::None => old(self)@.objects,
            },
            old(self)@.wf() ==> final(self)@.wf(),
    {
        match self.find_object_index(h.path.as_str()) {
            Some(i) => {
                proof {
                    lemma_find_object_at(old(self)@.objects, h.path@, i as int);
                }
                let mut e = self.objects.remove(i);
                set_method_entry(&mut e.methods, interface, member, callback);
                let ghost ev = e@;
                self.objects.insert(i, e);
                proof {
                    let o = find_object(old(self)@.objects, h.path@)->Some_0;
                    lemma_spec_update_object_at(
                        old(self)@.objects,
                        h.path@,
                        spec_set_method(o.methods, interface@, member@, callback),
                        o.properties,
                        i as int,
                    );
                    assert(self.objects.deep_view() =~= old(self)@.objects.update(i as int, ev));
                }
            },
            None => {
                proof {
                    lemma_find_object_none(old(self)@.objects, h.path@);
                }
            },
        }
        proof {
            assert(self@.pending == old(self)@.pending);
            assert(self@.next_serial == old(self)@.next_serial);
        }
    }

    /// Sets a property of an exported object and emits the standard
    /// `PropertiesChanged` signal with that one entry and an empty
    /// invalidated list, even if the stored value did not change.
    pub fn set_property(
        &mut self,
        h: &ObjectHandle,
        interface: String,
        member: String,
        value: PropValue,
    )
        requires
            old(self).next_serial < u32::MAX,
        ensures
            final(self)@.killed == old(self)@.killed,
            final(self)@.next_serial == old(self)@.next_serial + 1,
            final(self)@.next_handler_id == old(self)@.next_handler_id,
            final(self)@.pending == old(self)@.pending,
            final(self)@.handlers == old(self)@.handlers,
            final(self)@.objects == match find_object(old(self)@.objects, h.path@) {
                Option::Some(o) => spec_update_object(
                    old(self)@.objects,
                    h.path@,
                    o.methods,
                    spec_set_prop(o.properties, interface@, member@, value@),
                ),
                Option::None => old(self)@.objects,
            },
            final(self)@.outgoing == if old(self)@.killed {
                old(self)@.outgoing
            } else {
                old(self)@.outgoing.push(
                    signal_v(
                        old(self)@.next_serial,
                        "org.freedesktop.DBus.Properties"@,
                        h.path@,
                        "PropertiesChanged"@,
                        BodyV::PropsChanged(
                            interface@,
                            seq![(member@, value@)],
                            Seq::<Seq<char>>::empty(),
                        ),
                    ),
                )
            },
            old(self)@.wf() ==> final(self)@.wf(),
    {
        match self.find_object_index(h.path.as_str()) {
            Some(i) => {
                proof {
                    lemma_find_object_at(old(self)@.objects, h.path@, i as int);
                }
                let mut e = self.objects.remove(i);
                set_property_entry(&mut e.properties, interface.clone(), member.clone(), value.dup());
                let ghost ev = e@;
                self.objects.insert(i, e);
                proof {
                    let o = find_object(old(self)@.objects, h.path@)->Some_0;
                    lemma_spec_update_object_at(
                        old(self)@.objects,
                        h.path@,
                        o.methods,
                        spec_set_prop(o.properties, interface@, member@, value@),
                        i as int,
                    );
                    assert(self.objects.deep_view() =~= old(self)@.objects.update(i as int, ev));
                }
            },
            None => {
                proof {
                    lemma_find_object_none(old(self)@.objects, h.path@);
                }
            },
        }
        let mut changed: Vec<(String, PropValue)> = Vec::new();
        changed.push((member, value));
        let props_iface = String::from_str("org.freedesktop.DBus.Properties");
        let changed_member = String::from_str("PropertiesChanged");
        let body = Body::PropsChanged(interface, changed, Vec::new());
        proof {
            assert(body@ == BodyV::PropsChanged(
                body->PropsChanged_0@,
                crate::msg::dict_view(body->PropsChanged_1@),
                body->PropsChanged_2.deep_view(),
            ));
            assert(crate::msg::dict_view(body->PropsChanged_1@) =~= seq![
                (body->PropsChanged_1@[0].0@, body->PropsChanged_1@[0].1@),
            ]);
            assert(body->PropsChanged_2.deep_view() =~= Seq::<Seq<char>>::empty());
        }
        let path = h.path.clone();
        proof {
            assert(self@.pending == old(self)@.pending);
            assert(self@.next_serial == old(self)@.next_serial);
            if old(self)@.wf() {
                assert(self@.wf());
            }
        }
        self.send_signal(props_iface, path, changed_member, body);
    }

    /// Replies to an inbound method call with a success body.
    pub fn send_reply(&mut self, token: ReplyToken, body: Body)
        requires
            old(self).next_serial < u32::MAX,
        ensures
            final(self)@.killed == old(self)@.killed,
            final(self)@.next_serial == old(self)@.next_serial + 1,
            final(self)@.next_handler_id == old(self)@.next_handler_id,
            final(self)@.pending == old(self)@.pending,
            final(self)@.handlers == old(self)@.handlers,
            final(self)@.objects == old(self)@.objects,
            final(self)@.outgoing == if old(self)@.killed {
                old(self)@.outgoing
            } else {
                old(self)@.outgoing.push(
                    method_reply_v(old(self)@.next_serial, token.serial, token@.sender, body@),
                )
            },
            old(self)@.wf() ==> final(self)@.wf(),
    {
        let serial = self.next_serial;
        let msg = BusMessage {
            header: MsgHeader {
                kind: MsgKind::MethodReturn,
                serial,
                sender: None,
                destination: token.sender,
                path: None,
                interface: None,
                member: None,
                error_name: None,
                reply_serial: Some(token.serial),
                no_reply_expected: false,
            },
            body,
        };
        self.enqueue(msg);
    }

    /// Replies to an inbound method call with the generic error, carrying
    /// a descriptive string.
    pub fn send_error(&mut self, token: ReplyToken, text: String)
        requires
            old(self).next_serial < u32::MAX,
        ensures
            final(self)@.killed == old(self)@.killed,
            final(self)@.next_serial == old(self)@.next_serial + 1,
            final(self)@.next_handler_id == old(self)@.next_handler_id,
            final(self)@.pending == old(self)@.pending,
            final(self)@.handlers == old(self)@.handlers,
            final(self)@.objects == old(self)@.objects,
            final(self)@.outgoing == if old(self)@.killed {
                old(self)@.outgoing
            } else {
                old(self)@.outgoing.push(
                    error_reply_v(old(self)@.next_serial, token.serial, token@.sender, text@),
                )
            },
            old(self)@.wf() ==> final(self)@.wf(),
    {
        let serial = self.next_serial;
        let name = String::from_str("Bussy.Unspecified");
        let msg = BusMessage {
            header: MsgHeader {
                kind: MsgKind::Error,
                serial,
                sender: None,
                destination: token.sender,
                path: None,
                interface: None,
                member: None,
                error_name: Some(name),
                reply_serial: Some(token.serial),
                no_reply_expected: false,
            },
            body: Body::Str(text),
        };
        self.enqueue(msg);
    }

    /// Releases a reply token without answering. Unless the caller asked
    /// for no reply, the automatic error reply is emitted.
    pub fn drop_reply_token(&mut self, token: ReplyToken)
        requires
            old(self).next_serial < u32::MAX,
        ensures
            final(self)@.killed == old(self)@.killed,
            final(self)@.next_handler_id == old(self)@.next_handler_id,
            final(self)@.pending == old(self)@.pending,
            final(self)@.handlers == old(self)@.handlers,
            final(self)@.objects == old(self)@.objects,
            token.no_reply_expected ==> {
                &&& final(self)@.outgoing == old(self)@.outgoing
                &&& final(self)@.next_serial == old(self)@.next_serial
            },
            !token.no_reply_expected ==> {
                &&& final(self)@.next_serial == old(self)@.next_serial + 1
                &&& final(self)@.outgoing == if old(self)@.killed {
                    old(self)@.outgoing
                } else {
                    old(self)@.outgoing.push(
                        error_reply_v(
                            old(self)@.next_serial,
                            token.serial,
                            token@.sender,
                            "Application did not send a reply"@,
                        ),
                    )
                }
            },
            old(self)@.wf() ==> final(self)@.wf(),
    {
        if !token.no_reply_expected {
            let text = String::from_str("Application did not send a reply");
            self.send_error(token, text);
        }
    }
}

/// Replaces or appends a method entry, first match by key.
fn set_method_entry(ms: &mut Vec<MethodEntry>, interface: String, member: String, callback: u64)
    ensures
        final(ms).deep_view() == spec_set_method(
            old(ms).deep_view(),
            interface@,
            member@,
            callback,
        ),
{
    let n = ms.len();
    let mut i: usize = 0;
    while i < n
        invariant
            n == ms.len(),
            i <= n,
            ms.deep_view() == old(ms).deep_view(),
            forall|j: int|
                0 <= j < i ==> !((#[trigger] ms.deep_view()[j]).interface == interface@
                    && ms.deep_view()[j].member == member@),
        decreases n - i,
    {
        if str_eq(ms[i].interface.as_str(), interface.as_str()) && str_eq(
            ms[i].member.as_str(),
            member.as_str(),
        ) {
            proof {
                lemma_spec_set_method_at(
                    old(ms).deep_view(),
                    interface@,
                    member@,
                    callback,
                    i as int,
                );
            }
            let e = MethodEntry { interface, member, callback };
            let ghost evv = e@;
            ms.set(i, e);
            proof {
                assert(ms.deep_view() =~= old(ms).deep_view().update(i as int, evv));
            }
            return ;
        }
        i = i + 1;
    }
    proof {
        lemma_spec_set_method_none(old(ms).deep_view(), interface@, member@, callback);
    }
    let e = MethodEntry { interface, member, callback };
    let ghost evv = e@;
    ms.push(e);
    proof {
        assert(ms.deep_view() =~= old(ms).deep_view().push(evv));
    }
}

/// Replaces or appends a property entry, first match by key.
fn set_property_entry(ps: &mut Vec<PropertyEntry>, interface: String, member: String, value: PropValue)
    ensures
        final(ps).deep_view() == spec_set_prop(old(ps).deep_view(), interface@, member@, value@),
{
    let n = ps.len();
    let mut i: usize = 0;
    while i < n
        invariant
            n == ps.len(),
            i <= n,
            ps.deep_view() == old(ps).deep_view(),
            forall|j: int|
                0 <= j < i ==> !((#[trigger] ps.deep_view()[j]).interface == interface@
                    && ps.deep_view()[j].member == member@),
        decreases n - i,
    {
        if str_eq(ps[i].interface.as_str(), interface.as_str()) && str_eq(
            ps[i].member.as_str(),
            member.as_str(),
        ) {
            proof {
                lemma_spec_set_prop_at(old(ps).deep_view(), interface@, member@, value@, i as int);
            }
            let e = PropertyEntry { interface, member, value };
            let ghost evv = e@;
            ps.set(i, e);
            proof {
                assert(ps.deep_view() =~= old(ps).deep_view().update(i as int, evv));
            }
            return ;
        }
        i = i + 1;
    }
    proof {
        lemma_spec_set_prop_none(old(ps).deep_view(), interface@, member@, value@);
    }
    let e = PropertyEntry { interface, member, value };
    let ghost evv = e@;
    ps.push(e);
    proof {
        assert(ps.deep_view() =~= old(ps).deep_view().push(evv));
    }
}

/// The result handed to a reply callback for an inbound reply message:
/// the message itself, or the decoded bus error.
pub open spec fn reply_result_v(m: BusMessageV) -> Result<BusMessageV, BusErrorV> {
    if m.header.kind == MsgKind::Error {
        match m.header.error_name {
            Option::None => Err(BusErrorV::NoErrorName),
            Option::Some(name) => match m.body {
                BodyV::Str(text) => Err(BusErrorV::ErrorReply(name, text)),
                _ => Err(BusErrorV::NoErrorBody),
            },
        }
    } else {
        Ok(m)
    }
}

/// The signal actions for a message: the callbacks of all matching
/// handlers, in registration (table) order.
pub open spec fn signal_actions(hs: Seq<HandlerEntryV>, h: MsgHeaderV) -> Seq<ActionV>
    decreases hs.len(),
{
    if hs.len() == 0 {
        Seq::empty()
    } else {
        signal_actions(hs.drop_last(), h) + if crate::msg::rule_matches(hs.last().rule, h) {
            seq![ActionV::InvokeSignal { callback: hs.last().callback }]
        } else {
            Seq::empty()
        }
    }
}

/// A live client after one message is enqueued.
pub open spec fn enqueue_out(c: ClientV, m: BusMessageV) -> ClientV {
    ClientV {
        next_serial: (c.next_serial + 1) as u32,
        outgoing: c.outgoing.push(m),
        ..c
    }
}

/// A live client after an error reply to inbound message `m`.
pub open spec fn error_text_reply(c: ClientV, m: BusMessageV, text: Seq<char>) -> ClientV {
    enqueue_out(c, error_reply_v(c.next_serial, m.header.serial, m.header.sender, text))
}

/// Dispatch of an inbound reply (method return or error).
pub open spec fn spec_dispatch_reply(c: ClientV, m: BusMessageV) -> (ClientV, Seq<ActionV>) {
    match m.header.reply_serial {
        Option::None => (c, Seq::empty()),
        Option::Some(s) => match find_serial(c.pending, s) {
            Option::None => (c, Seq::empty()),
            Option::Some(e) => (
                ClientV { pending: remove_serial(c.pending, s), ..c },
                seq![
                    ActionV::InvokeReply { callback: e.callback, result: reply_result_v(m) },
                ],
            ),
        },
    }
}

/// Serving a property `Get` from the exported object's table.
pub open spec fn spec_serve_get(c: ClientV, m: BusMessageV, o: ObjectEntryV) -> (
    ClientV,
    Seq<ActionV>,
) {
    match m.body {
        BodyV::StrPair(iface, prop) => {
            if !crate::names::is_interface_name(iface) {
                (error_text_reply(c, m, "Invalid interface name"@), Seq::empty())
            } else if !crate::names::is_member_name(prop) {
                (error_text_reply(c, m, "Invalid member name"@), Seq::empty())
            } else {
                match find_property(o.properties, iface, prop) {
                    Option::None => (
                        error_text_reply(c, m, "Property does not exist"@),
                        Seq::empty(),
                    ),
                    Option::Some(pe) => (
                        enqueue_out(
                            c,
                            method_reply_v(
                                c.next_serial,
                                m.header.serial,
                                m.header.sender,
                                BodyV::Value(pe.value),
                            ),
                        ),
                        Seq::empty(),
                    ),
                }
            }
        },
        _ => (error_text_reply(c, m, "Could not deserialize message body"@), Seq::empty()),
    }
}

/// Serving a property `GetAll` from the exported object's table.
pub open spec fn spec_serve_get_all(c: ClientV, m: BusMessageV, o: ObjectEntryV) -> (
    ClientV,
    Seq<ActionV>,
) {
    match m.body {
        BodyV::Str(iface) => {
            if !crate::names::is_interface_name(iface) {
                (error_text_reply(c, m, "Invalid interface name"@), Seq::empty())
            } else {
                (
                    enqueue_out(
                        c,
                        method_reply_v(
                            c.next_serial,
                            m.header.serial,
                            m.header.sender,
                            BodyV::PropDict(interface_props(o.properties, iface)),
                        ),
                    ),
                    Seq::empty(),
                )
            }
        },
        _ => (error_text_reply(c, m, "Could not deserialize message body"@), Seq::empty()),
    }
}

/// Dispatch of an inbound method call.
pub open spec fn spec_dispatch_call(c: ClientV, m: BusMessageV) -> (ClientV, Seq<ActionV>) {
    if m.header.interface is None || m.header.path is None || m.header.member is None {
        if m.header.no_reply_expected {
            (c, Seq::empty())
        } else {
            (error_text_reply(c, m, "Application did not send a reply"@), Seq::empty())
        }
    } else {
        let interface = m.header.interface->Some_0;
        let path = m.header.path->Some_0;
        let member = m.header.member->Some_0;
        match find_object(c.objects, path) {
            Option::None => (error_text_reply(c, m, "Object does not exist"@), Seq::empty()),
            Option::Some(o) => {
                if interface == "org.freedesktop.DBus.Properties"@ && member == "Get"@ {
                    spec_serve_get(c, m, o)
                } else if interface == "org.freedesktop.DBus.Properties"@ && member == "GetAll"@ {
                    spec_serve_get_all(c, m, o)
                } else {
                    match find_method(o.methods, interface, member) {
                        Option::None => (
                            error_text_reply(c, m, "Method does not exist"@),
                            Seq::empty(),
                        ),
                        Option::Some(me) => (
                            c,
                            seq![
                                ActionV::InvokeMethod {
                                    callback: me.callback,
                                    token: ReplyTokenV {
                                        serial: m.header.serial,
                                        sender: m.header.sender,
                                        no_reply_expected: m.header.no_reply_expected,
                                    },
                                },
                            ],
                        ),
                    }
                }
            },
        }
    }
}

/// Dispatch of one inbound message: the next client state and the
/// callback invocations owed, in order.
pub open spec fn spec_dispatch(c: ClientV, m: BusMessageV) -> (ClientV, Seq<ActionV>) {
    if c.killed {
        (c, Seq::empty())
    } else {
        match m.header.kind {
            MsgKind::Signal => (c, signal_actions(c.handlers, m.header)),
            MsgKind::MethodReturn => spec_dispatch_reply(c, m),
            MsgKind::Error => spec_dispatch_reply(c, m),
            MsgKind::MethodCall => spec_dispatch_call(c, m),
        }
    }
}

impl Client {
    /// Enqueues an error reply to the inbound message `m`.
    fn reply_error_to(&mut self, serial: u32, sender: Option<String>, text: &str)
        requires
            old(self).next_serial < u32::MAX,
            !old(self).killed,
        ensures
            final(self)@.killed == old(self)@.killed,
            final(self)@.next_serial == old(self)@.next_serial + 1,
            final(self)@.next_handler_id == old(self)@.next_handler_id,
            final(self)@.pending == old(self)@.pending,
            final(self)@.handlers == old(self)@.handlers,
            final(self)@.objects == old(self)@.objects,
            final(self)@.outgoing == old(self)@.outgoing.push(
                error_reply_v(old(self)@.next_serial, serial, sender.deep_view(), text@),
            ),
            old(self)@.wf() ==> final(self)@.wf(),
    {
        let own_serial = self.next_serial;
        let name = String::from_str("Bussy.Unspecified");
        let msg = BusMessage {
            header: MsgHeader {
                kind: MsgKind::Error,
                serial: own_serial,
                sender: None,
                destination: sender,
                path: None,
                interface: None,
                member: None,
                error_name: Some(name),
                reply_serial: Some(serial),
                no_reply_expected: false,
            },
            body: Body::Str(String::from_str(text)),
        };
        self.enqueue(msg);
    }

    /// Dispatches one inbound message and returns the callback
    /// invocations owed to the edge, in order. A reply removes its
    /// pending entry before the callback is invoked; a signal invokes the
    /// matching handlers in registration order; a method call is served
    /// from the exported-object tables or answered with the generic
    /// error.
    pub fn dispatch(&mut self, msg: BusMessage) -> (acts: Vec<Action>)
        requires
            old(self).next_serial < u32::MAX,
        ensures
            (final(self)@, acts.deep_view()) == spec_dispatch(old(self)@, msg@),
            old(self)@.wf() ==> final(self)@.wf(),
    {
        let mut acts: Vec<Action> = Vec::new();
        if self.killed {
            proof {
                assert(acts.deep_view() =~= Seq::<ActionV>::empty());
            }
            return acts;
        }
        let BusMessage { header, body } = msg;
        match header.kind {
            MsgKind::Signal => {
                let n = self.handlers.len();
                let mut i: usize = 0;
                while i < n
                    invariant
                        n == self.handlers.len(),
                        i <= n,
                        acts.deep_view() == signal_actions(
                            self.handlers.deep_view().take(i as int),
                            header@,
                        ),
                    decreases n - i,
                {
                    proof {
                        assert(self.handlers.deep_view().take(i + 1 as int).drop_last()
                            =~= self.handlers.deep_view().take(i as int));
                        assert(self.handlers.deep_view().take(i + 1 as int).last()
                            == self.handlers.deep_view()[i as int]);
                    }
                    if self.handlers[i].rule.matches(&header) {
                        acts.push(Action::InvokeSignal { callback: self.handlers[i].callback });
                        proof {
                            assert(acts.deep_view() =~= signal_actions(
                                self.handlers.deep_view().take(i + 1 as int),
                                header@,
                            ));
                        }
                    } else {
                        proof {
                            assert(acts.deep_view() =~= signal_actions(
                                self.handlers.deep_view().take(i + 1 as int),
                                header@,
                            ));
                        }
                    }
                    i = i + 1;
                }
                proof {
                    assert(self.handlers.deep_view().take(n as int)
                        =~= self.handlers.deep_view());
                    assert((self@, acts.deep_view()) == spec_dispatch(
                        old(self)@,
                        BusMessage { header, body }@,
                    ));
                }
                acts
            },
            MsgKind::MethodReturn | MsgKind::Error => {
                let Some(reply_serial) = header.reply_serial else {
                    proof {
                        assert(acts.deep_view() =~= Seq::<ActionV>::empty());
                    }
                    return acts;
                };
                let mut found: Option<usize> = None;
                let n = self.pending.len();
                let mut i: usize = 0;
                while i < n
                    invariant
                        n == self.pending.len(),
                        i <= n,
                        match found {
                            Some(k) => k < i && self.pending@[k as int].serial == reply_serial
                                && forall|j: int|
                                0 <= j < k ==> (#[trigger] self.pending@[j]).serial
                                    != reply_serial,
                            None => forall|j: int|
                                0 <= j < i ==> (#[trigger] self.pending@[j]).serial
                                    != reply_serial,
                        },
                    decreases n - i,
                {
                    if found.is_none() && self.pending[i].serial == reply_serial {
                        found = Some(i);
                    }
                    i = i + 1;
                }
                proof {
                    match found {
                        Option::Some(k) => {
                            lemma_find_serial_at(self.pending@, reply_serial, k as int);
                        },
                        Option::None => {
                            lemma_find_serial_none(self.pending@, reply_serial);
                        },
                    }
                }
                let Some(k) = found else {
                    proof {
                        assert(acts.deep_view() =~= Seq::<ActionV>::empty());
                    }
                    return acts;
                };
                let callback = self.pending[k].callback;
                self.remove_pending(reply_serial);
                let is_error = match header.kind {
                    MsgKind::Error => true,
                    _ => false,
                };
                let result: Result<BusMessage, BusError> = if is_error {
                    match header.error_name {
                        None => Err(BusError::NoErrorName),
                        Some(name) => match body {
                            Body::Str(text) => Err(BusError::ErrorReply(name, text)),
                            _ => Err(BusError::NoErrorBody),
                        },
                    }
                } else {
                    Ok(BusMessage { header, body })
                };
                acts.push(Action::InvokeReply { callback, result });
                proof {
                    assert(acts.deep_view() =~= seq![
                        ActionV::InvokeReply {
                            callback,
                            result: reply_result_v(msg@),
                        },
                    ]);
                }
                acts
            },
            MsgKind::MethodCall => {
                let token_serial = header.serial;
                if header.interface.is_none() || header.path.is_none() || header.member.is_none() {
                    if !header.no_reply_expected {
                        self.reply_error_to(
                            token_serial,
                            header.sender,
                            "Application did not send a reply",
                        );
                    }
                    proof {
                        assert(acts.deep_view() =~= Seq::<ActionV>::empty());
                    }
                    return acts;
                }
                let interface = match header.interface {
                    Some(s) => s,
                    None => {
                        proof {
                            assert(false);
                        }
                        String::new()
                    },
                };
                let path = match header.path {
                    Some(s) => s,
                    None => {
                        proof {
                            assert(false);
                        }
                        String::new()
                    },
                };
                let member = match header.member {
                    Some(s) => s,
                    None => {
                        proof {
                            assert(false);
                        }
                        String::new()
                    },
                };
                let oi = match self.find_object_index(path.as_str()) {
                    Some(oi) => oi,
                    None => {
                        proof {
                            lemma_find_object_none(self@.objects, path@);
                        }
                        self.reply_error_to(token_serial, header.sender, "Object does not exist");
                        proof {
                            assert(acts.deep_view() =~= Seq::<ActionV>::empty());
                        }
                        return acts;
                    },
                };
                proof {
                    lemma_find_object_at(self@.objects, path@, oi as int);
                }
                let is_props = str_eq(interface.as_str(), "org.freedesktop.DBus.Properties");
                if is_props && str_eq(member.as_str(), "Get") {
                    match body {
                        Body::StrPair(want_iface, want_prop) => {
                            if !crate::names::check_interface_name(want_iface.as_str()) {
                                self.reply_error_to(
                                    token_serial,
                                    header.sender,
                                    "Invalid interface name",
                                );
                            } else if !crate::names::check_member_name(want_prop.as_str()) {
                                self.reply_error_to(
                                    token_serial,
                                    header.sender,
                                    "Invalid member name",
                                );
                            } else {
                                let value = self.find_property_value(
                                    oi,
                                    want_iface.as_str(),
                                    want_prop.as_str(),
                                );
                                match value {
                                    Some(v) => {
                                        let token = ReplyToken {
                                            serial: token_serial,
                                            sender: header.sender,
                                            no_reply_expected: header.no_reply_expected,
                                        };
                                        self.send_reply(token, Body::Value(v));
                                    },
                                    None => {
                                        self.reply_error_to(
                                            token_serial,
                                            header.sender,
                                            "Property does not exist",
                                        );
                                    },
                                }
                            }
                        },
                        _ => {
                            self.reply_error_to(
                                token_serial,
                                header.sender,
                                "Could not deserialize message body",
                            );
                        },
                    }
                    proof {
                        assert(acts.deep_view() =~= Seq::<ActionV>::empty());
                    }
                    acts
                } else if is_props && str_eq(member.as_str(), "GetAll") {
                    match body {
                        Body::Str(want_iface) => {
                            if !crate::names::check_interface_name(want_iface.as_str()) {
                                self.reply_error_to(
                                    token_serial,
                                    header.sender,
                                    "Invalid interface name",
                                );
                            } else {
                                let dict = self.collect_interface_props(oi, want_iface.as_str());
                                let token = ReplyToken {
                                    serial: token_serial,
                                    sender: header.sender,
                                    no_reply_expected: header.no_reply_expected,
                                };
                                self.send_reply(token, Body::PropDict(dict));
                            }
                        },
                        _ => {
                            self.reply_error_to(
                                token_serial,
                                header.sender,
                                "Could not deserialize message body",
                            );
                        },
                    }
                    proof {
                        assert(acts.deep_view() =~= Seq::<ActionV>::empty());
                    }
                    acts
                } else {
                    let cb = self.find_method_callback(oi, interface.as_str(), member.as_str());
                    match cb {
                        Some(callback) => {
                            let token = ReplyToken {
                                serial: token_serial,
                                sender: header.sender,
                                no_reply_expected: header.no_reply_expected,
                            };
                            acts.push(Action::InvokeMethod { callback, token });
                            proof {
                                assert(acts.deep_view() =~= seq![
                                    ActionV::InvokeMethod {
                                        callback,
                                        token: ReplyTokenV {
                                            serial: msg@.header.serial,
                                            sender: msg@.header.sender,
                                            no_reply_expected: msg@.header.no_reply_expected,
                                        },
                                    },
                                ]);
                            }
                            acts
                        },
                        None => {
                            self.reply_error_to(
                                token_serial,
                                header.sender,
                                "Method does not exist",
                            );
                            proof {
                                assert(acts.deep_view() =~= Seq::<ActionV>::empty());
                            }
                            acts
                        },
                    }
                }
            },
        }
    }

    /// A copy of the value of property `(interface, member)` of object `oi`.
    fn find_property_value(&self, oi: usize, interface: &str, member: &str) -> (r: Option<
        PropValue,
    >)
        requires
            oi < self@.objects.len(),
        ensures
            match r {
                Some(v) => find_property(self@.objects[oi as int].properties, interface@, member@)
                    matches Some(pe) && pe.value == v@,
                None => find_property(
                    self@.objects[oi as int].properties,
                    interface@,
                    member@,
                ) is None,
            },
    {
        let ps = &self.objects[oi].properties;
        let n = ps.len();
        let mut i: usize = 0;
        while i < n
            invariant
                oi < self@.objects.len(),
                ps == &self.objects@[oi as int].properties,
                n == ps@.len(),
                i <= n,
                forall|j: int|
                    0 <= j < i ==> !((#[trigger] ps.deep_view()[j]).interface == interface@
                        && ps.deep_view()[j].member == member@),
            decreases n - i,
        {
            if str_eq(ps[i].interface.as_str(), interface) && str_eq(
                ps[i].member.as_str(),
                member,
            ) {
                proof {
                    lemma_find_property_at(ps.deep_view(), interface@, member@, i as int);
                }
                return Some(ps[i].value.dup());
            }
            i = i + 1;
        }
        proof {
            lemma_find_property_none(ps.deep_view(), interface@, member@);
        }
        None
    }

    /// The properties of one interface of object `oi`, in table order.
    fn collect_interface_props(&self, oi: usize, interface: &str) -> (r: Vec<(String, PropValue)>)
        requires
            oi < self@.objects.len(),
        ensures
            crate::msg::dict_view(r@) == interface_props(
                self@.objects[oi as int].properties,
                interface@,
            ),
    {
        let ps = &self.objects[oi].properties;
        let n = ps.len();
        let mut r: Vec<(String, PropValue)> = Vec::new();
        let mut i: usize = 0;
        while i < n
            invariant
                oi < self@.objects.len(),
                ps == &self.objects@[oi as int].properties,
                n == ps@.len(),
                i <= n,
                crate::msg::dict_view(r@) == interface_props(
                    ps.deep_view().take(i as int),
                    interface@,
                ),
            decreases n - i,
        {
            proof {
                assert(ps.deep_view().take(i + 1 as int).drop_last() =~= ps.deep_view().take(
                    i as int,
                ));
                assert(ps.deep_view().take(i + 1 as int).last() == ps.deep_view()[i as int]);
            }
            if str_eq(ps[i].interface.as_str(), interface) {
                r.push((ps[i].member.clone(), ps[i].value.dup()));
                proof {
                    assert(crate::msg::dict_view(r@) =~= interface_props(
                        ps.deep_view().take(i + 1 as int),
                        interface@,
                    ));
                }
            } else {
                proof {
                    assert(crate::msg::dict_view(r@) =~= interface_props(
                        ps.deep_view().take(i + 1 as int),
                        interface@,
                    ));
                }
            }
            i = i + 1;
        }
        proof {
            assert(ps.deep_view().take(n as int) =~= ps.deep_view());
        }
        r
    }

    /// The callback bound to method `(interface, member)` of object `oi`.
    fn find_method_callback(&self, oi: usize, interface: &str, member: &str) -> (r: Option<u64>)
        requires
            oi < self@.objects.len(),
        ensures
            match r {
                Some(cb) => find_method(self@.objects[oi as int].methods, interface@, member@)
                    matches Some(me) && me.callback == cb,
                None => find_method(self@.objects[oi as int].methods, interface@, member@) is None,
            },
    {
        let ms = &self.objects[oi].methods;
        let n = ms.len();
        let mut i: usize = 0;
        while i < n
            invariant
                oi < self@.objects.len(),
                ms == &self.objects@[oi as int].methods,
                n == ms@.len(),
                i <= n,
                forall|j: int|
                    0 <= j < i ==> !((#[trigger] ms.deep_view()[j]).interface == interface@
                        && ms.deep_view()[j].member == member@),
            decreases n - i,
        {
            if str_eq(ms[i].interface.as_str(), interface) && str_eq(
                ms[i].member.as_str(),
                member,
            ) {
                proof {
                    lemma_find_method_at(ms.deep_view(), interface@, member@, i as int);
                }
                return Some(ms[i].callback);
            }
            i = i + 1;
        }
        proof {
            lemma_find_method_none(ms.deep_view(), interface@, member@);
        }
        None
    }
}

/// [`find_serial`] returns the first match.
pub proof fn lemma_find_serial_at(p: Seq<PendingEntry>, serial: u32, i: int)
    requires
        0 <= i < p.len(),
        p[i].serial == serial,
        forall|j: int| 0 <= j < i ==> (#[trigger] p[j]).serial != serial,
    ensures
        find_serial(p, serial) == Option::Some(p[i]),
    decreases i,
{
    if i > 0 {
        lemma_find_serial_at(p.drop_first(), serial, i - 1);
    }
}

/// [`find_serial`] finds nothing when no entry matches.
pub proof fn lemma_find_serial_none(p: Seq<PendingEntry>, serial: u32)
    requires
        forall|j: int| 0 <= j < p.len() ==> (#[trigger] p[j]).serial != serial,
    ensures
        find_serial(p, serial) is None,
    decreases p.len(),
{
    if p.len() > 0 {
        lemma_find_serial_none(p.drop_first(), serial);
    }
}

/// One `call_async` request, for stating laws about runs of calls.
#[verifier::ext_equal]
pub struct CallDescV {
    pub destination: Seq<char>,
    pub interface: Seq<char>,
    pub path: Seq<char>,
    pub member: Seq<char>,
    pub body: BodyV,
    pub callback: u64,
}

/// The transition of `call_async` on a live client: one pending entry and
/// one outgoing message, atomically.
pub open spec fn spec_call_async(c: ClientV, d: CallDescV) -> ClientV {
    ClientV {
        next_serial: (c.next_serial + 1) as u32,
        pending: c.pending.push(PendingEntry { serial: c.next_serial, callback: d.callback }),
        outgoing: c.outgoing.push(
            method_call_v(c.next_serial, d.destination, d.interface, d.path, d.member, d.body, false),
        ),
        ..c
    }
}

/// A run of calls issued back to back, with no intervening await or
/// dispatch.
pub open spec fn issue_all(c: ClientV, ds: Seq<CallDescV>) -> ClientV
    decreases ds.len(),
{
    if ds.len() == 0 {
        c
    } else {
        issue_all(spec_call_async(c, ds[0]), ds.drop_first())
    }
}

/// The transition of dropping a call handle.
pub open spec fn spec_drop_call(c: ClientV, serial: u32, detached: bool) -> ClientV {
    if detached {
        c
    } else {
        ClientV { pending: remove_serial(c.pending, serial), ..c }
    }
}

/// Pipelining law: a run of N calls issued without any intervening await
/// puts exactly N messages on the outgoing FIFO, in issuance order, with
/// consecutive serials; nothing already queued moves.
pub proof fn lemma_calls_leave_in_issuance_order(c: ClientV, ds: Seq<CallDescV>)
    requires
        !c.killed,
        c.next_serial + ds.len() <= u32::MAX,
    ensures
        issue_all(c, ds).outgoing.len() == c.outgoing.len() + ds.len(),
        forall|i: int|
            0 <= i < c.outgoing.len() ==> issue_all(c, ds).outgoing[i] == c.outgoing[i],
        forall|i: int|
            0 <= i < ds.len() ==> issue_all(c, ds).outgoing[c.outgoing.len() + i] == method_call_v(
                (c.next_serial + i) as u32,
                ds[i].destination,
                ds[i].interface,
                ds[i].path,
                ds[i].member,
                ds[i].body,
                false,
            ),
    decreases ds.len(),
{
    if ds.len() > 0 {
        let c1 = spec_call_async(c, ds[0]);
        assert(c1.next_serial == c.next_serial + 1);
        assert(c1.outgoing.len() == c.outgoing.len() + 1);
        assert(c1.outgoing[c.outgoing.len() as int] == method_call_v(
            c.next_serial,
            ds[0].destination,
            ds[0].interface,
            ds[0].path,
            ds[0].member,
            ds[0].body,
            false,
        ));
        lemma_calls_leave_in_issuance_order(c1, ds.drop_first());
        assert forall|i: int| 0 <= i < ds.len() implies issue_all(c, ds).outgoing[c.outgoing.len()
            + i] == method_call_v(
            (c.next_serial + i) as u32,
            ds[i].destination,
            ds[i].interface,
            ds[i].path,
            ds[i].member,
            ds[i].body,
            false,
        ) by {
            if i == 0 {
                assert(issue_all(c, ds).outgoing[c.outgoing.len() as int] == c1.outgoing[c.outgoing.len() as int]);
                assert((c.next_serial + 0) as u32 == c.next_serial);
            } else {
                assert(ds.drop_first()[i - 1] == ds[i]);
                assert(issue_all(c1, ds.drop_first()).outgoing[c1.outgoing.len() + (i - 1)]
                    == method_call_v(
                    (c1.next_serial + (i - 1)) as u32,
                    ds[i].destination,
                    ds[i].interface,
                    ds[i].path,
                    ds[i].member,
                    ds[i].body,
                    false,
                ));
                assert((c1.next_serial + (i - 1)) as u32 == (c.next_serial + i) as u32);
            }
        }
        assert forall|i: int| 0 <= i < c.outgoing.len() implies issue_all(c, ds).outgoing[i]
            == c.outgoing[i] by {
            assert(issue_all(c, ds).outgoing[i] == c1.outgoing[i]);
        }
    }
}

/// Dispatch invokes reply callbacks only for entries of the pending
/// table, and never adds a pending entry.
pub proof fn lemma_dispatch_invokes_only_pending(c: ClientV, m: BusMessageV)
    ensures
        forall|i: int|
            0 <= i < spec_dispatch(c, m).1.len() ==> match #[trigger] spec_dispatch(c, m).1[i] {
                ActionV::InvokeReply { callback, .. } => c.has_pending_callback(callback),
                _ => true,
            },
        forall|cb: u64|
            #[trigger] spec_dispatch(c, m).0.has_pending_callback(cb)
                ==> c.has_pending_callback(cb),
{
    let (c2, acts) = spec_dispatch(c, m);
    let removing = {
        &&& !c.killed
        &&& (m.header.kind == MsgKind::MethodReturn || m.header.kind == MsgKind::Error)
        &&& m.header.reply_serial is Some
        &&& find_serial(c.pending, m.header.reply_serial->Some_0) is Some
    };
    if removing {
        let s = m.header.reply_serial->Some_0;
        let e = find_serial(c.pending, s)->Some_0;
        lemma_find_serial_in_table(c.pending, s);
        lemma_remove_serial_subset(c.pending, s);
        assert(c.has_pending_callback(e.callback)) by {
            let j = choose|j: int| 0 <= j < c.pending.len() && c.pending[j] == e;
            assert(c.pending[j].callback == e.callback);
        }
        assert forall|i: int| 0 <= i < acts.len() implies match #[trigger] acts[i] {
            ActionV::InvokeReply { callback, .. } => c.has_pending_callback(callback),
            _ => true,
        } by {
            assert(acts[i] == (ActionV::InvokeReply {
                callback: e.callback,
                result: reply_result_v(m),
            }));
        }
        assert forall|cb: u64| #[trigger]
        c2.has_pending_callback(cb) implies c.has_pending_callback(cb) by {
            let i = choose|i: int| 0 <= i < c2.pending.len() && c2.pending[i].callback == cb;
            let j = choose|j: int| 0 <= j < c.pending.len() && c.pending[j] == c2.pending[i];
            assert(c.pending[j].callback == cb);
        }
    } else {
        assert(c2.pending == c.pending);
        assert forall|i: int| 0 <= i < acts.len() implies match #[trigger] acts[i] {
            ActionV::InvokeReply { callback, .. } => c.has_pending_callback(callback),
            _ => true,
        } by {
            if !c.killed && m.header.kind == MsgKind::Signal {
                lemma_signal_actions_are_signals(c.handlers, m.header);
            }
        }
    }
}

/// Every action of a signal dispatch is a signal invocation.
proof fn lemma_signal_actions_are_signals(hs: Seq<HandlerEntryV>, h: MsgHeaderV)
    ensures
        forall|i: int|
            0 <= i < signal_actions(hs, h).len() ==> (#[trigger] signal_actions(hs, h)[i])
                is InvokeSignal,
    decreases hs.len(),
{
    if hs.len() > 0 {
        lemma_signal_actions_are_signals(hs.drop_last(), h);
    }
}

/// A found serial names an entry of the table.
proof fn lemma_find_serial_in_table(p: Seq<PendingEntry>, serial: u32)
    ensures
        find_serial(p, serial) matches Option::Some(e) ==> exists|j: int|
            0 <= j < p.len() && p[j] == e,
    decreases p.len(),
{
    if p.len() > 0 {
        lemma_find_serial_in_table(p.drop_first(), serial);
        if find_serial(p, serial) is Some && p[0].serial != serial {
            let e = find_serial(p, serial)->Some_0;
            let j = choose|j: int|
                0 <= j < p.drop_first().len() && p.drop_first()[j] == e;
            assert(p[j + 1] == e);
        }
    }
}

/// The states reached and actions produced by a run of inbound messages.
pub open spec fn dispatch_all(c: ClientV, ms: Seq<BusMessageV>) -> ClientV
    decreases ms.len(),
{
    if ms.len() == 0 {
        c
    } else {
        dispatch_all(spec_dispatch(c, ms[0]).0, ms.drop_first())
    }
}

/// All actions produced by a run of inbound messages, in order.
pub open spec fn dispatch_all_actions(c: ClientV, ms: Seq<BusMessageV>) -> Seq<ActionV>
    decreases ms.len(),
{
    if ms.len() == 0 {
        Seq::empty()
    } else {
        spec_dispatch(c, ms[0]).1 + dispatch_all_actions(spec_dispatch(c, ms[0]).0, ms.drop_first())
    }
}

/// Cancellation law: once no pending entry carries callback `cb`, no run
/// of inbound messages ever invokes `cb` as a reply callback. Dropping a
/// call handle removes its entry, so the dropped call's callback is never
/// invoked.
pub proof fn lemma_dropped_callback_never_invoked(c: ClientV, cb: u64, ms: Seq<BusMessageV>)
    requires
        !c.has_pending_callback(cb),
    ensures
        forall|i: int|
            0 <= i < dispatch_all_actions(c, ms).len() ==> match #[trigger] dispatch_all_actions(
                c,
                ms,
            )[i] {
                ActionV::InvokeReply { callback, .. } => callback != cb,
                _ => true,
            },
    decreases ms.len(),
{
    if ms.len() > 0 {
        let (c1, a1) = spec_dispatch(c, ms[0]);
        lemma_dispatch_invokes_only_pending(c, ms[0]);
        assert(!c1.has_pending_callback(cb)) by {
            if c1.has_pending_callback(cb) {
                assert(spec_dispatch(c, ms[0]).0.has_pending_callback(cb));
                assert(c.has_pending_callback(cb));
            }
        }
        lemma_dropped_callback_never_invoked(c1, cb, ms.drop_first());
        assert forall|i: int| 0 <= i < dispatch_all_actions(c, ms).len() implies match #[trigger]
        dispatch_all_actions(c, ms)[i] {
            ActionV::InvokeReply { callback, .. } => callback != cb,
            _ => true,
        } by {
            if i >= a1.len() {
                assert(dispatch_all_actions(c, ms)[i] == dispatch_all_actions(
                    c1,
                    ms.drop_first(),
                )[i - a1.len()]);
            }
        }
    }
}

/// Dropping a call handle removes the call's entry; if that was the only
/// entry for its callback, the callback is no longer registered.
pub proof fn lemma_drop_call_unregisters(c: ClientV, serial: u32, cb: u64)
    requires
        forall|i: int|
            0 <= i < c.pending.len() ==> ((#[trigger] c.pending[i]).callback == cb
                ==> c.pending[i].serial == serial),
    ensures
        !spec_drop_call(c, serial, false).has_pending_callback(cb),
{
    lemma_remove_serial_subset(c.pending, serial);
    let c2 = spec_drop_call(c, serial, false);
    if c2.has_pending_callback(cb) {
        let i = choose|i: int| 0 <= i < c2.pending.len() && c2.pending[i].callback == cb;
        let j = choose|j: int| 0 <= j < c.pending.len() && c.pending[j] == c2.pending[i];
        assert(c2.pending[i].serial != serial);
        assert(false);
    }
}

/// Detach law: dropping a detached handle leaves the client unchanged, so
/// the callback stays registered and the reply still reaches it.
pub proof fn lemma_detached_drop_keeps_entry(c: ClientV, serial: u32)
    ensures
        spec_drop_call(c, serial, true) == c,
{
}

/// Whether a message is a reply (method return or error) carrying
/// reply-serial `s`.
pub open spec fn is_reply_for(m: BusMessageV, s: u32) -> bool {
    &&& (m.header.kind == MsgKind::MethodReturn || m.header.kind == MsgKind::Error)
    &&& m.header.reply_serial == Option::Some(s)
}

/// Exactly-once delivery: on a live, well-formed client, a reply for a
/// registered serial invokes that entry's callback exactly once and
/// removes the entry; for an unregistered serial nothing is invoked and
/// nothing changes.
pub proof fn lemma_reply_dispatch_exact(c: ClientV, m: BusMessageV, s: u32)
    requires
        c.wf(),
        !c.killed,
        is_reply_for(m, s),
    ensures
        c.pending_has(s) ==> {
            &&& spec_dispatch(c, m).1.len() == 1
            &&& (spec_dispatch(c, m).1[0] matches ActionV::InvokeReply { callback, result }
                && find_serial(c.pending, s) matches Option::Some(e) && callback == e.callback
                && result == reply_result_v(m))
            &&& !spec_dispatch(c, m).0.pending_has(s)
            &&& spec_dispatch(c, m).0.pending == remove_serial(c.pending, s)
        },
        !c.pending_has(s) ==> spec_dispatch(c, m) == (c, Seq::<ActionV>::empty()),
{
    if c.pending_has(s) {
        let i = choose|i: int| 0 <= i < c.pending.len() && c.pending[i].serial == s;
        let k = first_serial_index(c.pending, s, i);
        lemma_find_serial_at(c.pending, s, k);
        lemma_remove_serial_subset(c.pending, s);
        let c2 = spec_dispatch(c, m).0;
        if c2.pending_has(s) {
            let a = choose|a: int| 0 <= a < c2.pending.len() && c2.pending[a].serial == s;
            assert(false);
        }
    } else {
        lemma_find_serial_none(c.pending, s);
    }
}

/// The least index of an entry with serial `s`, given one such index.
proof fn first_serial_index(p: Seq<PendingEntry>, s: u32, i: int) -> (k: int)
    requires
        0 <= i < p.len(),
        p[i].serial == s,
    ensures
        0 <= k < p.len(),
        p[k].serial == s,
        forall|j: int| 0 <= j < k ==> (#[trigger] p[j]).serial != s,
    decreases i,
{
    if exists|j: int| 0 <= j < i && (#[trigger] p[j]).serial == s {
        let j = choose|j: int| 0 <= j < i && (#[trigger] p[j]).serial == s;
        first_serial_index(p, s, j)
    } else {
        i
    }
}

/// A one-action list counts at most one reply invocation.
proof fn lemma_count_single(a: Seq<ActionV>)
    requires
        a.len() == 1,
    ensures
        count_reply_invocations(a) <= 1,
{
    assert(a.drop_last().len() == 0);
    assert(count_reply_invocations(a.drop_last()) == 0);
}

/// The number of reply invocations in a list of actions.
pub open spec fn count_reply_invocations(acts: Seq<ActionV>) -> int
    decreases acts.len(),
{
    if acts.len() == 0 {
        0int
    } else {
        count_reply_invocations(acts.drop_last()) + match acts.last() {
            ActionV::InvokeReply { .. } => 1int,
            _ => 0int,
        }
    }
}

/// Dispatch preserves well-formedness of the client. (A method call can
/// enqueue a reply, so it needs serial headroom; the other kinds never
/// touch the serial counter.)
pub proof fn lemma_dispatch_preserves_wf(c: ClientV, m: BusMessageV)
    requires
        c.wf(),
        m.header.kind == MsgKind::MethodCall ==> c.next_serial < u32::MAX,
    ensures
        spec_dispatch(c, m).0.wf(),
{
    let c2 = spec_dispatch(c, m).0;
    if !c.killed {
        match m.header.kind {
            MsgKind::MethodReturn | MsgKind::Error => {
                match m.header.reply_serial {
                    Option::Some(s) => {
                        lemma_remove_serial_wf(c.pending, s, c.next_serial);
                    },
                    Option::None => {},
                }
            },
            _ => {
                assert(c2.pending == c.pending);
            },
        }
    }
}

/// At-most-once law: over the dispatch of two replies carrying the same
/// serial, at most one reply callback is invoked in total.
pub proof fn lemma_reply_invoked_at_most_once(c: ClientV, m1: BusMessageV, m2: BusMessageV, s: u32)
    requires
        c.wf(),
        is_reply_for(m1, s),
        is_reply_for(m2, s),
    ensures
        ({
            let (c1, a1) = spec_dispatch(c, m1);
            let (c2, a2) = spec_dispatch(c1, m2);
            count_reply_invocations(a1 + a2) <= 1
        }),
{
    let (c1, a1) = spec_dispatch(c, m1);
    let (c2, a2) = spec_dispatch(c1, m2);
    if c.killed {
        assert(a1 =~= Seq::<ActionV>::empty());
        assert(c1 == c);
        assert(a2 =~= Seq::<ActionV>::empty());
        assert((a1 + a2) =~= Seq::<ActionV>::empty());
    } else {
        lemma_reply_dispatch_exact(c, m1, s);
        if c.pending_has(s) {
            assert(!c1.pending_has(s));
            assert(!c1.killed);
            lemma_dispatch_preserves_wf(c, m1);
            assert(c1.next_serial == c.next_serial);
            lemma_reply_dispatch_exact(c1, m2, s);
            assert(a2 =~= Seq::<ActionV>::empty());
            assert((a1 + a2) =~= a1);
            lemma_count_single(a1);
        } else {
            assert(a1 =~= Seq::<ActionV>::empty());
            assert(c1 == c);
            lemma_reply_dispatch_exact(c1, m2, s);
            assert(a2 =~= Seq::<ActionV>::empty());
            assert((a1 + a2) =~= Seq::<ActionV>::empty());
        }
    }
}

/// Kill law: tearing the client down fails every entry present in the
/// pending table exactly once with `Killed`, in table order.
pub proof fn lemma_kill_fails_each_pending_once(p: Seq<PendingEntry>)
    ensures
        spec_kill_actions(p).len() == p.len(),
        forall|i: int|
            0 <= i < p.len() ==> spec_kill_actions(p)[i] == (ActionV::InvokeReply {
                callback: p[i].callback,
                result: Err::<BusMessageV, BusErrorV>(BusErrorV::Killed),
            }),
{
}

/// Actions of a prefix of the handler table are a prefix of the actions
/// of the whole table.
proof fn lemma_signal_actions_prefix(hs: Seq<HandlerEntryV>, h: MsgHeaderV, m: int)
    requires
        0 <= m <= hs.len(),
    ensures
        signal_actions(hs.take(m), h).len() <= signal_actions(hs, h).len(),
        signal_actions(hs, h).take(signal_actions(hs.take(m), h).len() as int) == signal_actions(
            hs.take(m),
            h,
        ),
    decreases hs.len() - m,
{
    if m == hs.len() {
        assert(hs.take(m) =~= hs);
        assert(signal_actions(hs, h).take(signal_actions(hs, h).len() as int) =~= signal_actions(
            hs,
            h,
        ));
    } else {
        lemma_signal_actions_prefix(hs, h, m + 1);
        assert(hs.take(m + 1).drop_last() =~= hs.take(m));
        assert(hs.take(m + 1).last() == hs[m]);
        let sm = signal_actions(hs.take(m), h);
        let sm1 = signal_actions(hs.take(m + 1), h);
        assert(sm1.take(sm.len() as int) =~= sm);
        assert(signal_actions(hs, h).take(sm.len() as int) =~= sm);
    }
}

/// Where one matching handler's action lands: right after the actions of
/// the table prefix before it.
pub proof fn lemma_signal_action_at(hs: Seq<HandlerEntryV>, h: MsgHeaderV, i: int)
    requires
        0 <= i < hs.len(),
        crate::msg::rule_matches(hs[i].rule, h),
    ensures
        signal_actions(hs.take(i), h).len() < signal_actions(hs, h).len(),
        signal_actions(hs, h)[signal_actions(hs.take(i), h).len() as int]
            == (ActionV::InvokeSignal { callback: hs[i].callback }),
{
    lemma_signal_actions_prefix(hs, h, i + 1);
    assert(hs.take(i + 1).drop_last() =~= hs.take(i));
    assert(hs.take(i + 1).last() == hs[i]);
    let sm = signal_actions(hs.take(i), h);
    let sm1 = signal_actions(hs.take(i + 1), h);
    assert(sm1[sm.len() as int] == (ActionV::InvokeSignal { callback: hs[i].callback }));
    assert(signal_actions(hs, h).take(sm1.len() as int) == sm1);
}

/// The action count over table prefixes never decreases.
proof fn lemma_signal_actions_monotone(hs: Seq<HandlerEntryV>, h: MsgHeaderV, a: int, b: int)
    requires
        0 <= a <= b <= hs.len(),
    ensures
        signal_actions(hs.take(a), h).len() <= signal_actions(hs.take(b), h).len(),
    decreases b - a,
{
    if a < b {
        lemma_signal_actions_monotone(hs, h, a, b - 1);
        assert(hs.take(b).drop_last() =~= hs.take(b - 1));
    }
}

/// Registration-order law: among handlers matching the same message, the
/// dispatch actions appear in registration order.
pub proof fn lemma_signal_dispatch_in_registration_order(
    hs: Seq<HandlerEntryV>,
    h: MsgHeaderV,
    i: int,
    j: int,
)
    requires
        0 <= i < j < hs.len(),
        crate::msg::rule_matches(hs[i].rule, h),
        crate::msg::rule_matches(hs[j].rule, h),
    ensures
        ({
            let ai = signal_actions(hs.take(i), h).len() as int;
            let aj = signal_actions(hs.take(j), h).len() as int;
            &&& ai < aj < signal_actions(hs, h).len()
            &&& signal_actions(hs, h)[ai] == (ActionV::InvokeSignal { callback: hs[i].callback })
            &&& signal_actions(hs, h)[aj] == (ActionV::InvokeSignal { callback: hs[j].callback })
        }),
{
    lemma_signal_action_at(hs, h, i);
    lemma_signal_action_at(hs, h, j);
    assert(hs.take(i + 1).drop_last() =~= hs.take(i));
    assert(hs.take(i + 1).last() == hs[i]);
    lemma_signal_actions_monotone(hs, h, i + 1, j);
}

/// The `Killed` actions owed when draining a pending table.
pub open spec fn spec_kill_actions(p: Seq<PendingEntry>) -> Seq<ActionV> {
    p.map_values(
        |e: PendingEntry| ActionV::InvokeReply {
            callback: e.callback,
            result: Err(BusErrorV::Killed),
        },
    )
}

/// Unfolds [`remove_serial`] by one element at the back.
proof fn lemma_remove_serial_unfold(p: Seq<PendingEntry>, serial: u32)
    requires
        p.len() > 0,
    ensures
        remove_serial(p, serial) == remove_serial(p.drop_last(), serial) + if p.last().serial
            != serial {
            seq![p.last()]
        } else {
            Seq::<PendingEntry>::empty()
        },
{
    reveal(Seq::filter);
}

/// Removal preserves well-formedness of the pending table.
proof fn lemma_remove_serial_wf(p: Seq<PendingEntry>, serial: u32, next_serial: u32)
    requires
        forall|i: int| 0 <= i < p.len() ==> 1 <= (#[trigger] p[i]).serial < next_serial,
        forall|i: int, j: int| 0 <= i < j < p.len() ==> p[i].serial != p[j].serial,
    ensures
        forall|i: int|
            0 <= i < remove_serial(p, serial).len() ==> 1 <= (#[trigger] remove_serial(
                p,
                serial,
            )[i]).serial < next_serial,
        forall|i: int, j: int|
            0 <= i < j < remove_serial(p, serial).len() ==> remove_serial(p, serial)[i].serial
                != remove_serial(p, serial)[j].serial,
    decreases p.len(),
{
    reveal(Seq::filter);
    lemma_remove_serial_subset(p, serial);
    if p.len() > 0 {
        lemma_remove_serial_wf(p.drop_last(), serial, next_serial);
        lemma_remove_serial_subset(p.drop_last(), serial);
        let r = remove_serial(p, serial);
        let rd = remove_serial(p.drop_last(), serial);
        assert forall|i: int, j: int| 0 <= i < j < r.len() implies r[i].serial != r[j].serial by {
            if j < rd.len() {
                assert(r[i] == rd[i] && r[j] == rd[j]);
            } else {
                assert(r[j] == p.last());
                let k = choose|k: int| 0 <= k < p.drop_last().len() && p.drop_last()[k] == rd[i];
                assert(p[k].serial != p[p.len() - 1].serial);
            }
        }
    }
}

/// Removal keeps a subsequence: every kept entry already existed, and
/// entries for other serials are all kept.
proof fn lemma_remove_serial_subset(p: Seq<PendingEntry>, serial: u32)
    ensures
        forall|i: int| 0 <= i < remove_serial(p, serial).len() ==> (#[trigger] remove_serial(
            p,
            serial,
        )[i]).serial != serial,
        remove_serial(p, serial).len() <= p.len(),
        forall|i: int|
            0 <= i < remove_serial(p, serial).len() ==> exists|j: int|
                0 <= j < p.len() && p[j] == (#[trigger] remove_serial(p, serial)[i]),
    decreases p.len(),
{
    reveal(Seq::filter);
    if p.len() > 0 {
        lemma_remove_serial_subset(p.drop_last(), serial);
        assert forall|i: int| 0 <= i < remove_serial(p, serial).len() implies exists|j: int|
            0 <= j < p.len() && p[j] == (#[trigger] remove_serial(p, serial)[i]) by {
            let r = remove_serial(p, serial);
            let rd = remove_serial(p.drop_last(), serial);
            if i < rd.len() {
                let j = choose|j: int| 0 <= j < p.drop_last().len() && p.drop_last()[j] == rd[i];
                assert(p[j] == r[i]);
            } else {
                assert(p[p.len() - 1] == r[i]);
            }
        }
    }
}

/// The actions a send failure produces: the failing serial's callback is
/// owed a `Send` error first, then every other pending entry a `Killed`
/// one, in table order.
pub open spec fn spec_send_fail_actions(p: Seq<PendingEntry>, serial: u32) -> Seq<ActionV> {
    (match find_serial(p, serial) {
        Option::Some(e) => seq![
            ActionV::InvokeReply {
                callback: e.callback,
                result: Err::<BusMessageV, BusErrorV>(BusErrorV::Send),
            },
        ],
        Option::None => Seq::empty(),
    }) + spec_kill_actions(remove_serial(p, serial))
}

impl Client {
    /// The callback of the first pending entry for `serial`.
    fn find_pending_callback(&self, serial: u32) -> (r: Option<u64>)
        ensures
            match find_serial(self@.pending, serial) {
                Option::Some(e) => r == Option::Some(e.callback),
                Option::None => r is None,
            },
    {
        let n = self.pending.len();
        let mut i: usize = 0;
        while i < n
            invariant
                n == self.pending@.len(),
                i <= n,
                forall|j: int| 0 <= j < i ==> (#[trigger] self.pending@[j]).serial != serial,
            decreases n - i,
        {
            if self.pending[i].serial == serial {
                proof {
                    lemma_find_serial_at(self.pending@, serial, i as int);
                }
                return Some(self.pending[i].callback);
            }
            i = i + 1;
        }
        proof {
            lemma_find_serial_none(self.pending@, serial);
        }
        None
    }

    /// Tears the client down after the wire write of `serial`'s message
    /// failed: that one call's callback is owed a `Send` error, then the
    /// client is killed and every other pending entry's callback is owed
    /// a `Killed` error, in table order.
    pub fn fail_send(&mut self, serial: u32) -> (failed: Vec<Action>)
        ensures
            final(self)@.killed == true,
            final(self)@.next_serial == old(self)@.next_serial,
            final(self)@.next_handler_id == old(self)@.next_handler_id,
            final(self)@.pending == Seq::<PendingEntry>::empty(),
            final(self)@.handlers == Seq::<HandlerEntryV>::empty(),
            final(self)@.objects == Seq::<ObjectEntryV>::empty(),
            final(self)@.outgoing == old(self)@.outgoing,
            failed.deep_view() == spec_send_fail_actions(old(self)@.pending, serial),
            old(self)@.wf() ==> final(self)@.wf(),
    {
        let cb = self.find_pending_callback(serial);
        let mut failed: Vec<Action> = Vec::new();
        match cb {
            Some(c) => {
                failed.push(Action::InvokeReply { callback: c, result: Err(BusError::Send) });
            },
            None => {},
        }
        let ghost pre = failed.deep_view();
        proof {
            assert(pre =~= (match find_serial(old(self)@.pending, serial) {
                Option::Some(e) => seq![
                    ActionV::InvokeReply {
                        callback: e.callback,
                        result: Err::<BusMessageV, BusErrorV>(BusErrorV::Send),
                    },
                ],
                Option::None => Seq::<ActionV>::empty(),
            }));
        }
        self.remove_pending(serial);
        let mut rest = self.kill();
        let ghost restv = rest.deep_view();
        let m = rest.len();
        let mut k: usize = 0;
        while k < m
            invariant
                rest@.len() == m - k,
                restv.len() == m,
                forall|j: int| 0 <= j < m - k ==> rest.deep_view()[j] == restv[k + j],
                failed.deep_view() == pre + restv.take(k as int),
                k <= m,
            decreases m - k,
        {
            let ghost prev = rest@;
            let ghost prevdv = rest.deep_view();
            let a = rest.remove(0);
            proof {
                assert(a@ == restv[k as int]) by {
                    assert(prevdv[0] == prev[0]@);
                }
                assert forall|j: int| 0 <= j < m - k - 1 implies rest.deep_view()[j] == restv[k + 1
                    + j] by {
                    assert(rest@[j] == prev[j + 1]);
                    assert(prevdv[j + 1] == restv[k + 1 + j]);
                    assert(prevdv[j + 1] == prev[j + 1]@);
                    assert(rest.deep_view()[j] == rest@[j]@);
                }
            }
            let ghost f0 = failed.deep_view();
            failed.push(a);
            proof {
                assert(failed.deep_view() =~= f0.push(a@));
                assert(restv.take(k + 1).drop_last() =~= restv.take(k as int));
                assert(restv.take(k + 1).last() == restv[k as int]);
                assert(failed.deep_view() =~= pre + restv.take(k + 1));
            }
            k = k + 1;
        }
        proof {
            assert(restv.take(m as int) =~= restv);
            assert(failed.deep_view() =~= spec_send_fail_actions(old(self)@.pending, serial));
        }
        failed
    }
}

/// The property value carried by a typed `Properties.Get` reply: call
/// errors pass through; a successful reply whose body is not a property
/// value fails with `Deserialize`.
pub fn property_reply_value(r: Result<BusMessage, BusError>) -> (v: Result<PropValue, BusError>)
    ensures
        match r {
            Ok(m) => match m.body {
                Body::Value(pv) => v matches Ok(got) && got == pv,
                _ => v == Err::<PropValue, BusError>(BusError::Deserialize),
            },
            Err(e) => v matches Err(got) && got == e,
        },
{
    match r {
        Ok(m) => match m.body {
            Body::Value(pv) => Ok(pv),
            _ => Err(BusError::Deserialize),
        },
        Err(e) => Err(e),
    }
}

/// The string a property value converts to; any other shape fails with
/// `MapProperty`, as the typed property get surfaces it.
pub fn prop_to_str(v: PropValue) -> (r: Result<String, BusError>)
    ensures
        match v {
            PropValue::Str(s) => r matches Ok(got) && got == s,
            _ => r == Err::<String, BusError>(BusError::MapProperty),
        },
{
    match v {
        PropValue::Str(s) => Ok(s),
        _ => Err(BusError::MapProperty),
    }
}

/// The boolean a property value converts to; any other shape fails with
/// `MapProperty`.
pub fn prop_to_bool(v: PropValue) -> (r: Result<bool, BusError>)
    ensures
        match v {
            PropValue::Bool(b) => r == Ok::<bool, BusError>(b),
            _ => r == Err::<bool, BusError>(BusError::MapProperty),
        },
{
    match v {
        PropValue::Bool(b) => Ok(b),
        _ => Err(BusError::MapProperty),
    }
}

/// The object path a property value converts to; any other shape fails
/// with `MapProperty`.
pub fn prop_to_object_path(v: PropValue) -> (r: Result<String, BusError>)
    ensures
        match v {
            PropValue::ObjPath(s) => r matches Ok(got) && got == s,
            _ => r == Err::<String, BusError>(BusError::MapProperty),
        },
{
    match v {
        PropValue::ObjPath(s) => Ok(s),
        _ => Err(BusError::MapProperty),
    }
}

/// The string list a property value converts to; any other shape fails
/// with `MapProperty`.
pub fn prop_to_str_list(v: PropValue) -> (r: Result<Vec<String>, BusError>)
    ensures
        match v {
            PropValue::StrList(l) => r matches Ok(got) && got == l,
            _ => r == Err::<Vec<String>, BusError>(BusError::MapProperty),
        },
{
    match v {
        PropValue::StrList(l) => Ok(l),
        _ => Err(BusError::MapProperty),
    }
}

/// The byte array a property value converts to; any other shape fails
/// with `MapProperty`.
pub fn prop_to_bytes(v: PropValue) -> (r: Result<Vec<u8>, BusError>)
    ensures
        match v {
            PropValue::Bytes(b) => r matches Ok(got) && got == b,
            _ => r == Err::<Vec<u8>, BusError>(BusError::MapProperty),
        },
{
    match v {
        PropValue::Bytes(b) => Ok(b),
        _ => Err(BusError::MapProperty),
    }
}

} // verus!
