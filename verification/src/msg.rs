//! The model of a parsed bus message.
//!
//! The transport layer hands the core already-parsed messages; this module
//! holds their executable representation and the mathematical view that all
//! contracts speak about. A message body is modeled by the shapes the core
//! itself constructs or reads; any other payload is `Opaque` and is decoded
//! by the unverified edge.

use vstd::prelude::*;

verus! {

/// The four kinds of bus message.
#[derive(Copy, Clone, Debug, PartialEq, Eq, Structural)]
pub enum MsgKind {
    MethodCall,
    MethodReturn,
    Error,
    Signal,
}

/// A single typed value, as stored in a property table or carried in a body.
#[derive(Clone, Debug, PartialEq, Eq)]
pub enum PropValue {
    Bool(bool),
    I32(i32),
    U32(u32),
    Str(String),
    ObjPath(String),
    StrList(Vec<String>),
    Bytes(Vec<u8>),
    Other,
}

/// The mathematical view of a [`PropValue`].
#[verifier::ext_equal]
pub enum PropValueV {
    Bool(bool),
    I32(i32),
    U32(u32),
    Str(Seq<char>),
    ObjPath(Seq<char>),
    StrList(Seq<Seq<char>>),
    Bytes(Seq<u8>),
    Other,
}

impl View for PropValue {
    type V = PropValueV;

    open spec fn view(&self) -> PropValueV {
        match self {
            PropValue::Bool(b) => PropValueV::Bool(*b),
            PropValue::I32(x) => PropValueV::I32(*x),
            PropValue::U32(x) => PropValueV::U32(*x),
            PropValue::Str(s) => PropValueV::Str(s@),
            PropValue::ObjPath(s) => PropValueV::ObjPath(s@),
            PropValue::StrList(v) => PropValueV::StrList(v.deep_view()),
            PropValue::Bytes(b) => PropValueV::Bytes(b@),
            PropValue::Other => PropValueV::Other,
        }
    }
}

/// Copies a vector of strings.
pub fn dup_strings(v: &Vec<String>) -> (r: Vec<String>)
    ensures
        r.deep_view() == v.deep_view(),
{
    let mut r: Vec<String> = Vec::new();
    let mut i: usize = 0;
    while i < v.len()
        invariant
            i <= v.len(),
            r@.len() == i,
            r.deep_view() == v.deep_view().subrange(0, i as int),
        decreases v.len() - i,
    {
        r.push(v[i].clone());
        proof {
            assert(r@[i as int] == v@[i as int]);
            assert(r.deep_view() =~~= v.deep_view().subrange(0, i + 1 as int));
        }
        i = i + 1;
    }
    proof {
        assert(r.deep_view() =~~= v.deep_view());
    }
    r
}

/// Copies a byte vector.
pub fn dup_bytes(v: &Vec<u8>) -> (r: Vec<u8>)
    ensures
        r@ == v@,
{
    let mut r: Vec<u8> = Vec::new();
    let mut i: usize = 0;
    while i < v.len()
        invariant
            i <= v.len(),
            r@ == v@.subrange(0, i as int),
        decreases v.len() - i,
    {
        r.push(v[i]);
        proof {
            assert(r@ =~= v@.subrange(0, i + 1 as int));
        }
        i = i + 1;
    }
    proof {
        assert(r@ =~= v@);
    }
    r
}

impl PropValue {
    /// A copy of this value with an equal view.
    pub fn dup(&self) -> (r: PropValue)
        ensures
            r@ == self@,
    {
        match self {
            PropValue::Bool(b) => PropValue::Bool(*b),
            PropValue::I32(x) => PropValue::I32(*x),
            PropValue::U32(x) => PropValue::U32(*x),
            PropValue::Str(s) => PropValue::Str(s.clone()),
            PropValue::ObjPath(s) => PropValue::ObjPath(s.clone()),
            PropValue::StrList(v) => PropValue::StrList(dup_strings(v)),
            PropValue::Bytes(b) => PropValue::Bytes(dup_bytes(b)),
            PropValue::Other => PropValue::Other,
        }
    }
}

/// A message body, in the shapes the core constructs or reads.
#[derive(Clone, Debug, PartialEq, Eq)]
pub enum Body {
    /// The empty body.
    Unit,
    /// A single string.
    Str(String),
    /// Two strings (the arguments of a property `Get`).
    StrPair(String, String),
    /// Three strings (a `NameOwnerChanged` signal).
    StrTriple(String, String, String),
    /// A name and a flags word (a `RequestName` call).
    NameFlags(String, u32),
    /// A list of strings.
    Strings(Vec<String>),
    /// A single typed value (a property `Get` reply).
    Value(PropValue),
    /// A property dictionary (a `GetAll` reply).
    PropDict(Vec<(String, PropValue)>),
    /// Arguments of a `PropertiesChanged` signal: interface, changed
    /// entries, invalidated names.
    PropsChanged(String, Vec<(String, PropValue)>, Vec<String>),
    /// A pair of coordinates (an `Activate` call).
    Coords(i32, i32),
    /// A scroll delta and orientation.
    Scroll(i32, String),
    /// Arguments of a menu `Event` call: id, event, data byte, timestamp.
    MenuEvent(i32, String, u8, u32),
    /// Arguments of a `GetLayout` call: parent id, depth, property names.
    GetLayoutArgs(i32, i32, Vec<String>),
    /// A single 32-bit integer (an `AboutToShow` call).
    I32(i32),
    /// A match rule (an `AddMatch` or `RemoveMatch` call); the transport
    /// layer marshals it to the broker's rule syntax.
    Rule(MatchRule),
    /// A payload the core itself never reads.
    Opaque,
}

/// The mathematical view of a [`Body`].
#[verifier::ext_equal]
pub enum BodyV {
    Unit,
    Str(Seq<char>),
    StrPair(Seq<char>, Seq<char>),
    StrTriple(Seq<char>, Seq<char>, Seq<char>),
    NameFlags(Seq<char>, u32),
    Strings(Seq<Seq<char>>),
    Value(PropValueV),
    PropDict(Seq<(Seq<char>, PropValueV)>),
    PropsChanged(Seq<char>, Seq<(Seq<char>, PropValueV)>, Seq<Seq<char>>),
    Coords(i32, i32),
    Scroll(i32, Seq<char>),
    MenuEvent(i32, Seq<char>, u8, u32),
    GetLayoutArgs(i32, i32, Seq<Seq<char>>),
    I32(i32),
    Rule(MatchRuleV),
    Opaque,
}

/// The view of a list of named values.
pub open spec fn dict_view(v: Seq<(String, PropValue)>) -> Seq<(Seq<char>, PropValueV)> {
    v.map_values(|e: (String, PropValue)| (e.0@, e.1@))
}

impl View for Body {
    type V = BodyV;

    open spec fn view(&self) -> BodyV {
        match self {
            Body::Unit => BodyV::Unit,
            Body::Str(s) => BodyV::Str(s@),
            Body::StrPair(a, b) => BodyV::StrPair(a@, b@),
            Body::StrTriple(a, b, c) => BodyV::StrTriple(a@, b@, c@),
            Body::NameFlags(a, f) => BodyV::NameFlags(a@, *f),
            Body::Strings(v) => BodyV::Strings(v.deep_view()),
            Body::Value(p) => BodyV::Value(p@),
            Body::PropDict(d) => BodyV::PropDict(dict_view(d@)),
            Body::PropsChanged(i, c, inv) => BodyV::PropsChanged(i@, dict_view(c@), inv.deep_view()),
            Body::Coords(x, y) => BodyV::Coords(*x, *y),
            Body::Scroll(d, o) => BodyV::Scroll(*d, o@),
            Body::MenuEvent(id, ev, d, ts) => BodyV::MenuEvent(*id, ev@, *d, *ts),
            Body::GetLayoutArgs(p, d, n) => BodyV::GetLayoutArgs(*p, *d, n.deep_view()),
            Body::I32(x) => BodyV::I32(*x),
            Body::Rule(r) => BodyV::Rule(r@),
            Body::Opaque => BodyV::Opaque,
        }
    }
}

/// The header fields of a parsed bus message.
#[derive(Clone, Debug, PartialEq, Eq)]
pub struct MsgHeader {
    pub kind: MsgKind,
    /// The message's own serial; nonzero on outgoing messages.
    pub serial: u32,
    pub sender: Option<String>,
    pub destination: Option<String>,
    pub path: Option<String>,
    pub interface: Option<String>,
    pub member: Option<String>,
    pub error_name: Option<String>,
    pub reply_serial: Option<u32>,
    /// Whether the `NoReplyExpected` flag is set.
    pub no_reply_expected: bool,
}

/// The mathematical view of a [`MsgHeader`].
#[verifier::ext_equal]
pub struct MsgHeaderV {
    pub kind: MsgKind,
    pub serial: u32,
    pub sender: Option<Seq<char>>,
    pub destination: Option<Seq<char>>,
    pub path: Option<Seq<char>>,
    pub interface: Option<Seq<char>>,
    pub member: Option<Seq<char>>,
    pub error_name: Option<Seq<char>>,
    pub reply_serial: Option<u32>,
    pub no_reply_expected: bool,
}

impl View for MsgHeader {
    type V = MsgHeaderV;

    open spec fn view(&self) -> MsgHeaderV {
        MsgHeaderV {
            kind: self.kind,
            serial: self.serial,
            sender: self.sender.deep_view(),
            destination: self.destination.deep_view(),
            path: self.path.deep_view(),
            interface: self.interface.deep_view(),
            member: self.member.deep_view(),
            error_name: self.error_name.deep_view(),
            reply_serial: self.reply_serial,
            no_reply_expected: self.no_reply_expected,
        }
    }
}

/// A parsed bus message.
#[derive(Clone, Debug, PartialEq, Eq)]
pub struct BusMessage {
    pub header: MsgHeader,
    pub body: Body,
}

/// The mathematical view of a [`BusMessage`].
#[verifier::ext_equal]
pub struct BusMessageV {
    pub header: MsgHeaderV,
    pub body: BodyV,
}

impl View for BusMessage {
    type V = BusMessageV;

    open spec fn view(&self) -> BusMessageV {
        BusMessageV { header: self.header@, body: self.body@ }
    }
}

/// A match rule, restricted to the fields the core uses.
#[derive(Clone, Debug, PartialEq, Eq)]
pub struct MatchRule {
    pub kind: Option<MsgKind>,
    pub sender: Option<String>,
    pub path: Option<String>,
    pub interface: Option<String>,
    pub member: Option<String>,
}

/// The mathematical view of a [`MatchRule`].
#[verifier::ext_equal]
pub struct MatchRuleV {
    pub kind: Option<MsgKind>,
    pub sender: Option<Seq<char>>,
    pub path: Option<Seq<char>>,
    pub interface: Option<Seq<char>>,
    pub member: Option<Seq<char>>,
}

impl View for MatchRule {
    type V = MatchRuleV;

    open spec fn view(&self) -> MatchRuleV {
        MatchRuleV {
            kind: self.kind,
            sender: self.sender.deep_view(),
            path: self.path.deep_view(),
            interface: self.interface.deep_view(),
            member: self.member.deep_view(),
        }
    }
}

/// Whether a rule field constrains the corresponding header field.
pub open spec fn field_matches(rule: Option<Seq<char>>, hdr: Option<Seq<char>>) -> bool {
    match rule {
        Option::None => true,
        Option::Some(want) => hdr == Option::Some(want),
    }
}

/// Whether a match rule accepts a message header.
pub open spec fn rule_matches(rule: MatchRuleV, hdr: MsgHeaderV) -> bool {
    &&& match rule.kind {
        Option::None => true,
        Option::Some(k) => hdr.kind == k,
    }
    &&& field_matches(rule.sender, hdr.sender)
    &&& field_matches(rule.path, hdr.path)
    &&& field_matches(rule.interface, hdr.interface)
    &&& field_matches(rule.member, hdr.member)
}

/// Whether one optional string field of a rule accepts a header field.
fn check_field(rule: &Option<String>, hdr: &Option<String>) -> (r: bool)
    ensures
        r == field_matches(rule.deep_view(), hdr.deep_view()),
{
    match rule {
        Option::None => true,
        Option::Some(want) => {
            let e = crate::strutil::opt_str_is(hdr, want.as_str());
            proof {
                assert(rule.deep_view() == Option::Some(want@));
            }
            e
        },
    }
}

/// Copies an optional string.
pub fn dup_opt_string(o: &Option<String>) -> (r: Option<String>)
    ensures
        r.deep_view() == o.deep_view(),
{
    match o {
        Option::None => Option::None,
        Option::Some(s) => Option::Some(s.clone()),
    }
}

impl MatchRule {
    /// A copy of this rule with an equal view.
    pub fn dup(&self) -> (r: MatchRule)
        ensures
            r@ == self@,
    {
        MatchRule {
            kind: self.kind,
            sender: dup_opt_string(&self.sender),
            path: dup_opt_string(&self.path),
            interface: dup_opt_string(&self.interface),
            member: dup_opt_string(&self.member),
        }
    }

    /// A rule with no constraints.
    pub fn any() -> (r: MatchRule)
        ensures
            r@.kind == Option::<MsgKind>::None,
            r@.sender == Option::<Seq<char>>::None,
            r@.path == Option::<Seq<char>>::None,
            r@.interface == Option::<Seq<char>>::None,
            r@.member == Option::<Seq<char>>::None,
    {
        MatchRule { kind: None, sender: None, path: None, interface: None, member: None }
    }

    /// Whether this rule accepts the header `h`.
    pub fn matches(&self, h: &MsgHeader) -> (r: bool)
        ensures
            r == rule_matches(self@, h@),
    {
        let kind_ok = match self.kind {
            Option::None => true,
            Option::Some(k) => h.kind == k,
        };
        kind_ok && check_field(&self.sender, &h.sender) && check_field(&self.path, &h.path)
            && check_field(&self.interface, &h.interface) && check_field(&self.member, &h.member)
    }
}

} // verus!
