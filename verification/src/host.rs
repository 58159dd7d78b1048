//! The host side: per-process host names, the registry of tracked tray
//! items, their lifecycle, and the per-item calls to the remote peer.

use vstd::prelude::*;

use crate::client::{Action, CallHandle, Client};
use crate::msg::Body;
use crate::names::{is_bus_name, is_object_path};
use crate::strutil::{concat_str, find_char, str_eq};

verus! {

/// A tracked item's local identifier, monotone per host.
#[derive(Copy, Clone, Debug, PartialEq, Eq, Hash, Structural)]
pub struct SniItemId(pub u64);

/// The item properties that receive change notifications at runtime.
#[derive(Copy, Clone, Debug, PartialEq, Eq, Structural)]
pub enum MutableProperty {
    Title,
    Icon,
    AttentionIcon,
    OverlayIcon,
    ToolTip,
    Status,
}

/// The lifecycle of a tracked item; `Removed` is terminal.
#[derive(Copy, Clone, Debug, PartialEq, Eq, Structural)]
pub enum ItemStatus {
    New,
    Announced,
    Removed,
}

/// A raw icon frame as the peer sends it.
#[derive(Clone, Debug, PartialEq, Eq)]
pub struct IconPixmap {
    pub width: i32,
    pub height: i32,
    pub bytes: Vec<u8>,
}

/// A validated icon frame.
#[derive(Debug, PartialEq, Eq)]
pub struct IconFrame {
    pub bytes: Vec<u8>,
    pub size: (i32, i32),
}

/// A set of validated icon frames.
#[derive(Debug, PartialEq, Eq)]
pub struct IconFrames {
    pub frames: Vec<IconFrame>,
}

/// Whether a raw frame is acceptable: positive dimensions and at least
/// four bytes per pixel.
pub open spec fn pixmap_ok(width: i32, height: i32, len: nat) -> bool {
    width > 0 && height > 0 && len >= width * height * 4
}

/// The validated frames a raw frame list yields: the acceptable frames,
/// in input order, each with its bytes carried over unchanged and its
/// dimensions recorded as the size.
pub open spec fn spec_frames(s: Seq<IconPixmap>) -> Seq<IconFrame>
    decreases s.len(),
{
    if s.len() == 0 {
        Seq::empty()
    } else {
        spec_frames(s.drop_last()) + if pixmap_ok(
            s.last().width,
            s.last().height,
            s.last().bytes@.len(),
        ) {
            seq![IconFrame { bytes: s.last().bytes, size: (s.last().width, s.last().height) }]
        } else {
            Seq::empty()
        }
    }
}

impl IconFrames {
    /// Validates and converts raw frames: a frame with non-positive
    /// dimensions or fewer than `width*height*4` bytes is dropped; the
    /// rest pass through in input order, bytes untouched.
    pub fn from_pixmaps(value: Vec<IconPixmap>) -> (r: IconFrames)
        ensures
            r.frames@ == spec_frames(value@),
    {
        let mut frames: Vec<IconFrame> = Vec::new();
        let mut value = value;
        let ghost orig = value@;
        let n = value.len();
        let mut i: usize = 0;
        while i < n
            invariant
                orig.len() == n,
                value@ == orig.skip(i as int),
                i <= n,
                frames@ == spec_frames(orig.take(i as int)),
            decreases n - i,
        {
            let p = value.remove(0);
            proof {
                assert(p == orig[i as int]);
                assert(value@ =~= orig.skip(i + 1));
                assert(orig.take(i + 1).drop_last() =~= orig.take(i as int));
                assert(orig.take(i + 1).last() == orig[i as int]);
            }
            let ok = if p.width > 0 && p.height > 0 {
                proof {
                    assert((p.width as u64) * (p.height as u64) * 4 <= 0xffff_fffc_0000_0004u64)
                        by (nonlinear_arith)
                        requires
                            0 < p.width <= 0x7fff_ffff,
                            0 < p.height <= 0x7fff_ffff,
                    ;
                }
                let need: u64 = (p.width as u64) * (p.height as u64) * 4;
                (p.bytes.len() as u64) >= need
            } else {
                false
            };
            proof {
                assert(ok == pixmap_ok(p.width, p.height, p.bytes@.len()));
            }
            if ok {
                frames.push(IconFrame { bytes: p.bytes, size: (p.width, p.height) });
            }
            proof {
                assert(frames@ =~= spec_frames(orig.take(i + 1)));
            }
            i = i + 1;
        }
        proof {
            assert(orig.take(n as int) =~= orig);
        }
        IconFrames { frames }
    }
}

/// A tooltip record.
#[derive(Clone, Debug, PartialEq, Eq)]
pub struct Tooltip {
    pub icon_name: String,
    pub icon_data: Vec<IconPixmap>,
    pub title: String,
    pub text: String,
}

/// The property snapshot of a tracked item.
#[derive(Debug, PartialEq, Eq)]
#[verifier::ext_equal]
pub struct SniItemProperties {
    pub category: Option<String>,
    pub id: Option<String>,
    pub title: Option<String>,
    pub status: Option<String>,
    pub icon_name: Option<String>,
    pub icon_theme_path: Option<String>,
    pub icon: Option<IconFrames>,
    pub attention_icon_name: Option<String>,
    pub attention_icon: Option<IconFrames>,
    pub overlay_icon_name: Option<String>,
    pub overlay_icon: Option<IconFrames>,
    pub attention_movie_name: Option<String>,
    pub tooltip: Option<Tooltip>,
    pub is_menu: bool,
}

/// The empty property snapshot: every field unfetched.
pub open spec fn spec_empty_props() -> SniItemProperties {
    SniItemProperties {
        category: Option::None,
        id: Option::None,
        title: Option::None,
        status: Option::None,
        icon_name: Option::None,
        icon_theme_path: Option::None,
        icon: Option::None,
        attention_icon_name: Option::None,
        attention_icon: Option::None,
        overlay_icon_name: Option::None,
        overlay_icon: Option::None,
        attention_movie_name: Option::None,
        tooltip: Option::None,
        is_menu: false,
    }
}

impl SniItemProperties {
    /// An empty snapshot: nothing fetched yet.
    pub fn empty() -> (r: SniItemProperties)
        ensures
            r == spec_empty_props(),
    {
        SniItemProperties {
            category: None,
            id: None,
            title: None,
            status: None,
            icon_name: None,
            icon_theme_path: None,
            icon: None,
            attention_icon_name: None,
            attention_icon: None,
            overlay_icon_name: None,
            overlay_icon: None,
            attention_movie_name: None,
            tooltip: None,
            is_menu: false,
        }
    }
}

/// The hexadecimal digit for a nibble.
pub open spec fn hex_digit(d: u64) -> char {
    if d == 0 {
        '0'
    } else if d == 1 {
        '1'
    } else if d == 2 {
        '2'
    } else if d == 3 {
        '3'
    } else if d == 4 {
        '4'
    } else if d == 5 {
        '5'
    } else if d == 6 {
        '6'
    } else if d == 7 {
        '7'
    } else if d == 8 {
        '8'
    } else if d == 9 {
        '9'
    } else if d == 10 {
        'a'
    } else if d == 11 {
        'b'
    } else if d == 12 {
        'c'
    } else if d == 13 {
        'd'
    } else if d == 14 {
        'e'
    } else {
        'f'
    }
}

/// The sixteen-digit lowercase hexadecimal spelling of a 64-bit nonce.
pub open spec fn hex16(x: u64) -> Seq<char> {
    Seq::new(16, |i: int| hex_digit((x >> (((15 - i) * 4) as u64)) & 0xf))
}

/// Spells a 64-bit nonce as sixteen lowercase hexadecimal digits.
pub fn format_hex16(x: u64) -> (r: String)
    ensures
        r@ == hex16(x),
{
    let mut out: Vec<char> = Vec::new();
    let mut i: usize = 0;
    while i < 16
        invariant
            i <= 16,
            out@.len() == i,
            forall|j: int| 0 <= j < i ==> out@[j] == hex16(x)[j],
        decreases 16 - i,
    {
        let sh: u64 = ((15 - i) as u64) * 4;
        let d: u64 = (x >> sh) & 0xf;
        let c: char = if d == 0 {
            '0'
        } else if d == 1 {
            '1'
        } else if d == 2 {
            '2'
        } else if d == 3 {
            '3'
        } else if d == 4 {
            '4'
        } else if d == 5 {
            '5'
        } else if d == 6 {
            '6'
        } else if d == 7 {
            '7'
        } else if d == 8 {
            '8'
        } else if d == 9 {
            '9'
        } else if d == 10 {
            'a'
        } else if d == 11 {
            'b'
        } else if d == 12 {
            'c'
        } else if d == 13 {
            'd'
        } else if d == 14 {
            'e'
        } else {
            'f'
        };
        proof {
            assert(c == hex_digit((x >> (((15 - i as int) * 4) as u64)) & 0xf));
        }
        out.push(c);
        i = i + 1;
    }
    proof {
        assert(out@ =~= hex16(x));
    }
    crate::strutil::chars_to_string(&out)
}

/// The per-process host name of one protocol variant, from the nonce.
pub open spec fn host_name_v(fdo: bool, nonce: u64) -> Seq<char> {
    (if fdo {
        "org.freedesktop.StatusNotifierHost-"@
    } else {
        "org.kde.StatusNotifierHost-"@
    }) + hex16(nonce)
}

/// Builds one variant's host name from the process nonce.
pub fn host_name(fdo: bool, nonce: u64) -> (r: String)
    ensures
        r@ == host_name_v(fdo, nonce),
{
    let hex = format_hex16(nonce);
    if fdo {
        concat_str("org.freedesktop.StatusNotifierHost-", hex.as_str())
    } else {
        concat_str("org.kde.StatusNotifierHost-", hex.as_str())
    }
}

/// The destination and object path an item identifier splits into: at the
/// first slash if any, else the default item path.
pub open spec fn split_item_id(id: Seq<char>) -> (Seq<char>, Seq<char>) {
    if exists|i: int| 0 <= i < id.len() && id[i] == '/' {
        let p = first_slash(id);
        (id.take(p), id.skip(p))
    } else {
        (id, "/StatusNotifierItem"@)
    }
}

/// The position of the first slash.
pub open spec fn first_slash(id: Seq<char>) -> int {
    choose|p: int|
        0 <= p < id.len() && id[p] == '/' && forall|j: int| 0 <= j < p ==> id[j] != '/'
}

/// Splits an item identifier into destination and path and validates
/// both; an identifier that fails either grammar is dropped.
pub fn parse_item_id(id: &str) -> (r: Option<(String, String)>)
    ensures
        match r {
            Some((d, p)) => {
                &&& (d@, p@) == split_item_id(id@)
                &&& is_bus_name(d@)
                &&& is_object_path(p@)
            },
            None => !(is_bus_name(split_item_id(id@).0) && is_object_path(split_item_id(id@).1)),
        },
{
    let n = id.unicode_len();
    let (dest, path) = match find_char(id, '/') {
        Some(p) => {
            proof {
                assert(exists|i: int| 0 <= i < id@.len() && id@[i] == '/');
                assert(first_slash(id@) == p as int) by {
                    let q = first_slash(id@);
                    if q < p {
                        assert(id@[q] != '/');
                    }
                    if p < q {
                        assert(id@[p as int] != '/');
                    }
                }
            }
            let dest = String::from_str(id.substring_char(0, p));
            let path = String::from_str(id.substring_char(p, n));
            proof {
                assert(dest@ =~= id@.take(p as int));
                assert(path@ =~= id@.skip(p as int));
            }
            (dest, path)
        },
        None => {
            let dest = String::from_str(id);
            let path = String::from_str("/StatusNotifierItem");
            (dest, path)
        },
    };
    if crate::names::check_bus_name(dest.as_str()) && crate::names::check_object_path(
        path.as_str(),
    ) {
        Some((dest, path))
    } else {
        None
    }
}

/// One tracked item: its registered identifier, local id, resolved
/// address, lifecycle status, property snapshot and menu mirror.
#[derive(Debug)]
pub struct TrackedItem {
    /// The identifier under which the watcher announced the item.
    pub key: String,
    pub local_id: SniItemId,
    pub destination: String,
    pub path: String,
    /// Which variant interface the item speaks.
    pub fdo: bool,
    pub status: ItemStatus,
    pub properties: SniItemProperties,
    pub menu: Option<crate::menu::MenuSession>,
}

/// What the edge must do for a newly tracked item: subscribe to the six
/// change signals and pipeline the initial property fetches, in order.
#[derive(Debug, PartialEq, Eq)]
pub struct NewItemPlan {
    pub local_id: SniItemId,
    pub destination: String,
    pub path: String,
    /// The item interface to use for the signals and fetches.
    pub interface: String,
    /// The six change-signal members to subscribe, scoped to the item.
    pub change_signals: Vec<String>,
    /// The properties to fetch concurrently, in enqueue order.
    pub initial_properties: Vec<String>,
}

/// The six change-signal member names, in subscription order.
pub open spec fn change_signal_names() -> Seq<Seq<char>> {
    seq![
        "NewTitle"@,
        "NewIcon"@,
        "NewAttentionIcon"@,
        "NewOverlayIcon"@,
        "NewToolTip"@,
        "NewStatus"@,
    ]
}

/// The initial property fetch set, in enqueue order.
pub open spec fn initial_property_names() -> Seq<Seq<char>> {
    seq![
        "Menu"@,
        "ItemIsMenu"@,
        "Category"@,
        "Id"@,
        "Title"@,
        "Status"@,
        "IconName"@,
        "IconThemePath"@,
        "IconPixmap"@,
        "AttentionIconName"@,
        "AttentionMovieName"@,
        "AttentionIconPixmap"@,
        "OverlayIconName"@,
        "OverlayIconPixmap"@,
        "ToolTip"@,
    ]
}

/// The properties one change signal re-fetches, and the mutable property
/// the owner is then notified of.
pub fn refetch_plan(signal: &str) -> (r: Option<(Vec<String>, MutableProperty)>)
    ensures
        match r {
            Some((props, which)) => {
                ||| (signal@ == "NewTitle"@ && props.deep_view() == seq!["Title"@] && which
                    == MutableProperty::Title)
                ||| (signal@ == "NewIcon"@ && props.deep_view() == seq![
                    "IconPixmap"@,
                    "IconName"@,
                ] && which == MutableProperty::Icon)
                ||| (signal@ == "NewAttentionIcon"@ && props.deep_view() == seq![
                    "AttentionIconPixmap"@,
                    "AttentionIconName"@,
                ] && which == MutableProperty::AttentionIcon)
                ||| (signal@ == "NewOverlayIcon"@ && props.deep_view() == seq![
                    "OverlayIconPixmap"@,
                    "OverlayIconName"@,
                ] && which == MutableProperty::OverlayIcon)
                ||| (signal@ == "NewToolTip"@ && props.deep_view() == seq!["ToolTip"@] && which
                    == MutableProperty::ToolTip)
                ||| (signal@ == "NewStatus"@ && props.deep_view() == seq!["Status"@] && which
                    == MutableProperty::Status)
            },
            None => !(signal@ == "NewTitle"@ || signal@ == "NewIcon"@ || signal@
                == "NewAttentionIcon"@ || signal@ == "NewOverlayIcon"@ || signal@ == "NewToolTip"@
                || signal@ == "NewStatus"@),
        },
{
    if str_eq(signal, "NewTitle") {
        let mut v: Vec<String> = Vec::new();
        v.push(String::from_str("Title"));
        proof {
            assert(v.deep_view() =~= seq!["Title"@]);
        }
        Some((v, MutableProperty::Title))
    } else if str_eq(signal, "NewIcon") {
        let mut v: Vec<String> = Vec::new();
        v.push(String::from_str("IconPixmap"));
        v.push(String::from_str("IconName"));
        proof {
            assert(v.deep_view() =~= seq!["IconPixmap"@, "IconName"@]);
        }
        Some((v, MutableProperty::Icon))
    } else if str_eq(signal, "NewAttentionIcon") {
        let mut v: Vec<String> = Vec::new();
        v.push(String::from_str("AttentionIconPixmap"));
        v.push(String::from_str("AttentionIconName"));
        proof {
            assert(v.deep_view() =~= seq!["AttentionIconPixmap"@, "AttentionIconName"@]);
        }
        Some((v, MutableProperty::AttentionIcon))
    } else if str_eq(signal, "NewOverlayIcon") {
        let mut v: Vec<String> = Vec::new();
        v.push(String::from_str("OverlayIconPixmap"));
        v.push(String::from_str("OverlayIconName"));
        proof {
            assert(v.deep_view() =~= seq!["OverlayIconPixmap"@, "OverlayIconName"@]);
        }
        Some((v, MutableProperty::OverlayIcon))
    } else if str_eq(signal, "NewToolTip") {
        let mut v: Vec<String> = Vec::new();
        v.push(String::from_str("ToolTip"));
        proof {
            assert(v.deep_view() =~= seq!["ToolTip"@]);
        }
        Some((v, MutableProperty::ToolTip))
    } else if str_eq(signal, "NewStatus") {
        let mut v: Vec<String> = Vec::new();
        v.push(String::from_str("Status"));
        proof {
            assert(v.deep_view() =~= seq!["Status"@]);
        }
        Some((v, MutableProperty::Status))
    } else {
        None
    }
}

/// One property `Get` of the initial pipelined fetch, as it appears on
/// the wire.
pub open spec fn fetch_message_v(
    serial: u32,
    destination: Seq<char>,
    interface: Seq<char>,
    path: Seq<char>,
    member: Seq<char>,
) -> crate::msg::BusMessageV {
    crate::client::method_call_v(
        serial,
        destination,
        "org.freedesktop.DBus.Properties"@,
        path,
        "Get"@,
        crate::msg::BodyV::StrPair(interface, member),
        false,
    )
}

/// The wire messages of a pipelined property fetch: one `Get` per
/// property, back to back, with consecutive serials.
pub open spec fn spec_fetch_wire(
    serial: u32,
    destination: Seq<char>,
    interface: Seq<char>,
    path: Seq<char>,
    props: Seq<Seq<char>>,
) -> Seq<crate::msg::BusMessageV> {
    Seq::new(
        props.len(),
        |j: int| fetch_message_v((serial + j) as u32, destination, interface, path, props[j]),
    )
}

/// The pending-reply entries of a pipelined property fetch: consecutive
/// serials, consecutive callback ids.
pub open spec fn spec_fetch_pending(serial: u32, base: u64, n: nat) -> Seq<
    crate::client::PendingEntry,
> {
    Seq::new(
        n,
        |j: int| crate::client::PendingEntry {
            serial: (serial + j) as u32,
            callback: (base + j) as u64,
        },
    )
}

/// Issues the initial property fetch of a newly tracked item: every
/// `Get` of the plan enters the outgoing FIFO back to back before the
/// function returns, and each reply is registered under the callback id
/// `callback_base` plus the property's position in the plan. On a killed
/// client nothing reaches the wire and every callback is owed a `Killed`
/// error, returned as actions.
pub fn issue_initial_fetches(client: &mut Client, plan: &NewItemPlan, callback_base: u64) -> (acts:
    Vec<Action>)
    requires
        old(client)@.wf(),
        old(client)@.next_serial + plan.initial_properties@.len() < u32::MAX,
        callback_base + plan.initial_properties@.len() <= u64::MAX,
    ensures
        final(client)@.wf(),
        final(client)@.killed == old(client)@.killed,
        final(client)@.handlers == old(client)@.handlers,
        final(client)@.objects == old(client)@.objects,
        final(client)@.next_handler_id == old(client)@.next_handler_id,
        final(client)@.next_serial == old(client)@.next_serial
            + plan.initial_properties@.len(),
        old(client)@.killed ==> final(client)@.outgoing == old(client)@.outgoing
            && final(client)@.pending == old(client)@.pending && acts@.len()
            == plan.initial_properties@.len(),
        !old(client)@.killed ==> {
            &&& final(client)@.outgoing == old(client)@.outgoing + spec_fetch_wire(
                old(client)@.next_serial,
                plan.destination@,
                plan.interface@,
                plan.path@,
                plan.initial_properties.deep_view(),
            )
            &&& final(client)@.pending == old(client)@.pending + spec_fetch_pending(
                old(client)@.next_serial,
                callback_base,
                plan.initial_properties@.len(),
            )
            &&& acts@.len() == 0
        },
{
    let ghost s0 = old(client)@.next_serial;
    let ghost props = plan.initial_properties.deep_view();
    let n = plan.initial_properties.len();
    let mut acts: Vec<Action> = Vec::new();
    let mut i: usize = 0;
    while i < n
        invariant
            n == plan.initial_properties@.len(),
            props == plan.initial_properties.deep_view(),
            i <= n,
            client@.wf(),
            client@.killed == old(client)@.killed,
            client@.handlers == old(client)@.handlers,
            client@.objects == old(client)@.objects,
            client@.next_handler_id == old(client)@.next_handler_id,
            client@.next_serial == s0 + i,
            s0 + n < u32::MAX,
            callback_base + n <= u64::MAX,
            old(client)@.killed ==> client@.outgoing == old(client)@.outgoing && client@.pending
                == old(client)@.pending && acts@.len() == i,
            !old(client)@.killed ==> {
                &&& client@.outgoing == old(client)@.outgoing + spec_fetch_wire(
                    s0,
                    plan.destination@,
                    plan.interface@,
                    plan.path@,
                    props.take(i as int),
                )
                &&& client@.pending == old(client)@.pending + spec_fetch_pending(
                    s0,
                    callback_base,
                    i as nat,
                )
                &&& acts@.len() == 0
            },
        decreases n - i,
    {
        let member = plan.initial_properties[i].clone();
        proof {
            assert(member@ == props[i as int]);
        }
        let (_h, act) = client.get_property_async(
            plan.destination.clone(),
            plan.interface.clone(),
            plan.path.clone(),
            member,
            callback_base + (i as u64),
        );
        match act {
            Some(a) => {
                acts.push(a);
            },
            None => {},
        }
        proof {
            if !old(client)@.killed {
                assert(client@.outgoing =~= old(client)@.outgoing + spec_fetch_wire(
                    s0,
                    plan.destination@,
                    plan.interface@,
                    plan.path@,
                    props.take(i + 1),
                ));
                assert(client@.pending =~= old(client)@.pending + spec_fetch_pending(
                    s0,
                    callback_base,
                    (i + 1) as nat,
                ));
            }
        }
        i = i + 1;
    }
    proof {
        assert(props.take(n as int) =~= props);
    }
    acts
}

/// The match rule of one per-item change-signal subscription, scoped to
/// the item's origin: sender and path must both match.
pub open spec fn change_rule_v(
    destination: Seq<char>,
    path: Seq<char>,
    interface: Seq<char>,
    member: Seq<char>,
) -> crate::msg::MatchRuleV {
    crate::msg::MatchRuleV {
        kind: Option::Some(crate::msg::MsgKind::Signal),
        sender: Option::Some(destination),
        path: Option::Some(path),
        interface: Option::Some(interface),
        member: Option::Some(member),
    }
}

/// The handler-table entries a change-signal installation appends:
/// consecutive ids, consecutive callback ids, one scoped rule per member.
pub open spec fn spec_change_handlers(
    id0: u64,
    cb0: u64,
    destination: Seq<char>,
    path: Seq<char>,
    interface: Seq<char>,
    members: Seq<Seq<char>>,
) -> Seq<crate::client::HandlerEntryV> {
    Seq::new(
        members.len(),
        |j: int| crate::client::HandlerEntryV {
            id: (id0 + j) as u64,
            rule: change_rule_v(destination, path, interface, members[j]),
            callback: (cb0 + j) as u64,
        },
    )
}

/// The `AddMatch` calls a change-signal installation emits, in order.
pub open spec fn spec_change_wire(
    serial: u32,
    destination: Seq<char>,
    path: Seq<char>,
    interface: Seq<char>,
    members: Seq<Seq<char>>,
) -> Seq<crate::msg::BusMessageV> {
    Seq::new(
        members.len(),
        |j: int| crate::client::method_call_v(
            (serial + j) as u32,
            "org.freedesktop.DBus"@,
            "org.freedesktop.DBus"@,
            "/org/freedesktop/DBus"@,
            "AddMatch"@,
            crate::msg::BodyV::Rule(change_rule_v(destination, path, interface, members[j])),
            false,
        ),
    )
}

/// The pending-reply entries of the `AddMatch` calls: consecutive
/// serials, all registered under the one `AddMatch` callback.
pub open spec fn spec_add_match_pending(serial: u32, cb: u64, n: nat) -> Seq<
    crate::client::PendingEntry,
> {
    Seq::new(n, |j: int| crate::client::PendingEntry { serial: (serial + j) as u32, callback: cb })
}

/// Installs the plan's change-signal handlers, each scoped by
/// `sender == destination && path == path` on the item's interface, with
/// callback ids `callback_base` plus the signal's position in the plan.
/// The handles are returned so removal can drop them.
pub fn install_change_handlers(client: &mut Client, plan: &NewItemPlan, callback_base: u64, add_match_callback: u64) -> (hs:
    Vec<crate::client::SignalHandlerHandle>)
    requires
        old(client)@.wf(),
        old(client)@.next_serial + plan.change_signals@.len() < u32::MAX,
        old(client)@.next_handler_id + plan.change_signals@.len() <= u64::MAX,
        callback_base + plan.change_signals@.len() <= u64::MAX,
    ensures
        final(client)@.wf(),
        final(client)@.killed == old(client)@.killed,
        final(client)@.objects == old(client)@.objects,
        final(client)@.next_serial == old(client)@.next_serial + plan.change_signals@.len(),
        final(client)@.next_handler_id == old(client)@.next_handler_id
            + plan.change_signals@.len(),
        hs@.len() == plan.change_signals@.len(),
        forall|j: int|
            0 <= j < hs@.len() ==> (#[trigger] hs@[j]).id == old(client)@.next_handler_id + j
                && hs@[j].rule@ == change_rule_v(
                plan.destination@,
                plan.path@,
                plan.interface@,
                plan.change_signals.deep_view()[j],
            ) && !hs@[j].detached,
        old(client)@.killed ==> final(client)@.outgoing == old(client)@.outgoing
            && final(client)@.pending == old(client)@.pending && final(client)@.handlers
            == old(client)@.handlers,
        !old(client)@.killed ==> {
            &&& final(client)@.handlers == old(client)@.handlers + spec_change_handlers(
                old(client)@.next_handler_id,
                callback_base,
                plan.destination@,
                plan.path@,
                plan.interface@,
                plan.change_signals.deep_view(),
            )
            &&& final(client)@.outgoing == old(client)@.outgoing + spec_change_wire(
                old(client)@.next_serial,
                plan.destination@,
                plan.path@,
                plan.interface@,
                plan.change_signals.deep_view(),
            )
            &&& final(client)@.pending == old(client)@.pending + spec_add_match_pending(
                old(client)@.next_serial,
                add_match_callback,
                plan.change_signals@.len(),
            )
        },
{
    let ghost s0 = old(client)@.next_serial;
    let ghost h0 = old(client)@.next_handler_id;
    let ghost members = plan.change_signals.deep_view();
    let n = plan.change_signals.len();
    let mut hs: Vec<crate::client::SignalHandlerHandle> = Vec::new();
    let mut i: usize = 0;
    while i < n
        invariant
            n == plan.change_signals@.len(),
            members == plan.change_signals.deep_view(),
            i <= n,
            client@.wf(),
            client@.killed == old(client)@.killed,
            client@.objects == old(client)@.objects,
            client@.next_serial == s0 + i,
            client@.next_handler_id == h0 + i,
            s0 + n < u32::MAX,
            h0 + n <= u64::MAX,
            callback_base + n <= u64::MAX,
            hs@.len() == i,
            forall|j: int|
                0 <= j < i ==> (#[trigger] hs@[j]).id == h0 + j && hs@[j].rule@ == change_rule_v(
                    plan.destination@,
                    plan.path@,
                    plan.interface@,
                    members[j],
                ) && !hs@[j].detached,
            old(client)@.killed ==> client@.outgoing == old(client)@.outgoing && client@.pending
                == old(client)@.pending && client@.handlers == old(client)@.handlers,
            !old(client)@.killed ==> {
                &&& client@.handlers == old(client)@.handlers + spec_change_handlers(
                    h0,
                    callback_base,
                    plan.destination@,
                    plan.path@,
                    plan.interface@,
                    members.take(i as int),
                )
                &&& client@.outgoing == old(client)@.outgoing + spec_change_wire(
                    s0,
                    plan.destination@,
                    plan.path@,
                    plan.interface@,
                    members.take(i as int),
                )
                &&& client@.pending == old(client)@.pending + spec_add_match_pending(
                    s0,
                    add_match_callback,
                    i as nat,
                )
            },
        decreases n - i,
    {
        let member = plan.change_signals[i].clone();
        proof {
            assert(member@ == members[i as int]);
        }
        let rule = crate::msg::MatchRule {
            kind: Some(crate::msg::MsgKind::Signal),
            sender: Some(plan.destination.clone()),
            path: Some(plan.path.clone()),
            interface: Some(plan.interface.clone()),
            member: Some(member),
        };
        proof {
            assert(rule@ == change_rule_v(
                plan.destination@,
                plan.path@,
                plan.interface@,
                members[i as int],
            ));
        }
        let (h, _act) = client.handle_signal(rule, callback_base + (i as u64), add_match_callback);
        hs.push(h);
        proof {
            if !old(client)@.killed {
                assert(client@.handlers =~= old(client)@.handlers + spec_change_handlers(
                    h0,
                    callback_base,
                    plan.destination@,
                    plan.path@,
                    plan.interface@,
                    members.take(i + 1),
                ));
                assert(client@.outgoing =~= old(client)@.outgoing + spec_change_wire(
                    s0,
                    plan.destination@,
                    plan.path@,
                    plan.interface@,
                    members.take(i + 1),
                ));
                assert(client@.pending =~= old(client)@.pending + spec_add_match_pending(
                    s0,
                    add_match_callback,
                    (i + 1) as nat,
                ));
            }
        }
        i = i + 1;
    }
    proof {
        assert(members.take(n as int) =~= members);
    }
    hs
}

/// The host's registry of tracked items.
pub struct HostState {
    pub items: Vec<TrackedItem>,
    pub next_item_id: u64,
    pub fdo_name: String,
    pub kde_name: String,
}

/// Whether the registry holds an item under the given identifier key.
pub open spec fn key_known(items: Seq<TrackedItem>, key: Seq<char>) -> bool {
    exists|i: int| 0 <= i < items.len() && (#[trigger] items[i]).key@ == key
}

impl HostState {
    /// A fresh host with its two per-process names derived from `nonce`.
    pub fn new(nonce: u64) -> (r: HostState)
        ensures
            r.items@ == Seq::<TrackedItem>::empty(),
            r.next_item_id == 0,
            r.fdo_name@ == host_name_v(true, nonce),
            r.kde_name@ == host_name_v(false, nonce),
    {
        let r = HostState {
            items: Vec::new(),
            next_item_id: 0,
            fdo_name: host_name(true, nonce),
            kde_name: host_name(false, nonce),
        };
        proof {
            assert(r.items@ =~= Seq::<TrackedItem>::empty());
        }
        r
    }

    /// The index of the item registered under `key`.
    pub fn find_by_key(&self, key: &str) -> (r: Option<usize>)
        ensures
            match r {
                Some(i) => i < self.items@.len() && self.items@[i as int].key@ == key@ && forall|
                    j: int,
                |
                    0 <= j < i ==> (#[trigger] self.items@[j]).key@ != key@,
                None => !key_known(self.items@, key@),
            },
    {
        let n = self.items.len();
        let mut i: usize = 0;
        while i < n
            invariant
                n == self.items@.len(),
                i <= n,
                forall|j: int| 0 <= j < i ==> (#[trigger] self.items@[j]).key@ != key@,
            decreases n - i,
        {
            if str_eq(self.items[i].key.as_str(), key) {
                return Some(i);
            }
            i = i + 1;
        }
        None
    }

    /// The index of the item with a local id.
    pub fn find_by_local(&self, local_id: SniItemId) -> (r: Option<usize>)
        ensures
            match r {
                Some(i) => i < self.items@.len() && self.items@[i as int].local_id == local_id
                    && forall|j: int|
                    0 <= j < i ==> (#[trigger] self.items@[j]).local_id != local_id,
                None => forall|j: int|
                    0 <= j < self.items@.len() ==> (#[trigger] self.items@[j]).local_id != local_id,
            },
    {
        let n = self.items.len();
        let mut i: usize = 0;
        while i < n
            invariant
                n == self.items@.len(),
                i <= n,
                forall|j: int| 0 <= j < i ==> (#[trigger] self.items@[j]).local_id != local_id,
            decreases n - i,
        {
            if self.items[i].local_id == local_id {
                return Some(i);
            }
            i = i + 1;
        }
        None
    }

    /// Registers a newly announced item. A known identifier is ignored;
    /// an identifier that fails the name grammars is dropped silently.
    /// Otherwise the item is tracked as `New` and the plan names the six
    /// change signals to subscribe and the properties to pipeline.
    pub fn handle_new_item(&mut self, fdo: bool, id: &str) -> (r: Option<NewItemPlan>)
        requires
            old(self).next_item_id < u64::MAX,
        ensures
            match r {
                Some(plan) => {
                    &&& !key_known(old(self).items@, id@)
                    &&& (plan.destination@, plan.path@) == split_item_id(id@)
                    &&& is_bus_name(plan.destination@)
                    &&& is_object_path(plan.path@)
                    &&& plan.local_id.0 == old(self).next_item_id + 1
                    &&& plan.interface@ == if fdo {
                        "org.freedesktop.StatusNotifierItem"@
                    } else {
                        "org.kde.StatusNotifierItem"@
                    }
                    &&& plan.change_signals.deep_view() == change_signal_names()
                    &&& plan.initial_properties.deep_view() == initial_property_names()
                    &&& final(self).items@.len() == old(self).items@.len() + 1
                    &&& final(self).items@.last().key@ == id@
                    &&& final(self).items@.last().local_id.0 == old(self).next_item_id + 1
                    &&& final(self).items@.last().destination@ == split_item_id(id@).0
                    &&& final(self).items@.last().path@ == split_item_id(id@).1
                    &&& final(self).items@.last().fdo == fdo
                    &&& final(self).items@.last().status == ItemStatus::New
                    &&& final(self).items@.last().properties == spec_empty_props()
                    &&& final(self).items@.last().menu is None
                    &&& forall|j: int|
                        0 <= j < old(self).items@.len() ==> final(self).items@[j] == old(
                            self,
                        ).items@[j]
                    &&& final(self).next_item_id == old(self).next_item_id + 1
                },
                None => {
                    &&& final(self).items@ == old(self).items@
                    &&& final(self).next_item_id == old(self).next_item_id
                    &&& (key_known(old(self).items@, id@) || !(is_bus_name(
                        split_item_id(id@).0,
                    ) && is_object_path(split_item_id(id@).1)))
                },
            },
    {
        match self.find_by_key(id) {
            Some(_) => {
                return None;
            },
            None => {},
        }
        let (destination, path) = match parse_item_id(id) {
            Some(dp) => dp,
            None => {
                return None;
            },
        };
        self.next_item_id = self.next_item_id + 1;
        let local_id = SniItemId(self.next_item_id);
        let item = TrackedItem {
            key: String::from_str(id),
            local_id,
            destination: destination.clone(),
            path: path.clone(),
            fdo,
            status: ItemStatus::New,
            properties: SniItemProperties::empty(),
            menu: None,
        };
        self.items.push(item);
        let interface = if fdo {
            String::from_str("org.freedesktop.StatusNotifierItem")
        } else {
            String::from_str("org.kde.StatusNotifierItem")
        };
        let mut change_signals: Vec<String> = Vec::new();
        change_signals.push(String::from_str("NewTitle"));
        change_signals.push(String::from_str("NewIcon"));
        change_signals.push(String::from_str("NewAttentionIcon"));
        change_signals.push(String::from_str("NewOverlayIcon"));
        change_signals.push(String::from_str("NewToolTip"));
        change_signals.push(String::from_str("NewStatus"));
        let mut initial_properties: Vec<String> = Vec::new();
        initial_properties.push(String::from_str("Menu"));
        initial_properties.push(String::from_str("ItemIsMenu"));
        initial_properties.push(String::from_str("Category"));
        initial_properties.push(String::from_str("Id"));
        initial_properties.push(String::from_str("Title"));
        initial_properties.push(String::from_str("Status"));
        initial_properties.push(String::from_str("IconName"));
        initial_properties.push(String::from_str("IconThemePath"));
        initial_properties.push(String::from_str("IconPixmap"));
        initial_properties.push(String::from_str("AttentionIconName"));
        initial_properties.push(String::from_str("AttentionMovieName"));
        initial_properties.push(String::from_str("AttentionIconPixmap"));
        initial_properties.push(String::from_str("OverlayIconName"));
        initial_properties.push(String::from_str("OverlayIconPixmap"));
        initial_properties.push(String::from_str("ToolTip"));
        proof {
            assert(change_signals.deep_view() =~= change_signal_names());
            assert(initial_properties.deep_view() =~= initial_property_names());
        }
        Some(
            NewItemPlan {
                local_id,
                destination,
                path,
                interface,
                change_signals,
                initial_properties,
            },
        )
    }

    /// Removes an unregistered item: the first entry registered under the
    /// identifier leaves the registry, every other entry stays where it
    /// was, and the leaving entry's local id is handed back so the owner
    /// can be told. An unknown identifier does nothing.
    pub fn handle_removed_item(&mut self, id: &str) -> (r: Option<SniItemId>)
        ensures
            match r {
                Some(lid) => exists|i: int|
                    {
                        &&& 0 <= i < old(self).items@.len()
                        &&& (#[trigger] old(self).items@[i]).key@ == id@
                        &&& forall|j: int| 0 <= j < i ==> (#[trigger] old(self).items@[j]).key@ != id@
                        &&& lid == old(self).items@[i].local_id
                        &&& final(self).items@ == old(self).items@.remove(i)
                    },
                None => final(self).items@ == old(self).items@ && !key_known(
                    old(self).items@,
                    id@,
                ),
            },
            final(self).next_item_id == old(self).next_item_id,
    {
        match self.find_by_key(id) {
            Some(i) => {
                let item = self.items.remove(i);
                proof {
                    assert(self.items@ == old(self).items@.remove(i as int));
                }
                Some(item.local_id)
            },
            None => None,
        }
    }

    /// Announces an item whose initial fetch completed: a still-`New`
    /// item flips to `Announced` and is handed to the owner; an item
    /// removed in the meantime stays removed and nothing fires.
    pub fn announce(&mut self, local_id: SniItemId) -> (announced: bool)
        ensures
            final(self).next_item_id == old(self).next_item_id,
            announced <==> exists|i: int|
                {
                    &&& 0 <= i < old(self).items@.len()
                    &&& (#[trigger] old(self).items@[i]).local_id == local_id
                    &&& forall|j: int|
                        0 <= j < i ==> (#[trigger] old(self).items@[j]).local_id != local_id
                    &&& old(self).items@[i].status == ItemStatus::New
                },
            announced ==> exists|i: int|
                {
                    &&& 0 <= i < old(self).items@.len()
                    &&& (#[trigger] old(self).items@[i]).local_id == local_id
                    &&& forall|j: int|
                        0 <= j < i ==> (#[trigger] old(self).items@[j]).local_id != local_id
                    &&& old(self).items@[i].status == ItemStatus::New
                    &&& final(self).items@ == old(self).items@.update(
                        i,
                        TrackedItem { status: ItemStatus::Announced, ..old(self).items@[i] },
                    )
                },
            !announced ==> final(self).items@ == old(self).items@,
    {
        match self.find_by_local(local_id) {
            Some(i) => {
                let is_new = match self.items[i].status {
                    ItemStatus::New => true,
                    _ => false,
                };
                if is_new {
                    let mut item = self.items.remove(i);
                    item.status = ItemStatus::Announced;
                    self.items.insert(i, item);
                    proof {
                        assert(self.items@ =~= old(self).items@.update(
                            i as int,
                            TrackedItem {
                                status: ItemStatus::Announced,
                                ..old(self).items@[i as int]
                            },
                        ));
                    }
                    true
                } else {
                    proof {
                        assert forall|k: int|
                            0 <= k < old(self).items@.len() && (#[trigger] old(
                                self,
                            ).items@[k]).local_id == local_id && (forall|j: int|
                                0 <= j < k ==> (#[trigger] old(self).items@[j]).local_id
                                    != local_id) implies old(self).items@[k].status
                            != ItemStatus::New by {
                            if k < i as int {
                                assert(old(self).items@[k].local_id != local_id);
                            }
                            if k > i as int {
                                assert(old(self).items@[i as int].local_id != local_id);
                            }
                        }
                    }
                    false
                }
            },
            None => false,
        }
    }
}

impl HostState {
    /// Handles a watcher well-known name gaining an owner: the host
    /// registers itself with that watcher variant and reads its item
    /// list to seed the registry, in that order on the wire.
    pub fn watcher_appeared(&self, client: &mut Client, name: &str, items_callback: u64) -> (r:
        Option<(CallHandle, Option<Action>)>)
        requires
            old(client)@.wf(),
            old(client).next_serial < u32::MAX - 2,
        ensures
            final(client)@.wf(),
            final(client)@.killed == old(client)@.killed,
            final(client)@.handlers == old(client)@.handlers,
            final(client)@.objects == old(client)@.objects,
            final(client)@.next_handler_id == old(client)@.next_handler_id,
            (name@ == "org.freedesktop.StatusNotifierWatcher"@ || name@
                == "org.kde.StatusNotifierWatcher"@) ==> {
                let fdo = name@ == "org.freedesktop.StatusNotifierWatcher"@;
                let host = if fdo {
                    self.fdo_name@
                } else {
                    self.kde_name@
                };
                &&& r is Some
                &&& !old(client)@.killed ==> (r matches Some(p) && p.1 is None)
                &&& final(client)@.next_serial == old(client)@.next_serial + 2
                &&& old(client)@.killed ==> final(client)@.pending == old(client)@.pending
                    && final(client)@.outgoing == old(client)@.outgoing
                &&& !old(client)@.killed ==> final(client)@.pending == old(
                    client,
                )@.pending.push(
                    crate::client::PendingEntry {
                        serial: (old(client)@.next_serial + 1) as u32,
                        callback: items_callback,
                    },
                )
                &&& !old(client)@.killed ==> final(client)@.outgoing == old(
                    client,
                )@.outgoing.push(
                    crate::client::method_call_v(
                        old(client)@.next_serial,
                        name@,
                        name@,
                        "/StatusNotifierWatcher"@,
                        "RegisterStatusNotifierHost"@,
                        crate::msg::BodyV::Str(host),
                        true,
                    ),
                ).push(
                    crate::client::method_call_v(
                        (old(client)@.next_serial + 1) as u32,
                        name@,
                        "org.freedesktop.DBus.Properties"@,
                        "/StatusNotifierWatcher"@,
                        "Get"@,
                        crate::msg::BodyV::StrPair(name@, "RegisteredStatusNotifierItems"@),
                        false,
                    ),
                )
            },
            !(name@ == "org.freedesktop.StatusNotifierWatcher"@ || name@
                == "org.kde.StatusNotifierWatcher"@) ==> r is None && final(client)@ == old(
                client,
            )@,
    {
        let fdo = str_eq(name, "org.freedesktop.StatusNotifierWatcher");
        let kde = str_eq(name, "org.kde.StatusNotifierWatcher");
        if !fdo && !kde {
            return None;
        }
        let watcher_name = if fdo {
            String::from_str("org.freedesktop.StatusNotifierWatcher")
        } else {
            String::from_str("org.kde.StatusNotifierWatcher")
        };
        let host = if fdo {
            self.fdo_name.clone()
        } else {
            self.kde_name.clone()
        };
        client.call_no_reply(
            watcher_name.clone(),
            watcher_name.clone(),
            String::from_str("/StatusNotifierWatcher"),
            String::from_str("RegisterStatusNotifierHost"),
            Body::Str(host),
        );
        let (handle, act) = client.get_property_async(
            watcher_name.clone(),
            watcher_name,
            String::from_str("/StatusNotifierWatcher"),
            String::from_str("RegisteredStatusNotifierItems"),
            items_callback,
        );
        Some((handle, act))
    }
}

/// The boolean an `Activate` or `SecondaryActivate` reply maps to: the
/// callback learns `true` exactly when a success reply arrived, `false`
/// on any error.
pub fn activation_succeeded(reply: &Result<crate::msg::BusMessage, crate::client::BusError>) -> (r:
    bool)
    ensures
        r == (reply is Ok),
{
    match reply {
        Ok(_) => true,
        Err(_) => false,
    }
}

/// A fetched property value as the edge hands it in: a plain bus value,
/// or one of the two structured shapes the edge decodes itself.
#[derive(Debug, PartialEq, Eq)]
pub enum FetchedProperty {
    Value(crate::msg::PropValue),
    Pixmaps(Vec<IconPixmap>),
    Tip(Tooltip),
}

/// Applies one fetched property to an item's snapshot, by property name.
/// A value of the wrong shape for the name — or an unknown name — maps
/// to `MapProperty` and leaves the snapshot untouched; the item stays
/// usable either way. The `Menu` property is not part of the snapshot:
/// see [`menu_path_of`].
#[verifier::rlimit(100)]
pub fn apply_fetched(p: &mut SniItemProperties, name: &str, v: FetchedProperty) -> (r: Result<
    (),
    crate::client::BusError,
>)
    ensures
        name@ == "Category"@ ==> (match v {
            FetchedProperty::Value(crate::msg::PropValue::Str(s)) => r is Ok && *final(p)
                == (SniItemProperties { category: Option::Some(s), ..*old(p) }),
            _ => r is Err && *final(p) == *old(p),
        }),
        name@ == "Id"@ ==> (match v {
            FetchedProperty::Value(crate::msg::PropValue::Str(s)) => r is Ok && *final(p)
                == (SniItemProperties { id: Option::Some(s), ..*old(p) }),
            _ => r is Err && *final(p) == *old(p),
        }),
        name@ == "Title"@ ==> (match v {
            FetchedProperty::Value(crate::msg::PropValue::Str(s)) => r is Ok && *final(p)
                == (SniItemProperties { title: Option::Some(s), ..*old(p) }),
            _ => r is Err && *final(p) == *old(p),
        }),
        name@ == "Status"@ ==> (match v {
            FetchedProperty::Value(crate::msg::PropValue::Str(s)) => r is Ok && *final(p)
                == (SniItemProperties { status: Option::Some(s), ..*old(p) }),
            _ => r is Err && *final(p) == *old(p),
        }),
        name@ == "IconName"@ ==> (match v {
            FetchedProperty::Value(crate::msg::PropValue::Str(s)) => r is Ok && *final(p)
                == (SniItemProperties { icon_name: Option::Some(s), ..*old(p) }),
            _ => r is Err && *final(p) == *old(p),
        }),
        name@ == "IconThemePath"@ ==> (match v {
            FetchedProperty::Value(crate::msg::PropValue::Str(s)) => r is Ok && *final(p)
                == (SniItemProperties { icon_theme_path: Option::Some(s), ..*old(p) }),
            _ => r is Err && *final(p) == *old(p),
        }),
        name@ == "AttentionIconName"@ ==> (match v {
            FetchedProperty::Value(crate::msg::PropValue::Str(s)) => r is Ok && *final(p)
                == (SniItemProperties { attention_icon_name: Option::Some(s), ..*old(p) }),
            _ => r is Err && *final(p) == *old(p),
        }),
        name@ == "AttentionMovieName"@ ==> (match v {
            FetchedProperty::Value(crate::msg::PropValue::Str(s)) => r is Ok && *final(p)
                == (SniItemProperties { attention_movie_name: Option::Some(s), ..*old(p) }),
            _ => r is Err && *final(p) == *old(p),
        }),
        name@ == "OverlayIconName"@ ==> (match v {
            FetchedProperty::Value(crate::msg::PropValue::Str(s)) => r is Ok && *final(p)
                == (SniItemProperties { overlay_icon_name: Option::Some(s), ..*old(p) }),
            _ => r is Err && *final(p) == *old(p),
        }),
        name@ == "ItemIsMenu"@ ==> (match v {
            FetchedProperty::Value(crate::msg::PropValue::Bool(b)) => r is Ok && *final(p)
                == (SniItemProperties { is_menu: b, ..*old(p) }),
            _ => r is Err && *final(p) == *old(p),
        }),
        name@ == "IconPixmap"@ ==> (match v {
            FetchedProperty::Pixmaps(ps) => r is Ok && *final(p) == (SniItemProperties {
                icon: final(p).icon,
                ..*old(p)
            }) && (final(p).icon matches Option::Some(f) && f.frames@ == spec_frames(ps@)),
            _ => r is Err && *final(p) == *old(p),
        }),
        name@ == "AttentionIconPixmap"@ ==> (match v {
            FetchedProperty::Pixmaps(ps) => r is Ok && *final(p) == (SniItemProperties {
                attention_icon: final(p).attention_icon,
                ..*old(p)
            }) && (final(p).attention_icon matches Option::Some(f) && f.frames@ == spec_frames(ps@)),
            _ => r is Err && *final(p) == *old(p),
        }),
        name@ == "OverlayIconPixmap"@ ==> (match v {
            FetchedProperty::Pixmaps(ps) => r is Ok && *final(p) == (SniItemProperties {
                overlay_icon: final(p).overlay_icon,
                ..*old(p)
            }) && (final(p).overlay_icon matches Option::Some(f) && f.frames@ == spec_frames(ps@)),
            _ => r is Err && *final(p) == *old(p),
        }),
        name@ == "ToolTip"@ ==> (match v {
            FetchedProperty::Tip(t) => r is Ok && *final(p) == (SniItemProperties {
                tooltip: Option::Some(t),
                ..*old(p)
            }),
            _ => r is Err && *final(p) == *old(p),
        }),
        !(name@ == "Category"@ || name@ == "Id"@ || name@ == "Title"@ || name@ == "Status"@
            || name@ == "IconName"@ || name@ == "IconThemePath"@ || name@
            == "AttentionIconName"@ || name@ == "AttentionMovieName"@ || name@
            == "OverlayIconName"@ || name@ == "ItemIsMenu"@ || name@ == "IconPixmap"@ || name@
            == "AttentionIconPixmap"@ || name@ == "OverlayIconPixmap"@ || name@ == "ToolTip"@)
            ==> r is Err && *final(p) == *old(p),
        r is Err ==> (r matches Err(e) && e == crate::client::BusError::MapProperty),
{
    proof {
        reveal_strlit("Category");
        reveal_strlit("Id");
        reveal_strlit("Title");
        reveal_strlit("Status");
        reveal_strlit("IconName");
        reveal_strlit("IconThemePath");
        reveal_strlit("AttentionIconName");
        reveal_strlit("AttentionMovieName");
        reveal_strlit("OverlayIconName");
        reveal_strlit("ItemIsMenu");
        reveal_strlit("IconPixmap");
        reveal_strlit("AttentionIconPixmap");
        reveal_strlit("OverlayIconPixmap");
        reveal_strlit("ToolTip");
        assert("Category"@.len() == 8);
        assert("Id"@.len() == 2);
        assert("Title"@.len() == 5);
        assert("Status"@.len() == 6);
        assert("IconName"@.len() == 8);
        assert("IconThemePath"@.len() == 13);
        assert("AttentionIconName"@.len() == 17);
        assert("AttentionMovieName"@.len() == 18);
        assert("OverlayIconName"@.len() == 15);
        assert("ItemIsMenu"@.len() == 10);
        assert("IconPixmap"@.len() == 10);
        assert("AttentionIconPixmap"@.len() == 19);
        assert("OverlayIconPixmap"@.len() == 17);
        assert("ToolTip"@.len() == 7);
        assert("Category"@[0] == 'C' && "IconName"@[0] == 'I');
        assert("ItemIsMenu"@[1] == 't' && "IconPixmap"@[1] == 'c');
        assert("AttentionIconName"@[0] == 'A' && "OverlayIconPixmap"@[0] == 'O');
    }
    if str_eq(name, "Category") {
        match v {
            FetchedProperty::Value(crate::msg::PropValue::Str(s)) => {
                p.category = Some(s);
                proof {
                    assert(*p =~= SniItemProperties { category: p.category, ..*old(p) });
                }
                Ok(())
            },
            _ => Err(crate::client::BusError::MapProperty),
        }
    } else if str_eq(name, "Id") {
        match v {
            FetchedProperty::Value(crate::msg::PropValue::Str(s)) => {
                p.id = Some(s);
                proof {
                    assert(*p =~= SniItemProperties { id: p.id, ..*old(p) });
                }
                Ok(())
            },
            _ => Err(crate::client::BusError::MapProperty),
        }
    } else if str_eq(name, "Title") {
        match v {
            FetchedProperty::Value(crate::msg::PropValue::Str(s)) => {
                p.title = Some(s);
                proof {
                    assert(*p =~= SniItemProperties { title: p.title, ..*old(p) });
                }
                Ok(())
            },
            _ => Err(crate::client::BusError::MapProperty),
        }
    } else if str_eq(name, "Status") {
        match v {
            FetchedProperty::Value(crate::msg::PropValue::Str(s)) => {
                p.status = Some(s);
                proof {
                    assert(*p =~= SniItemProperties { status: p.status, ..*old(p) });
                }
                Ok(())
            },
            _ => Err(crate::client::BusError::MapProperty),
        }
    } else if str_eq(name, "IconName") {
        match v {
            FetchedProperty::Value(crate::msg::PropValue::Str(s)) => {
                p.icon_name = Some(s);
                proof {
                    assert(*p =~= SniItemProperties { icon_name: p.icon_name, ..*old(p) });
                }
                Ok(())
            },
            _ => Err(crate::client::BusError::MapProperty),
        }
    } else if str_eq(name, "IconThemePath") {
        match v {
            FetchedProperty::Value(crate::msg::PropValue::Str(s)) => {
                p.icon_theme_path = Some(s);
                proof {
                    assert(*p =~= SniItemProperties { icon_theme_path: p.icon_theme_path, ..*old(p) });
                }
                Ok(())
            },
            _ => Err(crate::client::BusError::MapProperty),
        }
    } else if str_eq(name, "AttentionIconName") {
        match v {
            FetchedProperty::Value(crate::msg::PropValue::Str(s)) => {
                p.attention_icon_name = Some(s);
                proof {
                    assert(*p =~= SniItemProperties { attention_icon_name: p.attention_icon_name, ..*old(p) });
                }
                Ok(())
            },
            _ => Err(crate::client::BusError::MapProperty),
        }
    } else if str_eq(name, "AttentionMovieName") {
        match v {
            FetchedProperty::Value(crate::msg::PropValue::Str(s)) => {
                p.attention_movie_name = Some(s);
                proof {
                    assert(*p =~= SniItemProperties { attention_movie_name: p.attention_movie_name, ..*old(p) });
                }
                Ok(())
            },
            _ => Err(crate::client::BusError::MapProperty),
        }
    } else if str_eq(name, "OverlayIconName") {
        match v {
            FetchedProperty::Value(crate::msg::PropValue::Str(s)) => {
                p.overlay_icon_name = Some(s);
                proof {
                    assert(*p =~= SniItemProperties { overlay_icon_name: p.overlay_icon_name, ..*old(p) });
                }
                Ok(())
            },
            _ => Err(crate::client::BusError::MapProperty),
        }
    } else if str_eq(name, "ItemIsMenu") {
        match v {
            FetchedProperty::Value(crate::msg::PropValue::Bool(b)) => {
                p.is_menu = b;
                proof {
                    assert(*p =~= SniItemProperties { is_menu: p.is_menu, ..*old(p) });
                }
                Ok(())
            },
            _ => Err(crate::client::BusError::MapProperty),
        }
    } else if str_eq(name, "IconPixmap") {
        match v {
            FetchedProperty::Pixmaps(ps) => {
                p.icon = Some(IconFrames::from_pixmaps(ps));
                proof {
                    assert(*p =~= SniItemProperties { icon: p.icon, ..*old(p) });
                }
                Ok(())
            },
            _ => Err(crate::client::BusError::MapProperty),
        }
    } else if str_eq(name, "AttentionIconPixmap") {
        match v {
            FetchedProperty::Pixmaps(ps) => {
                p.attention_icon = Some(IconFrames::from_pixmaps(ps));
                proof {
                    assert(*p =~= SniItemProperties { attention_icon: p.attention_icon, ..*old(p) });
                }
                Ok(())
            },
            _ => Err(crate::client::BusError::MapProperty),
        }
    } else if str_eq(name, "OverlayIconPixmap") {
        match v {
            FetchedProperty::Pixmaps(ps) => {
                p.overlay_icon = Some(IconFrames::from_pixmaps(ps));
                proof {
                    assert(*p =~= SniItemProperties { overlay_icon: p.overlay_icon, ..*old(p) });
                }
                Ok(())
            },
            _ => Err(crate::client::BusError::MapProperty),
        }
    } else if str_eq(name, "ToolTip") {
        match v {
            FetchedProperty::Tip(t) => {
                p.tooltip = Some(t);
                proof {
                    assert(*p =~= SniItemProperties { tooltip: p.tooltip, ..*old(p) });
                }
                Ok(())
            },
            _ => Err(crate::client::BusError::MapProperty),
        }
    } else {
        Err(crate::client::BusError::MapProperty)
    }
}

/// The menu path a fetched `Menu` property resolves to: an object-path
/// value that passes the path grammar; anything else opens no session.
pub fn menu_path_of(v: &crate::msg::PropValue) -> (r: Option<String>)
    ensures
        match v {
            crate::msg::PropValue::ObjPath(s) => {
                if is_object_path(s@) {
                    r matches Some(path) && path@ == s@
                } else {
                    r is None
                }
            },
            _ => r is None,
        },
{
    match v {
        crate::msg::PropValue::ObjPath(s) => {
            if crate::names::check_object_path(s.as_str()) {
                Some(s.clone())
            } else {
                None
            }
        },
        _ => None,
    }
}

/// The match rule of a host's watcher-signal subscription: one variant
/// interface, one member, signals only.
pub open spec fn watcher_signal_rule_v(fdo: bool, member: Seq<char>) -> crate::msg::MatchRuleV {
    crate::msg::MatchRuleV {
        kind: Option::Some(crate::msg::MsgKind::Signal),
        sender: Option::None,
        path: Option::None,
        interface: Option::Some(crate::watcher::variant_interface_v(fdo)),
        member: Option::Some(member),
    }
}

/// An `AddMatch` call to the broker, as it appears on the wire.
pub open spec fn add_match_call_v(serial: u32, rule: crate::msg::MatchRuleV) -> crate::msg::BusMessageV {
    crate::client::method_call_v(
        serial,
        "org.freedesktop.DBus"@,
        "org.freedesktop.DBus"@,
        "/org/freedesktop/DBus"@,
        "AddMatch"@,
        crate::msg::BodyV::Rule(rule),
        false,
    )
}

/// A `RequestName` call with flags 0, as it appears on the wire.
pub open spec fn request_name_call_v(serial: u32, name: Seq<char>) -> crate::msg::BusMessageV {
    crate::client::method_call_v(
        serial,
        "org.freedesktop.DBus"@,
        "org.freedesktop.DBus"@,
        "/org/freedesktop/DBus"@,
        "RequestName"@,
        crate::msg::BodyV::NameFlags(name, 0),
        true,
    )
}

/// The eleven messages a host startup puts on the wire of a live client,
/// in order and with the serials they carry: the four watcher-signal
/// `AddMatch` calls, both host `RequestName` calls, the `NameOwnerChanged`
/// `AddMatch`, and the two watcher greetings (`RegisterStatusNotifierHost`
/// followed by the item-list `Get`, per variant).
pub open spec fn spec_hosts_wire(serial: u32, fdo_host: Seq<char>, kde_host: Seq<char>) -> Seq<
    crate::msg::BusMessageV,
> {
    seq![
        add_match_call_v(serial, watcher_signal_rule_v(true, "StatusNotifierItemRegistered"@)),
        add_match_call_v(
            (serial + 1) as u32,
            watcher_signal_rule_v(true, "StatusNotifierItemUnregistered"@),
        ),
        add_match_call_v(
            (serial + 2) as u32,
            watcher_signal_rule_v(false, "StatusNotifierItemRegistered"@),
        ),
        add_match_call_v(
            (serial + 3) as u32,
            watcher_signal_rule_v(false, "StatusNotifierItemUnregistered"@),
        ),
        request_name_call_v((serial + 4) as u32, fdo_host),
        request_name_call_v((serial + 5) as u32, kde_host),
        add_match_call_v((serial + 6) as u32, crate::watcher::name_owner_rule_v()),
        crate::client::method_call_v(
            (serial + 7) as u32,
            "org.freedesktop.StatusNotifierWatcher"@,
            "org.freedesktop.StatusNotifierWatcher"@,
            "/StatusNotifierWatcher"@,
            "RegisterStatusNotifierHost"@,
            crate::msg::BodyV::Str(fdo_host),
            true,
        ),
        crate::client::method_call_v(
            (serial + 8) as u32,
            "org.freedesktop.StatusNotifierWatcher"@,
            "org.freedesktop.DBus.Properties"@,
            "/StatusNotifierWatcher"@,
            "Get"@,
            crate::msg::BodyV::StrPair(
                "org.freedesktop.StatusNotifierWatcher"@,
                "RegisteredStatusNotifierItems"@,
            ),
            false,
        ),
        crate::client::method_call_v(
            (serial + 9) as u32,
            "org.kde.StatusNotifierWatcher"@,
            "org.kde.StatusNotifierWatcher"@,
            "/StatusNotifierWatcher"@,
            "RegisterStatusNotifierHost"@,
            crate::msg::BodyV::Str(kde_host),
            true,
        ),
        crate::client::method_call_v(
            (serial + 10) as u32,
            "org.kde.StatusNotifierWatcher"@,
            "org.freedesktop.DBus.Properties"@,
            "/StatusNotifierWatcher"@,
            "Get"@,
            crate::msg::BodyV::StrPair(
                "org.kde.StatusNotifierWatcher"@,
                "RegisteredStatusNotifierItems"@,
            ),
            false,
        ),
    ]
}

/// The callbacks a host installs, owned by the unverified edge: the four
/// watcher item signals, the `NameOwnerChanged` handler, the `AddMatch`
/// logger, and the two item-list replies.
#[derive(Copy, Clone, Debug, PartialEq, Eq, Structural)]
pub struct HostCallbacks {
    pub fdo_item_registered: u64,
    pub fdo_item_unregistered: u64,
    pub kde_item_registered: u64,
    pub kde_item_unregistered: u64,
    pub name_owner_changed: u64,
    pub add_match: u64,
    pub fdo_items: u64,
    pub kde_items: u64,
}

/// Wires a host up: installs detached handlers for the item
/// registration and unregistration signals of both watcher variants and
/// for `NameOwnerChanged`, requests both per-process host names, and
/// greets both watchers (registering as a host, then reading the item
/// list to seed the registry). On a live client the handler table, the
/// pending-replies table and the outgoing FIFO are fixed exactly; on a
/// killed one nothing reaches the wire and the owed error actions are
/// returned.
pub fn create_hosts(client: &mut Client, host: &HostState, cbs: HostCallbacks) -> (acts: Vec<
    Action,
>)
    requires
        old(client)@.wf(),
        old(client).next_serial < u32::MAX - 16,
        old(client).next_handler_id < u64::MAX - 5,
    ensures
        final(client)@.wf(),
        final(client)@.killed == old(client)@.killed,
        final(client)@.objects == old(client)@.objects,
        final(client)@.next_serial == old(client)@.next_serial + 11,
        final(client)@.next_handler_id == old(client)@.next_handler_id + 5,
        old(client)@.killed ==> final(client)@.handlers == old(client)@.handlers
            && final(client)@.pending == old(client)@.pending && final(client)@.outgoing == old(
            client,
        )@.outgoing,
        !old(client)@.killed ==> {
            &&& final(client)@.handlers == old(client)@.handlers.push(
                crate::client::HandlerEntryV {
                    id: old(client)@.next_handler_id,
                    rule: watcher_signal_rule_v(true, "StatusNotifierItemRegistered"@),
                    callback: cbs.fdo_item_registered,
                },
            ).push(
                crate::client::HandlerEntryV {
                    id: (old(client)@.next_handler_id + 1) as u64,
                    rule: watcher_signal_rule_v(true, "StatusNotifierItemUnregistered"@),
                    callback: cbs.fdo_item_unregistered,
                },
            ).push(
                crate::client::HandlerEntryV {
                    id: (old(client)@.next_handler_id + 2) as u64,
                    rule: watcher_signal_rule_v(false, "StatusNotifierItemRegistered"@),
                    callback: cbs.kde_item_registered,
                },
            ).push(
                crate::client::HandlerEntryV {
                    id: (old(client)@.next_handler_id + 3) as u64,
                    rule: watcher_signal_rule_v(false, "StatusNotifierItemUnregistered"@),
                    callback: cbs.kde_item_unregistered,
                },
            ).push(
                crate::client::HandlerEntryV {
                    id: (old(client)@.next_handler_id + 4) as u64,
                    rule: crate::watcher::name_owner_rule_v(),
                    callback: cbs.name_owner_changed,
                },
            )
            &&& final(client)@.pending == old(client)@.pending.push(
                crate::client::PendingEntry {
                    serial: old(client)@.next_serial,
                    callback: cbs.add_match,
                },
            ).push(
                crate::client::PendingEntry {
                    serial: (old(client)@.next_serial + 1) as u32,
                    callback: cbs.add_match,
                },
            ).push(
                crate::client::PendingEntry {
                    serial: (old(client)@.next_serial + 2) as u32,
                    callback: cbs.add_match,
                },
            ).push(
                crate::client::PendingEntry {
                    serial: (old(client)@.next_serial + 3) as u32,
                    callback: cbs.add_match,
                },
            ).push(
                crate::client::PendingEntry {
                    serial: (old(client)@.next_serial + 6) as u32,
                    callback: cbs.add_match,
                },
            ).push(
                crate::client::PendingEntry {
                    serial: (old(client)@.next_serial + 8) as u32,
                    callback: cbs.fdo_items,
                },
            ).push(
                crate::client::PendingEntry {
                    serial: (old(client)@.next_serial + 10) as u32,
                    callback: cbs.kde_items,
                },
            )
            &&& final(client)@.outgoing == old(client)@.outgoing + spec_hosts_wire(
                old(client)@.next_serial,
                host.fdo_name@,
                host.kde_name@,
            )
            &&& acts@.len() == 0
        },
{
    let mut acts: Vec<Action> = Vec::new();
    let rule1 = crate::msg::MatchRule {
        kind: Some(crate::msg::MsgKind::Signal),
        sender: None,
        path: None,
        interface: Some(String::from_str("org.freedesktop.StatusNotifierWatcher")),
        member: Some(String::from_str("StatusNotifierItemRegistered")),
    };
    let (mut h1, a1) = client.handle_signal(rule1, cbs.fdo_item_registered, cbs.add_match);
    h1.detach();
    match a1 {
        Some(a) => acts.push(a),
        None => {},
    }
    let rule2 = crate::msg::MatchRule {
        kind: Some(crate::msg::MsgKind::Signal),
        sender: None,
        path: None,
        interface: Some(String::from_str("org.freedesktop.StatusNotifierWatcher")),
        member: Some(String::from_str("StatusNotifierItemUnregistered")),
    };
    let (mut h2, a2) = client.handle_signal(rule2, cbs.fdo_item_unregistered, cbs.add_match);
    h2.detach();
    match a2 {
        Some(a) => acts.push(a),
        None => {},
    }
    let rule3 = crate::msg::MatchRule {
        kind: Some(crate::msg::MsgKind::Signal),
        sender: None,
        path: None,
        interface: Some(String::from_str("org.kde.StatusNotifierWatcher")),
        member: Some(String::from_str("StatusNotifierItemRegistered")),
    };
    let (mut h3, a3) = client.handle_signal(rule3, cbs.kde_item_registered, cbs.add_match);
    h3.detach();
    match a3 {
        Some(a) => acts.push(a),
        None => {},
    }
    let rule4 = crate::msg::MatchRule {
        kind: Some(crate::msg::MsgKind::Signal),
        sender: None,
        path: None,
        interface: Some(String::from_str("org.kde.StatusNotifierWatcher")),
        member: Some(String::from_str("StatusNotifierItemUnregistered")),
    };
    let (mut h4, a4) = client.handle_signal(rule4, cbs.kde_item_unregistered, cbs.add_match);
    h4.detach();
    match a4 {
        Some(a) => acts.push(a),
        None => {},
    }
    client.request_name(host.fdo_name.clone());
    client.request_name(host.kde_name.clone());
    let rule5 = crate::msg::MatchRule {
        kind: Some(crate::msg::MsgKind::Signal),
        sender: None,
        path: None,
        interface: Some(String::from_str("org.freedesktop.DBus")),
        member: Some(String::from_str("NameOwnerChanged")),
    };
    let ghost r5v = rule5@;
    let (mut h5, a5) = client.handle_signal(rule5, cbs.name_owner_changed, cbs.add_match);
    h5.detach();
    match a5 {
        Some(a) => acts.push(a),
        None => {},
    }
    let ghost mid = client@;
    proof {
        reveal_strlit("org.freedesktop.StatusNotifierWatcher");
        reveal_strlit("org.kde.StatusNotifierWatcher");
        assert("org.freedesktop.StatusNotifierWatcher"@.len() == 37);
        assert("org.kde.StatusNotifierWatcher"@.len() == 29);
        assert("org.freedesktop.StatusNotifierWatcher"@
            != "org.kde.StatusNotifierWatcher"@);
    }
    match host.watcher_appeared(client, "org.freedesktop.StatusNotifierWatcher", cbs.fdo_items) {
        Some((mut h, a)) => {
            h.detach();
            match a {
                Some(x) => acts.push(x),
                None => {},
            }
        },
        None => {},
    }
    match host.watcher_appeared(client, "org.kde.StatusNotifierWatcher", cbs.kde_items) {
        Some((mut h, a)) => {
            h.detach();
            match a {
                Some(x) => acts.push(x),
                None => {},
            }
        },
        None => {},
    }
    proof {
        if !old(client)@.killed {
            let wire = spec_hosts_wire(old(client)@.next_serial, host.fdo_name@, host.kde_name@);
            let base = old(client)@.outgoing.len() as int;
            assert(r5v == crate::watcher::name_owner_rule_v()) by {
                assert(r5v.kind == crate::watcher::name_owner_rule_v().kind);
                assert(r5v.sender == crate::watcher::name_owner_rule_v().sender);
                assert(r5v.path == crate::watcher::name_owner_rule_v().path);
                assert(r5v.interface == crate::watcher::name_owner_rule_v().interface);
                assert(r5v.member == crate::watcher::name_owner_rule_v().member);
            }
            assert(mid.outgoing[base + 6] =~~= wire[6]);
            assert(mid.outgoing =~= old(client)@.outgoing + wire.take(7));
            assert(client@.outgoing[base + 7] =~~= wire[7]);
            assert(client@.outgoing[base + 8] =~~= wire[8]);
            assert(client@.outgoing[base + 9] =~~= wire[9]);
            assert(client@.outgoing[base + 10] =~~= wire[10]);
            assert(client@.outgoing =~= old(client)@.outgoing + wire);
        }
    }
    acts
}

impl TrackedItem {
    /// The item interface this item speaks.
    fn interface(&self) -> (r: String)
        ensures
            r@ == if self.fdo {
                "org.freedesktop.StatusNotifierItem"@
            } else {
                "org.kde.StatusNotifierItem"@
            },
    {
        if self.fdo {
            String::from_str("org.freedesktop.StatusNotifierItem")
        } else {
            String::from_str("org.kde.StatusNotifierItem")
        }
    }

    /// Calls `Activate` or `SecondaryActivate` at the item's origin; the
    /// callback learns whether the call succeeded.
    pub fn activate(&self, client: &mut Client, secondary: bool, callback: u64) -> (r: (
        CallHandle,
        Option<Action>,
    ))
        requires
            old(client).next_serial < u32::MAX,
        ensures
            r.0.serial == old(client)@.next_serial,
            r.0.detached == false,
            final(client)@.next_serial == old(client)@.next_serial + 1,
            final(client)@.handlers == old(client)@.handlers,
            final(client)@.objects == old(client)@.objects,
            old(client)@.killed ==> final(client)@.pending == old(client)@.pending
                && final(client)@.outgoing == old(client)@.outgoing && (r.1 matches Some(a) && a@
                == (crate::client::ActionV::InvokeReply {
                callback,
                result: Err::<crate::msg::BusMessageV, crate::client::BusErrorV>(
                    crate::client::BusErrorV::Killed,
                ),
            })),
            !old(client)@.killed ==> final(client)@.pending == old(client)@.pending.push(
                crate::client::PendingEntry { serial: old(client)@.next_serial, callback },
            ) && r.1 is None,
            !old(client)@.killed ==> final(client)@.outgoing == old(client)@.outgoing.push(
                crate::client::method_call_v(
                    old(client)@.next_serial,
                    self.destination@,
                    if self.fdo {
                        "org.freedesktop.StatusNotifierItem"@
                    } else {
                        "org.kde.StatusNotifierItem"@
                    },
                    self.path@,
                    if secondary {
                        "SecondaryActivate"@
                    } else {
                        "Activate"@
                    },
                    crate::msg::BodyV::Coords(0, 0),
                    false,
                ),
            ),
            old(client)@.wf() ==> final(client)@.wf(),
            final(client)@.killed == old(client)@.killed,
    {
        let member = if secondary {
            String::from_str("SecondaryActivate")
        } else {
            String::from_str("Activate")
        };
        client.call_async(
            self.destination.clone(),
            self.interface(),
            self.path.clone(),
            member,
            Body::Coords(0, 0),
            callback,
        )
    }

    /// Sends a `Scroll` with a delta and an orientation word,
    /// fire-and-forget.
    pub fn scroll(&self, client: &mut Client, delta: i32, vertical: bool)
        requires
            old(client).next_serial < u32::MAX,
        ensures
            !old(client)@.killed ==> final(client)@.outgoing == old(client)@.outgoing.push(
                crate::client::method_call_v(
                    old(client)@.next_serial,
                    self.destination@,
                    if self.fdo {
                        "org.freedesktop.StatusNotifierItem"@
                    } else {
                        "org.kde.StatusNotifierItem"@
                    },
                    self.path@,
                    "Scroll"@,
                    crate::msg::BodyV::Scroll(
                        delta,
                        if vertical {
                            "vertical"@
                        } else {
                            "horizontal"@
                        },
                    ),
                    true,
                ),
            ),
            old(client)@.wf() ==> final(client)@.wf(),
            final(client)@.killed == old(client)@.killed,
            final(client)@.pending == old(client)@.pending,
    {
        let orientation = if vertical {
            String::from_str("vertical")
        } else {
            String::from_str("horizontal")
        };
        client.call_no_reply(
            self.destination.clone(),
            self.interface(),
            self.path.clone(),
            String::from_str("Scroll"),
            Body::Scroll(delta, orientation),
        );
    }

    /// Sends a menu `Event` (hovered or clicked) at the menu path,
    /// fire-and-forget; `timestamp` is seconds since the epoch, supplied
    /// by the edge. An item without a menu session sends nothing.
    pub fn menu_event(
        &self,
        client: &mut Client,
        menu_path: &String,
        clicked: bool,
        menu_id: i32,
        timestamp: u32,
    )
        requires
            old(client).next_serial < u32::MAX,
        ensures
            !old(client)@.killed ==> final(client)@.outgoing == old(client)@.outgoing.push(
                crate::client::method_call_v(
                    old(client)@.next_serial,
                    self.destination@,
                    "com.canonical.dbusmenu"@,
                    menu_path@,
                    "Event"@,
                    crate::msg::BodyV::MenuEvent(
                        menu_id,
                        if clicked {
                            "clicked"@
                        } else {
                            "hovered"@
                        },
                        0,
                        timestamp,
                    ),
                    true,
                ),
            ),
            old(client)@.wf() ==> final(client)@.wf(),
            final(client)@.killed == old(client)@.killed,
            final(client)@.pending == old(client)@.pending,
    {
        let event = if clicked {
            String::from_str("clicked")
        } else {
            String::from_str("hovered")
        };
        client.call_no_reply(
            self.destination.clone(),
            String::from_str("com.canonical.dbusmenu"),
            menu_path.clone(),
            String::from_str("Event"),
            Body::MenuEvent(menu_id, event, 0, timestamp),
        );
    }

    /// Calls `AboutToShow(menu_id)` ahead of opening a submenu; the reply
    /// decides whether a layout refresh precedes the open.
    pub fn about_to_show(&self, client: &mut Client, menu_path: &String, menu_id: i32, callback: u64) -> (r: (
        CallHandle,
        Option<Action>,
    ))
        requires
            old(client).next_serial < u32::MAX,
        ensures
            r.0.serial == old(client)@.next_serial,
            r.0.detached == false,
            final(client)@.next_serial == old(client)@.next_serial + 1,
            final(client)@.handlers == old(client)@.handlers,
            final(client)@.objects == old(client)@.objects,
            old(client)@.killed ==> final(client)@.pending == old(client)@.pending
                && final(client)@.outgoing == old(client)@.outgoing && (r.1 matches Some(a) && a@
                == (crate::client::ActionV::InvokeReply {
                callback,
                result: Err::<crate::msg::BusMessageV, crate::client::BusErrorV>(
                    crate::client::BusErrorV::Killed,
                ),
            })),
            !old(client)@.killed ==> final(client)@.pending == old(client)@.pending.push(
                crate::client::PendingEntry { serial: old(client)@.next_serial, callback },
            ) && r.1 is None,
            !old(client)@.killed ==> final(client)@.outgoing == old(client)@.outgoing.push(
                crate::client::method_call_v(
                    old(client)@.next_serial,
                    self.destination@,
                    "com.canonical.dbusmenu"@,
                    menu_path@,
                    "AboutToShow"@,
                    crate::msg::BodyV::I32(menu_id),
                    false,
                ),
            ),
            old(client)@.wf() ==> final(client)@.wf(),
            final(client)@.killed == old(client)@.killed,
    {
        client.call_async(
            self.destination.clone(),
            String::from_str("com.canonical.dbusmenu"),
            menu_path.clone(),
            String::from_str("AboutToShow"),
            Body::I32(menu_id),
            callback,
        )
    }

    /// Opens the item's menu: without a menu session nothing happens and
    /// `None` comes back; otherwise the `AboutToShow(menu_id)` call goes
    /// out and its reply decides whether a layout refresh precedes the
    /// open callback (see `about_to_show_decision`).
    pub fn open_menu(&self, client: &mut Client, menu_path: &String, menu_id: i32, callback: u64) -> (r:
        Option<(CallHandle, Option<Action>)>)
        requires
            old(client).next_serial < u32::MAX,
        ensures
            r is Some <==> self.menu is Some,
            self.menu is None ==> final(client)@ == old(client)@,
            old(client)@.wf() ==> final(client)@.wf(),
            final(client)@.killed == old(client)@.killed,
            final(client)@.handlers == old(client)@.handlers,
            final(client)@.objects == old(client)@.objects,
            self.menu is Some ==> (r matches Some(p) && {
                &&& p.0.serial == old(client)@.next_serial
                &&& p.0.detached == false
                &&& final(client)@.next_serial == old(client)@.next_serial + 1
                &&& old(client)@.killed ==> final(client)@.pending == old(client)@.pending
                    && final(client)@.outgoing == old(client)@.outgoing
                &&& !old(client)@.killed ==> final(client)@.pending == old(
                    client,
                )@.pending.push(
                    crate::client::PendingEntry { serial: old(client)@.next_serial, callback },
                ) && p.1 is None
                &&& !old(client)@.killed ==> final(client)@.outgoing == old(
                    client,
                )@.outgoing.push(
                    crate::client::method_call_v(
                        old(client)@.next_serial,
                        self.destination@,
                        "com.canonical.dbusmenu"@,
                        menu_path@,
                        "AboutToShow"@,
                        crate::msg::BodyV::I32(menu_id),
                        false,
                    ),
                )
            }),
    {
        match &self.menu {
            Some(_) => Some(self.about_to_show(client, menu_path, menu_id, callback)),
            None => None,
        }
    }
}

} // verus!
