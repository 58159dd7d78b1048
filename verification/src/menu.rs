//! The menu-tree reconciler: a mirror of a remote menu keyed by integer
//! menu-id, fed by full layout responses and property-diff signals, and
//! emitting a recursive delta that names exactly what changed.

use vstd::prelude::*;

use crate::msg::{PropValue, PropValueV};

verus! {

/// The toggle type of a menu entry.
#[derive(Copy, Clone, Debug, PartialEq, Eq, Structural)]
pub enum SniMenuToggleType {
    Checkmark,
    Radio,
}

/// The decoded properties of one menu node.
#[derive(Clone, Debug, PartialEq, Eq)]
pub struct MenuProperties {
    pub separator: bool,
    pub access_key: Option<char>,
    pub label: String,
    pub enabled: bool,
    pub visible: bool,
    pub icon_name: String,
    pub icon_png: Vec<u8>,
    pub toggle_type: Option<SniMenuToggleType>,
    pub toggle_state: bool,
    pub children_display: bool,
}

/// The mathematical view of [`MenuProperties`].
#[verifier::ext_equal]
pub struct MenuPropertiesV {
    pub separator: bool,
    pub access_key: Option<char>,
    pub label: Seq<char>,
    pub enabled: bool,
    pub visible: bool,
    pub icon_name: Seq<char>,
    pub icon_png: Seq<u8>,
    pub toggle_type: Option<SniMenuToggleType>,
    pub toggle_state: bool,
    pub children_display: bool,
}

impl View for MenuProperties {
    type V = MenuPropertiesV;

    open spec fn view(&self) -> MenuPropertiesV {
        MenuPropertiesV {
            separator: self.separator,
            access_key: self.access_key,
            label: self.label@,
            enabled: self.enabled,
            visible: self.visible,
            icon_name: self.icon_name@,
            icon_png: self.icon_png@,
            toggle_type: self.toggle_type,
            toggle_state: self.toggle_state,
            children_display: self.children_display,
        }
    }
}

/// The values an absent key implies.
pub open spec fn default_props_v() -> MenuPropertiesV {
    MenuPropertiesV {
        separator: false,
        access_key: Option::None,
        label: Seq::empty(),
        enabled: true,
        visible: true,
        icon_name: Seq::empty(),
        icon_png: Seq::empty(),
        toggle_type: Option::None,
        toggle_state: false,
        children_display: false,
    }
}

impl MenuProperties {
    /// The properties an empty map decodes to.
    pub fn defaults() -> (r: MenuProperties)
        ensures
            r@ == default_props_v(),
    {
        let r = MenuProperties {
            separator: false,
            access_key: None,
            label: String::new(),
            enabled: true,
            visible: true,
            icon_name: String::new(),
            icon_png: Vec::new(),
            toggle_type: None,
            toggle_state: false,
            children_display: false,
        };
        proof {
            assert(r@ =~= default_props_v());
        }
        r
    }

    /// A copy with an equal view.
    pub fn dup(&self) -> (r: MenuProperties)
        ensures
            r@ == self@,
    {
        let r = MenuProperties {
            separator: self.separator,
            access_key: self.access_key,
            label: self.label.clone(),
            enabled: self.enabled,
            visible: self.visible,
            icon_name: self.icon_name.clone(),
            icon_png: crate::msg::dup_bytes(&self.icon_png),
            toggle_type: self.toggle_type,
            toggle_state: self.toggle_state,
            children_display: self.children_display,
        };
        proof {
            assert(r@ =~= self@);
        }
        r
    }
}

/// One node's property diff: keys mapped to a new value, or to nothing
/// (meaning: reset to the default).
pub type PropDiff = Vec<(String, Option<PropValue>)>;

/// The view of a [`PropDiff`].
pub type PropDiffV = Seq<(Seq<char>, Option<PropValueV>)>;

/// The view of one diff entry.
pub open spec fn diff_view(d: Seq<(String, Option<PropValue>)>) -> PropDiffV {
    d.map_values(
        |e: (String, Option<PropValue>)| (
            e.0@,
            match e.1 {
                Option::Some(v) => Option::Some(v@),
                Option::None => Option::<PropValueV>::None,
            },
        ),
    )
}

/// The first diff entry for `key`: absent, reset, or a new value.
pub open spec fn diff_lookup(d: PropDiffV, key: Seq<char>) -> Option<Option<PropValueV>>
    decreases d.len(),
{
    if d.len() == 0 {
        Option::None
    } else if d[0].0 == key {
        Option::Some(d[0].1)
    } else {
        diff_lookup(d.drop_first(), key)
    }
}

/// The label scan: `_` marks a mnemonic; `__` is a literal underscore.
/// This is the label text that comes out.
pub open spec fn scan_label(s: Seq<char>, pending: bool) -> Seq<char>
    decreases s.len(),
{
    if s.len() == 0 {
        Seq::empty()
    } else if s[0] == '_' {
        if pending {
            seq!['_'] + scan_label(s.drop_first(), false)
        } else {
            scan_label(s.drop_first(), true)
        }
    } else {
        seq![s[0]] + scan_label(s.drop_first(), false)
    }
}

/// The label scan's access key: the character that follows the last
/// unmatched `_`, or the inherited key when no mnemonic occurs.
pub open spec fn scan_key(s: Seq<char>, pending: bool, acc: Option<char>) -> Option<char>
    decreases s.len(),
{
    if s.len() == 0 {
        acc
    } else if s[0] == '_' {
        scan_key(s.drop_first(), !pending, acc)
    } else if pending {
        scan_key(s.drop_first(), false, Option::Some(s[0]))
    } else {
        scan_key(s.drop_first(), false, acc)
    }
}

/// One node's properties after a diff is applied: an absent key keeps the
/// field, a reset key restores the default, a present value decodes by the
/// field's rule with a type mismatch falling back to the default.
pub open spec fn spec_apply_diff(p: MenuPropertiesV, d: PropDiffV) -> MenuPropertiesV {
    let separator = match diff_lookup(d, "type"@) {
        Option::None => p.separator,
        Option::Some(Option::Some(PropValueV::Str(s))) => s == "separator"@,
        Option::Some(_) => false,
    };
    let enabled = match diff_lookup(d, "enabled"@) {
        Option::None => p.enabled,
        Option::Some(Option::Some(PropValueV::Bool(b))) => b,
        Option::Some(_) => true,
    };
    let visible = match diff_lookup(d, "visible"@) {
        Option::None => p.visible,
        Option::Some(Option::Some(PropValueV::Bool(b))) => b,
        Option::Some(_) => true,
    };
    let icon_name = match diff_lookup(d, "icon-name"@) {
        Option::None => p.icon_name,
        Option::Some(Option::Some(PropValueV::Str(s))) => s,
        Option::Some(_) => Seq::empty(),
    };
    let icon_png = match diff_lookup(d, "icon-data"@) {
        Option::None => p.icon_png,
        Option::Some(Option::Some(PropValueV::Bytes(b))) => b,
        Option::Some(_) => Seq::empty(),
    };
    let toggle_type = match diff_lookup(d, "toggle-type"@) {
        Option::None => p.toggle_type,
        Option::Some(Option::Some(PropValueV::Str(s))) => if s == "checkmark"@ {
            Option::Some(SniMenuToggleType::Checkmark)
        } else if s == "radio"@ {
            Option::Some(SniMenuToggleType::Radio)
        } else {
            Option::None
        },
        Option::Some(_) => Option::None,
    };
    let toggle_state = match diff_lookup(d, "toggle-state"@) {
        Option::None => p.toggle_state,
        Option::Some(Option::Some(PropValueV::I32(x))) => x == 1,
        Option::Some(_) => false,
    };
    let children_display = match diff_lookup(d, "children-display"@) {
        Option::None => p.children_display,
        Option::Some(Option::Some(PropValueV::Str(s))) => s == "submenu"@,
        Option::Some(_) => false,
    };
    let label = match diff_lookup(d, "label"@) {
        Option::None => p.label,
        Option::Some(Option::Some(PropValueV::Str(s))) => scan_label(s, false),
        Option::Some(_) => Seq::empty(),
    };
    let access_key = match diff_lookup(d, "label"@) {
        Option::None => p.access_key,
        Option::Some(Option::Some(PropValueV::Str(s))) => scan_key(s, false, p.access_key),
        Option::Some(_) => Option::None,
    };
    MenuPropertiesV {
        separator,
        access_key,
        label,
        enabled,
        visible,
        icon_name,
        icon_png,
        toggle_type,
        toggle_state,
        children_display,
    }
}

/// Decoding a full property map: every field starts from its default.
pub open spec fn spec_parse_props(entries: Seq<(Seq<char>, PropValueV)>) -> MenuPropertiesV {
    spec_apply_diff(
        default_props_v(),
        entries.map_values(
            |e: (Seq<char>, PropValueV)| (e.0, Option::Some(e.1)),
        ),
    )
}

/// [`diff_lookup`] returns the first match.
proof fn lemma_diff_lookup_at(d: PropDiffV, key: Seq<char>, i: int)
    requires
        0 <= i < d.len(),
        d[i].0 == key,
        forall|j: int| 0 <= j < i ==> (#[trigger] d[j]).0 != key,
    ensures
        diff_lookup(d, key) == Option::Some(d[i].1),
    decreases i,
{
    if i > 0 {
        lemma_diff_lookup_at(d.drop_first(), key, i - 1);
    }
}

/// [`diff_lookup`] finds nothing when no entry matches.
proof fn lemma_diff_lookup_none(d: PropDiffV, key: Seq<char>)
    requires
        forall|j: int| 0 <= j < d.len() ==> (#[trigger] d[j]).0 != key,
    ensures
        diff_lookup(d, key) is None,
    decreases d.len(),
{
    if d.len() > 0 {
        lemma_diff_lookup_none(d.drop_first(), key);
    }
}

/// The first diff entry for `key`, copied out.
fn diff_get(d: &PropDiff, key: &str) -> (r: Option<Option<PropValue>>)
    ensures
        match r {
            Option::None => diff_lookup(diff_view(d@), key@) is None,
            Option::Some(Option::None) => diff_lookup(diff_view(d@), key@) == Option::Some(
                Option::<PropValueV>::None,
            ),
            Option::Some(Option::Some(v)) => diff_lookup(diff_view(d@), key@) == Option::Some(
                Option::Some(v@),
            ),
        },
{
    let n = d.len();
    let mut i: usize = 0;
    while i < n
        invariant
            n == d@.len(),
            i <= n,
            forall|j: int| 0 <= j < i ==> (#[trigger] diff_view(d@)[j]).0 != key@,
        decreases n - i,
    {
        if crate::strutil::str_eq(d[i].0.as_str(), key) {
            proof {
                assert(diff_view(d@)[i as int].0 == key@);
                lemma_diff_lookup_at(diff_view(d@), key@, i as int);
            }
            match &d[i].1 {
                Option::Some(v) => {
                    let out = v.dup();
                    proof {
                        assert(diff_view(d@)[i as int].1 == Option::Some(v@));
                    }
                    return Some(Some(out));
                },
                Option::None => {
                    proof {
                        assert(diff_view(d@)[i as int].1 == Option::<PropValueV>::None);
                    }
                    return Some(None);
                },
            }
        }
        proof {
            assert(diff_view(d@)[i as int].0 == d@[i as int].0@);
        }
        i = i + 1;
    }
    proof {
        lemma_diff_lookup_none(diff_view(d@), key@);
    }
    None
}

/// Decodes a mnemonic-encoded label: `_` marks the access key, `__` is a
/// literal underscore. Returns the label text and the access key, which
/// falls back to `prev` when the label holds no mnemonic.
pub fn decode_label(s: &str, prev: Option<char>) -> (r: (String, Option<char>))
    ensures
        r.0@ == scan_label(s@, false),
        r.1 == scan_key(s@, false, prev),
{
    let n = s.unicode_len();
    let mut label: Vec<char> = Vec::new();
    let mut key: Option<char> = prev;
    let mut pending = false;
    let mut i: usize = 0;
    proof {
        assert(s@.skip(0) =~= s@);
    }
    while i < n
        invariant
            n == s@.len(),
            i <= n,
            scan_label(s@, false) == label@ + scan_label(s@.skip(i as int), pending),
            scan_key(s@, false, prev) == scan_key(s@.skip(i as int), pending, key),
        decreases n - i,
    {
        let c = s.get_char(i);
        proof {
            assert(s@.skip(i as int)[0] == s@[i as int]);
            assert(s@.skip(i as int).drop_first() =~= s@.skip(i + 1 as int));
        }
        if c == '_' {
            if pending {
                label.push('_');
                pending = false;
                proof {
                    assert(label@ + scan_label(s@.skip(i + 1 as int), false) =~= label@.drop_last()
                        + (seq!['_'] + scan_label(s@.skip(i + 1 as int), false)));
                }
            } else {
                pending = true;
            }
        } else {
            if pending {
                key = Some(c);
                pending = false;
            }
            label.push(c);
            proof {
                assert(label@ + scan_label(s@.skip(i + 1 as int), false) =~= label@.drop_last()
                    + (seq![s@[i as int]] + scan_label(s@.skip(i + 1 as int), false)));
            }
        }
        i = i + 1;
    }
    proof {
        assert(s@.skip(n as int) =~= Seq::<char>::empty());
        assert(scan_label(s@, false) =~= label@);
    }
    (crate::strutil::chars_to_string(&label), key)
}

impl MenuProperties {
    /// Applies one node's property diff: an absent key keeps the field, a
    /// reset restores the default, a value decodes by the field's rule.
    #[verifier::rlimit(50)]
    pub fn apply_diff(&mut self, d: &PropDiff)
        ensures
            final(self)@ == spec_apply_diff(old(self)@, diff_view(d@)),
    {
        let separator = match diff_get(d, "type") {
            None => self.separator,
            Some(Some(PropValue::Str(s))) => crate::strutil::str_eq(s.as_str(), "separator"),
            Some(_) => false,
        };
        let enabled = match diff_get(d, "enabled") {
            None => self.enabled,
            Some(Some(PropValue::Bool(b))) => b,
            Some(_) => true,
        };
        let visible = match diff_get(d, "visible") {
            None => self.visible,
            Some(Some(PropValue::Bool(b))) => b,
            Some(_) => true,
        };
        let icon_name = match diff_get(d, "icon-name") {
            None => self.icon_name.clone(),
            Some(Some(PropValue::Str(s))) => s,
            Some(_) => String::new(),
        };
        let icon_png = match diff_get(d, "icon-data") {
            None => crate::msg::dup_bytes(&self.icon_png),
            Some(Some(PropValue::Bytes(b))) => b,
            Some(_) => Vec::new(),
        };
        let toggle_type = match diff_get(d, "toggle-type") {
            None => self.toggle_type,
            Some(Some(PropValue::Str(s))) => {
                if crate::strutil::str_eq(s.as_str(), "checkmark") {
                    Some(SniMenuToggleType::Checkmark)
                } else if crate::strutil::str_eq(s.as_str(), "radio") {
                    Some(SniMenuToggleType::Radio)
                } else {
                    None
                }
            },
            Some(_) => None,
        };
        let toggle_state = match diff_get(d, "toggle-state") {
            None => self.toggle_state,
            Some(Some(PropValue::I32(x))) => x == 1,
            Some(_) => false,
        };
        let children_display = match diff_get(d, "children-display") {
            None => self.children_display,
            Some(Some(PropValue::Str(s))) => crate::strutil::str_eq(s.as_str(), "submenu"),
            Some(_) => false,
        };
        let (label, access_key) = match diff_get(d, "label") {
            None => (self.label.clone(), self.access_key),
            Some(Some(PropValue::Str(s))) => {
                let decoded = decode_label(s.as_str(), self.access_key);
                (decoded.0, decoded.1)
            },
            Some(_) => (String::new(), None),
        };
        *self = MenuProperties {
            separator,
            access_key,
            label,
            enabled,
            visible,
            icon_name,
            icon_png,
            toggle_type,
            toggle_state,
            children_display,
        };
        proof {
            assert(self@ =~= spec_apply_diff(old(self)@, diff_view(d@)));
        }
    }
}

/// The per-field delta of one node's properties: each present field
/// carries the new value.
#[derive(Clone, Debug, PartialEq, Eq)]
pub struct SniMenuPropertiesDelta {
    pub separator: Option<bool>,
    pub access_key: Option<Option<char>>,
    pub label: Option<String>,
    pub enabled: Option<bool>,
    pub visible: Option<bool>,
    pub icon_name: Option<String>,
    pub icon_png: Option<Vec<u8>>,
    pub toggle_type: Option<Option<SniMenuToggleType>>,
    pub toggle_state: Option<bool>,
    pub children_display: Option<bool>,
}

/// The mathematical view of a [`SniMenuPropertiesDelta`].
#[verifier::ext_equal]
pub struct SniMenuPropertiesDeltaV {
    pub separator: Option<bool>,
    pub access_key: Option<Option<char>>,
    pub label: Option<Seq<char>>,
    pub enabled: Option<bool>,
    pub visible: Option<bool>,
    pub icon_name: Option<Seq<char>>,
    pub icon_png: Option<Seq<u8>>,
    pub toggle_type: Option<Option<SniMenuToggleType>>,
    pub toggle_state: Option<bool>,
    pub children_display: Option<bool>,
}

impl View for SniMenuPropertiesDelta {
    type V = SniMenuPropertiesDeltaV;

    open spec fn view(&self) -> SniMenuPropertiesDeltaV {
        SniMenuPropertiesDeltaV {
            separator: self.separator,
            access_key: self.access_key,
            label: match &self.label {
                Option::Some(s) => Option::Some(s@),
                Option::None => Option::None,
            },
            enabled: self.enabled,
            visible: self.visible,
            icon_name: match &self.icon_name {
                Option::Some(s) => Option::Some(s@),
                Option::None => Option::None,
            },
            icon_png: match &self.icon_png {
                Option::Some(b) => Option::Some(b@),
                Option::None => Option::None,
            },
            toggle_type: self.toggle_type,
            toggle_state: self.toggle_state,
            children_display: self.children_display,
        }
    }
}

/// The property delta between two property records: each differing field
/// carries the new value; `None` when every field agrees.
pub open spec fn spec_diff_props(o: MenuPropertiesV, n: MenuPropertiesV) -> Option<
    SniMenuPropertiesDeltaV,
> {
    if o == n {
        Option::None
    } else {
        Option::Some(
            SniMenuPropertiesDeltaV {
                separator: if o.separator != n.separator {
                    Option::Some(n.separator)
                } else {
                    Option::None
                },
                access_key: if o.access_key != n.access_key {
                    Option::Some(n.access_key)
                } else {
                    Option::None
                },
                label: if o.label != n.label {
                    Option::Some(n.label)
                } else {
                    Option::None
                },
                enabled: if o.enabled != n.enabled {
                    Option::Some(n.enabled)
                } else {
                    Option::None
                },
                visible: if o.visible != n.visible {
                    Option::Some(n.visible)
                } else {
                    Option::None
                },
                icon_name: if o.icon_name != n.icon_name {
                    Option::Some(n.icon_name)
                } else {
                    Option::None
                },
                icon_png: if o.icon_png != n.icon_png {
                    Option::Some(n.icon_png)
                } else {
                    Option::None
                },
                toggle_type: if o.toggle_type != n.toggle_type {
                    Option::Some(n.toggle_type)
                } else {
                    Option::None
                },
                toggle_state: if o.toggle_state != n.toggle_state {
                    Option::Some(n.toggle_state)
                } else {
                    Option::None
                },
                children_display: if o.children_display != n.children_display {
                    Option::Some(n.children_display)
                } else {
                    Option::None
                },
            },
        )
    }
}

/// A mirror of a remote menu subtree. Child order is significant: kept
/// children stay in their old positions, newly seen children append.
#[derive(Debug, PartialEq, Eq)]
pub struct MenuTree {
    pub menu_id: i32,
    pub properties: MenuProperties,
    pub children: Vec<MenuTree>,
}

/// The mathematical view of a [`MenuTree`].
#[verifier::ext_equal]
pub struct MenuTreeV {
    pub menu_id: i32,
    pub properties: MenuPropertiesV,
    pub children: Seq<MenuTreeV>,
}

/// The view of a tree, by structural recursion.
pub open spec fn tree_view(t: MenuTree) -> MenuTreeV
    decreases t, 0int, 0int,
{
    MenuTreeV {
        menu_id: t.menu_id,
        properties: t.properties@,
        children: tree_view_list(t.children@, 0),
    }
}

/// The views of the trees of a list, from index `k` on.
pub open spec fn tree_view_list(cs: Seq<MenuTree>, k: int) -> Seq<MenuTreeV>
    decreases cs, 0int, cs.len() - k,
{
    if k < 0 || k >= cs.len() {
        Seq::empty()
    } else {
        seq![tree_view(cs[k])] + tree_view_list(cs, k + 1)
    }
}

impl View for MenuTree {
    type V = MenuTreeV;

    open spec fn view(&self) -> MenuTreeV {
        tree_view(*self)
    }
}

impl DeepView for MenuTree {
    type V = MenuTreeV;

    open spec fn deep_view(&self) -> MenuTreeV {
        self@
    }
}

/// The recursive delta emitted after a reconciliation. In the children
/// list, an absent id was removed, an entry with a delta is new or
/// changed, and an entry without one was kept unchanged.
#[derive(Debug, PartialEq, Eq)]
pub struct SniMenuDelta {
    pub menu_id: i32,
    pub properties: Option<SniMenuPropertiesDelta>,
    pub children: Option<Vec<(i32, Option<SniMenuDelta>)>>,
}

/// The mathematical view of a [`SniMenuDelta`].
#[verifier::ext_equal]
pub struct SniMenuDeltaV {
    pub menu_id: i32,
    pub properties: Option<SniMenuPropertiesDeltaV>,
    pub children: Option<Seq<(i32, Option<SniMenuDeltaV>)>>,
}

/// The view of a delta, by structural recursion.
pub open spec fn delta_view(d: SniMenuDelta) -> SniMenuDeltaV
    decreases d, 0int, 0int,
{
    SniMenuDeltaV {
        menu_id: d.menu_id,
        properties: match d.properties {
            Option::Some(p) => Option::Some(p@),
            Option::None => Option::None,
        },
        children: match d.children {
            Option::Some(v) => Option::Some(delta_view_list(v@, 0)),
            Option::None => Option::None,
        },
    }
}

/// The views of the delta entries of a list, from index `k` on.
pub open spec fn delta_view_list(v: Seq<(i32, Option<SniMenuDelta>)>, k: int) -> Seq<
    (i32, Option<SniMenuDeltaV>),
>
    decreases v, 0int, v.len() - k,
{
    if k < 0 || k >= v.len() {
        Seq::empty()
    } else {
        let entry = (
            v[k].0,
            match v[k].1 {
                Option::Some(d) => Option::Some(delta_view(d)),
                Option::None => Option::None,
            },
        );
        seq![entry] + delta_view_list(v, k + 1)
    }
}

impl View for SniMenuDelta {
    type V = SniMenuDeltaV;

    open spec fn view(&self) -> SniMenuDeltaV {
        delta_view(*self)
    }
}

/// The view of an optional delta.
pub open spec fn opt_delta_view(d: Option<SniMenuDelta>) -> Option<SniMenuDeltaV> {
    match d {
        Option::Some(dd) => Option::Some(dd@),
        Option::None => Option::None,
    }
}

/// The first subtree with the given menu-id.
pub open spec fn find_tree(cs: Seq<MenuTreeV>, id: i32) -> Option<MenuTreeV>
    decreases cs.len(),
{
    if cs.len() == 0 {
        Option::None
    } else if cs[0].menu_id == id {
        Option::Some(cs[0])
    } else {
        find_tree(cs.drop_first(), id)
    }
}

/// Whether some subtree carries the given menu-id.
pub open spec fn has_tree(cs: Seq<MenuTreeV>, id: i32) -> bool {
    find_tree(cs, id) is Some
}

/// The old children whose menu-ids survive in the new list, in old order.
pub open spec fn keep_children(old_cs: Seq<MenuTreeV>, new_cs: Seq<MenuTreeV>) -> Seq<MenuTreeV>
    decreases old_cs.len(),
{
    if old_cs.len() == 0 {
        Seq::empty()
    } else {
        keep_children(old_cs.drop_last(), new_cs) + if has_tree(new_cs, old_cs.last().menu_id) {
            seq![old_cs.last()]
        } else {
            Seq::empty()
        }
    }
}

/// The new children whose menu-ids are new, in new order.
pub open spec fn appended_new(old_cs: Seq<MenuTreeV>, new_cs: Seq<MenuTreeV>) -> Seq<MenuTreeV>
    decreases new_cs.len(),
{
    if new_cs.len() == 0 {
        Seq::empty()
    } else {
        appended_new(old_cs, new_cs.drop_last()) + if !has_tree(old_cs, new_cs.last().menu_id) {
            seq![new_cs.last()]
        } else {
            Seq::empty()
        }
    }
}

/// A property delta carrying every field of `p`.
pub open spec fn full_props_delta(p: MenuPropertiesV) -> SniMenuPropertiesDeltaV {
    SniMenuPropertiesDeltaV {
        separator: Option::Some(p.separator),
        access_key: Option::Some(p.access_key),
        label: Option::Some(p.label),
        enabled: Option::Some(p.enabled),
        visible: Option::Some(p.visible),
        icon_name: Option::Some(p.icon_name),
        icon_png: Option::Some(p.icon_png),
        toggle_type: Option::Some(p.toggle_type),
        toggle_state: Option::Some(p.toggle_state),
        children_display: Option::Some(p.children_display),
    }
}

/// The delta describing a whole subtree, as emitted for a brand-new child.
pub open spec fn tree_delta(t: MenuTreeV) -> SniMenuDeltaV
    decreases t, 0int,
{
    SniMenuDeltaV {
        menu_id: t.menu_id,
        properties: Option::Some(full_props_delta(t.properties)),
        children: Option::Some(tree_delta_list(t.children, 0)),
    }
}

/// The child entries of a whole-subtree delta, from index `k` on.
pub open spec fn tree_delta_list(cs: Seq<MenuTreeV>, k: int) -> Seq<(i32, Option<SniMenuDeltaV>)>
    decreases cs, cs.len() - k,
{
    if k < 0 || k >= cs.len() {
        Seq::empty()
    } else {
        seq![(cs[k].menu_id, Option::Some(tree_delta(cs[k])))] + tree_delta_list(cs, k + 1)
    }
}

/// The kept children, each merged with its new counterpart, from `k` on.
pub open spec fn merged_kept(kept: Seq<MenuTreeV>, new_cs: Seq<MenuTreeV>, k: int) -> Seq<
    MenuTreeV,
>
    decreases new_cs, 1int, kept.len() - k,
    via merged_kept_decreases
{
    if k < 0 || k >= kept.len() {
        Seq::empty()
    } else {
        let merged0 = match find_tree(new_cs, kept[k].menu_id) {
            Option::Some(nc) => spec_merge(kept[k], nc).0,
            Option::None => kept[k],
        };
        seq![merged0] + merged_kept(kept, new_cs, k + 1)
    }
}

#[via_fn]
proof fn merged_kept_decreases(kept: Seq<MenuTreeV>, new_cs: Seq<MenuTreeV>, k: int) {
    if 0 <= k < kept.len() {
        match find_tree(new_cs, kept[k].menu_id) {
            Option::Some(nc) => {
                lemma_find_tree_in(new_cs, kept[k].menu_id);
                let j = choose|j: int| 0 <= j < new_cs.len() && new_cs[j] == nc;
                vstd::seq::axiom_seq_index_decreases(new_cs, j);
            },
            Option::None => {},
        }
    }
}

/// The found subtree is an element of the list.
proof fn lemma_find_tree_in(cs: Seq<MenuTreeV>, id: i32)
    ensures
        find_tree(cs, id) matches Option::Some(t) ==> exists|j: int|
            0 <= j < cs.len() && cs[j] == t,
    decreases cs.len(),
{
    if cs.len() > 0 {
        lemma_find_tree_in(cs.drop_first(), id);
        if find_tree(cs, id) is Some && cs[0].menu_id != id {
            let t = find_tree(cs, id)->Some_0;
            let j = choose|j: int| 0 <= j < cs.drop_first().len() && cs.drop_first()[j] == t;
            assert(cs[j + 1] == t);
        }
    }
}

/// The delta entries for the new children, in new order, from `k` on: a
/// new child carries its whole subtree; a kept child carries the result
/// of its merge.
pub open spec fn child_delta_list(
    old_cs: Seq<MenuTreeV>,
    new_cs: Seq<MenuTreeV>,
    k: int,
) -> Seq<(i32, Option<SniMenuDeltaV>)>
    decreases new_cs, 1int, new_cs.len() - k,
{
    if k < 0 || k >= new_cs.len() {
        Seq::empty()
    } else {
        let entry = match find_tree(old_cs, new_cs[k].menu_id) {
            Option::Some(oc) => (new_cs[k].menu_id, spec_merge(oc, new_cs[k]).1),
            Option::None => (new_cs[k].menu_id, Option::Some(tree_delta(new_cs[k]))),
        };
        seq![entry] + child_delta_list(old_cs, new_cs, k + 1)
    }
}

/// Whether any child entry carries a delta.
pub open spec fn any_child_delta(ds: Seq<(i32, Option<SniMenuDeltaV>)>) -> bool {
    exists|i: int| 0 <= i < ds.len() && (#[trigger] ds[i]).1 is Some
}

/// Merging a full layout response into the mirror: the node's properties
/// are replaced (recording differing fields), children absent from the
/// response are dropped, kept children merge recursively in place, new
/// children append in response order. The delta is `None` iff nothing
/// changed.
pub open spec fn spec_merge(t: MenuTreeV, new: MenuTreeV) -> (MenuTreeV, Option<SniMenuDeltaV>)
    decreases new, 0int, 0int,
{
    let pd = spec_diff_props(t.properties, new.properties);
    let kept = keep_children(t.children, new.children);
    let merged = merged_kept(kept, new.children, 0);
    let appended = appended_new(t.children, new.children);
    let ds = child_delta_list(t.children, new.children, 0);
    let removed_any = kept.len() != t.children.len();
    let any_child = removed_any || any_child_delta(ds);
    let t2 = MenuTreeV {
        menu_id: t.menu_id,
        properties: new.properties,
        children: merged + appended,
    };
    if pd is None && !any_child {
        (t2, Option::None)
    } else {
        (
            t2,
            Option::Some(
                SniMenuDeltaV {
                    menu_id: t.menu_id,
                    properties: pd,
                    children: if any_child {
                        Option::Some(ds)
                    } else {
                        Option::None
                    },
                },
            ),
        )
    }
}

/// Index form of [`tree_view_list`].
pub proof fn lemma_tree_view_list_index(cs: Seq<MenuTree>, k: int)
    requires
        0 <= k <= cs.len(),
    ensures
        tree_view_list(cs, k).len() == cs.len() - k,
        forall|j: int|
            0 <= j < cs.len() - k ==> tree_view_list(cs, k)[j] == tree_view(cs[k + j]),
    decreases cs.len() - k,
{
    if k < cs.len() {
        lemma_tree_view_list_index(cs, k + 1);
    }
}

/// Index form of [`delta_view_list`].
pub proof fn lemma_delta_view_list_index(v: Seq<(i32, Option<SniMenuDelta>)>, k: int)
    requires
        0 <= k <= v.len(),
    ensures
        delta_view_list(v, k).len() == v.len() - k,
        forall|j: int|
            0 <= j < v.len() - k ==> delta_view_list(v, k)[j] == (
                v[k + j].0,
                match v[k + j].1 {
                    Option::Some(d) => Option::Some(delta_view(d)),
                    Option::None => Option::<SniMenuDeltaV>::None,
                },
            ),
    decreases v.len() - k,
{
    if k < v.len() {
        lemma_delta_view_list_index(v, k + 1);
    }
}

/// Index form of [`tree_delta_list`].
pub proof fn lemma_tree_delta_list_index(cs: Seq<MenuTreeV>, k: int)
    requires
        0 <= k <= cs.len(),
    ensures
        tree_delta_list(cs, k).len() == cs.len() - k,
        forall|j: int|
            0 <= j < cs.len() - k ==> tree_delta_list(cs, k)[j] == (
                cs[k + j].menu_id,
                Option::Some(tree_delta(cs[k + j])),
            ),
    decreases cs.len() - k,
{
    if k < cs.len() {
        lemma_tree_delta_list_index(cs, k + 1);
    }
}

/// [`find_tree`] returns the first match.
pub proof fn lemma_find_tree_at(cs: Seq<MenuTreeV>, id: i32, i: int)
    requires
        0 <= i < cs.len(),
        cs[i].menu_id == id,
        forall|j: int| 0 <= j < i ==> (#[trigger] cs[j]).menu_id != id,
    ensures
        find_tree(cs, id) == Option::Some(cs[i]),
    decreases i,
{
    if i > 0 {
        lemma_find_tree_at(cs.drop_first(), id, i - 1);
    }
}

/// [`find_tree`] finds nothing when no subtree matches.
pub proof fn lemma_find_tree_none(cs: Seq<MenuTreeV>, id: i32)
    requires
        forall|j: int| 0 <= j < cs.len() ==> (#[trigger] cs[j]).menu_id != id,
    ensures
        find_tree(cs, id) is None,
    decreases cs.len(),
{
    if cs.len() > 0 {
        lemma_find_tree_none(cs.drop_first(), id);
    }
}

/// A deep copy of a tree.
pub fn tree_dup(t: &MenuTree) -> (r: MenuTree)
    ensures
        r@ == t@,
    decreases t,
{
    let n = t.children.len();
    let mut children: Vec<MenuTree> = Vec::new();
    let mut i: usize = 0;
    while i < n
        invariant
            n == t.children@.len(),
            i <= n,
            children@.len() == i,
            forall|j: int| 0 <= j < i ==> (#[trigger] children@[j])@ == tree_view(t.children@[j]),
        decreases n - i,
    {
        children.push(tree_dup(&t.children[i]));
        i = i + 1;
    }
    let r = MenuTree {
        menu_id: t.menu_id,
        properties: t.properties.dup(),
        children,
    };
    proof {
        lemma_tree_view_list_index(r.children@, 0);
        lemma_tree_view_list_index(t.children@, 0);
        assert(tree_view_list(r.children@, 0) =~= tree_view_list(t.children@, 0));
        assert(r@ =~= t@);
    }
    r
}

/// The whole-subtree delta for a tree, as emitted for a new child.
pub fn tree_to_delta(t: &MenuTree) -> (r: SniMenuDelta)
    ensures
        r@ == tree_delta(t@),
    decreases t,
{
    let pd = SniMenuPropertiesDelta {
        separator: Some(t.properties.separator),
        access_key: Some(t.properties.access_key),
        label: Some(t.properties.label.clone()),
        enabled: Some(t.properties.enabled),
        visible: Some(t.properties.visible),
        icon_name: Some(t.properties.icon_name.clone()),
        icon_png: Some(crate::msg::dup_bytes(&t.properties.icon_png)),
        toggle_type: Some(t.properties.toggle_type),
        toggle_state: Some(t.properties.toggle_state),
        children_display: Some(t.properties.children_display),
    };
    let n = t.children.len();
    let mut entries: Vec<(i32, Option<SniMenuDelta>)> = Vec::new();
    let mut i: usize = 0;
    while i < n
        invariant
            n == t.children@.len(),
            i <= n,
            entries@.len() == i,
            forall|j: int|
                0 <= j < i ==> (#[trigger] entries@[j]).0 == tree_view(t.children@[j]).menu_id
                    && entries@[j].1 is Some && delta_view(entries@[j].1->Some_0) == tree_delta(
                    tree_view(t.children@[j]),
                ),
        decreases n - i,
    {
        let child_id = t.children[i].menu_id;
        let d = tree_to_delta(&t.children[i]);
        entries.push((child_id, Some(d)));
        i = i + 1;
    }
    let r = SniMenuDelta { menu_id: t.menu_id, properties: Some(pd), children: Some(entries) };
    proof {
        lemma_delta_view_list_index(r.children->Some_0@, 0);
        lemma_tree_view_list_index(t.children@, 0);
        lemma_tree_delta_list_index(t@.children, 0);
        assert(delta_view_list(r.children->Some_0@, 0) =~= tree_delta_list(t@.children, 0));
        assert(pd@ =~= full_props_delta(t@.properties));
        assert(r@ =~= tree_delta(t@));
    }
    r
}

/// The index of the first child with the given menu-id.
pub fn find_child_index(cs: &Vec<MenuTree>, id: i32) -> (r: Option<usize>)
    ensures
        match r {
            Some(i) => {
                &&& i < cs@.len()
                &&& find_tree(cs.deep_view(), id) == Option::Some(cs.deep_view()[i as int])
                &&& cs.deep_view()[i as int].menu_id == id
            },
            None => find_tree(cs.deep_view(), id) is None,
        },
{
    let n = cs.len();
    let mut i: usize = 0;
    while i < n
        invariant
            n == cs@.len(),
            i <= n,
            forall|j: int| 0 <= j < i ==> (#[trigger] cs.deep_view()[j]).menu_id != id,
        decreases n - i,
    {
        if cs[i].menu_id == id {
            proof {
                assert(cs.deep_view()[i as int].menu_id == id);
                lemma_find_tree_at(cs.deep_view(), id, i as int);
            }
            return Some(i);
        }
        proof {
            assert(cs.deep_view()[i as int].menu_id == cs@[i as int].menu_id);
        }
        i = i + 1;
    }
    proof {
        lemma_find_tree_none(cs.deep_view(), id);
    }
    None
}

/// Merges a full layout response into the mirror and emits the delta.
///
/// The result tree and the delta are built by separate passes over the
/// child lists; both passes merge the same old/new pairs.
pub fn merge_tree(t: MenuTree, new: MenuTree) -> (r: (MenuTree, Option<SniMenuDelta>))
    ensures
        r.0@ == spec_merge(t@, new@).0,
        opt_delta_view(r.1) == spec_merge(t@, new@).1,
    decreases new@,
{
    let ghost tv = t@;
    let ghost nv = new@;
    proof {
        lemma_tree_view_list_index(t.children@, 0);
        lemma_tree_view_list_index(new.children@, 0);
    }
    let pd = diff_props(&t.properties, &new.properties);
    // The old children whose ids survive, in old order.
    let n_old = t.children.len();
    let mut kept: Vec<MenuTree> = Vec::new();
    let mut i: usize = 0;
    while i < n_old
        invariant
            n_old == t.children@.len(),
            i <= n_old,
            tv == t@,
            nv == new@,
            tv.children == tree_view_list(t.children@, 0),
            nv.children == tree_view_list(new.children@, 0),
            t.children.deep_view() == tv.children,
            new.children.deep_view() == nv.children,
            kept.deep_view() == keep_children(tv.children.take(i as int), nv.children),
        decreases n_old - i,
    {
        proof {
            assert(tv.children.take(i + 1 as int).drop_last() =~= tv.children.take(i as int));
            assert(tv.children.take(i + 1 as int).last() == tv.children[i as int]);
        }
        if contains_id(&new.children, t.children[i].menu_id) {
            kept.push(tree_dup(&t.children[i]));
            proof {
                assert(kept.deep_view() =~= keep_children(tv.children.take(i + 1 as int),
                    nv.children));
            }
        } else {
            proof {
                assert(kept.deep_view() =~= keep_children(tv.children.take(i + 1 as int),
                    nv.children));
            }
        }
        i = i + 1;
    }
    proof {
        assert(tv.children.take(n_old as int) =~= tv.children);
    }
    let removed_any = kept.len() != n_old;
    let ghost keptv = kept.deep_view();
    // The kept children, each merged with its new counterpart.
    let n_kept = kept.len();
    let mut merged: Vec<MenuTree> = Vec::new();
    let mut k: usize = 0;
    while k < n_kept
        invariant
            n_kept == kept@.len(),
            k <= n_kept,
            nv == new@,
            kept.deep_view() == keptv,
            new.children.deep_view() == nv.children,
            nv.children == tree_view_list(new.children@, 0),
            merged.deep_view() + merged_kept(keptv, nv.children, k as int) == merged_kept(
                keptv,
                nv.children,
                0,
            ),
        decreases n_kept - k,
    {
        let c = tree_dup(&kept[k]);
        let ghost mergedv = merged.deep_view();
        match find_child_index(&new.children, c.menu_id) {
            Some(j) => {
                let nc = tree_dup(&new.children[j]);
                proof {
                    assert(nc@ == nv.children[j as int]);
                    assert(decreases_to!(nv => nv.children));
                    assert(decreases_to!(nv.children => nv.children[j as int]));
                }
                let pair = merge_tree(c, nc);
                merged.push(pair.0);
                proof {
                    assert(merged.deep_view() =~= mergedv.push(
                        spec_merge(keptv[k as int], nv.children[j as int]).0,
                    ));
                    assert(find_tree(nv.children, keptv[k as int].menu_id) == Option::Some(
                        nv.children[j as int],
                    ));
                    assert((mergedv.push(spec_merge(keptv[k as int], nv.children[j as int]).0))
                        + merged_kept(keptv, nv.children, k + 1 as int) =~= mergedv + merged_kept(
                        keptv,
                        nv.children,
                        k as int,
                    ));
                }
            },
            None => {
                merged.push(c);
                proof {
                    assert(merged.deep_view() =~= mergedv.push(keptv[k as int]));
                    assert((mergedv.push(keptv[k as int])) + merged_kept(
                        keptv,
                        nv.children,
                        k + 1 as int,
                    ) =~= mergedv + merged_kept(keptv, nv.children, k as int));
                }
            },
        }
        k = k + 1;
    }
    proof {
        assert(merged.deep_view() + merged_kept(keptv, nv.children, n_kept as int)
            =~= merged.deep_view());
        assert(merged.deep_view() =~= merged_kept(keptv, nv.children, 0));
    }
    // The delta entries in new order, and the brand-new children.
    let n_new = new.children.len();
    let mut deltas: Vec<(i32, Option<SniMenuDelta>)> = Vec::new();
    let mut appended: Vec<MenuTree> = Vec::new();
    let mut any_delta = false;
    let mut k2: usize = 0;
    while k2 < n_new
        invariant
            n_new == new.children@.len(),
            k2 <= n_new,
            tv == t@,
            nv == new@,
            t.children.deep_view() == tv.children,
            new.children.deep_view() == nv.children,
            tv.children == tree_view_list(t.children@, 0),
            nv.children == tree_view_list(new.children@, 0),
            delta_view_list(deltas@, 0) + child_delta_list(tv.children, nv.children, k2 as int)
                == child_delta_list(tv.children, nv.children, 0),
            deltas@.len() == k2,
            appended.deep_view() == appended_new(tv.children, nv.children.take(k2 as int)),
            any_delta == any_child_delta(delta_view_list(deltas@, 0)),
        decreases n_new - k2,
    {
        let ghost deltasv = delta_view_list(deltas@, 0);
        proof {
            lemma_delta_view_list_index(deltas@, 0);
            assert(nv.children.take(k2 + 1 as int).drop_last() =~= nv.children.take(k2 as int));
            assert(nv.children.take(k2 + 1 as int).last() == nv.children[k2 as int]);
        }
        let id = new.children[k2].menu_id;
        match find_child_index(&t.children, id) {
            Some(oi) => {
                let oc = tree_dup(&t.children[oi]);
                let nc = tree_dup(&new.children[k2]);
                proof {
                    assert(oc@ == tv.children[oi as int]);
                    assert(nc@ == nv.children[k2 as int]);
                    assert(decreases_to!(nv => nv.children));
                    assert(decreases_to!(nv.children => nv.children[k2 as int]));
                }
                let pair = merge_tree(oc, nc);
                let d_is_some = match &pair.1 {
                    Some(_) => true,
                    None => false,
                };
                deltas.push((id, pair.1));
                any_delta = any_delta || d_is_some;
                proof {
                    lemma_delta_view_list_index(deltas@, 0);
                    assert(delta_view_list(deltas@, 0) =~= deltasv.push(
                        (id, spec_merge(tv.children[oi as int], nv.children[k2 as int]).1),
                    ));
                    assert(deltasv.push(
                        (id, spec_merge(tv.children[oi as int], nv.children[k2 as int]).1),
                    ) + child_delta_list(tv.children, nv.children, k2 + 1 as int) =~= deltasv
                        + child_delta_list(tv.children, nv.children, k2 as int));
                    assert(appended.deep_view() =~= appended_new(
                        tv.children,
                        nv.children.take(k2 + 1 as int),
                    ));
                    assert(any_child_delta(delta_view_list(deltas@, 0)) == (any_child_delta(
                        deltasv,
                    ) || spec_merge(tv.children[oi as int], nv.children[k2 as int]).1 is Some))
                        by {
                        let full = delta_view_list(deltas@, 0);
                        assert(full.len() == deltasv.len() + 1);
                        if any_child_delta(deltasv) {
                            let w = choose|w: int|
                                0 <= w < deltasv.len() && (#[trigger] deltasv[w]).1 is Some;
                            assert(full[w].1 is Some);
                        }
                        if spec_merge(tv.children[oi as int], nv.children[k2 as int]).1 is Some {
                            assert(full[deltasv.len() as int].1 is Some);
                        }
                        if any_child_delta(full) && !any_child_delta(deltasv) && !(spec_merge(
                            tv.children[oi as int],
                            nv.children[k2 as int],
                        ).1 is Some) {
                            let w = choose|w: int|
                                0 <= w < full.len() && (#[trigger] full[w]).1 is Some;
                            if w < deltasv.len() {
                                assert(deltasv[w].1 is Some);
                            }
                            assert(false);
                        }
                    }
                }
            },
            None => {
                let d = tree_to_delta(&new.children[k2]);
                deltas.push((id, Some(d)));
                any_delta = true;
                appended.push(tree_dup(&new.children[k2]));
                proof {
                    lemma_delta_view_list_index(deltas@, 0);
                    assert(delta_view_list(deltas@, 0) =~= deltasv.push(
                        (id, Option::Some(tree_delta(nv.children[k2 as int]))),
                    ));
                    assert(deltasv.push(
                        (id, Option::Some(tree_delta(nv.children[k2 as int]))),
                    ) + child_delta_list(tv.children, nv.children, k2 + 1 as int) =~= deltasv
                        + child_delta_list(tv.children, nv.children, k2 as int));
                    assert(appended.deep_view() =~= appended_new(
                        tv.children,
                        nv.children.take(k2 + 1 as int),
                    ));
                    assert(any_child_delta(delta_view_list(deltas@, 0))) by {
                        let full = delta_view_list(deltas@, 0);
                        assert(full[full.len() - 1].1 is Some);
                    }
                }
            },
        }
        k2 = k2 + 1;
    }
    proof {
        assert(nv.children.take(n_new as int) =~= nv.children);
        assert(delta_view_list(deltas@, 0) + child_delta_list(tv.children, nv.children,
            n_new as int) =~= delta_view_list(deltas@, 0));
        assert(delta_view_list(deltas@, 0) =~= child_delta_list(tv.children, nv.children, 0));
    }
    // Assemble the new mirror and the delta.
    let mut children = merged;
    let mut appended = appended;
    children.append(&mut appended);
    let t2 = MenuTree { menu_id: t.menu_id, properties: new.properties, children };
    proof {
        lemma_tree_view_list_index(t2.children@, 0);
        assert(tree_view_list(t2.children@, 0) =~= merged_kept(keptv, nv.children, 0)
            + appended_new(tv.children, nv.children)) by {
            assert(t2.children.deep_view() =~= merged_kept(keptv, nv.children, 0) + appended_new(
                tv.children,
                nv.children,
            ));
        }
        assert(keptv == keep_children(tv.children, nv.children));
        assert(t2@ =~= spec_merge(tv, nv).0);
    }
    let pd_is_some = match &pd {
        Some(_) => true,
        None => false,
    };
    let any_child = removed_any || any_delta;
    if !pd_is_some && !any_child {
        proof {
            assert(opt_delta_view(Option::<SniMenuDelta>::None) == spec_merge(tv, nv).1);
        }
        (t2, None)
    } else {
        let d = SniMenuDelta {
            menu_id: t2.menu_id,
            properties: pd,
            children: if any_child {
                Some(deltas)
            } else {
                None
            },
        };
        proof {
            assert(d@ =~= spec_merge(tv, nv).1->Some_0);
        }
        (t2, Some(d))
    }
}

/// Whether some child of the list carries the given menu-id.
pub fn contains_id(cs: &Vec<MenuTree>, id: i32) -> (r: bool)
    ensures
        r == has_tree(cs.deep_view(), id),
{
    match find_child_index(cs, id) {
        Some(_) => true,
        None => false,
    }
}

/// Unchanged-child entries for `cs[a..b]`.
pub open spec fn none_entries(cs: Seq<MenuTreeV>, a: int, b: int) -> Seq<
    (i32, Option<SniMenuDeltaV>),
>
    decreases b - a,
{
    if a < 0 || a >= b || b > cs.len() {
        Seq::empty()
    } else {
        seq![(cs[a].menu_id, Option::<SniMenuDeltaV>::None)] + none_entries(cs, a + 1, b)
    }
}

/// Locates the node with `id` inside the mirror and merges `new` there.
/// `Some(Some(d))`: found and changed, with the delta chained through the
/// ancestors; `Some(None)`: found, nothing changed; `None`: no such node.
pub open spec fn spec_merge_nested(t: MenuTreeV, id: i32, new: MenuTreeV) -> (
    MenuTreeV,
    Option<Option<SniMenuDeltaV>>,
)
    decreases t, 1int, 0int,
{
    if t.menu_id == id {
        let m = spec_merge(t, new);
        (m.0, Option::Some(m.1))
    } else {
        nested_scan(t, id, new, 0)
    }
}

/// Scans the children of `t` from index `k` for the node with `id`.
pub open spec fn nested_scan(t: MenuTreeV, id: i32, new: MenuTreeV, k: int) -> (
    MenuTreeV,
    Option<Option<SniMenuDeltaV>>,
)
    decreases t, 0int, t.children.len() - k,
{
    if k < 0 || k >= t.children.len() {
        (t, Option::None)
    } else {
        let m = spec_merge_nested(t.children[k], id, new);
        match m.1 {
            Option::Some(Option::Some(d)) => (
                MenuTreeV {
                    menu_id: t.menu_id,
                    properties: t.properties,
                    children: t.children.update(k, m.0),
                },
                Option::Some(
                    Option::Some(
                        SniMenuDeltaV {
                            menu_id: t.menu_id,
                            properties: Option::None,
                            children: Option::Some(
                                none_entries(t.children, 0, k) + seq![
                                    (t.children[k].menu_id, Option::Some(d)),
                                ] + none_entries(t.children, k + 1, t.children.len() as int),
                            ),
                        },
                    ),
                ),
            ),
            Option::Some(Option::None) => (t, Option::Some(Option::None)),
            Option::None => nested_scan(t, id, new, k + 1),
        }
    }
}

/// The view of a doubly optional delta.
pub open spec fn opt_opt_delta_view(d: Option<Option<SniMenuDelta>>) -> Option<
    Option<SniMenuDeltaV>,
> {
    match d {
        Option::Some(Option::Some(dd)) => Option::Some(Option::Some(dd@)),
        Option::Some(Option::None) => Option::Some(Option::None),
        Option::None => Option::None,
    }
}

/// Locates the node with `id` and merges a full layout response there,
/// chaining the delta through the ancestors.
pub fn merge_nested(t: MenuTree, id: i32, new: &MenuTree) -> (r: (
    MenuTree,
    Option<Option<SniMenuDelta>>,
))
    ensures
        r.0@ == spec_merge_nested(t@, id, new@).0,
        opt_opt_delta_view(r.1) == spec_merge_nested(t@, id, new@).1,
    decreases t@,
{
    let ghost tv = t@;
    if t.menu_id == id {
        let m = merge_tree(t, tree_dup(new));
        let out = match m.1 {
            Some(d) => Some(Some(d)),
            None => Some(None),
        };
        return (m.0, out);
    }
    proof {
        lemma_tree_view_list_index(t.children@, 0);
    }
    let n = t.children.len();
    let mut k: usize = 0;
    while k < n
        invariant
            n == t.children@.len(),
            tv == t@,
            tv.children == tree_view_list(t.children@, 0),
            t.children.deep_view() == tv.children,
            k <= n,
            spec_merge_nested(tv, id, new@) == nested_scan(tv, id, new@, k as int),
            t.menu_id != id,
        decreases n - k,
    {
        proof {
            assert(decreases_to!(tv => tv.children));
            assert(decreases_to!(tv.children => tv.children[k as int]));
        }
        let c = tree_dup(&t.children[k]);
        let m = merge_nested(c, id, new);
        match m.1 {
            Some(Some(d)) => {
                // Found and changed below child `k`: splice the merged
                // child in and chain the delta through this node.
                let ghost sm = nested_scan(tv, id, new@, k as int);
                let mut children: Vec<MenuTree> = Vec::new();
                let mut entries: Vec<(i32, Option<SniMenuDelta>)> = Vec::new();
                let mut j: usize = 0;
                while j < k
                    invariant
                        n == t.children@.len(),
                        tv == t@,
                        tv.children == tree_view_list(t.children@, 0),
                        t.children.deep_view() == tv.children,
                        k < n,
                        j <= k,
                        children@.len() == j,
                        forall|x: int|
                            0 <= x < j ==> (#[trigger] children@[x])@ == tv.children[x],
                        entries@.len() == j,
                        forall|x: int|
                            0 <= x < j ==> (#[trigger] entries@[x]).0 == tv.children[x].menu_id
                                && entries@[x].1 is None,
                    decreases k - j,
                {
                    children.push(tree_dup(&t.children[j]));
                    entries.push((t.children[j].menu_id, None));
                    j = j + 1;
                }
                let ghost m0v = m.0@;
                let ghost dv = d@;
                children.push(m.0);
                entries.push((t.children[k].menu_id, Some(d)));
                let mut j2: usize = k + 1;
                while j2 < n
                    invariant
                        n == t.children@.len(),
                        tv == t@,
                        tv.children == tree_view_list(t.children@, 0),
                        t.children.deep_view() == tv.children,
                        k < n,
                        k + 1 <= j2 <= n,
                        children@.len() == j2,
                        forall|x: int|
                            0 <= x < j2 ==> (#[trigger] children@[x])@ == (if x == k {
                                m0v
                            } else {
                                tv.children[x]
                            }),
                        entries@.len() == j2,
                        forall|x: int|
                            0 <= x < j2 ==> (#[trigger] entries@[x]).0 == tv.children[x].menu_id
                                && (if x == k {
                                entries@[x].1 is Some && delta_view(entries@[x].1->Some_0) == dv
                            } else {
                                entries@[x].1 is None
                            }),
                    decreases n - j2,
                {
                    children.push(tree_dup(&t.children[j2]));
                    entries.push((t.children[j2].menu_id, None));
                    j2 = j2 + 1;
                }
                let out_tree = MenuTree {
                    menu_id: t.menu_id,
                    properties: t.properties,
                    children,
                };
                let out_delta = SniMenuDelta {
                    menu_id: out_tree.menu_id,
                    properties: None,
                    children: Some(entries),
                };
                proof {
                    lemma_tree_view_list_index(out_tree.children@, 0);
                    assert(tree_view_list(out_tree.children@, 0) =~= tv.children.update(
                        k as int,
                        m0v,
                    ));
                    assert(out_tree@ =~= sm.0);
                    lemma_delta_view_list_index(out_delta.children->Some_0@, 0);
                    lemma_none_entries_index(tv.children, 0, k as int);
                    lemma_none_entries_index(tv.children, k + 1 as int, n as int);
                    let p1 = none_entries(tv.children, 0, k as int);
                    let mid = seq![(tv.children[k as int].menu_id, Option::Some(dv))];
                    let p3 = none_entries(tv.children, k + 1 as int, n as int);
                    assert(delta_view_list(out_delta.children->Some_0@, 0) =~= p1 + mid + p3);
                    assert(out_delta@ =~= sm.1->Some_0->Some_0);
                }
                return (out_tree, Some(Some(out_delta)));
            },
            Some(None) => {
                return (t, Some(None));
            },
            None => {},
        }
        k = k + 1;
    }
    (t, None)
}

/// Index form of [`none_entries`].
pub proof fn lemma_none_entries_index(cs: Seq<MenuTreeV>, a: int, b: int)
    requires
        0 <= a <= b <= cs.len(),
    ensures
        none_entries(cs, a, b).len() == b - a,
        forall|j: int|
            0 <= j < b - a ==> none_entries(cs, a, b)[j] == (
                cs[a + j].menu_id,
                Option::<SniMenuDeltaV>::None,
            ),
    decreases b - a,
{
    if a < b {
        lemma_none_entries_index(cs, a + 1, b);
    }
}

/// Property diffs keyed by menu-id.
pub type NodeDiffs = Vec<(i32, PropDiff)>;

/// The view of [`NodeDiffs`].
pub type NodeDiffsV = Seq<(i32, PropDiffV)>;

/// The view of a node-diff list.
pub open spec fn node_diffs_view(v: Seq<(i32, PropDiff)>) -> NodeDiffsV {
    v.map_values(|e: (i32, PropDiff)| (e.0, diff_view(e.1@)))
}

/// The first diff for a menu-id.
pub open spec fn find_node_diff(ds: NodeDiffsV, id: i32) -> Option<PropDiffV>
    decreases ds.len(),
{
    if ds.len() == 0 {
        Option::None
    } else if ds[0].0 == id {
        Option::Some(ds[0].1)
    } else {
        find_node_diff(ds.drop_first(), id)
    }
}

/// [`find_node_diff`] returns the first match.
proof fn lemma_find_node_diff_at(ds: NodeDiffsV, id: i32, i: int)
    requires
        0 <= i < ds.len(),
        ds[i].0 == id,
        forall|j: int| 0 <= j < i ==> (#[trigger] ds[j]).0 != id,
    ensures
        find_node_diff(ds, id) == Option::Some(ds[i].1),
    decreases i,
{
    if i > 0 {
        lemma_find_node_diff_at(ds.drop_first(), id, i - 1);
    }
}

/// [`find_node_diff`] finds nothing when no entry matches.
proof fn lemma_find_node_diff_none(ds: NodeDiffsV, id: i32)
    requires
        forall|j: int| 0 <= j < ds.len() ==> (#[trigger] ds[j]).0 != id,
    ensures
        find_node_diff(ds, id) is None,
    decreases ds.len(),
{
    if ds.len() > 0 {
        lemma_find_node_diff_none(ds.drop_first(), id);
    }
}

/// Applying property diffs to the children of a node, from index `k` on:
/// the new children, the per-child delta entries (in mirror order), and
/// whether any child changed.
pub open spec fn props_children(cs: Seq<MenuTreeV>, ds: NodeDiffsV, k: int) -> (
    Seq<MenuTreeV>,
    Seq<(i32, Option<SniMenuDeltaV>)>,
    bool,
)
    decreases cs, 0int, cs.len() - k,
{
    if k < 0 || k >= cs.len() {
        (Seq::empty(), Seq::empty(), false)
    } else {
        let m = spec_merge_props_tree(cs[k], ds);
        let rest = props_children(cs, ds, k + 1);
        (
            seq![m.0] + rest.0,
            seq![(cs[k].menu_id, m.1)] + rest.1,
            m.1 is Some || rest.2,
        )
    }
}

/// Applying property diffs throughout a subtree: each listed node merges
/// its diff (reset keys fall back to defaults); the delta names every
/// node whose decoded properties changed.
pub open spec fn spec_merge_props_tree(t: MenuTreeV, ds: NodeDiffsV) -> (
    MenuTreeV,
    Option<SniMenuDeltaV>,
)
    decreases t, 1int, 0int,
{
    let new_props = match find_node_diff(ds, t.menu_id) {
        Option::Some(d) => spec_apply_diff(t.properties, d),
        Option::None => t.properties,
    };
    let pd = spec_diff_props(t.properties, new_props);
    let rec = props_children(t.children, ds, 0);
    let t2 = MenuTreeV { menu_id: t.menu_id, properties: new_props, children: rec.0 };
    if pd is None && !rec.2 {
        (t2, Option::None)
    } else {
        (
            t2,
            Option::Some(
                SniMenuDeltaV {
                    menu_id: t.menu_id,
                    properties: pd,
                    children: if rec.2 {
                        Option::Some(rec.1)
                    } else {
                        Option::None
                    },
                },
            ),
        )
    }
}

/// The first diff for a menu-id, copied out.
fn node_diff_get(ds: &NodeDiffs, id: i32) -> (r: Option<PropDiff>)
    ensures
        match r {
            Some(d) => find_node_diff(node_diffs_view(ds@), id) == Option::Some(diff_view(d@)),
            None => find_node_diff(node_diffs_view(ds@), id) is None,
        },
{
    let n = ds.len();
    let mut i: usize = 0;
    while i < n
        invariant
            n == ds@.len(),
            i <= n,
            forall|j: int| 0 <= j < i ==> (#[trigger] node_diffs_view(ds@)[j]).0 != id,
        decreases n - i,
    {
        if ds[i].0 == id {
            proof {
                assert(node_diffs_view(ds@)[i as int].0 == id);
                lemma_find_node_diff_at(node_diffs_view(ds@), id, i as int);
            }
            let src = &ds[i].1;
            let m = src.len();
            let mut out: PropDiff = Vec::new();
            let mut j: usize = 0;
            while j < m
                invariant
                    m == src@.len(),
                    j <= m,
                    out@.len() == j,
                    forall|x: int|
                        0 <= x < j ==> diff_view(out@)[x] == diff_view(src@)[x],
                decreases m - j,
            {
                let key = src[j].0.clone();
                let v = match &src[j].1 {
                    Some(pv) => Some(pv.dup()),
                    None => None,
                };
                out.push((key, v));
                j = j + 1;
            }
            proof {
                assert(diff_view(out@) =~= diff_view(src@));
                assert(node_diffs_view(ds@)[i as int].1 == diff_view(src@));
            }
            return Some(out);
        }
        proof {
            assert(node_diffs_view(ds@)[i as int].0 == ds@[i as int].0);
        }
        i = i + 1;
    }
    proof {
        lemma_find_node_diff_none(node_diffs_view(ds@), id);
    }
    None
}

/// Applies property diffs throughout a subtree and emits the delta.
pub fn merge_props_tree(t: MenuTree, ds: &NodeDiffs) -> (r: (MenuTree, Option<SniMenuDelta>))
    ensures
        r.0@ == spec_merge_props_tree(t@, node_diffs_view(ds@)).0,
        opt_delta_view(r.1) == spec_merge_props_tree(t@, node_diffs_view(ds@)).1,
    decreases t@,
{
    let ghost tv = t@;
    let ghost dsv = node_diffs_view(ds@);
    proof {
        lemma_tree_view_list_index(t.children@, 0);
    }
    let mut props = t.properties.dup();
    match node_diff_get(ds, t.menu_id) {
        Some(d) => {
            props.apply_diff(&d);
        },
        None => {},
    }
    let pd = diff_props(&t.properties, &props);
    let n = t.children.len();
    let mut children: Vec<MenuTree> = Vec::new();
    let mut entries: Vec<(i32, Option<SniMenuDelta>)> = Vec::new();
    let mut any_changed = false;
    let mut k: usize = 0;
    while k < n
        invariant
            n == t.children@.len(),
            tv == t@,
            dsv == node_diffs_view(ds@),
            tv.children == tree_view_list(t.children@, 0),
            t.children.deep_view() == tv.children,
            k <= n,
            children.deep_view() + props_children(tv.children, dsv, k as int).0 == props_children(
                tv.children,
                dsv,
                0,
            ).0,
            delta_view_list(entries@, 0) + props_children(tv.children, dsv, k as int).1
                == props_children(tv.children, dsv, 0).1,
            entries@.len() == k,
            (any_changed || props_children(tv.children, dsv, k as int).2) == props_children(
                tv.children,
                dsv,
                0,
            ).2,
        decreases n - k,
    {
        proof {
            assert(decreases_to!(tv => tv.children));
            assert(decreases_to!(tv.children => tv.children[k as int]));
            lemma_delta_view_list_index(entries@, 0);
        }
        let ghost childrenv = children.deep_view();
        let ghost entriesv = delta_view_list(entries@, 0);
        let c = tree_dup(&t.children[k]);
        let child_id = c.menu_id;
        let m = merge_props_tree(c, ds);
        let d_is_some = match &m.1 {
            Some(_) => true,
            None => false,
        };
        children.push(m.0);
        entries.push((child_id, m.1));
        any_changed = any_changed || d_is_some;
        proof {
            let sm = spec_merge_props_tree(tv.children[k as int], dsv);
            assert(children.deep_view() =~= childrenv.push(sm.0));
            lemma_delta_view_list_index(entries@, 0);
            assert(delta_view_list(entries@, 0) =~= entriesv.push(
                (tv.children[k as int].menu_id, sm.1),
            ));
            assert(childrenv.push(sm.0) + props_children(tv.children, dsv, k + 1 as int).0
                =~= childrenv + props_children(tv.children, dsv, k as int).0);
            assert(entriesv.push((tv.children[k as int].menu_id, sm.1)) + props_children(
                tv.children,
                dsv,
                k + 1 as int,
            ).1 =~= entriesv + props_children(tv.children, dsv, k as int).1);
        }
        k = k + 1;
    }
    proof {
        assert(children.deep_view() + props_children(tv.children, dsv, n as int).0
            =~= children.deep_view());
        assert(children.deep_view() =~= props_children(tv.children, dsv, 0).0);
        assert(delta_view_list(entries@, 0) + props_children(tv.children, dsv, n as int).1
            =~= delta_view_list(entries@, 0));
        assert(delta_view_list(entries@, 0) =~= props_children(tv.children, dsv, 0).1);
    }
    let t2 = MenuTree { menu_id: t.menu_id, properties: props, children };
    proof {
        lemma_tree_view_list_index(t2.children@, 0);
        assert(tree_view_list(t2.children@, 0) =~= props_children(tv.children, dsv, 0).0);
        assert(t2@ =~= spec_merge_props_tree(tv, dsv).0);
    }
    let pd_is_some = match &pd {
        Some(_) => true,
        None => false,
    };
    if !pd_is_some && !any_changed {
        (t2, None)
    } else {
        let d = SniMenuDelta {
            menu_id: t2.menu_id,
            properties: pd,
            children: if any_changed {
                Some(entries)
            } else {
                None
            },
        };
        proof {
            assert(d@ =~= spec_merge_props_tree(tv, dsv).1->Some_0);
        }
        (t2, Some(d))
    }
}

/// A raw layout node, as the `GetLayout` reply carries it: the menu-id,
/// the property map, and the child nodes.
#[derive(Debug, PartialEq, Eq)]
pub struct LayoutNode {
    pub menu_id: i32,
    pub properties: Vec<(String, PropValue)>,
    pub children: Vec<LayoutNode>,
}

/// The mathematical view of a [`LayoutNode`].
#[verifier::ext_equal]
pub struct LayoutNodeV {
    pub menu_id: i32,
    pub properties: Seq<(Seq<char>, PropValueV)>,
    pub children: Seq<LayoutNodeV>,
}

/// The view of a layout node, by structural recursion.
pub open spec fn layout_view(n: LayoutNode) -> LayoutNodeV
    decreases n, 0int, 0int,
{
    LayoutNodeV {
        menu_id: n.menu_id,
        properties: crate::msg::dict_view(n.properties@),
        children: layout_view_list(n.children@, 0),
    }
}

/// The views of the layout nodes of a list, from index `k` on.
pub open spec fn layout_view_list(cs: Seq<LayoutNode>, k: int) -> Seq<LayoutNodeV>
    decreases cs, 0int, cs.len() - k,
{
    if k < 0 || k >= cs.len() {
        Seq::empty()
    } else {
        seq![layout_view(cs[k])] + layout_view_list(cs, k + 1)
    }
}

impl View for LayoutNode {
    type V = LayoutNodeV;

    open spec fn view(&self) -> LayoutNodeV {
        layout_view(*self)
    }
}

/// Index form of [`layout_view_list`].
pub proof fn lemma_layout_view_list_index(cs: Seq<LayoutNode>, k: int)
    requires
        0 <= k <= cs.len(),
    ensures
        layout_view_list(cs, k).len() == cs.len() - k,
        forall|j: int|
            0 <= j < cs.len() - k ==> layout_view_list(cs, k)[j] == layout_view(cs[k + j]),
    decreases cs.len() - k,
{
    if k < cs.len() {
        lemma_layout_view_list_index(cs, k + 1);
    }
}

/// Whether some node of the list carries the given menu-id.
pub open spec fn has_node(cs: Seq<LayoutNodeV>, id: i32) -> bool {
    exists|j: int| 0 <= j < cs.len() && (#[trigger] cs[j]).menu_id == id
}

/// Parsing the children of a layout node, from index `k` on: a child
/// whose menu-id already occurred is ignored on second occurrence.
pub open spec fn parse_children(cs: Seq<LayoutNodeV>, k: int) -> Seq<MenuTreeV>
    decreases cs, 0int, cs.len() - k,
{
    if k < 0 || k >= cs.len() {
        Seq::empty()
    } else if has_node(cs.take(k), cs[k].menu_id) {
        parse_children(cs, k + 1)
    } else {
        seq![spec_parse_tree(cs[k])] + parse_children(cs, k + 1)
    }
}

/// Parsing a layout node into a mirror tree: properties decode from
/// their defaults; duplicate child ids are ignored on second occurrence.
pub open spec fn spec_parse_tree(n: LayoutNodeV) -> MenuTreeV
    decreases n, 1int, 0int,
{
    MenuTreeV {
        menu_id: n.menu_id,
        properties: spec_parse_props(n.properties),
        children: parse_children(n.children, 0),
    }
}

/// Parses a layout node into a mirror tree.
pub fn parse_tree(n: &LayoutNode) -> (r: MenuTree)
    ensures
        r@ == spec_parse_tree(n@),
    decreases n@,
{
    let ghost nv = n@;
    proof {
        lemma_layout_view_list_index(n.children@, 0);
    }
    // Decode the property map over the defaults.
    let mut diff: PropDiff = Vec::new();
    let m = n.properties.len();
    let mut j: usize = 0;
    while j < m
        invariant
            m == n.properties@.len(),
            j <= m,
            diff@.len() == j,
            forall|x: int|
                0 <= x < j ==> diff_view(diff@)[x] == (
                    crate::msg::dict_view(n.properties@)[x].0,
                    Option::Some(crate::msg::dict_view(n.properties@)[x].1),
                ),
        decreases m - j,
    {
        let ghost dv0 = diff@;
        let key = n.properties[j].0.clone();
        let v = n.properties[j].1.dup();
        diff.push((key, Some(v)));
        proof {
            assert forall|x: int| 0 <= x < j + 1 implies diff_view(diff@)[x] == (
                crate::msg::dict_view(n.properties@)[x].0,
                Option::Some(crate::msg::dict_view(n.properties@)[x].1),
            ) by {
                assert(crate::msg::dict_view(n.properties@)[x] == (
                    n.properties@[x].0@,
                    n.properties@[x].1@,
                ));
                if x < j {
                    assert(diff@[x] == dv0[x]);
                    assert(diff_view(dv0)[x] == (
                        crate::msg::dict_view(n.properties@)[x].0,
                        Option::Some(crate::msg::dict_view(n.properties@)[x].1),
                    ));
                } else {
                    assert(diff@[x].0@ == n.properties@[x].0@);
                    assert(diff@[x].1->Some_0@ == n.properties@[x].1@);
                }
            }
        }
        j = j + 1;
    }
    let mut props = MenuProperties::defaults();
    props.apply_diff(&diff);
    proof {
        assert(diff_view(diff@) =~= crate::msg::dict_view(n.properties@).map_values(
            |e: (Seq<char>, PropValueV)| (e.0, Option::Some(e.1)),
        ));
        assert(props@ == spec_parse_props(nv.properties));
    }
    // Parse the children, ignoring duplicate ids on second occurrence.
    let nc = n.children.len();
    let mut children: Vec<MenuTree> = Vec::new();
    let mut k: usize = 0;
    while k < nc
        invariant
            nc == n.children@.len(),
            nv == n@,
            nv.children == layout_view_list(n.children@, 0),
            nv.children.len() == nc,
            k <= nc,
            children.deep_view() + parse_children(nv.children, k as int) == parse_children(
                nv.children,
                0,
            ),
        decreases nc - k,
    {
        let ghost childrenv = children.deep_view();
        let id = n.children[k].menu_id;
        let mut seen = false;
        let mut x: usize = 0;
        while x < k
            invariant
                nc == n.children@.len(),
                nv.children == layout_view_list(n.children@, 0),
                nv.children.len() == nc,
                k < nc,
                x <= k,
                seen == exists|y: int|
                    0 <= y < x && (#[trigger] nv.children[y]).menu_id == id,
            decreases k - x,
        {
            proof {
                lemma_layout_view_list_index(n.children@, 0);
            }
            if n.children[x].menu_id == id {
                proof {
                    assert(nv.children[x as int].menu_id == id);
                }
                seen = true;
            }
            x = x + 1;
        }
        proof {
            lemma_layout_view_list_index(n.children@, 0);
            assert(nv.children.take(k as int).len() == k);
            assert forall|y: int| 0 <= y < k implies nv.children.take(k as int)[y]
                == nv.children[y] by {}
            assert(seen == has_node(nv.children.take(k as int), nv.children[k as int].menu_id));
            assert(decreases_to!(nv => nv.children));
            assert(decreases_to!(nv.children => nv.children[k as int]));
        }
        if !seen {
            let child = parse_tree(&n.children[k]);
            children.push(child);
            proof {
                assert(children.deep_view() =~= childrenv.push(
                    spec_parse_tree(nv.children[k as int]),
                ));
                assert(childrenv.push(spec_parse_tree(nv.children[k as int])) + parse_children(
                    nv.children,
                    k + 1 as int,
                ) =~= childrenv + parse_children(nv.children, k as int));
            }
        }
        k = k + 1;
    }
    proof {
        assert(children.deep_view() + parse_children(nv.children, nc as int)
            =~= children.deep_view());
    }
    let r = MenuTree { menu_id: n.menu_id, properties: props, children };
    proof {
        lemma_tree_view_list_index(r.children@, 0);
        assert(tree_view_list(r.children@, 0) =~= parse_children(nv.children, 0));
        assert(r@ =~= spec_parse_tree(nv));
    }
    r
}

/// A menu session: the mirror of one remote menu, its revision, and the
/// set of layout queries still in flight.
#[derive(Debug, PartialEq, Eq)]
pub struct MenuSession {
    pub revision: u32,
    pub tree: MenuTree,
    pub next_query_id: u64,
    pub inflight: Vec<u64>,
}

/// The mathematical view of a [`MenuSession`].
#[verifier::ext_equal]
pub struct MenuSessionV {
    pub revision: u32,
    pub tree: MenuTreeV,
    pub next_query_id: u64,
    pub inflight: Seq<u64>,
}

impl View for MenuSession {
    type V = MenuSessionV;

    open spec fn view(&self) -> MenuSessionV {
        MenuSessionV {
            revision: self.revision,
            tree: self.tree@,
            next_query_id: self.next_query_id,
            inflight: self.inflight@,
        }
    }
}

/// A layout query to issue: `GetLayout(parent_id, -1, [])`, tracked under
/// `query_id` until its reply arrives.
#[derive(Copy, Clone, Debug, PartialEq, Eq, Structural)]
pub struct LayoutQuery {
    pub query_id: u64,
    pub parent_id: i32,
}

/// What an `ItemsPropertiesUpdated` signal leads to: a full refresh while
/// layout queries are in flight, or a direct merge.
#[derive(Debug, PartialEq, Eq)]
pub enum ItemsUpdateOutcome {
    Refresh(LayoutQuery),
    Applied(Option<SniMenuDelta>),
}

/// The inflight set without `id`.
pub open spec fn remove_query(q: Seq<u64>, id: u64) -> Seq<u64>
    decreases q.len(),
{
    if q.len() == 0 {
        Seq::empty()
    } else {
        remove_query(q.drop_last(), id) + if q.last() != id {
            seq![q.last()]
        } else {
            Seq::empty()
        }
    }
}

/// Replaces or appends a node's diff, first match by menu-id.
pub open spec fn set_node_diff(ds: NodeDiffsV, id: i32, d: PropDiffV) -> NodeDiffsV
    decreases ds.len(),
{
    if ds.len() == 0 {
        seq![(id, d)]
    } else if ds[0].0 == id {
        ds.update(0, (id, d))
    } else {
        seq![ds[0]] + set_node_diff(ds.drop_first(), id, d)
    }
}

/// Reset entries for the removed keys of one node.
pub open spec fn none_diff(keys: Seq<Seq<char>>) -> PropDiffV {
    keys.map_values(|k: Seq<char>| (k, Option::<PropValueV>::None))
}

/// Prepends reset entries to a node's diff (so that removed keys shadow
/// changed values), creating the entry if the node has none yet.
pub open spec fn prepend_removed(ds: NodeDiffsV, id: i32, keys: Seq<Seq<char>>) -> NodeDiffsV
    decreases ds.len(),
{
    if ds.len() == 0 {
        seq![(id, none_diff(keys))]
    } else if ds[0].0 == id {
        ds.update(0, (id, none_diff(keys) + ds[0].1))
    } else {
        seq![ds[0]] + prepend_removed(ds.drop_first(), id, keys)
    }
}

/// The per-node diffs of one `ItemsPropertiesUpdated` signal: later
/// changed entries replace earlier ones for the same node; removed keys
/// shadow changed values.
pub open spec fn spec_combine_diffs(
    changed: Seq<(i32, PropDiffV)>,
    removed: Seq<(i32, Seq<Seq<char>>)>,
) -> NodeDiffsV {
    let base = fold_changed(Seq::empty(), changed, 0);
    fold_removed(base, removed, 0)
}

/// Folds the changed entries into the diff list, from index `k` on.
pub open spec fn fold_changed(acc: NodeDiffsV, changed: Seq<(i32, PropDiffV)>, k: int) -> NodeDiffsV
    decreases changed.len() - k,
{
    if k < 0 || k >= changed.len() {
        acc
    } else {
        fold_changed(set_node_diff(acc, changed[k].0, changed[k].1), changed, k + 1)
    }
}

/// Folds the removed entries into the diff list, from index `k` on.
pub open spec fn fold_removed(
    acc: NodeDiffsV,
    removed: Seq<(i32, Seq<Seq<char>>)>,
    k: int,
) -> NodeDiffsV
    decreases removed.len() - k,
{
    if k < 0 || k >= removed.len() {
        acc
    } else {
        fold_removed(prepend_removed(acc, removed[k].0, removed[k].1), removed, k + 1)
    }
}

/// The transition of `LayoutUpdated(revision, parent_id)`: a stale
/// revision is ignored; a newer one bumps the stored revision and issues
/// a tracked layout query for the given parent.
pub open spec fn spec_on_layout_updated(s: MenuSessionV, revision: u32, parent_id: i32) -> (
    MenuSessionV,
    Option<LayoutQuery>,
) {
    if revision > s.revision {
        let qid = (s.next_query_id + 1) as u64;
        (
            MenuSessionV {
                revision,
                tree: s.tree,
                next_query_id: qid,
                inflight: s.inflight.push(qid),
            },
            Option::Some(LayoutQuery { query_id: qid, parent_id }),
        )
    } else {
        (s, Option::None)
    }
}

/// The transition of a `GetLayout` reply: the query leaves the inflight
/// set; a successful layout is parsed and merged at its own root id.
pub open spec fn spec_on_layout_reply(s: MenuSessionV, query_id: u64, layout: Option<LayoutNodeV>) -> (
    MenuSessionV,
    Option<SniMenuDeltaV>,
) {
    let s1 = MenuSessionV {
        revision: s.revision,
        tree: s.tree,
        next_query_id: s.next_query_id,
        inflight: remove_query(s.inflight, query_id),
    };
    match layout {
        Option::None => (s1, Option::None),
        Option::Some(n) => {
            let parsed = spec_parse_tree(n);
            let m = spec_merge_nested(s.tree, parsed.menu_id, parsed);
            let out = match m.1 {
                Option::Some(Option::Some(d)) => Option::Some(d),
                _ => Option::None,
            };
            (
                MenuSessionV {
                    revision: s1.revision,
                    tree: m.0,
                    next_query_id: s1.next_query_id,
                    inflight: s1.inflight,
                },
                out,
            )
        },
    }
}

/// The transition of `ItemsPropertiesUpdated`: while any layout query is
/// in flight the diff is discarded and a full refresh of parent 0 is
/// issued instead; otherwise the diff merges directly.
pub open spec fn spec_on_items_updated(
    s: MenuSessionV,
    changed: Seq<(i32, PropDiffV)>,
    removed: Seq<(i32, Seq<Seq<char>>)>,
) -> (MenuSessionV, MenuSessionV, bool) {
    s_on_items_helper(s, changed, removed)
}

/// Helper carrying both possible outcomes; `.2` says whether a refresh
/// was chosen, `.0` is the state after.
pub open spec fn s_on_items_helper(
    s: MenuSessionV,
    changed: Seq<(i32, PropDiffV)>,
    removed: Seq<(i32, Seq<Seq<char>>)>,
) -> (MenuSessionV, MenuSessionV, bool) {
    if s.inflight.len() > 0 {
        let qid = (s.next_query_id + 1) as u64;
        let s2 = MenuSessionV {
            revision: s.revision,
            tree: s.tree,
            next_query_id: qid,
            inflight: s.inflight.push(qid),
        };
        (s2, s2, true)
    } else {
        let ds = spec_combine_diffs(changed, removed);
        let m = spec_merge_props_tree(s.tree, ds);
        let s2 = MenuSessionV {
            revision: s.revision,
            tree: m.0,
            next_query_id: s.next_query_id,
            inflight: s.inflight,
        };
        (s2, s2, false)
    }
}

impl MenuSession {
    /// Opens a session from the initial `GetLayout` reply. The whole
    /// parsed tree is also returned as the initial full delta.
    pub fn open(revision: u32, layout: &LayoutNode) -> (r: (MenuSession, SniMenuDelta))
        ensures
            r.0@.revision == revision,
            r.0@.tree == spec_parse_tree(layout@),
            r.0@.next_query_id == 0,
            r.0@.inflight == Seq::<u64>::empty(),
            r.1@ == tree_delta(spec_parse_tree(layout@)),
    {
        let tree = parse_tree(layout);
        let delta = tree_to_delta(&tree);
        let s = MenuSession { revision, tree, next_query_id: 0, inflight: Vec::new() };
        proof {
            assert(s@.inflight =~= Seq::<u64>::empty());
        }
        (s, delta)
    }

    /// Handles `LayoutUpdated`: a newer revision issues a layout query.
    pub fn on_layout_updated(&mut self, revision: u32, parent_id: i32) -> (r: Option<LayoutQuery>)
        requires
            old(self).next_query_id < u64::MAX,
        ensures
            (final(self)@, r) == spec_on_layout_updated(old(self)@, revision, parent_id),
    {
        if revision > self.revision {
            self.revision = revision;
            self.next_query_id = self.next_query_id + 1;
            let qid = self.next_query_id;
            self.inflight.push(qid);
            Some(LayoutQuery { query_id: qid, parent_id })
        } else {
            None
        }
    }

    /// Handles a `GetLayout` reply: unregisters the query and, on
    /// success, merges the parsed layout at its own root id. A failed
    /// query leaves the mirror untouched.
    pub fn on_layout_reply(&mut self, query_id: u64, layout: Option<&LayoutNode>) -> (r: Option<
        SniMenuDelta,
    >)
        ensures
            final(self)@ == spec_on_layout_reply(
                old(self)@,
                query_id,
                match layout {
                    Option::Some(n) => Option::Some(n@),
                    Option::None => Option::None,
                },
            ).0,
            opt_delta_view(r) == spec_on_layout_reply(
                old(self)@,
                query_id,
                match layout {
                    Option::Some(n) => Option::Some(n@),
                    Option::None => Option::None,
                },
            ).1,
    {
        let n = self.inflight.len();
        let mut kept: Vec<u64> = Vec::new();
        let mut i: usize = 0;
        while i < n
            invariant
                n == self.inflight@.len(),
                i <= n,
                kept@ == remove_query(self.inflight@.take(i as int), query_id),
            decreases n - i,
        {
            proof {
                assert(self.inflight@.take(i + 1 as int).drop_last() =~= self.inflight@.take(
                    i as int,
                ));
                assert(self.inflight@.take(i + 1 as int).last() == self.inflight@[i as int]);
            }
            if self.inflight[i] != query_id {
                kept.push(self.inflight[i]);
            }
            i = i + 1;
        }
        proof {
            assert(self.inflight@.take(n as int) =~= self.inflight@);
        }
        self.inflight = kept;
        match layout {
            Some(node) => {
                let parsed = parse_tree(node);
                let root_id = parsed.menu_id;
                let old_tree = tree_dup(&self.tree);
                let m = merge_nested(old_tree, root_id, &parsed);
                self.tree = m.0;
                match m.1 {
                    Some(Some(d)) => Some(d),
                    _ => None,
                }
            },
            None => None,
        }
    }

    /// Handles `ItemsPropertiesUpdated`. While any layout query is in
    /// flight the diff is ambiguous with respect to the pending reply, so
    /// it is discarded and a full refresh of parent 0 is issued instead;
    /// otherwise the diff merges into the mirror directly.
    pub fn on_items_properties_updated(
        &mut self,
        changed: &Vec<(i32, PropDiff)>,
        removed: &Vec<(i32, Vec<String>)>,
    ) -> (r: ItemsUpdateOutcome)
        requires
            old(self).next_query_id < u64::MAX,
        ensures
            final(self)@ == spec_on_items_updated(
                old(self)@,
                node_diffs_view(changed@),
                removed_view(removed@),
            ).0,
            spec_on_items_updated(old(self)@, node_diffs_view(changed@), removed_view(removed@)).2
                ==> (r matches ItemsUpdateOutcome::Refresh(q) && q == (LayoutQuery {
                query_id: final(self)@.next_query_id,
                parent_id: 0,
            })),
            !spec_on_items_updated(old(self)@, node_diffs_view(changed@), removed_view(removed@)).2
                ==> (r matches ItemsUpdateOutcome::Applied(d) && opt_delta_view(d)
                == spec_merge_props_tree(
                old(self)@.tree,
                spec_combine_diffs(node_diffs_view(changed@), removed_view(removed@)),
            ).1),
    {
        if self.inflight.len() > 0 {
            self.next_query_id = self.next_query_id + 1;
            let qid = self.next_query_id;
            self.inflight.push(qid);
            ItemsUpdateOutcome::Refresh(LayoutQuery { query_id: qid, parent_id: 0 })
        } else {
            let ds = combine_diffs(changed, removed);
            let old_tree = tree_dup(&self.tree);
            let m = merge_props_tree(old_tree, &ds);
            self.tree = m.0;
            ItemsUpdateOutcome::Applied(m.1)
        }
    }
}

/// The view of the removed-keys list.
pub open spec fn removed_view(v: Seq<(i32, Vec<String>)>) -> Seq<(i32, Seq<Seq<char>>)> {
    v.map_values(|e: (i32, Vec<String>)| (e.0, e.1.deep_view()))
}

/// Combines one signal's changed and removed lists into per-node diffs.
fn combine_diffs(changed: &Vec<(i32, PropDiff)>, removed: &Vec<(i32, Vec<String>)>) -> (r:
    NodeDiffs)
    ensures
        node_diffs_view(r@) == spec_combine_diffs(node_diffs_view(changed@), removed_view(removed@)),
{
    let mut acc: NodeDiffs = Vec::new();
    proof {
        assert(node_diffs_view(acc@) =~= Seq::<(i32, PropDiffV)>::empty());
    }
    let n = changed.len();
    let mut k: usize = 0;
    while k < n
        invariant
            n == changed@.len(),
            k <= n,
            node_diffs_view(acc@) == fold_changed_prefix(node_diffs_view(changed@), k as int),
        decreases n - k,
    {
        let id = changed[k].0;
        let mut d: PropDiff = Vec::new();
        let src = &changed[k].1;
        let m = src.len();
        let mut j: usize = 0;
        while j < m
            invariant
                m == src@.len(),
                j <= m,
                d@.len() == j,
                forall|x: int| 0 <= x < j ==> diff_view(d@)[x] == diff_view(src@)[x],
            decreases m - j,
        {
            let ghost d0 = d@;
            let key = src[j].0.clone();
            let v = match &src[j].1 {
                Some(pv) => Some(pv.dup()),
                None => None,
            };
            d.push((key, v));
            proof {
                assert forall|x: int| 0 <= x < j + 1 implies diff_view(d@)[x] == diff_view(
                    src@,
                )[x] by {
                    if x < j {
                        assert(d@[x] == d0[x]);
                        assert(diff_view(d0)[x] == diff_view(src@)[x]);
                    }
                }
            }
            j = j + 1;
        }
        proof {
            assert(diff_view(d@) =~= diff_view(src@));
        }
        set_node_diff_exec(&mut acc, id, d);
        proof {
            assert(node_diffs_view(changed@)[k as int] == (
                changed@[k as int].0,
                diff_view(changed@[k as int].1@),
            ));
        }
        k = k + 1;
    }
    proof {
        assert(fold_changed_prefix(node_diffs_view(changed@), n as int) == fold_changed(
            Seq::empty(),
            node_diffs_view(changed@),
            0,
        )) by {
            lemma_fold_changed_prefix(node_diffs_view(changed@), n as int);
        }
    }
    let n2 = removed.len();
    let mut k2: usize = 0;
    while k2 < n2
        invariant
            n2 == removed@.len(),
            k2 <= n2,
            node_diffs_view(acc@) == fold_removed_prefix(
                fold_changed(Seq::empty(), node_diffs_view(changed@), 0),
                removed_view(removed@),
                k2 as int,
            ),
        decreases n2 - k2,
    {
        let id = removed[k2].0;
        let keys = crate::msg::dup_strings(&removed[k2].1);
        prepend_removed_exec(&mut acc, id, keys);
        proof {
            assert(removed_view(removed@)[k2 as int] == (
                removed@[k2 as int].0,
                removed@[k2 as int].1.deep_view(),
            ));
        }
        k2 = k2 + 1;
    }
    proof {
        lemma_fold_removed_prefix(
            fold_changed(Seq::empty(), node_diffs_view(changed@), 0),
            removed_view(removed@),
            n2 as int,
        );
    }
    acc
}

/// [`fold_changed`] from the front: the fold over the first `k` entries.
pub open spec fn fold_changed_prefix(changed: Seq<(i32, PropDiffV)>, k: int) -> NodeDiffsV
    decreases k,
{
    if k <= 0 {
        Seq::empty()
    } else {
        set_node_diff(
            fold_changed_prefix(changed, k - 1),
            changed[k - 1].0,
            changed[k - 1].1,
        )
    }
}

/// The two fold orders agree.
proof fn lemma_fold_changed_prefix(changed: Seq<(i32, PropDiffV)>, k: int)
    requires
        0 <= k <= changed.len(),
    ensures
        fold_changed(fold_changed_prefix(changed, k), changed, k) == fold_changed(
            Seq::empty(),
            changed,
            0,
        ),
    decreases k,
{
    if k > 0 {
        lemma_fold_changed_prefix(changed, k - 1);
    }
}

/// [`fold_removed`] from the front.
pub open spec fn fold_removed_prefix(
    base: NodeDiffsV,
    removed: Seq<(i32, Seq<Seq<char>>)>,
    k: int,
) -> NodeDiffsV
    decreases k,
{
    if k <= 0 {
        base
    } else {
        prepend_removed(
            fold_removed_prefix(base, removed, k - 1),
            removed[k - 1].0,
            removed[k - 1].1,
        )
    }
}

/// The two fold orders agree.
proof fn lemma_fold_removed_prefix(base: NodeDiffsV, removed: Seq<(i32, Seq<Seq<char>>)>, k: int)
    requires
        0 <= k <= removed.len(),
    ensures
        fold_removed(fold_removed_prefix(base, removed, k), removed, k) == fold_removed(
            base,
            removed,
            0,
        ),
    decreases k,
{
    if k > 0 {
        lemma_fold_removed_prefix(base, removed, k - 1);
    }
}

/// Replaces or appends a node's diff, first match by menu-id.
fn set_node_diff_exec(acc: &mut NodeDiffs, id: i32, d: PropDiff)
    ensures
        node_diffs_view(final(acc)@) == set_node_diff(node_diffs_view(old(acc)@), id, diff_view(d@)),
{
    let n = acc.len();
    let mut i: usize = 0;
    while i < n
        invariant
            n == acc@.len(),
            acc@ == old(acc)@,
            i <= n,
            forall|j: int| 0 <= j < i ==> (#[trigger] node_diffs_view(acc@)[j]).0 != id,
        decreases n - i,
    {
        if acc[i].0 == id {
            proof {
                lemma_set_node_diff_at(node_diffs_view(acc@), id, diff_view(d@), i as int);
            }
            acc.set(i, (id, d));
            proof {
                assert(node_diffs_view(acc@) =~= set_node_diff(
                    node_diffs_view(old(acc)@),
                    id,
                    diff_view(d@),
                ));
            }
            return ;
        }
        proof {
            assert(node_diffs_view(acc@)[i as int].0 == acc@[i as int].0);
        }
        i = i + 1;
    }
    proof {
        lemma_set_node_diff_none(node_diffs_view(acc@), id, diff_view(d@));
    }
    acc.push((id, d));
    proof {
        assert(node_diffs_view(acc@) =~= set_node_diff(
            node_diffs_view(old(acc)@),
            id,
            diff_view(d@),
        ));
    }
}

/// [`set_node_diff`] replaces the first match.
proof fn lemma_set_node_diff_at(ds: NodeDiffsV, id: i32, d: PropDiffV, i: int)
    requires
        0 <= i < ds.len(),
        ds[i].0 == id,
        forall|j: int| 0 <= j < i ==> (#[trigger] ds[j]).0 != id,
    ensures
        set_node_diff(ds, id, d) == ds.update(i, (id, d)),
    decreases i,
{
    if i > 0 {
        lemma_set_node_diff_at(ds.drop_first(), id, d, i - 1);
        assert(set_node_diff(ds, id, d) =~= ds.update(i, (id, d)));
    }
}

/// [`set_node_diff`] appends when nothing matches.
proof fn lemma_set_node_diff_none(ds: NodeDiffsV, id: i32, d: PropDiffV)
    requires
        forall|j: int| 0 <= j < ds.len() ==> (#[trigger] ds[j]).0 != id,
    ensures
        set_node_diff(ds, id, d) == ds.push((id, d)),
    decreases ds.len(),
{
    if ds.len() > 0 {
        lemma_set_node_diff_none(ds.drop_first(), id, d);
        assert(set_node_diff(ds, id, d) =~= ds.push((id, d)));
    }
}

/// Prepends reset entries for one node's removed keys.
fn prepend_removed_exec(acc: &mut NodeDiffs, id: i32, keys: Vec<String>)
    ensures
        node_diffs_view(final(acc)@) == prepend_removed(
            node_diffs_view(old(acc)@),
            id,
            keys.deep_view(),
        ),
{
    let mut nones: PropDiff = Vec::new();
    let m = keys.len();
    let mut j: usize = 0;
    while j < m
        invariant
            m == keys@.len(),
            j <= m,
            nones@.len() == j,
            forall|x: int|
                0 <= x < j ==> diff_view(nones@)[x] == (
                    keys.deep_view()[x],
                    Option::<PropValueV>::None,
                ),
        decreases m - j,
    {
        let ghost n0 = nones@;
        nones.push((keys[j].clone(), None));
        proof {
            assert forall|x: int| 0 <= x < j + 1 implies diff_view(nones@)[x] == (
                keys.deep_view()[x],
                Option::<PropValueV>::None,
            ) by {
                if x < j {
                    assert(nones@[x] == n0[x]);
                    assert(diff_view(n0)[x] == (keys.deep_view()[x], Option::<PropValueV>::None));
                }
            }
        }
        j = j + 1;
    }
    proof {
        assert(diff_view(nones@) =~= none_diff(keys.deep_view()));
    }
    let n = acc.len();
    let mut i: usize = 0;
    while i < n
        invariant
            n == acc@.len(),
            acc@ == old(acc)@,
            i <= n,
            diff_view(nones@) == none_diff(keys.deep_view()),
            forall|j2: int| 0 <= j2 < i ==> (#[trigger] node_diffs_view(acc@)[j2]).0 != id,
        decreases n - i,
    {
        if acc[i].0 == id {
            proof {
                lemma_prepend_removed_at(
                    node_diffs_view(acc@),
                    id,
                    keys.deep_view(),
                    i as int,
                );
            }
            let mut entry = acc.remove(i);
            let mut combined = nones;
            let mut old_d = entry.1;
            let ghost old_dv = diff_view(old_d@);
            let ghost nonesv = diff_view(combined@);
            combined.append(&mut old_d);
            proof {
                assert(diff_view(combined@) =~= nonesv + old_dv) by {
                    assert(combined@.len() == nonesv.len() + old_dv.len());
                }
            }
            acc.insert(i, (id, combined));
            proof {
                assert(node_diffs_view(acc@) =~= node_diffs_view(old(acc)@).update(
                    i as int,
                    (id, none_diff(keys.deep_view()) + old_dv),
                ));
                assert(node_diffs_view(old(acc)@)[i as int].1 == old_dv);
            }
            return ;
        }
        proof {
            assert(node_diffs_view(acc@)[i as int].0 == acc@[i as int].0);
        }
        i = i + 1;
    }
    proof {
        lemma_prepend_removed_none(node_diffs_view(acc@), id, keys.deep_view());
    }
    acc.push((id, nones));
    proof {
        assert(node_diffs_view(acc@) =~= prepend_removed(
            node_diffs_view(old(acc)@),
            id,
            keys.deep_view(),
        ));
    }
}

/// [`prepend_removed`] rewrites the first match.
proof fn lemma_prepend_removed_at(ds: NodeDiffsV, id: i32, keys: Seq<Seq<char>>, i: int)
    requires
        0 <= i < ds.len(),
        ds[i].0 == id,
        forall|j: int| 0 <= j < i ==> (#[trigger] ds[j]).0 != id,
    ensures
        prepend_removed(ds, id, keys) == ds.update(i, (id, none_diff(keys) + ds[i].1)),
    decreases i,
{
    if i > 0 {
        lemma_prepend_removed_at(ds.drop_first(), id, keys, i - 1);
        assert(prepend_removed(ds, id, keys) =~= ds.update(i, (id, none_diff(keys) + ds[i].1)));
    }
}

/// [`prepend_removed`] appends when nothing matches.
proof fn lemma_prepend_removed_none(ds: NodeDiffsV, id: i32, keys: Seq<Seq<char>>)
    requires
        forall|j: int| 0 <= j < ds.len() ==> (#[trigger] ds[j]).0 != id,
    ensures
        prepend_removed(ds, id, keys) == ds.push((id, none_diff(keys))),
    decreases ds.len(),
{
    if ds.len() > 0 {
        lemma_prepend_removed_none(ds.drop_first(), id, keys);
        assert(prepend_removed(ds, id, keys) =~= ds.push((id, none_diff(keys))));
    }
}

/// Serialized-refresh law: an `ItemsPropertiesUpdated` that arrives while
/// any layout query is in flight never merges directly; the mirror stays
/// as it was and a full refresh of parent 0 is issued.
pub proof fn lemma_inflight_update_forces_refresh(
    s: MenuSessionV,
    changed: Seq<(i32, PropDiffV)>,
    removed: Seq<(i32, Seq<Seq<char>>)>,
)
    requires
        s.inflight.len() > 0,
    ensures
        spec_on_items_updated(s, changed, removed).2,
        spec_on_items_updated(s, changed, removed).0.tree == s.tree,
        spec_on_items_updated(s, changed, removed).0.inflight == s.inflight.push(
            (s.next_query_id + 1) as u64,
        ),
{
}

/// Determinism law: the reconciliation transitions are functions of the
/// session state and the event alone, so two sessions that start equal
/// and see the same events hold equal trees afterwards.
pub proof fn lemma_reconciliation_deterministic(
    s1: MenuSessionV,
    s2: MenuSessionV,
    query_id: u64,
    layout: Option<LayoutNodeV>,
)
    requires
        s1 == s2,
    ensures
        spec_on_layout_reply(s1, query_id, layout).0.tree == spec_on_layout_reply(
            s2,
            query_id,
            layout,
        ).0.tree,
        spec_on_layout_reply(s1, query_id, layout).1 == spec_on_layout_reply(
            s2,
            query_id,
            layout,
        ).1,
{
}

/// Issues the `GetLayout(parent_id, -1, [])` call that a layout query
/// stands for, registering `callback` for the reply.
pub fn issue_layout_query(
    client: &mut crate::client::Client,
    destination: &String,
    menu_path: &String,
    parent_id: i32,
    callback: u64,
) -> (r: (crate::client::CallHandle, Option<crate::client::Action>))
    requires
        old(client).next_serial < u32::MAX,
    ensures
        old(client)@.wf() ==> final(client)@.wf(),
        final(client)@.killed == old(client)@.killed,
        final(client)@.handlers == old(client)@.handlers,
        final(client)@.objects == old(client)@.objects,
        r.0.serial == old(client)@.next_serial,
        r.0.detached == false,
        final(client)@.next_serial == old(client)@.next_serial + 1,
        old(client)@.killed ==> final(client)@.pending == old(client)@.pending
            && final(client)@.outgoing == old(client)@.outgoing && (r.1 matches Some(a) && a@
            == (crate::client::ActionV::InvokeReply {
            callback,
            result: Err::<crate::msg::BusMessageV, crate::client::BusErrorV>(
                crate::client::BusErrorV::Killed,
            ),
        })),
        !old(client)@.killed ==> final(client)@.pending == old(client)@.pending.push(
            crate::client::PendingEntry { serial: old(client)@.next_serial, callback },
        ) && r.1 is None,
        !old(client)@.killed ==> final(client)@.outgoing == old(client)@.outgoing.push(
            crate::client::method_call_v(
                old(client)@.next_serial,
                destination@,
                "com.canonical.dbusmenu"@,
                menu_path@,
                "GetLayout"@,
                crate::msg::BodyV::GetLayoutArgs(parent_id, -1i32, Seq::<Seq<char>>::empty()),
                false,
            ),
        ),
{
    let args = crate::msg::Body::GetLayoutArgs(parent_id, -1i32, Vec::new());
    proof {
        assert(args@ == crate::msg::BodyV::GetLayoutArgs(parent_id, -1i32, Seq::<Seq<char>>::empty()))
            by {
            assert(args->GetLayoutArgs_2.deep_view() =~= Seq::<Seq<char>>::empty());
        }
    }
    client.call_async(
        destination.clone(),
        String::from_str("com.canonical.dbusmenu"),
        menu_path.clone(),
        String::from_str("GetLayout"),
        args,
        callback,
    )
}

/// Well-formedness of a mirror tree: menu-ids are unique among siblings,
/// recursively.
pub open spec fn tree_wf(t: MenuTreeV) -> bool
    decreases t, 1int, 0int,
{
    &&& forall|i: int, j: int|
        0 <= i < j < t.children.len() ==> t.children[i].menu_id != t.children[j].menu_id
    &&& children_wf(t.children, 0)
}

/// Well-formedness of the children from index `k` on.
pub open spec fn children_wf(cs: Seq<MenuTreeV>, k: int) -> bool
    decreases cs, 0int, cs.len() - k,
{
    if k < 0 || k >= cs.len() {
        true
    } else {
        tree_wf(cs[k]) && children_wf(cs, k + 1)
    }
}

/// Every child from `k` on is well-formed.
proof fn lemma_children_wf_at(cs: Seq<MenuTreeV>, k: int, j: int)
    requires
        children_wf(cs, k),
        0 <= k <= j < cs.len(),
    ensures
        tree_wf(cs[j]),
    decreases j - k,
{
    if j > k {
        lemma_children_wf_at(cs, k + 1, j);
    }
}

/// `has_tree` is the existence of a matching menu-id.
proof fn lemma_has_tree_iff(cs: Seq<MenuTreeV>, id: i32)
    ensures
        has_tree(cs, id) <==> exists|j: int| 0 <= j < cs.len() && (#[trigger] cs[j]).menu_id == id,
    decreases cs.len(),
{
    lemma_find_tree_in_list(cs, id);
    if exists|j: int| 0 <= j < cs.len() && (#[trigger] cs[j]).menu_id == id {
        let j = choose|j: int| 0 <= j < cs.len() && (#[trigger] cs[j]).menu_id == id;
        let k = first_tree_index(cs, id, j);
        lemma_find_tree_at(cs, id, k);
    }
}

/// A found subtree is an element of the list with the sought id.
proof fn lemma_find_tree_in_list(cs: Seq<MenuTreeV>, id: i32)
    ensures
        find_tree(cs, id) matches Option::Some(t) ==> t.menu_id == id && exists|j: int|
            0 <= j < cs.len() && cs[j] == t,
    decreases cs.len(),
{
    if cs.len() > 0 {
        lemma_find_tree_in_list(cs.drop_first(), id);
        if find_tree(cs, id) is Some && cs[0].menu_id != id {
            let t = find_tree(cs, id)->Some_0;
            let j = choose|j: int| 0 <= j < cs.drop_first().len() && cs.drop_first()[j] == t;
            assert(cs[j + 1] == t);
        }
    }
}

/// The least index with the sought menu-id, given one.
proof fn first_tree_index(cs: Seq<MenuTreeV>, id: i32, j: int) -> (k: int)
    requires
        0 <= j < cs.len(),
        cs[j].menu_id == id,
    ensures
        0 <= k < cs.len(),
        cs[k].menu_id == id,
        forall|x: int| 0 <= x < k ==> (#[trigger] cs[x]).menu_id != id,
    decreases j,
{
    if exists|x: int| 0 <= x < j && (#[trigger] cs[x]).menu_id == id {
        let x = choose|x: int| 0 <= x < j && (#[trigger] cs[x]).menu_id == id;
        first_tree_index(cs, id, x)
    } else {
        j
    }
}

/// With unique sibling ids, `find_tree` returns the matching element.
proof fn lemma_find_tree_unique(cs: Seq<MenuTreeV>, id: i32, j: int)
    requires
        0 <= j < cs.len(),
        cs[j].menu_id == id,
        forall|a: int, b: int| 0 <= a < b < cs.len() ==> cs[a].menu_id != cs[b].menu_id,
    ensures
        find_tree(cs, id) == Option::Some(cs[j]),
{
    assert forall|x: int| 0 <= x < j implies (#[trigger] cs[x]).menu_id != id by {
        assert(cs[x].menu_id != cs[j].menu_id);
    }
    lemma_find_tree_at(cs, id, j);
}

/// Index form of [`merged_kept`].
proof fn lemma_merged_kept_index(kept: Seq<MenuTreeV>, new_cs: Seq<MenuTreeV>, k: int)
    requires
        0 <= k <= kept.len(),
    ensures
        merged_kept(kept, new_cs, k).len() == kept.len() - k,
        forall|j: int|
            0 <= j < kept.len() - k ==> merged_kept(kept, new_cs, k)[j] == (match find_tree(
                new_cs,
                kept[k + j].menu_id,
            ) {
                Option::Some(nc) => spec_merge(kept[k + j], nc).0,
                Option::None => kept[k + j],
            }),
    decreases kept.len() - k,
{
    if k < kept.len() {
        lemma_merged_kept_index(kept, new_cs, k + 1);
    }
}

/// Index form of [`child_delta_list`].
proof fn lemma_child_delta_list_index(old_cs: Seq<MenuTreeV>, new_cs: Seq<MenuTreeV>, k: int)
    requires
        0 <= k <= new_cs.len(),
    ensures
        child_delta_list(old_cs, new_cs, k).len() == new_cs.len() - k,
        forall|j: int|
            0 <= j < new_cs.len() - k ==> child_delta_list(old_cs, new_cs, k)[j] == (match find_tree(
                old_cs,
                new_cs[k + j].menu_id,
            ) {
                Option::Some(oc) => (new_cs[k + j].menu_id, spec_merge(oc, new_cs[k + j]).1),
                Option::None => (
                    new_cs[k + j].menu_id,
                    Option::Some(tree_delta(new_cs[k + j])),
                ),
            }),
    decreases new_cs.len() - k,
{
    if k < new_cs.len() {
        lemma_child_delta_list_index(old_cs, new_cs, k + 1);
    }
}

/// When every old child survives, nothing is filtered out.
proof fn lemma_keep_children_all(old_cs: Seq<MenuTreeV>, new_cs: Seq<MenuTreeV>)
    requires
        forall|i: int| 0 <= i < old_cs.len() ==> has_tree(new_cs, (#[trigger] old_cs[i]).menu_id),
    ensures
        keep_children(old_cs, new_cs) == old_cs,
    decreases old_cs.len(),
{
    if old_cs.len() > 0 {
        lemma_keep_children_all(old_cs.drop_last(), new_cs);
        assert(keep_children(old_cs, new_cs) =~= old_cs);
    }
}

/// Every kept child comes from the old list and survives in the new one.
proof fn lemma_keep_children_members(old_cs: Seq<MenuTreeV>, new_cs: Seq<MenuTreeV>)
    ensures
        keep_children(old_cs, new_cs).len() <= old_cs.len(),
        forall|i: int|
            0 <= i < keep_children(old_cs, new_cs).len() ==> has_tree(
                new_cs,
                (#[trigger] keep_children(old_cs, new_cs)[i]).menu_id,
            ) && exists|j: int|
                0 <= j < old_cs.len() && old_cs[j] == keep_children(old_cs, new_cs)[i],
    decreases old_cs.len(),
{
    if old_cs.len() > 0 {
        lemma_keep_children_members(old_cs.drop_last(), new_cs);
        let r = keep_children(old_cs, new_cs);
        let rd = keep_children(old_cs.drop_last(), new_cs);
        assert forall|i: int| 0 <= i < r.len() implies has_tree(
            new_cs,
            (#[trigger] r[i]).menu_id,
        ) && exists|j: int| 0 <= j < old_cs.len() && old_cs[j] == r[i] by {
            if i < rd.len() {
                assert(r[i] == rd[i]);
                let j = choose|j: int|
                    0 <= j < old_cs.drop_last().len() && old_cs.drop_last()[j] == rd[i];
                assert(old_cs[j] == r[i]);
            } else {
                assert(r[i] == old_cs.last());
                assert(old_cs[old_cs.len() - 1] == r[i]);
            }
        }
    }
}

/// When no old child survives as a filter miss, the kept ids stay unique.
proof fn lemma_keep_children_unique(old_cs: Seq<MenuTreeV>, new_cs: Seq<MenuTreeV>)
    requires
        forall|a: int, b: int| 0 <= a < b < old_cs.len() ==> old_cs[a].menu_id != old_cs[b].menu_id,
    ensures
        forall|a: int, b: int|
            0 <= a < b < keep_children(old_cs, new_cs).len() ==> keep_children(
                old_cs,
                new_cs,
            )[a].menu_id != keep_children(old_cs, new_cs)[b].menu_id,
    decreases old_cs.len(),
{
    if old_cs.len() > 0 {
        lemma_keep_children_unique(old_cs.drop_last(), new_cs);
        lemma_keep_children_members(old_cs.drop_last(), new_cs);
        let r = keep_children(old_cs, new_cs);
        let rd = keep_children(old_cs.drop_last(), new_cs);
        assert forall|a: int, b: int| 0 <= a < b < r.len() implies r[a].menu_id
            != r[b].menu_id by {
            if b < rd.len() {
                assert(r[a] == rd[a] && r[b] == rd[b]);
            } else {
                assert(r[b] == old_cs.last());
                assert(r[a] == rd[a]);
                let j = choose|j: int|
                    0 <= j < old_cs.drop_last().len() && old_cs.drop_last()[j] == rd[a];
                assert(old_cs[j].menu_id != old_cs[old_cs.len() - 1].menu_id);
            }
        }
    }
}

/// When every new child already exists, nothing is appended.
proof fn lemma_appended_new_empty(old_cs: Seq<MenuTreeV>, new_cs: Seq<MenuTreeV>)
    requires
        forall|i: int| 0 <= i < new_cs.len() ==> has_tree(old_cs, (#[trigger] new_cs[i]).menu_id),
    ensures
        appended_new(old_cs, new_cs) == Seq::<MenuTreeV>::empty(),
    decreases new_cs.len(),
{
    if new_cs.len() > 0 {
        lemma_appended_new_empty(old_cs, new_cs.drop_last());
        assert(appended_new(old_cs, new_cs) =~= Seq::<MenuTreeV>::empty());
    }
}

/// Every appended child is a new child whose id is absent from the old
/// list, in new order.
proof fn lemma_appended_new_members(old_cs: Seq<MenuTreeV>, new_cs: Seq<MenuTreeV>)
    ensures
        forall|i: int|
            0 <= i < appended_new(old_cs, new_cs).len() ==> !has_tree(
                old_cs,
                (#[trigger] appended_new(old_cs, new_cs)[i]).menu_id,
            ) && exists|j: int|
                0 <= j < new_cs.len() && new_cs[j] == appended_new(old_cs, new_cs)[i],
    decreases new_cs.len(),
{
    if new_cs.len() > 0 {
        lemma_appended_new_members(old_cs, new_cs.drop_last());
        let r = appended_new(old_cs, new_cs);
        let rd = appended_new(old_cs, new_cs.drop_last());
        assert forall|i: int| 0 <= i < r.len() implies !has_tree(
            old_cs,
            (#[trigger] r[i]).menu_id,
        ) && exists|j: int| 0 <= j < new_cs.len() && new_cs[j] == r[i] by {
            if i < rd.len() {
                assert(r[i] == rd[i]);
                let j = choose|j: int|
                    0 <= j < new_cs.drop_last().len() && new_cs.drop_last()[j] == rd[i];
                assert(new_cs[j] == r[i]);
            } else {
                assert(r[i] == new_cs.last());
                assert(new_cs[new_cs.len() - 1] == r[i]);
            }
        }
    }
}

/// With unique new ids, the appended children's ids are unique.
proof fn lemma_appended_new_unique(old_cs: Seq<MenuTreeV>, new_cs: Seq<MenuTreeV>)
    requires
        forall|a: int, b: int| 0 <= a < b < new_cs.len() ==> new_cs[a].menu_id != new_cs[b].menu_id,
    ensures
        forall|a: int, b: int|
            0 <= a < b < appended_new(old_cs, new_cs).len() ==> appended_new(
                old_cs,
                new_cs,
            )[a].menu_id != appended_new(old_cs, new_cs)[b].menu_id,
    decreases new_cs.len(),
{
    if new_cs.len() > 0 {
        lemma_appended_new_unique(old_cs, new_cs.drop_last());
        lemma_appended_new_members(old_cs, new_cs.drop_last());
        let r = appended_new(old_cs, new_cs);
        let rd = appended_new(old_cs, new_cs.drop_last());
        assert forall|a: int, b: int| 0 <= a < b < r.len() implies r[a].menu_id
            != r[b].menu_id by {
            if b < rd.len() {
                assert(r[a] == rd[a] && r[b] == rd[b]);
            } else {
                assert(r[b] == new_cs.last());
                assert(r[a] == rd[a]);
                let j = choose|j: int|
                    0 <= j < new_cs.drop_last().len() && new_cs.drop_last()[j] == rd[a];
                assert(new_cs[j].menu_id != new_cs[new_cs.len() - 1].menu_id);
            }
        }
    }
}

/// The merged and appended children of one merge carry mutually distinct
/// ids, each surviving in the new list.
proof fn lemma_merge_children_facts(t: MenuTreeV, new: MenuTreeV)
    requires
        tree_wf(t),
        tree_wf(new),
    ensures
        forall|i: int, j: int|
            0 <= i < j < spec_merge(t, new).0.children.len() ==> spec_merge(
                t,
                new,
            ).0.children[i].menu_id != spec_merge(t, new).0.children[j].menu_id,
        forall|i: int|
            0 <= i < spec_merge(t, new).0.children.len() ==> has_tree(
                new.children,
                (#[trigger] spec_merge(t, new).0.children[i]).menu_id,
            ),
{
    let kept = keep_children(t.children, new.children);
    let merged = merged_kept(kept, new.children, 0);
    let appended = appended_new(t.children, new.children);
    lemma_keep_children_members(t.children, new.children);
    lemma_keep_children_unique(t.children, new.children);
    lemma_appended_new_members(t.children, new.children);
    lemma_appended_new_unique(t.children, new.children);
    lemma_merged_kept_index(kept, new.children, 0);
    assert forall|i: int| 0 <= i < merged.len() implies (#[trigger] merged[i]).menu_id
        == kept[i].menu_id by {
        match find_tree(new.children, kept[i].menu_id) {
            Option::Some(nc) => {
                lemma_merge_keeps_id(kept[i], nc);
            },
            Option::None => {},
        }
    }
    let cs2 = spec_merge(t, new).0.children;
    assert(cs2 == merged + appended);
    assert forall|i: int, j: int| 0 <= i < j < cs2.len() implies cs2[i].menu_id
        != cs2[j].menu_id by {
        if i < merged.len() && j >= merged.len() {
            if cs2[i].menu_id == cs2[j].menu_id {
                let oj = choose|x: int| 0 <= x < t.children.len() && t.children[x] == kept[i];
                lemma_has_tree_iff(t.children, appended[j - merged.len()].menu_id);
                assert(t.children[oj].menu_id == appended[j - merged.len()].menu_id);
                assert(false);
            }
        }
    }
    assert forall|i: int| 0 <= i < cs2.len() implies has_tree(
        new.children,
        (#[trigger] cs2[i]).menu_id,
    ) by {
        if i >= merged.len() {
            let jj = choose|x: int|
                0 <= x < new.children.len() && new.children[x] == appended[i - merged.len()];
            lemma_find_tree_unique(new.children, new.children[jj].menu_id, jj);
        }
    }
}

/// Every old child whose id survives appears among the kept children.
proof fn lemma_keep_children_complete(old_cs: Seq<MenuTreeV>, new_cs: Seq<MenuTreeV>, i: int)
    requires
        0 <= i < old_cs.len(),
        has_tree(new_cs, old_cs[i].menu_id),
    ensures
        exists|j: int|
            0 <= j < keep_children(old_cs, new_cs).len() && keep_children(old_cs, new_cs)[j]
                == old_cs[i],
    decreases old_cs.len(),
{
    let r = keep_children(old_cs, new_cs);
    let rd = keep_children(old_cs.drop_last(), new_cs);
    if i == old_cs.len() - 1 {
        assert(r[rd.len() as int] == old_cs[i]);
    } else {
        lemma_keep_children_complete(old_cs.drop_last(), new_cs, i);
        let j = choose|j: int| 0 <= j < rd.len() && rd[j] == old_cs.drop_last()[i];
        assert(r[j] == old_cs[i]);
    }
}

/// Every new child whose id is absent from the old list appears among the
/// appended children.
proof fn lemma_appended_new_complete(old_cs: Seq<MenuTreeV>, new_cs: Seq<MenuTreeV>, i: int)
    requires
        0 <= i < new_cs.len(),
        !has_tree(old_cs, new_cs[i].menu_id),
    ensures
        exists|j: int|
            0 <= j < appended_new(old_cs, new_cs).len() && appended_new(old_cs, new_cs)[j]
                == new_cs[i],
    decreases new_cs.len(),
{
    let r = appended_new(old_cs, new_cs);
    let rd = appended_new(old_cs, new_cs.drop_last());
    if i == new_cs.len() - 1 {
        assert(r[rd.len() as int] == new_cs[i]);
    } else {
        lemma_appended_new_complete(old_cs, new_cs.drop_last(), i);
        let j = choose|j: int| 0 <= j < rd.len() && rd[j] == new_cs.drop_last()[i];
        assert(r[j] == new_cs[i]);
    }
}

/// The root id survives a merge.
proof fn lemma_merge_keeps_id(t: MenuTreeV, new: MenuTreeV)
    ensures
        spec_merge(t, new).0.menu_id == t.menu_id,
        spec_merge(t, new).0.properties == new.properties,
{
}

/// Merging a well-formed tree with itself changes nothing and emits no
/// delta.
proof fn lemma_self_merge(t: MenuTreeV)
    requires
        tree_wf(t),
    ensures
        spec_merge(t, t) == (t, Option::<SniMenuDeltaV>::None),
    decreases t,
{
    let cs = t.children;
    assert forall|i: int| 0 <= i < cs.len() implies has_tree(cs, (#[trigger] cs[i]).menu_id) by {
        lemma_find_tree_unique(cs, cs[i].menu_id, i);
    }
    lemma_keep_children_all(cs, cs);
    lemma_appended_new_empty(cs, cs);
    lemma_merged_kept_index(cs, cs, 0);
    lemma_child_delta_list_index(cs, cs, 0);
    assert forall|j: int| 0 <= j < cs.len() implies merged_kept(cs, cs, 0)[j] == cs[j] by {
        lemma_find_tree_unique(cs, cs[j].menu_id, j);
        lemma_children_wf_at(cs, 0, j);
        lemma_self_merge(cs[j]);
    }
    assert(merged_kept(cs, cs, 0) =~= cs);
    let ds = child_delta_list(cs, cs, 0);
    assert forall|j: int| 0 <= j < ds.len() implies (#[trigger] ds[j]).1 is None by {
        lemma_find_tree_unique(cs, cs[j].menu_id, j);
        lemma_children_wf_at(cs, 0, j);
        lemma_self_merge(cs[j]);
    }
    assert(!any_child_delta(ds));
    assert(spec_merge(t, t).0 =~= t);
}

/// Idempotence law: applying the same layout response twice leaves the
/// mirror as the first application left it, and the second application
/// reports no change.
#[verifier::rlimit(100)]
pub proof fn lemma_merge_idempotent(t: MenuTreeV, new: MenuTreeV)
    requires
        tree_wf(t),
        tree_wf(new),
    ensures
        spec_merge(spec_merge(t, new).0, new) == (
            spec_merge(t, new).0,
            Option::<SniMenuDeltaV>::None,
        ),
    decreases new,
{
    let t1 = spec_merge(t, new).0;
    let kept = keep_children(t.children, new.children);
    let merged = merged_kept(kept, new.children, 0);
    let appended = appended_new(t.children, new.children);
    lemma_keep_children_members(t.children, new.children);
    lemma_appended_new_members(t.children, new.children);
    lemma_merged_kept_index(kept, new.children, 0);
    lemma_merge_children_facts(t, new);
    assert(t1.children == merged + appended);
    assert(t1.properties == new.properties);
    assert(spec_diff_props(t1.properties, new.properties) is None);
    lemma_keep_children_all(t1.children, new.children);
    let merged2 = merged_kept(t1.children, new.children, 0);
    lemma_merged_kept_index(t1.children, new.children, 0);
    lemma_child_delta_list_index(t1.children, new.children, 0);
    assert forall|i: int| 0 <= i < t1.children.len() implies merged2[i] == t1.children[i]
        && (match find_tree(new.children, t1.children[i].menu_id) {
        Option::Some(nc) => spec_merge(t1.children[i], nc).1 is None,
        Option::None => false,
    }) by {
        let c = t1.children[i];
        if i < merged.len() {
            assert(c == merged[i]);
            let oj = choose|x: int| 0 <= x < t.children.len() && t.children[x] == kept[i];
            lemma_children_wf_at(t.children, 0, oj);
            match find_tree(new.children, kept[i].menu_id) {
                Option::Some(nc) => {
                    lemma_find_tree_in_list(new.children, kept[i].menu_id);
                    let nj = choose|x: int|
                        0 <= x < new.children.len() && new.children[x] == nc;
                    lemma_children_wf_at(new.children, 0, nj);
                    assert(decreases_to!(new => new.children));
                    assert(decreases_to!(new.children => new.children[nj]));
                    lemma_merge_idempotent(kept[i], nc);
                    assert(c == spec_merge(kept[i], nc).0);
                    lemma_merge_keeps_id(kept[i], nc);
                    assert(find_tree(new.children, c.menu_id) == Option::Some(nc)) by {
                        lemma_find_tree_unique(new.children, nc.menu_id, nj);
                    }
                },
                Option::None => {
                    assert(false);
                },
            }
        } else {
            let jj = choose|x: int|
                0 <= x < new.children.len() && new.children[x] == appended[i - merged.len()];
            assert(c == new.children[jj]);
            lemma_find_tree_unique(new.children, c.menu_id, jj);
            lemma_children_wf_at(new.children, 0, jj);
            lemma_self_merge(c);
        }
    }
    assert(merged2 =~= t1.children);
    assert forall|i: int| 0 <= i < new.children.len() implies has_tree(
        t1.children,
        (#[trigger] new.children[i]).menu_id,
    ) by {
        let id = new.children[i].menu_id;
        lemma_has_tree_iff(t1.children, id);
        lemma_has_tree_iff(t.children, id);
        if has_tree(t.children, id) {
            let oj = choose|x: int| 0 <= x < t.children.len() && (#[trigger] t.children[x]).menu_id == id;
            lemma_find_tree_unique(new.children, id, i);
            lemma_keep_children_complete(t.children, new.children, oj);
            let kj = choose|x: int| 0 <= x < kept.len() && kept[x] == t.children[oj];
            match find_tree(new.children, kept[kj].menu_id) {
                Option::Some(nc) => {
                    lemma_merge_keeps_id(kept[kj], nc);
                    assert(t1.children[kj].menu_id == id);
                },
                Option::None => {
                    assert(false);
                },
            }
        } else {
            lemma_appended_new_complete(t.children, new.children, i);
            let aj = choose|x: int| 0 <= x < appended.len() && appended[x] == new.children[i];
            assert(t1.children[merged.len() + aj].menu_id == id);
        }
    }
    lemma_appended_new_empty(t1.children, new.children);
    let ds2 = child_delta_list(t1.children, new.children, 0);
    assert forall|j: int| 0 <= j < ds2.len() implies (#[trigger] ds2[j]).1 is None by {
        let nc = new.children[j];
        lemma_has_tree_iff(t1.children, nc.menu_id);
        match find_tree(t1.children, nc.menu_id) {
            Option::Some(oc) => {
                lemma_find_tree_in_list(t1.children, nc.menu_id);
                let oi = choose|x: int|
                    0 <= x < t1.children.len() && t1.children[x] == oc;
                assert(find_tree(new.children, oc.menu_id) == Option::Some(nc)) by {
                    lemma_find_tree_unique(new.children, nc.menu_id, j);
                }
                assert(spec_merge(oc, nc).1 is None);
            },
            Option::None => {
                assert(has_tree(new.children, nc.menu_id)) by {
                    lemma_find_tree_unique(new.children, nc.menu_id, j);
                }
                assert(false);
            },
        }
    }
    assert(!any_child_delta(ds2));
    assert(keep_children(t1.children, new.children).len() == t1.children.len());
    assert(spec_merge(t1, new).0 =~= t1) by {
        assert(merged2 + appended_new(t1.children, new.children) =~= t1.children);
    }
}

/// No-change law: a merge that reports no delta left the mirror exactly
/// as it was.
#[verifier::rlimit(100)]
pub proof fn lemma_none_delta_unchanged(t: MenuTreeV, new: MenuTreeV)
    requires
        tree_wf(t),
        tree_wf(new),
        t.menu_id == new.menu_id,
        spec_merge(t, new).1 is None,
    ensures
        spec_merge(t, new).0 == t,
    decreases new,
{
    let kept = keep_children(t.children, new.children);
    let merged = merged_kept(kept, new.children, 0);
    let appended = appended_new(t.children, new.children);
    let ds = child_delta_list(t.children, new.children, 0);
    lemma_merged_kept_index(kept, new.children, 0);
    lemma_child_delta_list_index(t.children, new.children, 0);
    lemma_keep_children_members(t.children, new.children);
    // No delta: properties equal, no child removed, no child delta.
    assert(spec_diff_props(t.properties, new.properties) is None);
    assert(t.properties == new.properties);
    assert(kept.len() == t.children.len());
    assert(!any_child_delta(ds));
    // A same-length filtered subsequence is the sequence itself.
    lemma_keep_full_is_identity(t.children, new.children);
    assert(kept == t.children);
    // Appending would have produced a delta entry.
    assert(appended =~= Seq::<MenuTreeV>::empty()) by {
        lemma_appended_new_members(t.children, new.children);
        if appended.len() > 0 {
            let jj = choose|x: int|
                0 <= x < new.children.len() && new.children[x] == appended[0];
            assert(ds[jj] == (
                new.children[jj].menu_id,
                Option::Some(tree_delta(new.children[jj])),
            ));
            assert(any_child_delta(ds));
        }
    }
    // Each kept child re-emerges unchanged.
    assert forall|i: int| 0 <= i < merged.len() implies merged[i] == t.children[i] by {
        match find_tree(new.children, kept[i].menu_id) {
            Option::Some(nc) => {
                lemma_find_tree_in_list(new.children, kept[i].menu_id);
                let nj = choose|x: int| 0 <= x < new.children.len() && new.children[x] == nc;
                lemma_children_wf_at(t.children, 0, i);
                lemma_children_wf_at(new.children, 0, nj);
                assert(spec_merge(kept[i], nc).1 is None) by {
                    let oj = choose|x: int|
                        0 <= x < t.children.len() && t.children[x] == kept[i];
                    lemma_find_tree_unique(t.children, kept[i].menu_id, oj);
                    assert(nc.menu_id == kept[i].menu_id);
                    assert(find_tree(t.children, new.children[nj].menu_id) == Option::Some(
                        kept[i],
                    ));
                    assert(ds[nj] == (
                        new.children[nj].menu_id,
                        spec_merge(kept[i], new.children[nj]).1,
                    ));
                    assert(ds[nj].1 is None);
                }
                assert(decreases_to!(new => new.children));
                assert(decreases_to!(new.children => new.children[nj]));
                lemma_none_delta_unchanged(kept[i], nc);
            },
            Option::None => {
                assert(has_tree(new.children, kept[i].menu_id));
                assert(false);
            },
        }
    }
    assert(spec_merge(t, new).0 =~= t) by {
        assert(merged + appended =~= t.children);
    }
}

/// A kept list as long as its source is its source.
#[verifier::rlimit(100)]
proof fn lemma_keep_full_is_identity(old_cs: Seq<MenuTreeV>, new_cs: Seq<MenuTreeV>)
    requires
        keep_children(old_cs, new_cs).len() == old_cs.len(),
    ensures
        keep_children(old_cs, new_cs) == old_cs,
    decreases old_cs.len(),
{
    if old_cs.len() > 0 {
        lemma_keep_children_members(old_cs.drop_last(), new_cs);
        if has_tree(new_cs, old_cs.last().menu_id) {
            lemma_keep_full_is_identity(old_cs.drop_last(), new_cs);
            assert(keep_children(old_cs, new_cs) =~= old_cs);
        } else {
            assert(keep_children(old_cs, new_cs).len() < old_cs.len());
        }
    }
}

/// The match rule of one menu-session subscription, scoped to the
/// menu's origin: sender and path must both match.
pub open spec fn menu_rule_v(
    destination: Seq<char>,
    menu_path: Seq<char>,
    member: Seq<char>,
) -> crate::msg::MatchRuleV {
    crate::msg::MatchRuleV {
        kind: Option::Some(crate::msg::MsgKind::Signal),
        sender: Option::Some(destination),
        path: Option::Some(menu_path),
        interface: Option::Some("com.canonical.dbusmenu"@),
        member: Option::Some(member),
    }
}

/// Installs the two menu-session subscriptions, `LayoutUpdated` and
/// `ItemsPropertiesUpdated`, both scoped by the menu's sender and path.
/// The handles come back so dropping the session can drop them.
pub fn install_menu_handlers(
    client: &mut crate::client::Client,
    destination: &String,
    menu_path: &String,
    layout_updated_callback: u64,
    items_updated_callback: u64,
    add_match_callback: u64,
) -> (hs: (crate::client::SignalHandlerHandle, crate::client::SignalHandlerHandle))
    requires
        old(client)@.wf(),
        old(client).next_serial < u32::MAX - 2,
        old(client).next_handler_id < u64::MAX - 1,
    ensures
        final(client)@.wf(),
        final(client)@.killed == old(client)@.killed,
        final(client)@.objects == old(client)@.objects,
        final(client)@.next_serial == old(client)@.next_serial + 2,
        final(client)@.next_handler_id == old(client)@.next_handler_id + 2,
        hs.0.id == old(client)@.next_handler_id,
        hs.0.rule@ == menu_rule_v(destination@, menu_path@, "LayoutUpdated"@),
        !hs.0.detached,
        hs.1.id == old(client)@.next_handler_id + 1,
        hs.1.rule@ == menu_rule_v(destination@, menu_path@, "ItemsPropertiesUpdated"@),
        !hs.1.detached,
        old(client)@.killed ==> final(client)@.handlers == old(client)@.handlers
            && final(client)@.pending == old(client)@.pending && final(client)@.outgoing == old(
            client,
        )@.outgoing,
        !old(client)@.killed ==> {
            &&& final(client)@.handlers == old(client)@.handlers.push(
                crate::client::HandlerEntryV {
                    id: old(client)@.next_handler_id,
                    rule: menu_rule_v(destination@, menu_path@, "LayoutUpdated"@),
                    callback: layout_updated_callback,
                },
            ).push(
                crate::client::HandlerEntryV {
                    id: (old(client)@.next_handler_id + 1) as u64,
                    rule: menu_rule_v(destination@, menu_path@, "ItemsPropertiesUpdated"@),
                    callback: items_updated_callback,
                },
            )
            &&& final(client)@.pending == old(client)@.pending.push(
                crate::client::PendingEntry {
                    serial: old(client)@.next_serial,
                    callback: add_match_callback,
                },
            ).push(
                crate::client::PendingEntry {
                    serial: (old(client)@.next_serial + 1) as u32,
                    callback: add_match_callback,
                },
            )
            &&& final(client)@.outgoing == old(client)@.outgoing.push(
                crate::client::method_call_v(
                    old(client)@.next_serial,
                    "org.freedesktop.DBus"@,
                    "org.freedesktop.DBus"@,
                    "/org/freedesktop/DBus"@,
                    "AddMatch"@,
                    crate::msg::BodyV::Rule(
                        menu_rule_v(destination@, menu_path@, "LayoutUpdated"@),
                    ),
                    false,
                ),
            ).push(
                crate::client::method_call_v(
                    (old(client)@.next_serial + 1) as u32,
                    "org.freedesktop.DBus"@,
                    "org.freedesktop.DBus"@,
                    "/org/freedesktop/DBus"@,
                    "AddMatch"@,
                    crate::msg::BodyV::Rule(
                        menu_rule_v(destination@, menu_path@, "ItemsPropertiesUpdated"@),
                    ),
                    false,
                ),
            )
        },
{
    let rule1 = crate::msg::MatchRule {
        kind: Some(crate::msg::MsgKind::Signal),
        sender: Some(destination.clone()),
        path: Some(menu_path.clone()),
        interface: Some(String::from_str("com.canonical.dbusmenu")),
        member: Some(String::from_str("LayoutUpdated")),
    };
    proof {
        assert(rule1@ == menu_rule_v(destination@, menu_path@, "LayoutUpdated"@)) by {
            assert(rule1@.sender == menu_rule_v(destination@, menu_path@, "LayoutUpdated"@).sender);
            assert(rule1@.path == menu_rule_v(destination@, menu_path@, "LayoutUpdated"@).path);
            assert(rule1@.interface == menu_rule_v(
                destination@,
                menu_path@,
                "LayoutUpdated"@,
            ).interface);
            assert(rule1@.member == menu_rule_v(destination@, menu_path@, "LayoutUpdated"@).member);
        }
    }
    let (h1, _a1) = client.handle_signal(rule1, layout_updated_callback, add_match_callback);
    let rule2 = crate::msg::MatchRule {
        kind: Some(crate::msg::MsgKind::Signal),
        sender: Some(destination.clone()),
        path: Some(menu_path.clone()),
        interface: Some(String::from_str("com.canonical.dbusmenu")),
        member: Some(String::from_str("ItemsPropertiesUpdated")),
    };
    proof {
        assert(rule2@ == menu_rule_v(destination@, menu_path@, "ItemsPropertiesUpdated"@)) by {
            assert(rule2@.sender == menu_rule_v(
                destination@,
                menu_path@,
                "ItemsPropertiesUpdated"@,
            ).sender);
            assert(rule2@.path == menu_rule_v(
                destination@,
                menu_path@,
                "ItemsPropertiesUpdated"@,
            ).path);
            assert(rule2@.interface == menu_rule_v(
                destination@,
                menu_path@,
                "ItemsPropertiesUpdated"@,
            ).interface);
            assert(rule2@.member == menu_rule_v(
                destination@,
                menu_path@,
                "ItemsPropertiesUpdated"@,
            ).member);
        }
    }
    let (h2, _a2) = client.handle_signal(rule2, items_updated_callback, add_match_callback);
    (h1, h2)
}

/// Opens a menu session from the initial `GetLayout` reply: a failed
/// query opens no session (and the item is still announced without one);
/// a successful reply opens the session on the parsed tree, handing the
/// full tree back as the initial delta.
pub fn session_from_reply(reply: Option<(u32, &LayoutNode)>) -> (r: Option<(
    MenuSession,
    SniMenuDelta,
)>)
    ensures
        match reply {
            Option::Some(p) => r matches Some(s) && {
                &&& s.0@.revision == p.0
                &&& s.0@.tree == spec_parse_tree(p.1@)
                &&& s.0@.next_query_id == 0
                &&& s.0@.inflight == Seq::<u64>::empty()
                &&& s.1@ == tree_delta(spec_parse_tree(p.1@))
            },
            Option::None => r is None,
        },
{
    match reply {
        Some((revision, layout)) => Some(MenuSession::open(revision, layout)),
        None => None,
    }
}

/// The decision an `AboutToShow` reply leads to: on a successful `true`
/// reply the menu layout is refreshed first and the open callback runs
/// after the refresh; on `false` or on any error the callback runs at
/// once, with no refresh.
pub fn about_to_show_decision(reply: &Result<bool, crate::client::BusError>) -> (refresh: bool)
    ensures
        refresh == (reply matches Ok(true)),
{
    match reply {
        Ok(true) => true,
        _ => false,
    }
}

/// Whether two byte vectors are equal.
fn bytes_eq(a: &Vec<u8>, b: &Vec<u8>) -> (r: bool)
    ensures
        r == (a@ == b@),
{
    if a.len() != b.len() {
        proof {
            assert(a@ != b@);
        }
        return false;
    }
    let n = a.len();
    let mut i: usize = 0;
    while i < n
        invariant
            n == a@.len() == b@.len(),
            i <= n,
            forall|j: int| 0 <= j < i ==> a@[j] == b@[j],
        decreases n - i,
    {
        if a[i] != b[i] {
            return false;
        }
        i = i + 1;
    }
    proof {
        assert(a@ =~= b@);
    }
    true
}

/// Whether two optional characters are equal.
fn opt_char_eq(a: Option<char>, b: Option<char>) -> (r: bool)
    ensures
        r == (a == b),
{
    match (a, b) {
        (Option::None, Option::None) => true,
        (Option::Some(x), Option::Some(y)) => x == y,
        _ => false,
    }
}

/// Whether two optional toggle types are equal.
fn opt_toggle_eq(a: Option<SniMenuToggleType>, b: Option<SniMenuToggleType>) -> (r: bool)
    ensures
        r == (a == b),
{
    match (a, b) {
        (Option::None, Option::None) => true,
        (Option::Some(x), Option::Some(y)) => x == y,
        _ => false,
    }
}

/// Compares two property records field by field and collects the delta.
pub fn diff_props(o: &MenuProperties, n: &MenuProperties) -> (r: Option<SniMenuPropertiesDelta>)
    ensures
        match r {
            Option::Some(dd) => spec_diff_props(o@, n@) == Option::Some(dd@),
            Option::None => spec_diff_props(o@, n@) is None,
        },
{
    let separator_eq = o.separator == n.separator;
    let access_key_eq = opt_char_eq(o.access_key, n.access_key);
    let label_eq = o.label == n.label;
    let enabled_eq = o.enabled == n.enabled;
    let visible_eq = o.visible == n.visible;
    let icon_name_eq = o.icon_name == n.icon_name;
    let icon_png_eq = bytes_eq(&o.icon_png, &n.icon_png);
    let toggle_type_eq = opt_toggle_eq(o.toggle_type, n.toggle_type);
    let toggle_state_eq = o.toggle_state == n.toggle_state;
    let children_display_eq = o.children_display == n.children_display;
    let all_eq = separator_eq && access_key_eq && label_eq && enabled_eq && visible_eq
        && icon_name_eq && icon_png_eq && toggle_type_eq && toggle_state_eq && children_display_eq;
    if all_eq {
        proof {
            assert(o@ =~= n@);
        }
        None
    } else {
        let dd = SniMenuPropertiesDelta {
            separator: if !separator_eq {
                Some(n.separator)
            } else {
                None
            },
            access_key: if !access_key_eq {
                Some(n.access_key)
            } else {
                None
            },
            label: if !label_eq {
                Some(n.label.clone())
            } else {
                None
            },
            enabled: if !enabled_eq {
                Some(n.enabled)
            } else {
                None
            },
            visible: if !visible_eq {
                Some(n.visible)
            } else {
                None
            },
            icon_name: if !icon_name_eq {
                Some(n.icon_name.clone())
            } else {
                None
            },
            icon_png: if !icon_png_eq {
                Some(crate::msg::dup_bytes(&n.icon_png))
            } else {
                None
            },
            toggle_type: if !toggle_type_eq {
                Some(n.toggle_type)
            } else {
                None
            },
            toggle_state: if !toggle_state_eq {
                Some(n.toggle_state)
            } else {
                None
            },
            children_display: if !children_display_eq {
                Some(n.children_display)
            } else {
                None
            },
        };
        proof {
            assert(o@ != n@);
            assert(spec_diff_props(o@, n@) == Option::Some(dd@)) by {
                assert(spec_diff_props(o@, n@)->Some_0 =~= dd@);
            }
        }
        Some(dd)
    }
}

} // verus!
