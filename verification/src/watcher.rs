//! The StatusNotifierWatcher service: two parallel registries (one per
//! protocol variant) of tray items and hosts, kept as the decision core
//! emits registration signals, property updates and name re-requests.

use vstd::prelude::*;

use crate::client::{Client, ObjectHandle};
use crate::msg::{Body, PropValue};
use crate::strutil::{concat_str, is_prefix_of, starts_with, str_eq};

verus! {

/// One protocol variant's registry: items and hosts, in registration
/// order, each name at most once.
#[derive(Debug, PartialEq, Eq)]
pub struct WatcherVariant {
    pub items: Vec<String>,
    pub hosts: Vec<String>,
}

/// The view of a [`WatcherVariant`].
#[verifier::ext_equal]
pub struct WatcherVariantV {
    pub items: Seq<Seq<char>>,
    pub hosts: Seq<Seq<char>>,
}

impl View for WatcherVariant {
    type V = WatcherVariantV;

    open spec fn view(&self) -> WatcherVariantV {
        WatcherVariantV { items: self.items.deep_view(), hosts: self.hosts.deep_view() }
    }
}

/// The watcher's state: the freedesktop and KDE variants side by side;
/// they are never merged.
#[derive(Debug, PartialEq, Eq)]
pub struct WatcherState {
    pub fdo: WatcherVariant,
    pub kde: WatcherVariant,
}

/// The view of a [`WatcherState`].
#[verifier::ext_equal]
pub struct WatcherStateV {
    pub fdo: WatcherVariantV,
    pub kde: WatcherVariantV,
}

impl View for WatcherState {
    type V = WatcherStateV;

    open spec fn view(&self) -> WatcherStateV {
        WatcherStateV { fdo: self.fdo@, kde: self.kde@ }
    }
}

/// One bus-visible consequence of a watcher transition, to be performed
/// against the client in list order.
#[derive(Debug, PartialEq, Eq)]
pub enum WatcherEffect {
    /// Republish the `RegisteredStatusNotifierItems` property.
    ItemsProperty(bool, Vec<String>),
    /// Emit `StatusNotifierItemRegistered` with the resolved item.
    ItemRegistered(bool, String),
    /// Emit `StatusNotifierItemUnregistered` for a removed item.
    ItemUnregistered(bool, String),
    /// Emit `StatusNotifierHostRegistered` (empty body).
    HostRegistered(bool),
    /// Republish `IsStatusNotifierHostRegistered`.
    HostProperty(bool, bool),
    /// Re-request a lost watcher well-known name.
    RequestWatcherName(bool),
}

/// The view of a [`WatcherEffect`].
#[verifier::ext_equal]
pub enum WatcherEffectV {
    ItemsProperty(bool, Seq<Seq<char>>),
    ItemRegistered(bool, Seq<char>),
    ItemUnregistered(bool, Seq<char>),
    HostRegistered(bool),
    HostProperty(bool, bool),
    RequestWatcherName(bool),
}

impl View for WatcherEffect {
    type V = WatcherEffectV;

    open spec fn view(&self) -> WatcherEffectV {
        match self {
            WatcherEffect::ItemsProperty(f, v) => WatcherEffectV::ItemsProperty(*f, v.deep_view()),
            WatcherEffect::ItemRegistered(f, s) => WatcherEffectV::ItemRegistered(*f, s@),
            WatcherEffect::ItemUnregistered(f, s) => WatcherEffectV::ItemUnregistered(*f, s@),
            WatcherEffect::HostRegistered(f) => WatcherEffectV::HostRegistered(*f),
            WatcherEffect::HostProperty(f, b) => WatcherEffectV::HostProperty(*f, *b),
            WatcherEffect::RequestWatcherName(f) => WatcherEffectV::RequestWatcherName(*f),
        }
    }
}

impl DeepView for WatcherEffect {
    type V = WatcherEffectV;

    open spec fn deep_view(&self) -> WatcherEffectV {
        self@
    }
}

/// Whether a name occurs in a list.
pub open spec fn name_in(v: Seq<Seq<char>>, s: Seq<char>) -> bool {
    exists|i: int| 0 <= i < v.len() && v[i] == s
}

/// Whether the string `s` occurs in the list.
pub fn contains_name(v: &Vec<String>, s: &str) -> (r: bool)
    ensures
        r == name_in(v.deep_view(), s@),
{
    let n = v.len();
    let mut i: usize = 0;
    while i < n
        invariant
            n == v@.len(),
            i <= n,
            forall|j: int| 0 <= j < i ==> (#[trigger] v.deep_view()[j]) != s@,
        decreases n - i,
    {
        if str_eq(v[i].as_str(), s) {
            proof {
                assert(v.deep_view()[i as int] == s@);
            }
            return true;
        }
        proof {
            assert(v.deep_view()[i as int] == v@[i as int]@);
        }
        i = i + 1;
    }
    false
}

/// The item identifier a `RegisterStatusNotifierItem` argument resolves
/// to. The freedesktop variant takes the argument verbatim; the KDE
/// variant prefixes a path argument with the caller's unique name (and
/// drops the call if the caller is unknown), or else appends the default
/// item path.
pub open spec fn resolve_item_v(fdo: bool, arg: Seq<char>, sender: Option<Seq<char>>) -> Option<
    Seq<char>,
> {
    if fdo {
        Option::Some(arg)
    } else if is_prefix_of("/"@, arg) {
        match sender {
            Option::Some(s) => Option::Some(s + arg),
            Option::None => Option::None,
        }
    } else {
        Option::Some(arg + "/StatusNotifierItem"@)
    }
}

/// The list with every name keeping `keep` dropped.
pub open spec fn remove_names(v: Seq<Seq<char>>, gone: Seq<char>, prefix: bool) -> Seq<Seq<char>>
    decreases v.len(),
{
    if v.len() == 0 {
        Seq::empty()
    } else {
        remove_names(v.drop_last(), gone, prefix) + if removes(v.last(), gone, prefix) {
            Seq::empty()
        } else {
            seq![v.last()]
        }
    }
}

/// Whether a departed name takes the item with it: by equality on the
/// freedesktop variant, by prefix on the KDE variant.
pub open spec fn removes(item: Seq<char>, gone: Seq<char>, prefix: bool) -> bool {
    if prefix {
        is_prefix_of(gone, item)
    } else {
        item == gone
    }
}

/// The items a departed name takes with it, in list order.
pub open spec fn removed_names(v: Seq<Seq<char>>, gone: Seq<char>, prefix: bool) -> Seq<Seq<char>>
    decreases v.len(),
{
    if v.len() == 0 {
        Seq::empty()
    } else {
        removed_names(v.drop_last(), gone, prefix) + if removes(v.last(), gone, prefix) {
            seq![v.last()]
        } else {
            Seq::empty()
        }
    }
}

impl WatcherState {
    /// A watcher with empty registries.
    pub fn new() -> (r: WatcherState)
        ensures
            r@.fdo.items == Seq::<Seq<char>>::empty(),
            r@.fdo.hosts == Seq::<Seq<char>>::empty(),
            r@.kde.items == Seq::<Seq<char>>::empty(),
            r@.kde.hosts == Seq::<Seq<char>>::empty(),
    {
        let r = WatcherState {
            fdo: WatcherVariant { items: Vec::new(), hosts: Vec::new() },
            kde: WatcherVariant { items: Vec::new(), hosts: Vec::new() },
        };
        proof {
            assert(r@.fdo.items =~= Seq::<Seq<char>>::empty());
            assert(r@.fdo.hosts =~= Seq::<Seq<char>>::empty());
            assert(r@.kde.items =~= Seq::<Seq<char>>::empty());
            assert(r@.kde.hosts =~= Seq::<Seq<char>>::empty());
        }
        r
    }

    /// Handles `RegisterStatusNotifierItem`. A newly seen item is
    /// recorded and announced: the item-list property is republished and
    /// `StatusNotifierItemRegistered` is emitted with the resolved item.
    pub fn register_item(&mut self, fdo: bool, arg: &str, sender: Option<&String>) -> (effects: Vec<
        WatcherEffect,
    >)
        ensures
            ({
                let sv = match sender {
                    Option::Some(s) => Option::Some(s@),
                    Option::None => Option::None,
                };
                let other = if fdo {
                    old(self)@.kde
                } else {
                    old(self)@.fdo
                };
                let items = if fdo {
                    old(self)@.fdo.items
                } else {
                    old(self)@.kde.items
                };
                match resolve_item_v(fdo, arg@, sv) {
                    Option::None => final(self)@ == old(self)@ && effects@.len() == 0,
                    Option::Some(item) => {
                        if name_in(items, item) {
                            final(self)@ == old(self)@ && effects@.len() == 0
                        } else {
                            let items2 = items.push(item);
                            &&& (if fdo {
                                final(self)@.fdo.items == items2 && final(self)@.fdo.hosts == old(
                                    self,
                                )@.fdo.hosts && final(self)@.kde == other
                            } else {
                                final(self)@.kde.items == items2 && final(self)@.kde.hosts == old(
                                    self,
                                )@.kde.hosts && final(self)@.fdo == other
                            })
                            &&& effects.deep_view() == seq![
                                WatcherEffectV::ItemsProperty(fdo, items2),
                                WatcherEffectV::ItemRegistered(fdo, item),
                            ]
                        }
                    },
                }
            }),
    {
        let resolved: Option<String> = if fdo {
            Some(String::from_str(arg))
        } else if starts_with(arg, "/") {
            proof {
                assert(is_prefix_of("/"@, arg@));
            }
            match sender {
                Some(s) => Some(concat_str(s.as_str(), arg)),
                None => None,
            }
        } else {
            proof {
                assert(!is_prefix_of("/"@, arg@));
            }
            Some(concat_str(arg, "/StatusNotifierItem"))
        };
        let mut effects: Vec<WatcherEffect> = Vec::new();
        let item = match resolved {
            Some(item) => item,
            None => {
                proof {
                    assert(effects.deep_view() =~= Seq::<WatcherEffectV>::empty());
                }
                return effects;
            },
        };
        let variant = if fdo {
            &mut self.fdo
        } else {
            &mut self.kde
        };
        if contains_name(&variant.items, item.as_str()) {
            proof {
                assert(effects.deep_view() =~= Seq::<WatcherEffectV>::empty());
            }
            return effects;
        }
        variant.items.push(item.clone());
        proof {
            assert(variant.items.deep_view() =~= if fdo {
                old(self)@.fdo.items.push(item@)
            } else {
                old(self)@.kde.items.push(item@)
            });
        }
        let list = crate::msg::dup_strings(&variant.items);
        effects.push(WatcherEffect::ItemsProperty(fdo, list));
        effects.push(WatcherEffect::ItemRegistered(fdo, item));
        proof {
            assert(effects.deep_view() =~= seq![
                WatcherEffectV::ItemsProperty(
                    fdo,
                    if fdo {
                        old(self)@.fdo.items.push(effects@[1]->ItemRegistered_1@)
                    } else {
                        old(self)@.kde.items.push(effects@[1]->ItemRegistered_1@)
                    },
                ),
                WatcherEffectV::ItemRegistered(fdo, effects@[1]->ItemRegistered_1@),
            ]);
        }
        effects
    }

    /// Handles `RegisterStatusNotifierHost`. A newly seen host emits
    /// `StatusNotifierHostRegistered`; the first host of a variant flips
    /// the host-registered property to true.
    pub fn register_host(&mut self, fdo: bool, service: &str) -> (effects: Vec<WatcherEffect>)
        ensures
            ({
                let hosts = if fdo {
                    old(self)@.fdo.hosts
                } else {
                    old(self)@.kde.hosts
                };
                let other = if fdo {
                    old(self)@.kde
                } else {
                    old(self)@.fdo
                };
                if name_in(hosts, service@) {
                    final(self)@ == old(self)@ && effects@.len() == 0
                } else {
                    &&& (if fdo {
                        final(self)@.fdo.hosts == hosts.push(service@) && final(self)@.fdo.items
                            == old(self)@.fdo.items && final(self)@.kde == other
                    } else {
                        final(self)@.kde.hosts == hosts.push(service@) && final(self)@.kde.items
                            == old(self)@.kde.items && final(self)@.fdo == other
                    })
                    &&& effects.deep_view() == if hosts.len() == 0 {
                        seq![
                            WatcherEffectV::HostRegistered(fdo),
                            WatcherEffectV::HostProperty(fdo, true),
                        ]
                    } else {
                        seq![WatcherEffectV::HostRegistered(fdo)]
                    }
                }
            }),
    {
        let variant = if fdo {
            &mut self.fdo
        } else {
            &mut self.kde
        };
        let mut effects: Vec<WatcherEffect> = Vec::new();
        if contains_name(&variant.hosts, service) {
            proof {
                assert(effects.deep_view() =~= Seq::<WatcherEffectV>::empty());
            }
            return effects;
        }
        let first = variant.hosts.len() == 0;
        variant.hosts.push(String::from_str(service));
        effects.push(WatcherEffect::HostRegistered(fdo));
        if first {
            effects.push(WatcherEffect::HostProperty(fdo, true));
            proof {
                assert(effects.deep_view() =~= seq![
                    WatcherEffectV::HostRegistered(fdo),
                    WatcherEffectV::HostProperty(fdo, true),
                ]);
            }
        } else {
            proof {
                assert(effects.deep_view() =~= seq![WatcherEffectV::HostRegistered(fdo)]);
            }
        }
        proof {
            assert(variant.hosts.deep_view() =~= if fdo {
                old(self)@.fdo.hosts.push(service@)
            } else {
                old(self)@.kde.hosts.push(service@)
            });
        }
        effects
    }
}

/// The unregistration signals for a list of departed items, in order.
pub open spec fn unregistered_effects(fdo: bool, removed: Seq<Seq<char>>) -> Seq<WatcherEffectV> {
    removed.map_values(|i: Seq<char>| WatcherEffectV::ItemUnregistered(fdo, i))
}

/// The transition of `NameOwnerChanged(name, _, new_owner)`: nothing on a
/// non-empty new owner; otherwise a lost watcher name is re-requested,
/// the departed name's items are unregistered (by equality on the
/// freedesktop variant, by prefix on the KDE variant), and its host
/// registration is dropped.
pub open spec fn spec_name_owner_changed(s: WatcherStateV, name: Seq<char>, new_owner: Seq<char>) -> (
    WatcherStateV,
    Seq<WatcherEffectV>,
) {
    if new_owner.len() > 0 {
        (s, Seq::empty())
    } else {
        let req = (if name == "org.freedesktop.StatusNotifierWatcher"@ {
            seq![WatcherEffectV::RequestWatcherName(true)]
        } else {
            Seq::empty()
        }) + (if name == "org.kde.StatusNotifierWatcher"@ {
            seq![WatcherEffectV::RequestWatcherName(false)]
        } else {
            Seq::empty()
        });
        let fdo_rm = removed_names(s.fdo.items, name, false);
        let fdo_items = remove_names(s.fdo.items, name, false);
        let fdo_eff = if fdo_rm.len() > 0 {
            unregistered_effects(true, fdo_rm) + seq![
                WatcherEffectV::ItemsProperty(true, fdo_items),
            ]
        } else {
            Seq::empty()
        };
        let kde_rm = removed_names(s.kde.items, name, true);
        let kde_items = remove_names(s.kde.items, name, true);
        let kde_eff = if kde_rm.len() > 0 {
            unregistered_effects(false, kde_rm) + seq![
                WatcherEffectV::ItemsProperty(false, kde_items),
            ]
        } else {
            Seq::empty()
        };
        let fdo_hosts = remove_names(s.fdo.hosts, name, false);
        let fdo_heff = if fdo_hosts.len() != s.fdo.hosts.len() && fdo_hosts.len() == 0 {
            seq![WatcherEffectV::HostProperty(true, false)]
        } else {
            Seq::empty()
        };
        let kde_hosts = remove_names(s.kde.hosts, name, false);
        let kde_heff = if kde_hosts.len() != s.kde.hosts.len() && kde_hosts.len() == 0 {
            seq![WatcherEffectV::HostProperty(false, false)]
        } else {
            Seq::empty()
        };
        (
            WatcherStateV {
                fdo: WatcherVariantV { items: fdo_items, hosts: fdo_hosts },
                kde: WatcherVariantV { items: kde_items, hosts: kde_hosts },
            },
            req + fdo_eff + kde_eff + fdo_heff + kde_heff,
        )
    }
}

impl WatcherState {
    /// Removes the names a departed owner takes with it from one list,
    /// collecting the removed ones in order.
    fn remove_matching(v: &mut Vec<String>, gone: &str, prefix: bool) -> (removed: Vec<String>)
        ensures
            final(v).deep_view() == remove_names(old(v).deep_view(), gone@, prefix),
            removed.deep_view() == removed_names(old(v).deep_view(), gone@, prefix),
    {
        let n = v.len();
        let mut kept: Vec<String> = Vec::new();
        let mut removed: Vec<String> = Vec::new();
        let mut i: usize = 0;
        while i < n
            invariant
                n == v@.len(),
                v.deep_view() == old(v).deep_view(),
                i <= n,
                kept.deep_view() == remove_names(v.deep_view().take(i as int), gone@, prefix),
                removed.deep_view() == removed_names(v.deep_view().take(i as int), gone@, prefix),
            decreases n - i,
        {
            proof {
                assert(v.deep_view().take(i + 1 as int).drop_last() =~= v.deep_view().take(
                    i as int,
                ));
                assert(v.deep_view().take(i + 1 as int).last() == v.deep_view()[i as int]);
            }
            let hit = if prefix {
                starts_with(v[i].as_str(), gone)
            } else {
                str_eq(v[i].as_str(), gone)
            };
            proof {
                assert(v.deep_view()[i as int] == v@[i as int]@);
                assert(hit == removes(v.deep_view()[i as int], gone@, prefix));
            }
            if hit {
                removed.push(v[i].clone());
                proof {
                    assert(removed.deep_view() =~= removed_names(
                        v.deep_view().take(i + 1 as int),
                        gone@,
                        prefix,
                    ));
                }
            } else {
                kept.push(v[i].clone());
                proof {
                    assert(kept.deep_view() =~= remove_names(
                        v.deep_view().take(i + 1 as int),
                        gone@,
                        prefix,
                    ));
                }
            }
            i = i + 1;
        }
        proof {
            assert(v.deep_view().take(n as int) =~= v.deep_view());
        }
        *v = kept;
        removed
    }

    /// Handles `NameOwnerChanged`.
    /// Removes one variant's items a departed name owned, collecting the
    /// unregistration signals and the republished item list.
    fn unregister_departed(
        items: &mut Vec<String>,
        fdo: bool,
        name: &str,
        prefix: bool,
    ) -> (effects: Vec<WatcherEffect>)
        ensures
            final(items).deep_view() == remove_names(old(items).deep_view(), name@, prefix),
            effects.deep_view() == ({
                let rm = removed_names(old(items).deep_view(), name@, prefix);
                if rm.len() > 0 {
                    unregistered_effects(fdo, rm) + seq![
                        WatcherEffectV::ItemsProperty(
                            fdo,
                            remove_names(old(items).deep_view(), name@, prefix),
                        ),
                    ]
                } else {
                    Seq::<WatcherEffectV>::empty()
                }
            }),
    {
        let mut effects: Vec<WatcherEffect> = Vec::new();
        let removed = Self::remove_matching(items, name, prefix);
        let ghost rm = removed_names(old(items).deep_view(), name@, prefix);
        let n = removed.len();
        let mut i: usize = 0;
        proof {
            assert(effects.deep_view() =~= unregistered_effects(fdo, rm.take(0)));
        }
        while i < n
            invariant
                n == removed@.len(),
                removed.deep_view() == rm,
                i <= n,
                effects.deep_view() == unregistered_effects(fdo, rm.take(i as int)),
            decreases n - i,
        {
            let ghost before = effects.deep_view();
            effects.push(WatcherEffect::ItemUnregistered(fdo, removed[i].clone()));
            proof {
                assert(effects.deep_view() =~= before.push(
                    WatcherEffectV::ItemUnregistered(fdo, rm[i as int]),
                ));
                assert(rm.take(i + 1 as int) =~= rm.take(i as int).push(rm[i as int]));
                assert(unregistered_effects(fdo, rm.take(i + 1 as int)) =~= unregistered_effects(
                    fdo,
                    rm.take(i as int),
                ).push(WatcherEffectV::ItemUnregistered(fdo, rm[i as int])));
            }
            i = i + 1;
        }
        proof {
            assert(rm.take(n as int) =~= rm);
        }
        if removed.len() > 0 {
            let ghost before = effects.deep_view();
            effects.push(WatcherEffect::ItemsProperty(fdo, crate::msg::dup_strings(items)));
            proof {
                assert(effects.deep_view() =~= before.push(
                    WatcherEffectV::ItemsProperty(
                        fdo,
                        remove_names(old(items).deep_view(), name@, prefix),
                    ),
                ));
            }
        }
        effects
    }

    /// Removes one variant's host registration for a departed name,
    /// flipping the host-registered property when the last host goes.
    fn unregister_host(hosts: &mut Vec<String>, fdo: bool, name: &str) -> (effects: Vec<
        WatcherEffect,
    >)
        ensures
            final(hosts).deep_view() == remove_names(old(hosts).deep_view(), name@, false),
            effects.deep_view() == ({
                let kept = remove_names(old(hosts).deep_view(), name@, false);
                if kept.len() != old(hosts).deep_view().len() && kept.len() == 0 {
                    seq![WatcherEffectV::HostProperty(fdo, false)]
                } else {
                    Seq::<WatcherEffectV>::empty()
                }
            }),
    {
        let mut effects: Vec<WatcherEffect> = Vec::new();
        let removed = Self::remove_matching(hosts, name, false);
        proof {
            lemma_remove_split_len(old(hosts).deep_view(), name@, false);
        }
        if removed.len() > 0 && hosts.len() == 0 {
            effects.push(WatcherEffect::HostProperty(fdo, false));
            proof {
                assert(effects.deep_view() =~= seq![WatcherEffectV::HostProperty(fdo, false)]);
            }
        } else {
            proof {
                assert(effects.deep_view() =~= Seq::<WatcherEffectV>::empty());
            }
        }
        effects
    }

    /// Handles `NameOwnerChanged`.
    #[verifier::rlimit(100)]
    pub fn name_owner_changed(&mut self, name: &str, new_owner: &str) -> (effects: Vec<
        WatcherEffect,
    >)
        ensures
            (final(self)@, effects.deep_view()) == spec_name_owner_changed(
                old(self)@,
                name@,
                new_owner@,
            ),
    {
        let mut effects: Vec<WatcherEffect> = Vec::new();
        if !new_owner.is_empty() {
            proof {
                assert(effects.deep_view() =~= Seq::<WatcherEffectV>::empty());
            }
            return effects;
        }
        if str_eq(name, "org.freedesktop.StatusNotifierWatcher") {
            effects.push(WatcherEffect::RequestWatcherName(true));
        }
        if str_eq(name, "org.kde.StatusNotifierWatcher") {
            effects.push(WatcherEffect::RequestWatcherName(false));
        }
        let ghost req = effects.deep_view();
        let mut e1 = Self::unregister_departed(&mut self.fdo.items, true, name, false);
        let ghost e1v = e1.deep_view();
        effects.append(&mut e1);
        let mut e2 = Self::unregister_departed(&mut self.kde.items, false, name, true);
        let ghost e2v = e2.deep_view();
        effects.append(&mut e2);
        let mut e3 = Self::unregister_host(&mut self.fdo.hosts, true, name);
        let ghost e3v = e3.deep_view();
        effects.append(&mut e3);
        let mut e4 = Self::unregister_host(&mut self.kde.hosts, false, name);
        let ghost e4v = e4.deep_view();
        effects.append(&mut e4);
        proof {
            let sp = spec_name_owner_changed(old(self)@, name@, new_owner@);
            assert(effects.deep_view() =~= req + e1v + e2v + e3v + e4v);
            assert(effects.deep_view() =~= sp.1);
            assert(final(self)@ =~= sp.0);
        }
        effects
    }
}

/// The watcher interface name of a variant, as a sequence.
pub open spec fn variant_interface_v(fdo: bool) -> Seq<char> {
    if fdo {
        "org.freedesktop.StatusNotifierWatcher"@
    } else {
        "org.kde.StatusNotifierWatcher"@
    }
}

/// The wire message one watcher effect becomes, given the exported path
/// and the serial it will carry.
pub open spec fn effect_message(e: WatcherEffectV, path: Seq<char>, serial: u32) -> crate::msg::BusMessageV {
    match e {
        WatcherEffectV::ItemsProperty(fdo, items) => crate::client::signal_v(
            serial,
            "org.freedesktop.DBus.Properties"@,
            path,
            "PropertiesChanged"@,
            crate::msg::BodyV::PropsChanged(
                variant_interface_v(fdo),
                seq![
                    (
                        "RegisteredStatusNotifierItems"@,
                        crate::msg::PropValueV::StrList(items),
                    ),
                ],
                Seq::empty(),
            ),
        ),
        WatcherEffectV::ItemRegistered(fdo, item) => crate::client::signal_v(
            serial,
            variant_interface_v(fdo),
            path,
            "StatusNotifierItemRegistered"@,
            crate::msg::BodyV::Str(item),
        ),
        WatcherEffectV::ItemUnregistered(fdo, item) => crate::client::signal_v(
            serial,
            variant_interface_v(fdo),
            path,
            "StatusNotifierItemUnregistered"@,
            crate::msg::BodyV::Str(item),
        ),
        WatcherEffectV::HostRegistered(fdo) => crate::client::signal_v(
            serial,
            variant_interface_v(fdo),
            path,
            "StatusNotifierHostRegistered"@,
            crate::msg::BodyV::Unit,
        ),
        WatcherEffectV::HostProperty(fdo, value) => crate::client::signal_v(
            serial,
            "org.freedesktop.DBus.Properties"@,
            path,
            "PropertiesChanged"@,
            crate::msg::BodyV::PropsChanged(
                variant_interface_v(fdo),
                seq![
                    (
                        "IsStatusNotifierHostRegistered"@,
                        crate::msg::PropValueV::Bool(value),
                    ),
                ],
                Seq::empty(),
            ),
        ),
        WatcherEffectV::RequestWatcherName(fdo) => crate::client::method_call_v(
            serial,
            "org.freedesktop.DBus"@,
            "org.freedesktop.DBus"@,
            "/org/freedesktop/DBus"@,
            "RequestName"@,
            crate::msg::BodyV::NameFlags(variant_interface_v(fdo), 0),
            true,
        ),
    }
}

/// The object-table consequence of one watcher effect: the two property
/// effects update the exported object's table; the signals and the name
/// request leave it unchanged.
pub open spec fn effect_objects(
    objs: Seq<crate::client::ObjectEntryV>,
    path: Seq<char>,
    e: WatcherEffectV,
) -> Seq<crate::client::ObjectEntryV> {
    match e {
        WatcherEffectV::ItemsProperty(fdo, items) => spec_seed_prop(
            objs,
            path,
            variant_interface_v(fdo),
            "RegisteredStatusNotifierItems"@,
            crate::msg::PropValueV::StrList(items),
        ),
        WatcherEffectV::HostProperty(fdo, b) => spec_seed_prop(
            objs,
            path,
            variant_interface_v(fdo),
            "IsStatusNotifierHostRegistered"@,
            crate::msg::PropValueV::Bool(b),
        ),
        _ => objs,
    }
}

/// The object table after a list of effects, applied in order.
pub open spec fn apply_effects_objects(
    objs: Seq<crate::client::ObjectEntryV>,
    path: Seq<char>,
    effs: Seq<WatcherEffectV>,
) -> Seq<crate::client::ObjectEntryV>
    decreases effs.len(),
{
    if effs.len() == 0 {
        objs
    } else {
        apply_effects_objects(effect_objects(objs, path, effs[0]), path, effs.drop_first())
    }
}

/// Appending one effect applies it after the rest.
pub proof fn lemma_apply_effects_snoc(
    objs: Seq<crate::client::ObjectEntryV>,
    path: Seq<char>,
    effs: Seq<WatcherEffectV>,
    e: WatcherEffectV,
)
    ensures
        apply_effects_objects(objs, path, effs.push(e)) == effect_objects(
            apply_effects_objects(objs, path, effs),
            path,
            e,
        ),
    decreases effs.len(),
{
    reveal_with_fuel(apply_effects_objects, 3);
    if effs.len() == 0 {
        assert(effs.push(e)[0] == e);
        assert(effs.push(e).drop_first() =~= Seq::<WatcherEffectV>::empty());
        assert(apply_effects_objects(objs, path, effs.push(e)) == effect_objects(objs, path, e));
        assert(apply_effects_objects(objs, path, effs) == objs);
    } else {
        let objs1 = effect_objects(objs, path, effs[0]);
        assert(effs.push(e)[0] == effs[0]);
        assert(effs.push(e).drop_first() =~= effs.drop_first().push(e));
        lemma_apply_effects_snoc(objs1, path, effs.drop_first(), e);
        assert(apply_effects_objects(objs, path, effs.push(e)) == apply_effects_objects(
            objs1,
            path,
            effs.drop_first().push(e),
        ));
        assert(apply_effects_objects(objs, path, effs) == apply_effects_objects(
            objs1,
            path,
            effs.drop_first(),
        ));
    }
}

/// Splitting a list of effects applies the parts in order.
pub proof fn lemma_apply_effects_concat(
    objs: Seq<crate::client::ObjectEntryV>,
    path: Seq<char>,
    a: Seq<WatcherEffectV>,
    b: Seq<WatcherEffectV>,
)
    ensures
        apply_effects_objects(objs, path, a + b) == apply_effects_objects(
            apply_effects_objects(objs, path, a),
            path,
            b,
        ),
    decreases b.len(),
{
    if b.len() == 0 {
        assert(a + b =~= a);
    } else {
        assert(a + b =~= (a.push(b[0])) + b.drop_first());
        lemma_apply_effects_snoc(objs, path, a, b[0]);
        lemma_apply_effects_concat(objs, path, a.push(b[0]), b.drop_first());
        assert(apply_effects_objects(objs, path, a.push(b[0])) == effect_objects(
            apply_effects_objects(objs, path, a),
            path,
            b[0],
        ));
    }
}

/// The watcher interface name of a variant.
fn variant_interface(fdo: bool) -> (r: String)
    ensures
        r@ == if fdo {
            "org.freedesktop.StatusNotifierWatcher"@
        } else {
            "org.kde.StatusNotifierWatcher"@
        },
{
    if fdo {
        String::from_str("org.freedesktop.StatusNotifierWatcher")
    } else {
        String::from_str("org.kde.StatusNotifierWatcher")
    }
}

/// Performs a list of watcher effects against the client, in order: each
/// becomes exactly one property update, signal or name request on the
/// wire.
pub fn perform_effects(client: &mut Client, obj: &ObjectHandle, effects: Vec<WatcherEffect>)
    requires
        old(client)@.wf(),
        old(client)@.next_serial + effects@.len() < u32::MAX,
    ensures
        final(client)@.killed == old(client)@.killed,
        final(client)@.pending == old(client)@.pending,
        final(client)@.handlers == old(client)@.handlers,
        final(client)@.next_handler_id == old(client)@.next_handler_id,
        final(client)@.next_serial == old(client)@.next_serial + effects@.len(),
        final(client)@.wf(),
        final(client)@.objects == apply_effects_objects(
            old(client)@.objects,
            obj.path@,
            effects.deep_view(),
        ),
        old(client)@.killed ==> final(client)@.outgoing == old(client)@.outgoing,
        !old(client)@.killed ==> {
            &&& final(client)@.outgoing.len() == old(client)@.outgoing.len() + effects@.len()
            &&& forall|i: int|
                0 <= i < old(client)@.outgoing.len() ==> final(client)@.outgoing[i] == old(
                    client,
                )@.outgoing[i]
            &&& forall|i: int|
                0 <= i < effects@.len() ==> final(client)@.outgoing[old(client)@.outgoing.len()
                    + i] == effect_message(
                    effects.deep_view()[i],
                    obj.path@,
                    (old(client)@.next_serial + i) as u32,
                )
        },
{
    let ghost origv = effects.deep_view();
    let ghost path0 = obj.path@;
    let ghost ns0 = old(client)@.next_serial;
    let ghost out0 = old(client)@.outgoing;
    let n = effects.len();
    let mut effects = effects;
    let mut i: usize = 0;
    while i < n
        invariant
            effects@.len() == n - i,
            origv.len() == n,
            forall|j: int| 0 <= j < n - i ==> effects.deep_view()[j] == origv[i + j],
            i <= n,
            obj.path@ == path0,
            client@.wf(),
            client@.killed == old(client)@.killed,
            client@.pending == old(client)@.pending,
            client@.handlers == old(client)@.handlers,
            client@.next_handler_id == old(client)@.next_handler_id,
            client@.next_serial == ns0 + i,
            ns0 + n < u32::MAX,
            client@.objects == apply_effects_objects(old(client)@.objects, path0, origv.take(i as int)),
            old(client)@.killed ==> client@.outgoing == out0,
            !old(client)@.killed ==> {
                &&& client@.outgoing.len() == out0.len() + i
                &&& forall|j: int| 0 <= j < out0.len() ==> client@.outgoing[j] == out0[j]
                &&& forall|j: int|
                    0 <= j < i ==> client@.outgoing[out0.len() + j] == effect_message(
                        origv[j],
                        path0,
                        (ns0 + j) as u32,
                    )
            },
        decreases n - i,
    {
        let ghost prev = effects@;
        let ghost prevdv = effects.deep_view();
        let ghost before = client@.outgoing;
        let ghost before_objs = client@.objects;
        let e = effects.remove(0);
        proof {
            assert(e@ == origv[i as int]) by {
                assert(prevdv[0] == prev[0]@);
            }
            assert forall|j: int| 0 <= j < n - i - 1 implies effects.deep_view()[j] == origv[i + 1
                + j] by {
                assert(effects@[j] == prev[j + 1]);
                assert(prevdv[j + 1] == origv[i + 1 + j]);
                assert(prevdv[j + 1] == prev[j + 1]@);
                assert(effects.deep_view()[j] == effects@[j]@);
            }
        }
        match e {
            WatcherEffect::ItemsProperty(fdo, list) => {
                client.set_property(
                    obj,
                    variant_interface(fdo),
                    String::from_str("RegisteredStatusNotifierItems"),
                    PropValue::StrList(list),
                );
            },
            WatcherEffect::ItemRegistered(fdo, item) => {
                client.send_signal(
                    variant_interface(fdo),
                    obj.path.clone(),
                    String::from_str("StatusNotifierItemRegistered"),
                    Body::Str(item),
                );
            },
            WatcherEffect::ItemUnregistered(fdo, item) => {
                client.send_signal(
                    variant_interface(fdo),
                    obj.path.clone(),
                    String::from_str("StatusNotifierItemUnregistered"),
                    Body::Str(item),
                );
            },
            WatcherEffect::HostRegistered(fdo) => {
                client.send_signal(
                    variant_interface(fdo),
                    obj.path.clone(),
                    String::from_str("StatusNotifierHostRegistered"),
                    Body::Unit,
                );
            },
            WatcherEffect::HostProperty(fdo, value) => {
                client.set_property(
                    obj,
                    variant_interface(fdo),
                    String::from_str("IsStatusNotifierHostRegistered"),
                    PropValue::Bool(value),
                );
            },
            WatcherEffect::RequestWatcherName(fdo) => {
                client.request_name(variant_interface(fdo));
            },
        }
        proof {
            if !old(client)@.killed {
                assert(client@.outgoing =~= before.push(
                    effect_message(origv[i as int], path0, (ns0 + i) as u32),
                )) by {
                    assert(client@.outgoing.last() =~~= effect_message(
                        origv[i as int],
                        path0,
                        (ns0 + i) as u32,
                    ));
                }
            }
            assert(client@.objects == effect_objects(before_objs, path0, origv[i as int]));
            assert(origv.take(i + 1).drop_last() =~= origv.take(i as int));
            assert(origv.take(i + 1).last() == origv[i as int]);
            assert(origv.take(i + 1) =~= origv.take(i as int).push(origv[i as int]));
            lemma_apply_effects_snoc(old(client)@.objects, path0, origv.take(i as int), origv[i as int]);
        }
        i = i + 1;
    }
    proof {
        assert(origv.take(n as int) =~= origv);
    }
}

/// The object table after a method handler is bound on the first object
/// at `path`, as [`Client::add_method`] leaves it.
pub open spec fn spec_bind_method(
    objs: Seq<crate::client::ObjectEntryV>,
    path: Seq<char>,
    iface: Seq<char>,
    member: Seq<char>,
    cb: u64,
) -> Seq<crate::client::ObjectEntryV> {
    match crate::client::find_object(objs, path) {
        Option::Some(o) => crate::client::spec_update_object(
            objs,
            path,
            crate::client::spec_set_method(o.methods, iface, member, cb),
            o.properties,
        ),
        Option::None => objs,
    }
}

/// The object table after a property is set on the first object at
/// `path`, as [`Client::set_property`] leaves it.
pub open spec fn spec_seed_prop(
    objs: Seq<crate::client::ObjectEntryV>,
    path: Seq<char>,
    iface: Seq<char>,
    member: Seq<char>,
    value: crate::msg::PropValueV,
) -> Seq<crate::client::ObjectEntryV> {
    match crate::client::find_object(objs, path) {
        Option::Some(o) => crate::client::spec_update_object(
            objs,
            path,
            o.methods,
            crate::client::spec_set_prop(o.properties, iface, member, value),
        ),
        Option::None => objs,
    }
}

/// The object table after one watcher variant is wired up at `path`: its
/// two registration methods bound and its three properties seeded.
pub open spec fn spec_seed_variant(
    objs: Seq<crate::client::ObjectEntryV>,
    path: Seq<char>,
    fdo: bool,
    item_cb: u64,
    host_cb: u64,
) -> Seq<crate::client::ObjectEntryV> {
    let iface = variant_interface_v(fdo);
    spec_seed_prop(
        spec_seed_prop(
            spec_seed_prop(
                spec_bind_method(
                    spec_bind_method(objs, path, iface, "RegisterStatusNotifierItem"@, item_cb),
                    path,
                    iface,
                    "RegisterStatusNotifierHost"@,
                    host_cb,
                ),
                path,
                iface,
                "IsStatusNotifierHostRegistered"@,
                crate::msg::PropValueV::Bool(false),
            ),
            path,
            iface,
            "ProtocolVersion"@,
            crate::msg::PropValueV::I32(0),
        ),
        path,
        iface,
        "RegisteredStatusNotifierItems"@,
        crate::msg::PropValueV::StrList(Seq::empty()),
    )
}

/// The object table a watcher startup leaves on a live client: the
/// watcher path exported with both variants bound and seeded.
pub open spec fn spec_watcher_objects(
    objs: Seq<crate::client::ObjectEntryV>,
    cbs: WatcherCallbacks,
) -> Seq<crate::client::ObjectEntryV> {
    let path = "/StatusNotifierWatcher"@;
    spec_seed_variant(
        spec_seed_variant(
            crate::client::spec_add_object(objs, path),
            path,
            true,
            cbs.fdo_register_item,
            cbs.fdo_register_host,
        ),
        path,
        false,
        cbs.kde_register_item,
        cbs.kde_register_host,
    )
}

/// The match rule of the watcher's `NameOwnerChanged` subscription.
pub open spec fn name_owner_rule_v() -> crate::msg::MatchRuleV {
    crate::msg::MatchRuleV {
        kind: Option::Some(crate::msg::MsgKind::Signal),
        sender: Option::None,
        path: Option::None,
        interface: Option::Some("org.freedesktop.DBus"@),
        member: Option::Some("NameOwnerChanged"@),
    }
}

/// The `PropertiesChanged` signal one seeded watcher property emits.
pub open spec fn watcher_props_signal(
    serial: u32,
    fdo: bool,
    member: Seq<char>,
    value: crate::msg::PropValueV,
) -> crate::msg::BusMessageV {
    crate::client::signal_v(
        serial,
        "org.freedesktop.DBus.Properties"@,
        "/StatusNotifierWatcher"@,
        "PropertiesChanged"@,
        crate::msg::BodyV::PropsChanged(
            variant_interface_v(fdo),
            seq![(member, value)],
            Seq::empty(),
        ),
    )
}

/// The nine messages a watcher startup puts on the wire of a live
/// client, in order and with the serials they carry: the `AddMatch` for
/// `NameOwnerChanged`, both `RequestName` calls, and the six seeded
/// properties' `PropertiesChanged` signals.
pub open spec fn spec_watcher_wire(serial: u32) -> Seq<crate::msg::BusMessageV> {
    seq![
        crate::client::method_call_v(
            serial,
            "org.freedesktop.DBus"@,
            "org.freedesktop.DBus"@,
            "/org/freedesktop/DBus"@,
            "AddMatch"@,
            crate::msg::BodyV::Rule(name_owner_rule_v()),
            false,
        ),
        crate::client::method_call_v(
            (serial + 1) as u32,
            "org.freedesktop.DBus"@,
            "org.freedesktop.DBus"@,
            "/org/freedesktop/DBus"@,
            "RequestName"@,
            crate::msg::BodyV::NameFlags(variant_interface_v(true), 0),
            true,
        ),
        crate::client::method_call_v(
            (serial + 2) as u32,
            "org.freedesktop.DBus"@,
            "org.freedesktop.DBus"@,
            "/org/freedesktop/DBus"@,
            "RequestName"@,
            crate::msg::BodyV::NameFlags(variant_interface_v(false), 0),
            true,
        ),
        watcher_props_signal(
            (serial + 3) as u32,
            true,
            "IsStatusNotifierHostRegistered"@,
            crate::msg::PropValueV::Bool(false),
        ),
        watcher_props_signal((serial + 4) as u32, true, "ProtocolVersion"@, crate::msg::PropValueV::I32(0)),
        watcher_props_signal(
            (serial + 5) as u32,
            true,
            "RegisteredStatusNotifierItems"@,
            crate::msg::PropValueV::StrList(Seq::empty()),
        ),
        watcher_props_signal(
            (serial + 6) as u32,
            false,
            "IsStatusNotifierHostRegistered"@,
            crate::msg::PropValueV::Bool(false),
        ),
        watcher_props_signal((serial + 7) as u32, false, "ProtocolVersion"@, crate::msg::PropValueV::I32(0)),
        watcher_props_signal(
            (serial + 8) as u32,
            false,
            "RegisteredStatusNotifierItems"@,
            crate::msg::PropValueV::StrList(Seq::empty()),
        ),
    ]
}

/// Setting a property makes it findable with the new value.
pub proof fn lemma_find_prop_set_same(
    ps: Seq<crate::client::PropertyEntryV>,
    i: Seq<char>,
    m: Seq<char>,
    v: crate::msg::PropValueV,
)
    ensures
        crate::client::find_property(crate::client::spec_set_prop(ps, i, m, v), i, m)
            == Option::Some(
            crate::client::PropertyEntryV { interface: i, member: m, value: v },
        ),
    decreases ps.len(),
{
    let e = crate::client::PropertyEntryV { interface: i, member: m, value: v };
    let r = crate::client::spec_set_prop(ps, i, m, v);
    if ps.len() == 0 {
        assert(r =~= seq![e]);
    } else if ps[0].interface == i && ps[0].member == m {
        assert(r == ps.update(0, e));
        assert(r[0] == e);
    } else {
        lemma_find_prop_set_same(ps.drop_first(), i, m, v);
        assert(r == seq![ps[0]] + crate::client::spec_set_prop(ps.drop_first(), i, m, v));
        assert(r[0] == ps[0]);
        assert(r.drop_first() =~= crate::client::spec_set_prop(ps.drop_first(), i, m, v));
    }
}

/// Setting one property leaves every other key's lookup unchanged.
pub proof fn lemma_find_prop_set_other(
    ps: Seq<crate::client::PropertyEntryV>,
    i: Seq<char>,
    m: Seq<char>,
    v: crate::msg::PropValueV,
    i2: Seq<char>,
    m2: Seq<char>,
)
    requires
        !(i2 == i && m2 == m),
    ensures
        crate::client::find_property(crate::client::spec_set_prop(ps, i, m, v), i2, m2)
            == crate::client::find_property(ps, i2, m2),
    decreases ps.len(),
{
    reveal_with_fuel(crate::client::find_property, 3);
    reveal_with_fuel(crate::client::spec_set_prop, 3);
    let e = crate::client::PropertyEntryV { interface: i, member: m, value: v };
    let r = crate::client::spec_set_prop(ps, i, m, v);
    if ps.len() == 0 {
        assert(r =~= seq![e]);
        assert(r[0] == e);
        assert(r.drop_first() =~= Seq::<crate::client::PropertyEntryV>::empty());
    } else if ps[0].interface == i && ps[0].member == m {
        assert(r == ps.update(0, e));
        assert(r[0] == e);
        assert(r.drop_first() =~= ps.drop_first());
    } else {
        lemma_find_prop_set_other(ps.drop_first(), i, m, v, i2, m2);
        assert(r == seq![ps[0]] + crate::client::spec_set_prop(ps.drop_first(), i, m, v));
        assert(r[0] == ps[0]);
        assert(r.drop_first() =~= crate::client::spec_set_prop(ps.drop_first(), i, m, v));
    }
}

/// Rewriting an object's tables changes what the path lookup returns.
pub proof fn lemma_find_object_update(
    objs: Seq<crate::client::ObjectEntryV>,
    path: Seq<char>,
    ms: Seq<crate::client::MethodEntryV>,
    ps: Seq<crate::client::PropertyEntryV>,
)
    requires
        crate::client::find_object(objs, path) is Some,
    ensures
        crate::client::find_object(crate::client::spec_update_object(objs, path, ms, ps), path)
            == Option::Some(
            crate::client::ObjectEntryV {
                path: crate::client::find_object(objs, path)->Some_0.path,
                refs: crate::client::find_object(objs, path)->Some_0.refs,
                methods: ms,
                properties: ps,
            },
        ),
    decreases objs.len(),
{
    let r = crate::client::spec_update_object(objs, path, ms, ps);
    if objs[0].path == path {
        assert(r[0].path == path);
    } else {
        lemma_find_object_update(objs.drop_first(), path, ms, ps);
        assert(r[0] == objs[0]);
        assert(r.drop_first() =~= crate::client::spec_update_object(
            objs.drop_first(),
            path,
            ms,
            ps,
        ));
    }
}

/// Exporting a path makes it findable; the found entry's property table
/// is the prior one, or empty for a fresh path.
pub proof fn lemma_find_object_add(objs: Seq<crate::client::ObjectEntryV>, path: Seq<char>)
    ensures
        crate::client::find_object(crate::client::spec_add_object(objs, path), path) is Some,
        crate::client::find_object(
            crate::client::spec_add_object(objs, path),
            path,
        )->Some_0.properties == (match crate::client::find_object(objs, path) {
            Option::Some(o) => o.properties,
            Option::None => Seq::<crate::client::PropertyEntryV>::empty(),
        }),
    decreases objs.len(),
{
    let r = crate::client::spec_add_object(objs, path);
    if objs.len() == 0 {
        assert(r[0].path == path);
    } else if objs[0].path == path {
        assert(r == objs.update(
            0,
            crate::client::ObjectEntryV {
                refs: (objs[0].refs + 1) as u64,
                path: objs[0].path,
                methods: objs[0].methods,
                properties: objs[0].properties,
            },
        ));
        assert(r[0].path == path);
    } else {
        lemma_find_object_add(objs.drop_first(), path);
        assert(r == seq![objs[0]] + crate::client::spec_add_object(objs.drop_first(), path));
        assert(r[0] == objs[0]);
        assert(r.drop_first() =~= crate::client::spec_add_object(objs.drop_first(), path));
    }
}

/// Seeding a property rewrites exactly the found object's property
/// table.
pub proof fn lemma_seed_prop_find(
    objs: Seq<crate::client::ObjectEntryV>,
    path: Seq<char>,
    i: Seq<char>,
    m: Seq<char>,
    v: crate::msg::PropValueV,
)
    requires
        crate::client::find_object(objs, path) is Some,
    ensures
        crate::client::find_object(spec_seed_prop(objs, path, i, m, v), path) == Option::Some(
            crate::client::ObjectEntryV {
                path: crate::client::find_object(objs, path)->Some_0.path,
                refs: crate::client::find_object(objs, path)->Some_0.refs,
                methods: crate::client::find_object(objs, path)->Some_0.methods,
                properties: crate::client::spec_set_prop(
                    crate::client::find_object(objs, path)->Some_0.properties,
                    i,
                    m,
                    v,
                ),
            },
        ),
{
    let o = crate::client::find_object(objs, path)->Some_0;
    lemma_find_object_update(objs, path, o.methods, crate::client::spec_set_prop(o.properties, i, m, v));
}

/// Binding a method keeps the found object's property table.
pub proof fn lemma_bind_method_find(
    objs: Seq<crate::client::ObjectEntryV>,
    path: Seq<char>,
    i: Seq<char>,
    m: Seq<char>,
    cb: u64,
)
    requires
        crate::client::find_object(objs, path) is Some,
    ensures
        crate::client::find_object(spec_bind_method(objs, path, i, m, cb), path) is Some,
        crate::client::find_object(spec_bind_method(objs, path, i, m, cb), path)->Some_0.properties
            == crate::client::find_object(objs, path)->Some_0.properties,
        crate::client::find_object(spec_bind_method(objs, path, i, m, cb), path)->Some_0.path
            == crate::client::find_object(objs, path)->Some_0.path,
        crate::client::find_object(spec_bind_method(objs, path, i, m, cb), path)->Some_0.refs
            == crate::client::find_object(objs, path)->Some_0.refs,
{
    let o = crate::client::find_object(objs, path)->Some_0;
    lemma_find_object_update(
        objs,
        path,
        crate::client::spec_set_method(o.methods, i, m, cb),
        o.properties,
    );
}

/// Whether one variant's exported properties agree with its state: the
/// host flag is the host set's non-emptiness, the item list is the item
/// list, and the protocol version stays 0.
pub open spec fn variant_props_match(
    ps: Seq<crate::client::PropertyEntryV>,
    fdo: bool,
    v: WatcherVariantV,
) -> bool {
    &&& (match crate::client::find_property(
        ps,
        variant_interface_v(fdo),
        "IsStatusNotifierHostRegistered"@,
    ) {
        Option::Some(e) => e.value == crate::msg::PropValueV::Bool(v.hosts.len() > 0),
        Option::None => false,
    })
    &&& (match crate::client::find_property(ps, variant_interface_v(fdo), "ProtocolVersion"@) {
        Option::Some(e) => e.value == crate::msg::PropValueV::I32(0),
        Option::None => false,
    })
    &&& (match crate::client::find_property(
        ps,
        variant_interface_v(fdo),
        "RegisteredStatusNotifierItems"@,
    ) {
        Option::Some(e) => e.value == crate::msg::PropValueV::StrList(v.items),
        Option::None => false,
    })
}

/// The state/property correspondence: the exported watcher object's
/// property table agrees with the watcher state, per variant.
pub open spec fn watcher_props_match(
    objs: Seq<crate::client::ObjectEntryV>,
    path: Seq<char>,
    s: WatcherStateV,
) -> bool {
    match crate::client::find_object(objs, path) {
        Option::Some(o) => variant_props_match(o.properties, true, s.fdo)
            && variant_props_match(o.properties, false, s.kde),
        Option::None => false,
    }
}

/// The facts about the five property-table literals the correspondence
/// proofs lean on: the two interfaces differ, and the three members
/// differ pairwise.
proof fn lemma_watcher_literals()
    ensures
        variant_interface_v(true) != variant_interface_v(false),
        "IsStatusNotifierHostRegistered"@ != "ProtocolVersion"@,
        "IsStatusNotifierHostRegistered"@ != "RegisteredStatusNotifierItems"@,
        "ProtocolVersion"@ != "RegisteredStatusNotifierItems"@,
{
    reveal_strlit("org.freedesktop.StatusNotifierWatcher");
    reveal_strlit("org.kde.StatusNotifierWatcher");
    reveal_strlit("IsStatusNotifierHostRegistered");
    reveal_strlit("ProtocolVersion");
    reveal_strlit("RegisteredStatusNotifierItems");
    assert("org.freedesktop.StatusNotifierWatcher"@.len() == 37);
    assert("org.kde.StatusNotifierWatcher"@.len() == 29);
    assert("IsStatusNotifierHostRegistered"@.len() == 30);
    assert("ProtocolVersion"@.len() == 15);
    assert("RegisteredStatusNotifierItems"@.len() == 29);
}

/// Startup correspondence law: the object table a watcher startup
/// leaves agrees with the fresh, empty watcher state.
pub proof fn lemma_create_watcher_props(
    objs: Seq<crate::client::ObjectEntryV>,
    cbs: WatcherCallbacks,
)
    ensures
        watcher_props_match(
            spec_watcher_objects(objs, cbs),
            "/StatusNotifierWatcher"@,
            WatcherStateV {
                fdo: WatcherVariantV {
                    items: Seq::empty(),
                    hosts: Seq::empty(),
                },
                kde: WatcherVariantV {
                    items: Seq::empty(),
                    hosts: Seq::empty(),
                },
            },
        ),
{
    lemma_watcher_literals();
    let path = "/StatusNotifierWatcher"@;
    let fi = variant_interface_v(true);
    let ki = variant_interface_v(false);
    let hm = "IsStatusNotifierHostRegistered"@;
    let vm = "ProtocolVersion"@;
    let im = "RegisteredStatusNotifierItems"@;
    let o0 = crate::client::spec_add_object(objs, path);
    lemma_find_object_add(objs, path);
    let p0 = crate::client::find_object(o0, path)->Some_0.properties;
    let b1 = spec_bind_method(o0, path, fi, "RegisterStatusNotifierItem"@, cbs.fdo_register_item);
    lemma_bind_method_find(o0, path, fi, "RegisterStatusNotifierItem"@, cbs.fdo_register_item);
    let b2 = spec_bind_method(b1, path, fi, "RegisterStatusNotifierHost"@, cbs.fdo_register_host);
    lemma_bind_method_find(b1, path, fi, "RegisterStatusNotifierHost"@, cbs.fdo_register_host);
    let s1 = spec_seed_prop(b2, path, fi, hm, crate::msg::PropValueV::Bool(false));
    lemma_seed_prop_find(b2, path, fi, hm, crate::msg::PropValueV::Bool(false));
    let s2 = spec_seed_prop(s1, path, fi, vm, crate::msg::PropValueV::I32(0));
    lemma_seed_prop_find(s1, path, fi, vm, crate::msg::PropValueV::I32(0));
    let s3 = spec_seed_prop(s2, path, fi, im, crate::msg::PropValueV::StrList(Seq::empty()));
    lemma_seed_prop_find(s2, path, fi, im, crate::msg::PropValueV::StrList(Seq::empty()));
    let b3 = spec_bind_method(s3, path, ki, "RegisterStatusNotifierItem"@, cbs.kde_register_item);
    lemma_bind_method_find(s3, path, ki, "RegisterStatusNotifierItem"@, cbs.kde_register_item);
    let b4 = spec_bind_method(b3, path, ki, "RegisterStatusNotifierHost"@, cbs.kde_register_host);
    lemma_bind_method_find(b3, path, ki, "RegisterStatusNotifierHost"@, cbs.kde_register_host);
    let s4 = spec_seed_prop(b4, path, ki, hm, crate::msg::PropValueV::Bool(false));
    lemma_seed_prop_find(b4, path, ki, hm, crate::msg::PropValueV::Bool(false));
    let s5 = spec_seed_prop(s4, path, ki, vm, crate::msg::PropValueV::I32(0));
    lemma_seed_prop_find(s4, path, ki, vm, crate::msg::PropValueV::I32(0));
    let s6 = spec_seed_prop(s5, path, ki, im, crate::msg::PropValueV::StrList(Seq::empty()));
    lemma_seed_prop_find(s5, path, ki, im, crate::msg::PropValueV::StrList(Seq::empty()));
    assert(spec_watcher_objects(objs, cbs) == s6);
    let pf = crate::client::spec_set_prop(
        crate::client::spec_set_prop(
            crate::client::spec_set_prop(p0, fi, hm, crate::msg::PropValueV::Bool(false)),
            fi,
            vm,
            crate::msg::PropValueV::I32(0),
        ),
        fi,
        im,
        crate::msg::PropValueV::StrList(Seq::empty()),
    );
    let pk = crate::client::spec_set_prop(
        crate::client::spec_set_prop(
            crate::client::spec_set_prop(pf, ki, hm, crate::msg::PropValueV::Bool(false)),
            ki,
            vm,
            crate::msg::PropValueV::I32(0),
        ),
        ki,
        im,
        crate::msg::PropValueV::StrList(Seq::empty()),
    );
    assert(crate::client::find_object(s6, path)->Some_0.properties == pk);
    // The freedesktop lookups pass through the KDE seeding untouched.
    lemma_find_prop_set_same(p0, fi, hm, crate::msg::PropValueV::Bool(false));
    lemma_find_prop_set_other(
        crate::client::spec_set_prop(p0, fi, hm, crate::msg::PropValueV::Bool(false)),
        fi,
        vm,
        crate::msg::PropValueV::I32(0),
        fi,
        hm,
    );
    lemma_find_prop_set_other(
        crate::client::spec_set_prop(
            crate::client::spec_set_prop(p0, fi, hm, crate::msg::PropValueV::Bool(false)),
            fi,
            vm,
            crate::msg::PropValueV::I32(0),
        ),
        fi,
        im,
        crate::msg::PropValueV::StrList(Seq::empty()),
        fi,
        hm,
    );
    lemma_find_prop_set_same(
        crate::client::spec_set_prop(p0, fi, hm, crate::msg::PropValueV::Bool(false)),
        fi,
        vm,
        crate::msg::PropValueV::I32(0),
    );
    lemma_find_prop_set_other(
        crate::client::spec_set_prop(
            crate::client::spec_set_prop(p0, fi, hm, crate::msg::PropValueV::Bool(false)),
            fi,
            vm,
            crate::msg::PropValueV::I32(0),
        ),
        fi,
        im,
        crate::msg::PropValueV::StrList(Seq::empty()),
        fi,
        vm,
    );
    lemma_find_prop_set_same(
        crate::client::spec_set_prop(
            crate::client::spec_set_prop(p0, fi, hm, crate::msg::PropValueV::Bool(false)),
            fi,
            vm,
            crate::msg::PropValueV::I32(0),
        ),
        fi,
        im,
        crate::msg::PropValueV::StrList(Seq::empty()),
    );
    lemma_set_chain_other(pf, ki, fi, hm);
    lemma_set_chain_other(pf, ki, fi, vm);
    lemma_set_chain_other(pf, ki, fi, im);
    // The KDE lookups resolve within their own seeding.
    lemma_find_prop_set_same(pf, ki, hm, crate::msg::PropValueV::Bool(false));
    lemma_find_prop_set_other(
        crate::client::spec_set_prop(pf, ki, hm, crate::msg::PropValueV::Bool(false)),
        ki,
        vm,
        crate::msg::PropValueV::I32(0),
        ki,
        hm,
    );
    lemma_find_prop_set_other(
        crate::client::spec_set_prop(
            crate::client::spec_set_prop(pf, ki, hm, crate::msg::PropValueV::Bool(false)),
            ki,
            vm,
            crate::msg::PropValueV::I32(0),
        ),
        ki,
        im,
        crate::msg::PropValueV::StrList(Seq::empty()),
        ki,
        hm,
    );
    lemma_find_prop_set_same(
        crate::client::spec_set_prop(pf, ki, hm, crate::msg::PropValueV::Bool(false)),
        ki,
        vm,
        crate::msg::PropValueV::I32(0),
    );
    lemma_find_prop_set_other(
        crate::client::spec_set_prop(
            crate::client::spec_set_prop(pf, ki, hm, crate::msg::PropValueV::Bool(false)),
            ki,
            vm,
            crate::msg::PropValueV::I32(0),
        ),
        ki,
        im,
        crate::msg::PropValueV::StrList(Seq::empty()),
        ki,
        vm,
    );
    lemma_find_prop_set_same(
        crate::client::spec_set_prop(
            crate::client::spec_set_prop(pf, ki, hm, crate::msg::PropValueV::Bool(false)),
            ki,
            vm,
            crate::msg::PropValueV::I32(0),
        ),
        ki,
        im,
        crate::msg::PropValueV::StrList(Seq::empty()),
    );
}

/// Lookups under one interface pass through the other variant's three
/// seeded sets untouched.
proof fn lemma_set_chain_other(
    ps: Seq<crate::client::PropertyEntryV>,
    i: Seq<char>,
    i2: Seq<char>,
    m2: Seq<char>,
)
    requires
        i2 != i,
    ensures
        crate::client::find_property(
            crate::client::spec_set_prop(
                crate::client::spec_set_prop(
                    crate::client::spec_set_prop(
                        ps,
                        i,
                        "IsStatusNotifierHostRegistered"@,
                        crate::msg::PropValueV::Bool(false),
                    ),
                    i,
                    "ProtocolVersion"@,
                    crate::msg::PropValueV::I32(0),
                ),
                i,
                "RegisteredStatusNotifierItems"@,
                crate::msg::PropValueV::StrList(Seq::empty()),
            ),
            i2,
            m2,
        ) == crate::client::find_property(ps, i2, m2),
{
    let q1 = crate::client::spec_set_prop(
        ps,
        i,
        "IsStatusNotifierHostRegistered"@,
        crate::msg::PropValueV::Bool(false),
    );
    let q2 = crate::client::spec_set_prop(q1, i, "ProtocolVersion"@, crate::msg::PropValueV::I32(0));
    lemma_find_prop_set_other(
        ps,
        i,
        "IsStatusNotifierHostRegistered"@,
        crate::msg::PropValueV::Bool(false),
        i2,
        m2,
    );
    lemma_find_prop_set_other(q1, i, "ProtocolVersion"@, crate::msg::PropValueV::I32(0), i2, m2);
    lemma_find_prop_set_other(
        q2,
        i,
        "RegisteredStatusNotifierItems"@,
        crate::msg::PropValueV::StrList(Seq::empty()),
        i2,
        m2,
    );
}

/// Item-registration correspondence law: the effects a newly registered
/// item emits keep the exported properties in step with the new state.
pub proof fn lemma_register_item_keeps_match(
    objs: Seq<crate::client::ObjectEntryV>,
    path: Seq<char>,
    s: WatcherStateV,
    fdo: bool,
    item: Seq<char>,
)
    requires
        watcher_props_match(objs, path, s),
    ensures
        ({
            let items2 = (if fdo {
                s.fdo.items
            } else {
                s.kde.items
            }).push(item);
            let effs = seq![
                WatcherEffectV::ItemsProperty(fdo, items2),
                WatcherEffectV::ItemRegistered(fdo, item),
            ];
            let s2 = if fdo {
                WatcherStateV {
                    fdo: WatcherVariantV { items: items2, hosts: s.fdo.hosts },
                    kde: s.kde,
                }
            } else {
                WatcherStateV {
                    fdo: s.fdo,
                    kde: WatcherVariantV { items: items2, hosts: s.kde.hosts },
                }
            };
            watcher_props_match(apply_effects_objects(objs, path, effs), path, s2)
        }),
{
    lemma_watcher_literals();
    reveal_with_fuel(apply_effects_objects, 3);
    let items2 = (if fdo {
        s.fdo.items
    } else {
        s.kde.items
    }).push(item);
    let effs = seq![
        WatcherEffectV::ItemsProperty(fdo, items2),
        WatcherEffectV::ItemRegistered(fdo, item),
    ];
    let iface = variant_interface_v(fdo);
    let other = variant_interface_v(!fdo);
    let seeded = spec_seed_prop(
        objs,
        path,
        iface,
        "RegisteredStatusNotifierItems"@,
        crate::msg::PropValueV::StrList(items2),
    );
    assert(effs.drop_first() =~= seq![WatcherEffectV::ItemRegistered(fdo, item)]);
    assert(apply_effects_objects(objs, path, effs) == seeded);
    let o = crate::client::find_object(objs, path)->Some_0;
    lemma_seed_prop_find(
        objs,
        path,
        iface,
        "RegisteredStatusNotifierItems"@,
        crate::msg::PropValueV::StrList(items2),
    );
    lemma_find_prop_set_same(
        o.properties,
        iface,
        "RegisteredStatusNotifierItems"@,
        crate::msg::PropValueV::StrList(items2),
    );
    lemma_find_prop_set_other(
        o.properties,
        iface,
        "RegisteredStatusNotifierItems"@,
        crate::msg::PropValueV::StrList(items2),
        iface,
        "IsStatusNotifierHostRegistered"@,
    );
    lemma_find_prop_set_other(
        o.properties,
        iface,
        "RegisteredStatusNotifierItems"@,
        crate::msg::PropValueV::StrList(items2),
        iface,
        "ProtocolVersion"@,
    );
    lemma_find_prop_set_other(
        o.properties,
        iface,
        "RegisteredStatusNotifierItems"@,
        crate::msg::PropValueV::StrList(items2),
        other,
        "IsStatusNotifierHostRegistered"@,
    );
    lemma_find_prop_set_other(
        o.properties,
        iface,
        "RegisteredStatusNotifierItems"@,
        crate::msg::PropValueV::StrList(items2),
        other,
        "ProtocolVersion"@,
    );
    lemma_find_prop_set_other(
        o.properties,
        iface,
        "RegisteredStatusNotifierItems"@,
        crate::msg::PropValueV::StrList(items2),
        other,
        "RegisteredStatusNotifierItems"@,
    );
}

/// Host-registration correspondence law: the effects a newly registered
/// host emits keep the exported properties in step with the new state.
pub proof fn lemma_register_host_keeps_match(
    objs: Seq<crate::client::ObjectEntryV>,
    path: Seq<char>,
    s: WatcherStateV,
    fdo: bool,
    service: Seq<char>,
)
    requires
        watcher_props_match(objs, path, s),
    ensures
        ({
            let hosts = if fdo {
                s.fdo.hosts
            } else {
                s.kde.hosts
            };
            let hosts2 = hosts.push(service);
            let effs = if hosts.len() == 0 {
                seq![
                    WatcherEffectV::HostRegistered(fdo),
                    WatcherEffectV::HostProperty(fdo, true),
                ]
            } else {
                seq![WatcherEffectV::HostRegistered(fdo)]
            };
            let s2 = if fdo {
                WatcherStateV {
                    fdo: WatcherVariantV { items: s.fdo.items, hosts: hosts2 },
                    kde: s.kde,
                }
            } else {
                WatcherStateV {
                    fdo: s.fdo,
                    kde: WatcherVariantV { items: s.kde.items, hosts: hosts2 },
                }
            };
            watcher_props_match(apply_effects_objects(objs, path, effs), path, s2)
        }),
{
    lemma_watcher_literals();
    reveal_with_fuel(apply_effects_objects, 3);
    let hosts = if fdo {
        s.fdo.hosts
    } else {
        s.kde.hosts
    };
    let iface = variant_interface_v(fdo);
    let other = variant_interface_v(!fdo);
    if hosts.len() == 0 {
        let effs = seq![
            WatcherEffectV::HostRegistered(fdo),
            WatcherEffectV::HostProperty(fdo, true),
        ];
        let seeded = spec_seed_prop(
            objs,
            path,
            iface,
            "IsStatusNotifierHostRegistered"@,
            crate::msg::PropValueV::Bool(true),
        );
        assert(effs.drop_first() =~= seq![WatcherEffectV::HostProperty(fdo, true)]);
        assert(apply_effects_objects(objs, path, effs) == seeded);
        let o = crate::client::find_object(objs, path)->Some_0;
        lemma_seed_prop_find(
            objs,
            path,
            iface,
            "IsStatusNotifierHostRegistered"@,
            crate::msg::PropValueV::Bool(true),
        );
        lemma_find_prop_set_same(
            o.properties,
            iface,
            "IsStatusNotifierHostRegistered"@,
            crate::msg::PropValueV::Bool(true),
        );
        lemma_find_prop_set_other(
            o.properties,
            iface,
            "IsStatusNotifierHostRegistered"@,
            crate::msg::PropValueV::Bool(true),
            iface,
            "ProtocolVersion"@,
        );
        lemma_find_prop_set_other(
            o.properties,
            iface,
            "IsStatusNotifierHostRegistered"@,
            crate::msg::PropValueV::Bool(true),
            iface,
            "RegisteredStatusNotifierItems"@,
        );
        lemma_find_prop_set_other(
            o.properties,
            iface,
            "IsStatusNotifierHostRegistered"@,
            crate::msg::PropValueV::Bool(true),
            other,
            "IsStatusNotifierHostRegistered"@,
        );
        lemma_find_prop_set_other(
            o.properties,
            iface,
            "IsStatusNotifierHostRegistered"@,
            crate::msg::PropValueV::Bool(true),
            other,
            "ProtocolVersion"@,
        );
        lemma_find_prop_set_other(
            o.properties,
            iface,
            "IsStatusNotifierHostRegistered"@,
            crate::msg::PropValueV::Bool(true),
            other,
            "RegisteredStatusNotifierItems"@,
        );
    } else {
        let effs = seq![WatcherEffectV::HostRegistered(fdo)];
        assert(effs.drop_first() =~= Seq::<WatcherEffectV>::empty());
        assert(apply_effects_objects(objs, path, effs) == objs);
    }
}

/// A list from which a departure removes nothing is unchanged.
proof fn lemma_remove_names_all(v: Seq<Seq<char>>, gone: Seq<char>, prefix: bool)
    requires
        removed_names(v, gone, prefix).len() == 0,
    ensures
        remove_names(v, gone, prefix) == v,
    decreases v.len(),
{
    if v.len() > 0 {
        if removes(v.last(), gone, prefix) {
            assert(removed_names(v, gone, prefix).len() > 0);
        } else {
            lemma_remove_names_all(v.drop_last(), gone, prefix);
            assert(remove_names(v, gone, prefix) =~= v);
        }
    }
}

/// Effects that touch no property leave the object table unchanged.
proof fn lemma_neutral_apply(
    objs: Seq<crate::client::ObjectEntryV>,
    path: Seq<char>,
    effs: Seq<WatcherEffectV>,
)
    requires
        forall|k: int|
            0 <= k < effs.len() ==> match #[trigger] effs[k] {
                WatcherEffectV::ItemsProperty(_, _) => false,
                WatcherEffectV::HostProperty(_, _) => false,
                _ => true,
            },
    ensures
        apply_effects_objects(objs, path, effs) == objs,
    decreases effs.len(),
{
    if effs.len() > 0 {
        assert(effect_objects(objs, path, effs[0]) == objs);
        assert(forall|k: int|
            0 <= k < effs.drop_first().len() ==> #[trigger] effs.drop_first()[k] == effs[k + 1]);
        lemma_neutral_apply(objs, path, effs.drop_first());
    }
}

/// Departure correspondence law: the effects a `NameOwnerChanged`
/// departure emits keep the exported properties in step with the new
/// watcher state.
pub proof fn lemma_name_owner_changed_keeps_match(
    objs: Seq<crate::client::ObjectEntryV>,
    path: Seq<char>,
    s: WatcherStateV,
    name: Seq<char>,
)
    requires
        watcher_props_match(objs, path, s),
    ensures
        watcher_props_match(
            apply_effects_objects(objs, path, spec_name_owner_changed(s, name, Seq::empty()).1),
            path,
            spec_name_owner_changed(s, name, Seq::empty()).0,
        ),
{
    lemma_watcher_literals();
    reveal_with_fuel(apply_effects_objects, 3);
    let fi = variant_interface_v(true);
    let ki = variant_interface_v(false);
    let hm = "IsStatusNotifierHostRegistered"@;
    let vm = "ProtocolVersion"@;
    let im = "RegisteredStatusNotifierItems"@;
    let (s2, effs) = spec_name_owner_changed(s, name, Seq::empty());
    let req = (if name == fi {
        seq![WatcherEffectV::RequestWatcherName(true)]
    } else {
        Seq::<WatcherEffectV>::empty()
    }) + (if name == ki {
        seq![WatcherEffectV::RequestWatcherName(false)]
    } else {
        Seq::<WatcherEffectV>::empty()
    });
    let fdo_rm = removed_names(s.fdo.items, name, false);
    let fdo_items = remove_names(s.fdo.items, name, false);
    let fdo_eff = if fdo_rm.len() > 0 {
        unregistered_effects(true, fdo_rm) + seq![WatcherEffectV::ItemsProperty(true, fdo_items)]
    } else {
        Seq::<WatcherEffectV>::empty()
    };
    let kde_rm = removed_names(s.kde.items, name, true);
    let kde_items = remove_names(s.kde.items, name, true);
    let kde_eff = if kde_rm.len() > 0 {
        unregistered_effects(false, kde_rm) + seq![WatcherEffectV::ItemsProperty(false, kde_items)]
    } else {
        Seq::<WatcherEffectV>::empty()
    };
    let fdo_hosts = remove_names(s.fdo.hosts, name, false);
    let fdo_heff = if fdo_hosts.len() != s.fdo.hosts.len() && fdo_hosts.len() == 0 {
        seq![WatcherEffectV::HostProperty(true, false)]
    } else {
        Seq::<WatcherEffectV>::empty()
    };
    let kde_hosts = remove_names(s.kde.hosts, name, false);
    let kde_heff = if kde_hosts.len() != s.kde.hosts.len() && kde_hosts.len() == 0 {
        seq![WatcherEffectV::HostProperty(false, false)]
    } else {
        Seq::<WatcherEffectV>::empty()
    };
    assert(effs == req + fdo_eff + kde_eff + fdo_heff + kde_heff);
    let o0 = crate::client::find_object(objs, path)->Some_0;
    let ps0 = o0.properties;
    // Step through the fold part by part.
    lemma_apply_effects_concat(objs, path, req, fdo_eff);
    lemma_apply_effects_concat(objs, path, req + fdo_eff, kde_eff);
    lemma_apply_effects_concat(objs, path, req + fdo_eff + kde_eff, fdo_heff);
    lemma_apply_effects_concat(objs, path, req + fdo_eff + kde_eff + fdo_heff, kde_heff);
    assert((req + fdo_eff + kde_eff + fdo_heff + kde_heff) =~= effs);
    assert(forall|k: int|
        0 <= k < req.len() ==> match #[trigger] req[k] {
            WatcherEffectV::ItemsProperty(_, _) => false,
            WatcherEffectV::HostProperty(_, _) => false,
            _ => true,
        });
    lemma_neutral_apply(objs, path, req);
    let objs1 = objs;
    // The freedesktop item-list part.
    let objs2 = apply_effects_objects(objs1, path, fdo_eff);
    let ps2 = if fdo_rm.len() > 0 {
        crate::client::spec_set_prop(ps0, fi, im, crate::msg::PropValueV::StrList(fdo_items))
    } else {
        ps0
    };
    if fdo_rm.len() > 0 {
        let unreg = unregistered_effects(true, fdo_rm);
        lemma_apply_effects_concat(objs1, path, unreg, seq![
            WatcherEffectV::ItemsProperty(true, fdo_items),
        ]);
        assert(forall|k: int|
            0 <= k < unreg.len() ==> match #[trigger] unreg[k] {
                WatcherEffectV::ItemsProperty(_, _) => false,
                WatcherEffectV::HostProperty(_, _) => false,
                _ => true,
            });
        lemma_neutral_apply(objs1, path, unreg);
        assert(seq![WatcherEffectV::ItemsProperty(true, fdo_items)].drop_first()
            =~= Seq::<WatcherEffectV>::empty());
        lemma_seed_prop_find(objs1, path, fi, im, crate::msg::PropValueV::StrList(fdo_items));
    }
    assert(crate::client::find_object(objs2, path) matches Option::Some(o) && o.properties
        == ps2);
    // The KDE item-list part.
    let objs3 = apply_effects_objects(objs2, path, kde_eff);
    let ps3 = if kde_rm.len() > 0 {
        crate::client::spec_set_prop(ps2, ki, im, crate::msg::PropValueV::StrList(kde_items))
    } else {
        ps2
    };
    if kde_rm.len() > 0 {
        let unreg = unregistered_effects(false, kde_rm);
        lemma_apply_effects_concat(objs2, path, unreg, seq![
            WatcherEffectV::ItemsProperty(false, kde_items),
        ]);
        assert(forall|k: int|
            0 <= k < unreg.len() ==> match #[trigger] unreg[k] {
                WatcherEffectV::ItemsProperty(_, _) => false,
                WatcherEffectV::HostProperty(_, _) => false,
                _ => true,
            });
        lemma_neutral_apply(objs2, path, unreg);
        assert(seq![WatcherEffectV::ItemsProperty(false, kde_items)].drop_first()
            =~= Seq::<WatcherEffectV>::empty());
        lemma_seed_prop_find(objs2, path, ki, im, crate::msg::PropValueV::StrList(kde_items));
    }
    assert(crate::client::find_object(objs3, path) matches Option::Some(o) && o.properties
        == ps3);
    // The two host-flag parts.
    let objs4 = apply_effects_objects(objs3, path, fdo_heff);
    let ps4 = if fdo_heff.len() > 0 {
        crate::client::spec_set_prop(ps3, fi, hm, crate::msg::PropValueV::Bool(false))
    } else {
        ps3
    };
    if fdo_heff.len() > 0 {
        assert(fdo_heff.drop_first() =~= Seq::<WatcherEffectV>::empty());
        lemma_seed_prop_find(objs3, path, fi, hm, crate::msg::PropValueV::Bool(false));
    }
    assert(crate::client::find_object(objs4, path) matches Option::Some(o) && o.properties
        == ps4);
    let objs5 = apply_effects_objects(objs4, path, kde_heff);
    let ps5 = if kde_heff.len() > 0 {
        crate::client::spec_set_prop(ps4, ki, hm, crate::msg::PropValueV::Bool(false))
    } else {
        ps4
    };
    if kde_heff.len() > 0 {
        assert(kde_heff.drop_first() =~= Seq::<WatcherEffectV>::empty());
        lemma_seed_prop_find(objs4, path, ki, hm, crate::msg::PropValueV::Bool(false));
    }
    assert(crate::client::find_object(objs5, path) matches Option::Some(o) && o.properties
        == ps5);
    assert(apply_effects_objects(objs, path, effs) == objs5);
    // Evaluate the six lookups through the conditional seeds.
    if fdo_rm.len() > 0 {
        lemma_find_prop_set_same(ps0, fi, im, crate::msg::PropValueV::StrList(fdo_items));
        lemma_find_prop_set_other(ps0, fi, im, crate::msg::PropValueV::StrList(fdo_items), fi, hm);
        lemma_find_prop_set_other(ps0, fi, im, crate::msg::PropValueV::StrList(fdo_items), fi, vm);
        lemma_find_prop_set_other(ps0, fi, im, crate::msg::PropValueV::StrList(fdo_items), ki, im);
        lemma_find_prop_set_other(ps0, fi, im, crate::msg::PropValueV::StrList(fdo_items), ki, hm);
        lemma_find_prop_set_other(ps0, fi, im, crate::msg::PropValueV::StrList(fdo_items), ki, vm);
    } else {
        lemma_remove_names_all(s.fdo.items, name, false);
    }
    if kde_rm.len() > 0 {
        lemma_find_prop_set_same(ps2, ki, im, crate::msg::PropValueV::StrList(kde_items));
        lemma_find_prop_set_other(ps2, ki, im, crate::msg::PropValueV::StrList(kde_items), fi, im);
        lemma_find_prop_set_other(ps2, ki, im, crate::msg::PropValueV::StrList(kde_items), fi, hm);
        lemma_find_prop_set_other(ps2, ki, im, crate::msg::PropValueV::StrList(kde_items), fi, vm);
        lemma_find_prop_set_other(ps2, ki, im, crate::msg::PropValueV::StrList(kde_items), ki, hm);
        lemma_find_prop_set_other(ps2, ki, im, crate::msg::PropValueV::StrList(kde_items), ki, vm);
    } else {
        lemma_remove_names_all(s.kde.items, name, true);
    }
    if fdo_heff.len() > 0 {
        lemma_find_prop_set_same(ps3, fi, hm, crate::msg::PropValueV::Bool(false));
        lemma_find_prop_set_other(ps3, fi, hm, crate::msg::PropValueV::Bool(false), fi, im);
        lemma_find_prop_set_other(ps3, fi, hm, crate::msg::PropValueV::Bool(false), fi, vm);
        lemma_find_prop_set_other(ps3, fi, hm, crate::msg::PropValueV::Bool(false), ki, im);
        lemma_find_prop_set_other(ps3, fi, hm, crate::msg::PropValueV::Bool(false), ki, hm);
        lemma_find_prop_set_other(ps3, fi, hm, crate::msg::PropValueV::Bool(false), ki, vm);
    } else {
        lemma_remove_split_len(s.fdo.hosts, name, false);
    }
    if kde_heff.len() > 0 {
        lemma_find_prop_set_same(ps4, ki, hm, crate::msg::PropValueV::Bool(false));
        lemma_find_prop_set_other(ps4, ki, hm, crate::msg::PropValueV::Bool(false), fi, im);
        lemma_find_prop_set_other(ps4, ki, hm, crate::msg::PropValueV::Bool(false), fi, hm);
        lemma_find_prop_set_other(ps4, ki, hm, crate::msg::PropValueV::Bool(false), fi, vm);
        lemma_find_prop_set_other(ps4, ki, hm, crate::msg::PropValueV::Bool(false), ki, im);
        lemma_find_prop_set_other(ps4, ki, hm, crate::msg::PropValueV::Bool(false), ki, vm);
    } else {
        lemma_remove_split_len(s.kde.hosts, name, false);
    }
}

/// The callbacks a watcher installs, owned by the unverified edge: the
/// four exported methods, the `NameOwnerChanged` handler and the logger
/// for the `AddMatch` reply.
#[derive(Copy, Clone, Debug, PartialEq, Eq, Structural)]
pub struct WatcherCallbacks {
    pub fdo_register_item: u64,
    pub kde_register_item: u64,
    pub fdo_register_host: u64,
    pub kde_register_host: u64,
    pub name_owner_changed: u64,
    pub add_match: u64,
}

/// A created watcher: its registries and its exported object.
pub struct Watcher {
    pub state: WatcherState,
    pub obj: ObjectHandle,
}

/// Binds one variant's two registration methods and seeds its three
/// properties on the exported watcher object.
fn seed_variant(client: &mut Client, obj: &ObjectHandle, fdo: bool, item_cb: u64, host_cb: u64)
    requires
        old(client)@.wf(),
        old(client).next_serial < u32::MAX - 3,
        obj.path@ == "/StatusNotifierWatcher"@,
    ensures
        final(client)@.wf(),
        final(client)@.killed == old(client)@.killed,
        final(client)@.next_serial == old(client)@.next_serial + 3,
        final(client)@.next_handler_id == old(client)@.next_handler_id,
        final(client)@.pending == old(client)@.pending,
        final(client)@.handlers == old(client)@.handlers,
        final(client)@.objects == spec_seed_variant(
            old(client)@.objects,
            obj.path@,
            fdo,
            item_cb,
            host_cb,
        ),
        old(client)@.killed ==> final(client)@.outgoing == old(client)@.outgoing,
        !old(client)@.killed ==> final(client)@.outgoing == old(client)@.outgoing.push(
            watcher_props_signal(
                old(client)@.next_serial,
                fdo,
                "IsStatusNotifierHostRegistered"@,
                crate::msg::PropValueV::Bool(false),
            ),
        ).push(
            watcher_props_signal(
                (old(client)@.next_serial + 1) as u32,
                fdo,
                "ProtocolVersion"@,
                crate::msg::PropValueV::I32(0),
            ),
        ).push(
            watcher_props_signal(
                (old(client)@.next_serial + 2) as u32,
                fdo,
                "RegisteredStatusNotifierItems"@,
                crate::msg::PropValueV::StrList(Seq::empty()),
            ),
        ),
{
    client.add_method(
        obj,
        variant_interface(fdo),
        String::from_str("RegisterStatusNotifierItem"),
        item_cb,
    );
    client.add_method(
        obj,
        variant_interface(fdo),
        String::from_str("RegisterStatusNotifierHost"),
        host_cb,
    );
    client.set_property(
        obj,
        variant_interface(fdo),
        String::from_str("IsStatusNotifierHostRegistered"),
        PropValue::Bool(false),
    );
    client.set_property(
        obj,
        variant_interface(fdo),
        String::from_str("ProtocolVersion"),
        PropValue::I32(0),
    );
    let empty_list: Vec<String> = Vec::new();
    proof {
        assert(empty_list.deep_view() =~= Seq::<Seq<char>>::empty());
    }
    client.set_property(
        obj,
        variant_interface(fdo),
        String::from_str("RegisteredStatusNotifierItems"),
        PropValue::StrList(empty_list),
    );
}

/// Exports `/StatusNotifierWatcher` with both variant interfaces — the
/// two registration methods bound per variant and the three properties
/// seeded per variant — wires the detached `NameOwnerChanged` handler,
/// and requests both well-known watcher names. On a live client the
/// object table, the outgoing FIFO and the pending-replies table are
/// fixed exactly; on a killed one nothing reaches the wire and the
/// `AddMatch` callback is owed a `Killed` error.
pub fn create_watcher(client: &mut Client, cbs: WatcherCallbacks) -> (r: (
    Watcher,
    Option<crate::client::Action>,
))
    requires
        old(client)@.wf(),
        old(client).next_serial < u32::MAX - 16,
        old(client).next_handler_id < u64::MAX,
        forall|i: int|
            0 <= i < old(client)@.objects.len() ==> (#[trigger] old(client)@.objects[i]).refs
                < u64::MAX,
    ensures
        final(client)@.wf(),
        final(client)@.killed == old(client)@.killed,
        final(client)@.next_serial == old(client)@.next_serial + 9,
        final(client)@.next_handler_id == old(client)@.next_handler_id + 1,
        r.0.state@.fdo.items == Seq::<Seq<char>>::empty(),
        r.0.state@.kde.items == Seq::<Seq<char>>::empty(),
        r.0.state@.fdo.hosts == Seq::<Seq<char>>::empty(),
        r.0.state@.kde.hosts == Seq::<Seq<char>>::empty(),
        r.0.obj.path@ == "/StatusNotifierWatcher"@,
        old(client)@.killed ==> {
            &&& final(client)@.handlers == old(client)@.handlers
            &&& final(client)@.pending == old(client)@.pending
            &&& final(client)@.outgoing == old(client)@.outgoing
            &&& r.1 matches Some(a) && a@ == (crate::client::ActionV::InvokeReply {
                callback: cbs.add_match,
                result: Err::<crate::msg::BusMessageV, crate::client::BusErrorV>(
                    crate::client::BusErrorV::Killed,
                ),
            })
        },
        !old(client)@.killed ==> {
            &&& final(client)@.handlers == old(client)@.handlers.push(
                crate::client::HandlerEntryV {
                    id: old(client)@.next_handler_id,
                    rule: name_owner_rule_v(),
                    callback: cbs.name_owner_changed,
                },
            )
            &&& final(client)@.pending == old(client)@.pending.push(
                crate::client::PendingEntry {
                    serial: old(client)@.next_serial,
                    callback: cbs.add_match,
                },
            )
            &&& final(client)@.outgoing == old(client)@.outgoing + spec_watcher_wire(
                old(client)@.next_serial,
            )
            &&& final(client)@.objects == spec_watcher_objects(old(client)@.objects, cbs)
            &&& r.1 is None
        },
{
    let state = WatcherState::new();
    let obj = client.add_object(String::from_str("/StatusNotifierWatcher"));
    let rule = crate::msg::MatchRule {
        kind: Some(crate::msg::MsgKind::Signal),
        sender: None,
        path: None,
        interface: Some(String::from_str("org.freedesktop.DBus")),
        member: Some(String::from_str("NameOwnerChanged")),
    };
    let (mut handler, act) = client.handle_signal(rule, cbs.name_owner_changed, cbs.add_match);
    handler.detach();
    client.request_name(variant_interface(true));
    client.request_name(variant_interface(false));
    seed_variant(client, &obj, true, cbs.fdo_register_item, cbs.fdo_register_host);
    seed_variant(client, &obj, false, cbs.kde_register_item, cbs.kde_register_host);
    proof {
        if !old(client)@.killed {
            assert(client@.outgoing =~= old(client)@.outgoing + spec_watcher_wire(
                old(client)@.next_serial,
            ));
        }
    }
    (Watcher { state, obj }, act)
}

/// Kept and removed names partition the list.
pub proof fn lemma_remove_split_len(v: Seq<Seq<char>>, gone: Seq<char>, prefix: bool)
    ensures
        remove_names(v, gone, prefix).len() + removed_names(v, gone, prefix).len() == v.len(),
    decreases v.len(),
{
    if v.len() > 0 {
        lemma_remove_split_len(v.drop_last(), gone, prefix);
    }
}

/// Departure law: `NameOwnerChanged(x, _, "")` unregisters exactly the
/// items the departed name owned — those equal to `x` on the freedesktop
/// variant, those prefixed with `x` on the KDE variant — emitting one
/// `StatusNotifierItemUnregistered` per removed item, in registration
/// order; the kept items are exactly those the rule does not remove.
pub proof fn lemma_departure_unregisters_owned_items(s: WatcherStateV, x: Seq<char>)
    ensures
        ({
            let (s2, effs) = spec_name_owner_changed(s, x, Seq::empty());
            let kde_rm = removed_names(s.kde.items, x, true);
            let fdo_rm = removed_names(s.fdo.items, x, false);
            &&& forall|i: int|
                0 <= i < kde_rm.len() ==> is_prefix_of(x, #[trigger] kde_rm[i]) && name_in(
                    s.kde.items,
                    kde_rm[i],
                )
            &&& forall|i: int|
                0 <= i < s2.kde.items.len() ==> !is_prefix_of(x, #[trigger] s2.kde.items[i])
                    && name_in(s.kde.items, s2.kde.items[i])
            &&& s2.kde.items.len() + kde_rm.len() == s.kde.items.len()
            &&& forall|i: int| 0 <= i < fdo_rm.len() ==> #[trigger] fdo_rm[i] == x
            &&& forall|i: int|
                0 <= i < s2.fdo.items.len() ==> #[trigger] s2.fdo.items[i] != x && name_in(
                    s.fdo.items,
                    s2.fdo.items[i],
                )
        }),
{
    lemma_remove_split_len(s.kde.items, x, true);
    lemma_remove_names_members(s.kde.items, x, true);
    lemma_remove_names_members(s.fdo.items, x, false);
}

/// Every kept name survives the rule and comes from the list; every
/// removed name matches the rule and comes from the list.
proof fn lemma_remove_names_members(v: Seq<Seq<char>>, gone: Seq<char>, prefix: bool)
    ensures
        forall|i: int|
            0 <= i < remove_names(v, gone, prefix).len() ==> !removes(
                #[trigger] remove_names(v, gone, prefix)[i],
                gone,
                prefix,
            ) && name_in(v, remove_names(v, gone, prefix)[i]),
        forall|i: int|
            0 <= i < removed_names(v, gone, prefix).len() ==> removes(
                #[trigger] removed_names(v, gone, prefix)[i],
                gone,
                prefix,
            ) && name_in(v, removed_names(v, gone, prefix)[i]),
    decreases v.len(),
{
    if v.len() > 0 {
        lemma_remove_names_members(v.drop_last(), gone, prefix);
        let r = remove_names(v, gone, prefix);
        let rd = remove_names(v.drop_last(), gone, prefix);
        assert forall|i: int| 0 <= i < r.len() implies !removes(
            #[trigger] r[i],
            gone,
            prefix,
        ) && name_in(v, r[i]) by {
            if i < rd.len() {
                assert(r[i] == rd[i]);
                let j = choose|j: int|
                    0 <= j < v.drop_last().len() && v.drop_last()[j] == rd[i];
                assert(v[j] == r[i]);
            } else {
                assert(r[i] == v.last());
                assert(v[v.len() - 1] == r[i]);
            }
        }
        let q = removed_names(v, gone, prefix);
        let qd = removed_names(v.drop_last(), gone, prefix);
        assert forall|i: int| 0 <= i < q.len() implies removes(
            #[trigger] q[i],
            gone,
            prefix,
        ) && name_in(v, q[i]) by {
            if i < qd.len() {
                assert(q[i] == qd[i]);
                let j = choose|j: int|
                    0 <= j < v.drop_last().len() && v.drop_last()[j] == qd[i];
                assert(v[j] == q[i]);
            } else {
                assert(q[i] == v.last());
                assert(v[v.len() - 1] == q[i]);
            }
        }
    }
}

} // verus!
