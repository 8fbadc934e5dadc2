//! The configured targets of the position adapters, by the name of their
//! configuration field.

use crate::identity::{principal_parse, Identity};
use vstd::prelude::*;

verus! {

/// One configured target.
pub struct DexEntry {
    /// The target.
    pub id: Identity,
    /// The controller that the target is expected to have.
    pub controller: Option<Identity>,
    /// Whether the adapter may use the target.
    pub enabled: bool,
}

/// Mathematical value of a [`DexEntry`].
pub struct DexEntryView {
    pub id: Seq<u8>,
    pub controller: Option<Seq<u8>>,
    pub enabled: bool,
}

/// The bytes of an optional identity.
pub open spec fn optional_identity(id: Option<Identity>) -> Option<Seq<u8>> {
    match id {
        Some(i) => Some(i@),
        None => None,
    }
}

impl View for DexEntry {
    type V = DexEntryView;

    open spec fn view(&self) -> DexEntryView {
        DexEntryView {
            id: self.id@,
            controller: optional_identity(self.controller),
            enabled: self.enabled,
        }
    }
}

/// A configuration as a list of names with their entries.
pub type ConfigView = Seq<(Seq<char>, DexEntryView)>;

/// The value of a list of named entries.
pub open spec fn config_view(entries: Seq<(String, DexEntry)>) -> ConfigView {
    entries.map_values(|e: (String, DexEntry)| (e.0@, e.1@))
}

/// The texts of a list of pairs of strings.
pub open spec fn pair_views(pairs: Seq<(String, String)>) -> Seq<(Seq<char>, Seq<char>)> {
    pairs.map_values(|p: (String, String)| (p.0@, p.1@))
}

/// The place of the first entry of `cfg` under `name`, or the length of
/// `cfg` where there is none.
pub open spec fn slot_of(cfg: ConfigView, name: Seq<char>) -> int
    decreases cfg.len(),
{
    if cfg.len() == 0 {
        0
    } else if cfg[0].0 == name {
        0
    } else {
        1 + slot_of(cfg.skip(1), name)
    }
}

/// The entry under `name`.
pub open spec fn entry_of(cfg: ConfigView, name: Seq<char>) -> Option<DexEntryView> {
    if slot_of(cfg, name) < cfg.len() {
        Some(cfg[slot_of(cfg, name)].1)
    } else {
        None
    }
}

/// The configuration with `entry` under `name`, in the place of the entry
/// under that name where there is one, else at the end.
pub open spec fn put(cfg: ConfigView, name: Seq<char>, entry: DexEntryView) -> ConfigView {
    if slot_of(cfg, name) < cfg.len() {
        cfg.update(slot_of(cfg, name), (name, entry))
    } else {
        cfg.push((name, entry))
    }
}

/// The text under `name` in a table of texts.
pub open spec fn text_of(table: Seq<(Seq<char>, Seq<char>)>, name: Seq<char>) -> Option<Seq<char>>
    decreases table.len(),
{
    if table.len() == 0 {
        None
    } else if table[0].0 == name {
        Some(table[0].1)
    } else {
        text_of(table.skip(1), name)
    }
}

/// The controller configured for `name`: the identity that the text under
/// that name stands for, if there is one and it stands for one.
pub open spec fn controller_of(controllers: Seq<(Seq<char>, Seq<char>)>, name: Seq<char>) -> Option<
    Seq<u8>,
> {
    match text_of(controllers, name) {
        Some(text) => principal_parse(text),
        None => None,
    }
}

/// The configuration read from a table of targets and a table of
/// controllers: each target whose text stands for an identity is entered
/// under its name, enabled, with its controller; the others are left out.
pub open spec fn loaded(
    targets: Seq<(Seq<char>, Seq<char>)>,
    controllers: Seq<(Seq<char>, Seq<char>)>,
) -> ConfigView
    decreases targets.len(),
{
    if targets.len() == 0 {
        Seq::empty()
    } else {
        let before = loaded(targets.drop_last(), controllers);
        let name = targets.last().0;
        match principal_parse(targets.last().1) {
            Some(id) => put(
                before,
                name,
                DexEntryView { id, controller: controller_of(controllers, name), enabled: true },
            ),
            None => before,
        }
    }
}

/// The configuration after the environment named `text` as the target under
/// `key`: a text that stands for an identity replaces the target of the
/// entry and enables it, or makes a new entry without a controller; any
/// other text changes nothing.
pub open spec fn overridden(cfg: ConfigView, key: Seq<char>, text: Seq<char>) -> ConfigView {
    match principal_parse(text) {
        Some(id) => match entry_of(cfg, key) {
            Some(e) => put(cfg, key, DexEntryView { id, enabled: true, ..e }),
            None => put(cfg, key, DexEntryView { id, controller: None, enabled: true }),
        },
        None => cfg,
    }
}

/// The configuration with the entry under `name` disabled.
pub open spec fn disabled(cfg: ConfigView, name: Seq<char>) -> ConfigView {
    match entry_of(cfg, name) {
        Some(e) => put(cfg, name, DexEntryView { enabled: false, ..e }),
        None => cfg,
    }
}

/// The target that the adapter configured under `name` may use.
pub open spec fn target_of(cfg: ConfigView, name: Seq<char>) -> Option<Seq<u8>> {
    match entry_of(cfg, name) {
        Some(e) => if e.enabled {
            Some(e.id)
        } else {
            None
        },
        None => None,
    }
}

/// The targets of the enabled entries, in order.
pub open spec fn enabled_ids(cfg: ConfigView) -> Seq<Seq<u8>>
    decreases cfg.len(),
{
    if cfg.len() == 0 {
        Seq::empty()
    } else if cfg.last().1.enabled {
        enabled_ids(cfg.drop_last()).push(cfg.last().1.id)
    } else {
        enabled_ids(cfg.drop_last())
    }
}

/// [`slot_of`] finds the first entry under the name.
pub proof fn lemma_slot_of(cfg: ConfigView, name: Seq<char>, at: int)
    requires
        0 <= at <= cfg.len(),
        forall|j: int| 0 <= j < at ==> (#[trigger] cfg[j]).0 != name,
        at < cfg.len() ==> cfg[at].0 == name,
    ensures
        slot_of(cfg, name) == at,
    decreases cfg.len(),
{
    if cfg.len() > 0 && at > 0 {
        assert(cfg[0].0 != name);
        assert forall|j: int| 0 <= j < at - 1 implies (#[trigger] cfg.skip(1)[j]).0 != name by {
            assert(cfg[j + 1].0 != name);
        }
        lemma_slot_of(cfg.skip(1), name, at - 1);
    }
}

/// The names under which the environment may name a target, in the order
/// in which they are looked at.
pub fn override_keys() -> (keys: Vec<String>)
    ensures
        keys@.len() == 4,
        keys@[0]@ == "ICPSWAP_FACTORY"@,
        keys@[1]@ == "SONIC_ROUTER"@,
        keys@[2]@ == "INFINITY_VAULT"@,
        keys@[3]@ == "SNS_DISTRIBUTOR"@,
{
    let mut keys: Vec<String> = Vec::new();
    keys.push(String::from_str("ICPSWAP_FACTORY"));
    keys.push(String::from_str("SONIC_ROUTER"));
    keys.push(String::from_str("INFINITY_VAULT"));
    keys.push(String::from_str("SNS_DISTRIBUTOR"));
    keys
}

/// The configured targets.
pub struct DexConfig {
    entries: Vec<(String, DexEntry)>,
}

impl View for DexConfig {
    type V = ConfigView;

    closed spec fn view(&self) -> ConfigView {
        config_view(self.entries@)
    }
}

fn clone_optional(id: &Option<Identity>) -> (r: Option<Identity>)
    ensures
        optional_identity(r) == optional_identity(*id),
{
    match id {
        Some(i) => Some(i.clone()),
        None => None,
    }
}

fn find_text<'a>(table: &'a Vec<(String, String)>, name: &String) -> (r: Option<&'a String>)
    ensures
        match r {
            Some(text) => text_of(pair_views(table@), name@) == Some(text@),
            None => text_of(pair_views(table@), name@) is None,
        },
{
    let ghost all = pair_views(table@);
    let mut i: usize = 0;
    proof {
        assert(all.skip(0) =~= all);
    }
    while i < table.len()
        invariant
            i <= table@.len(),
            all == pair_views(table@),
            text_of(all, name@) == text_of(all.skip(i as int), name@),
        decreases table@.len() - i,
    {
        proof {
            assert(all.skip(i as int)[0] == (table@[i as int].0@, table@[i as int].1@));
            assert(all.skip(i as int).skip(1) =~= all.skip(i as int + 1));
        }
        if table[i].0 == *name {
            return Some(&table[i].1);
        }
        i += 1;
    }
    proof {
        assert(all.skip(table@.len() as int) =~= Seq::empty());
    }
    None
}

impl DexConfig {
    /// A configuration without entries.
    pub fn new() -> (c: DexConfig)
        ensures
            c@ == Seq::<(Seq<char>, DexEntryView)>::empty(),
    {
        let c = DexConfig { entries: Vec::new() };
        proof {
            assert(c@ =~= Seq::<(Seq<char>, DexEntryView)>::empty());
        }
        c
    }

    fn slot(&self, name: &String) -> (at: usize)
        ensures
            at == slot_of(self@, name@),
            at <= self.entries@.len(),
            self.entries@.len() == self@.len(),
    {
        let mut at: usize = 0;
        while at < self.entries.len() && !(self.entries[at].0 == *name)
            invariant
                at <= self.entries@.len(),
                forall|j: int| 0 <= j < at ==> (#[trigger] self.entries@[j]).0@ != name@,
            decreases self.entries@.len() - at,
        {
            at += 1;
        }
        proof {
            assert forall|j: int| 0 <= j < at implies (#[trigger] self@[j]).0 != name@ by {
                assert(self.entries@[j].0@ != name@);
            }
            lemma_slot_of(self@, name@, at as int);
        }
        at
    }

    fn place(&mut self, name: &String, entry: DexEntry)
        ensures
            final(self)@ == put(old(self)@, name@, entry@),
    {
        let at = self.slot(name);
        let ghost before = self@;
        if at < self.entries.len() {
            self.entries[at] = (name.clone(), entry);
            proof {
                assert(self@ =~= before.update(at as int, (name@, entry@)));
            }
        } else {
            self.entries.push((name.clone(), entry));
            proof {
                assert(self@ =~= before.push((name@, entry@)));
            }
        }
    }

    /// Reads the configuration from the table of targets and the table of
    /// controllers of the configuration file, each a list of names with
    /// their texts.
    pub fn load(targets: &Vec<(String, String)>, controllers: &Vec<(String, String)>) -> (c:
        DexConfig)
        ensures
            c@ == loaded(pair_views(targets@), pair_views(controllers@)),
    {
        let ghost all = pair_views(targets@);
        let ghost ctrl = pair_views(controllers@);
        let mut cfg = DexConfig::new();
        let mut i: usize = 0;
        proof {
            assert(all.take(0) =~= Seq::empty());
        }
        while i < targets.len()
            invariant
                i <= targets@.len(),
                all == pair_views(targets@),
                ctrl == pair_views(controllers@),
                cfg@ == loaded(all.take(i as int), ctrl),
            decreases targets@.len() - i,
        {
            proof {
                assert(all.take(i as int + 1).drop_last() =~= all.take(i as int));
                assert(all.take(i as int + 1).last() == (targets@[i as int].0@, targets@[i as int].1@));
            }
            let name = &targets[i].0;
            match Identity::from_text(targets[i].1.as_str()) {
                Some(id) => {
                    let controller = match find_text(controllers, name) {
                        Some(text) => Identity::from_text(text.as_str()),
                        None => None,
                    };
                    cfg.place(name, DexEntry { id, controller, enabled: true });
                },
                None => {},
            }
            i += 1;
        }
        proof {
            assert(all.take(targets@.len() as int) =~= all);
        }
        cfg
    }

    /// Takes the target under `key` from the environment, where `text` is
    /// what the environment holds under that key.
    pub fn override_target(&mut self, key: &str, text: &str)
        ensures
            final(self)@ == overridden(old(self)@, key@, text@),
    {
        let name = String::from_str(key);
        match Identity::from_text(text) {
            Some(id) => {
                let at = self.slot(&name);
                let controller = if at < self.entries.len() {
                    clone_optional(&self.entries[at].1.controller)
                } else {
                    None
                };
                self.place(&name, DexEntry { id, controller, enabled: true });
            },
            None => {},
        }
    }

    /// Disables the entry under `name`, where there is one.
    pub fn disable(&mut self, name: &str)
        ensures
            final(self)@ == disabled(old(self)@, name@),
    {
        let name = String::from_str(name);
        let at = self.slot(&name);
        if at < self.entries.len() {
            let entry = DexEntry {
                id: self.entries[at].1.id.clone(),
                controller: clone_optional(&self.entries[at].1.controller),
                enabled: false,
            };
            self.place(&name, entry);
        }
    }

    /// The target that the adapter configured under `name` may use: that of
    /// an enabled entry.
    pub fn env_principal(&self, name: &str) -> (r: Option<Identity>)
        ensures
            optional_identity(r) == target_of(self@, name@),
    {
        let name = String::from_str(name);
        let at = self.slot(&name);
        if at < self.entries.len() && self.entries[at].1.enabled {
            Some(self.entries[at].1.id.clone())
        } else {
            None
        }
    }

    /// The controller that the entry under `name` is expected to have.
    pub fn controller(&self, name: &str) -> (r: Option<Identity>)
        ensures
            optional_identity(r) == (match entry_of(self@, name@) {
                Some(e) => e.controller,
                None => None,
            }),
    {
        let name = String::from_str(name);
        let at = self.slot(&name);
        if at < self.entries.len() {
            clone_optional(&self.entries[at].1.controller)
        } else {
            None
        }
    }

    /// The names of the entries, in order.
    pub fn names(&self) -> (r: Vec<String>)
        ensures
            r@.len() == self@.len(),
            forall|i: int| 0 <= i < r@.len() ==> (#[trigger] r@[i])@ == self@[i].0,
    {
        let mut out: Vec<String> = Vec::with_capacity(self.entries.len());
        let mut i: usize = 0;
        while i < self.entries.len()
            invariant
                i <= self.entries@.len(),
                self.entries@.len() == self@.len(),
                out@.len() == i,
                forall|j: int| 0 <= j < i ==> (#[trigger] out@[j])@ == self@[j].0,
            decreases self.entries@.len() - i,
        {
            out.push(self.entries[i].0.clone());
            i += 1;
        }
        out
    }

    /// The targets of the enabled entries, in order.
    pub fn dex_ids(&self) -> (r: Vec<Identity>)
        ensures
            crate::identity::identity_views(r@) == enabled_ids(self@),
    {
        let mut out: Vec<Identity> = Vec::new();
        let mut i: usize = 0;
        proof {
            assert(crate::identity::identity_views(out@) =~= enabled_ids(self@.take(0)));
        }
        while i < self.entries.len()
            invariant
                i <= self.entries@.len(),
                self.entries@.len() == self@.len(),
                crate::identity::identity_views(out@) == enabled_ids(self@.take(i as int)),
            decreases self.entries@.len() - i,
        {
            let ghost before = crate::identity::identity_views(out@);
            proof {
                assert(self@.take(i as int + 1).drop_last() =~= self@.take(i as int));
                assert(self@.take(i as int + 1).last() == self@[i as int]);
            }
            if self.entries[i].1.enabled {
                out.push(self.entries[i].1.id.clone());
                proof {
                    assert(crate::identity::identity_views(out@) =~= before.push(
                        self.entries@[i as int].1.id@,
                    ));
                }
            }
            i += 1;
        }
        proof {
            assert(self@.take(self.entries@.len() as int) =~= self@);
        }
        out
    }
}

} // verus!
