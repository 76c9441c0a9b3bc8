//! The item table: entities with optional attributes and a template link,
//! and the resolver that walks template chains to find the nearest owner of
//! a requested attribute.

use vstd::prelude::*;

use crate::{EntityId, ModelError};

verus! {

/// Which of an item's optional attributes a lookup asks for.
#[derive(Clone, Copy, PartialEq, Eq, Structural, Debug)]
pub enum AttrKind {
    Name,
    Icon,
    Count,
}

/// A value carried by one of an item's optional attributes.
#[derive(PartialEq, Eq, Debug)]
pub enum AttrValue {
    /// Display name.
    Name(String),
    /// Opaque icon reference; the model never decodes it.
    Icon(String),
    /// How many units of the item occupy one slot.
    Count(u32),
}

/// One item entity's data: each attribute is optional, and an item that
/// lacks an attribute falls back to its template, walked transitively.
#[derive(Debug)]
pub struct ItemRecord {
    pub name: Option<String>,
    pub icon: Option<String>,
    pub count: Option<u32>,
    /// Template link: attribute lookups that fail on this item continue on
    /// the linked item. A dangling link degrades lookups to "absent".
    pub template: Option<EntityId>,
}

/// Table of item entities. An identifier names a row; a row that has been
/// despawned (or never spawned) makes the identifier dangle.
pub struct Items {
    table: Vec<Option<ItemRecord>>,
}

/// Outcome of searching a template chain for an attribute owner.
#[derive(Clone, Copy, PartialEq, Eq, Structural, Debug)]
pub enum Found {
    /// The nearest entity in the chain carrying the attribute.
    Owner(EntityId),
    /// The chain ended (no template link, or a dangling one) without an owner.
    Absent,
    /// The chain did not end within the iteration cap.
    Cycle,
}

impl View for Items {
    type V = Seq<Option<ItemRecord>>;

    closed spec fn view(&self) -> Seq<Option<ItemRecord>> {
        self.table@
    }
}

impl Items {
    /// Whether `e` names a live item entity.
    pub open spec fn is_item(self, e: EntityId) -> bool {
        e.0 < self@.len() && self@[e.0 as int] is Some
    }

    pub open spec fn rec(self, e: EntityId) -> ItemRecord
        recommends
            self.is_item(e),
    {
        self@[e.0 as int].unwrap()
    }

    /// The attribute value that `e` itself carries, disregarding templates.
    pub open spec fn attr_of(self, e: EntityId, kind: AttrKind) -> Option<AttrValue>
        recommends
            self.is_item(e),
    {
        match kind {
            AttrKind::Name => match self.rec(e).name {
                Some(s) => Some(AttrValue::Name(s)),
                None => None,
            },
            AttrKind::Icon => match self.rec(e).icon {
                Some(s) => Some(AttrValue::Icon(s)),
                None => None,
            },
            AttrKind::Count => match self.rec(e).count {
                Some(c) => Some(AttrValue::Count(c)),
                None => None,
            },
        }
    }

    pub open spec fn has_attr(self, e: EntityId, kind: AttrKind) -> bool {
        self.is_item(e) && self.attr_of(e, kind) is Some
    }

    pub open spec fn template_of(self, e: EntityId) -> Option<EntityId>
        recommends
            self.is_item(e),
    {
        self.rec(e).template
    }

    /// The nearest owner of `kind` in the template chain starting at `e`,
    /// with `fuel` bounding how many template links may be followed.
    pub open spec fn find_owner(self, e: EntityId, kind: AttrKind, fuel: nat) -> Found
        decreases fuel,
    {
        if !self.is_item(e) {
            Found::Absent
        } else if self.has_attr(e, kind) {
            Found::Owner(e)
        } else {
            match self.template_of(e) {
                None => Found::Absent,
                Some(t) => if fuel == 0 {
                    Found::Cycle
                } else {
                    self.find_owner(t, kind, (fuel - 1) as nat)
                },
            }
        }
    }

    /// Whether the template chain starting at `e` reaches an end (an entity
    /// without a template link, or a dangling link) within `fuel` steps.
    pub open spec fn chain_ends(self, e: EntityId, fuel: nat) -> bool
        decreases fuel,
    {
        if !self.is_item(e) {
            true
        } else {
            match self.template_of(e) {
                None => true,
                Some(t) => fuel > 0 && self.chain_ends(t, (fuel - 1) as nat),
            }
        }
    }

    /// A cycle-free forest of template links: from every entity the chain
    /// reaches an end within as many steps as the table has rows, which in a
    /// finite forest every chain does.
    pub open spec fn acyclic(self) -> bool {
        forall|e: EntityId| #[trigger] self.chain_ends(e, self@.len())
    }

    /// The entity reached from `e` after exactly `k` template steps, or
    /// `None` if the chain ends earlier.
    pub open spec fn chain_entity(self, e: EntityId, k: nat) -> Option<EntityId>
        decreases k,
    {
        if !self.is_item(e) {
            None
        } else if k == 0 {
            Some(e)
        } else {
            match self.template_of(e) {
                None => None,
                Some(t) => self.chain_entity(t, (k - 1) as nat),
            }
        }
    }

    /// What `extend_find` returns for a live starting entity, given the
    /// outcome of the bounded chain search.
    pub open spec fn resolution(self, e: EntityId, kind: AttrKind) -> Result<
        Option<EntityId>,
        ModelError,
    > {
        match self.find_owner(e, kind, self@.len()) {
            Found::Owner(o) => Ok(Some(o)),
            Found::Absent => Ok(None),
            Found::Cycle => Err(ModelError::TemplateCycle),
        }
    }

    /// The icon shown for `e`: the icon of the nearest owner in `e`'s
    /// template chain, or `None` when no owner is found (or the chain does
    /// not end within the iteration cap).
    pub open spec fn resolved_icon(self, e: EntityId) -> Option<String> {
        match self.find_owner(e, AttrKind::Icon, self@.len()) {
            Found::Owner(o) => self.rec(o).icon,
            Found::Absent => None,
            Found::Cycle => None,
        }
    }

    /// The stack count carried by `e` itself, without template fallback.
    pub open spec fn own_count(self, e: EntityId) -> Option<u32> {
        if self.is_item(e) {
            self.rec(e).count
        } else {
            None
        }
    }

    pub fn new() -> (r: Items)
        ensures
            r@ == Seq::<Option<ItemRecord>>::empty(),
    {
        Items { table: Vec::new() }
    }

    pub fn len(&self) -> (r: usize)
        ensures
            r == self@.len(),
    {
        self.table.len()
    }

    /// Adds a new item entity and returns its identifier.
    pub fn spawn(&mut self, rec: ItemRecord) -> (e: EntityId)
        ensures
            final(self)@ == old(self)@.push(Some(rec)),
            e.0 == old(self)@.len(),
            final(self).is_item(e),
    {
        let e = EntityId(self.table.len());
        self.table.push(Some(rec));
        e
    }

    /// Removes an item entity; template links onto it become dangling.
    pub fn despawn(&mut self, e: EntityId) -> (r: Result<(), ModelError>)
        ensures
            match r {
                Ok(()) => old(self).is_item(e) && final(self)@ == old(self)@.update(
                    e.0 as int,
                    None::<ItemRecord>,
                ),
                Err(err) => err == ModelError::EntityNotFound && !old(self).is_item(e)
                    && final(self)@ == old(self)@,
            },
    {
        if e.0 < self.table.len() && self.table[e.0].is_some() {
            self.table[e.0] = None;
            Ok(())
        } else {
            Err(ModelError::EntityNotFound)
        }
    }

    fn alive(&self, e: EntityId) -> (r: bool)
        ensures
            r == self.is_item(e),
    {
        e.0 < self.table.len() && self.table[e.0].is_some()
    }

    /// The attribute value carried by `e` itself, without template fallback.
    pub fn get(&self, e: EntityId, kind: AttrKind) -> (r: Result<Option<AttrValue>, ModelError>)
        ensures
            match r {
                Ok(v) => self.is_item(e) && v == self.attr_of(e, kind),
                Err(err) => err == ModelError::EntityNotFound && !self.is_item(e),
            },
    {
        if !self.alive(e) {
            return Err(ModelError::EntityNotFound);
        }
        let rec = self.table[e.0].as_ref().unwrap();
        match kind {
            AttrKind::Name => match &rec.name {
                Some(s) => Ok(Some(AttrValue::Name(s.clone()))),
                None => Ok(None),
            },
            AttrKind::Icon => match &rec.icon {
                Some(s) => Ok(Some(AttrValue::Icon(s.clone()))),
                None => Ok(None),
            },
            AttrKind::Count => match &rec.count {
                Some(c) => Ok(Some(AttrValue::Count(*c))),
                None => Ok(None),
            },
        }
    }

    /// The template link carried by `e`.
    pub fn get_template(&self, e: EntityId) -> (r: Result<Option<EntityId>, ModelError>)
        ensures
            match r {
                Ok(t) => self.is_item(e) && t == self.template_of(e),
                Err(err) => err == ModelError::EntityNotFound && !self.is_item(e),
            },
    {
        if !self.alive(e) {
            return Err(ModelError::EntityNotFound);
        }
        match &self.table[e.0].as_ref().unwrap().template {
            Some(t) => Ok(Some(*t)),
            None => Ok(None),
        }
    }

    /// Overwrites the attribute of `e` that matches `value`'s kind. The
    /// mutable access to an item's own data; lookups by other items through
    /// their template links see the new value at once.
    pub fn set_attr(&mut self, e: EntityId, value: AttrValue) -> (r: Result<(), ModelError>)
        ensures
            match r {
                Ok(()) => {
                    &&& old(self).is_item(e)
                    &&& final(self)@.len() == old(self)@.len()
                    &&& (forall|k: int|
                        0 <= k < old(self)@.len() && k != e.0 ==> final(self)@[k] == old(
                            self,
                        )@[k])
                    &&& final(self).is_item(e)
                    &&& final(self).rec(e).template == old(self).rec(e).template
                    &&& (match value {
                        AttrValue::Name(s) => final(self).rec(e) == ItemRecord {
                            name: Some(s),
                            ..old(self).rec(e)
                        },
                        AttrValue::Icon(s) => final(self).rec(e) == ItemRecord {
                            icon: Some(s),
                            ..old(self).rec(e)
                        },
                        AttrValue::Count(c) => final(self).rec(e) == ItemRecord {
                            count: Some(c),
                            ..old(self).rec(e)
                        },
                    })
                },
                Err(err) => err == ModelError::EntityNotFound && !old(self).is_item(e)
                    && final(self)@ == old(self)@,
            },
    {
        if !self.alive(e) {
            return Err(ModelError::EntityNotFound);
        }
        let rec = self.table[e.0].as_mut().unwrap();
        match value {
            AttrValue::Name(s) => {
                rec.name = Some(s);
            },
            AttrValue::Icon(s) => {
                rec.icon = Some(s);
            },
            AttrValue::Count(c) => {
                rec.count = Some(c);
            },
        }
        Ok(())
    }

    /// Overwrites the template link of `e`.
    pub fn set_template(&mut self, e: EntityId, template: Option<EntityId>) -> (r: Result<
        (),
        ModelError,
    >)
        ensures
            match r {
                Ok(()) => {
                    &&& old(self).is_item(e)
                    &&& final(self)@.len() == old(self)@.len()
                    &&& (forall|k: int|
                        0 <= k < old(self)@.len() && k != e.0 ==> final(self)@[k] == old(
                            self,
                        )@[k])
                    &&& final(self).is_item(e)
                    &&& final(self).rec(e) == ItemRecord { template, ..old(self).rec(e) }
                },
                Err(err) => err == ModelError::EntityNotFound && !old(self).is_item(e)
                    && final(self)@ == old(self)@,
            },
    {
        if !self.alive(e) {
            return Err(ModelError::EntityNotFound);
        }
        self.table[e.0].as_mut().unwrap().template = template;
        Ok(())
    }

    /// Finds the nearest entity in `entity`'s template chain that carries
    /// the requested attribute, walking at most as many links as the table
    /// has rows and reporting a cycle beyond that.
    pub fn extend_find(&self, entity: EntityId, kind: AttrKind) -> (r: Result<
        Option<EntityId>,
        ModelError,
    >)
        ensures
            self.is_item(entity) ==> r == self.resolution(entity, kind),
            !self.is_item(entity) ==> r == Err::<Option<EntityId>, ModelError>(
                ModelError::EntityNotFound,
            ),
    {
        if !self.alive(entity) {
            return Err(ModelError::EntityNotFound);
        }
        let ghost total = self@.len();
        let mut fuel: usize = self.table.len();
        let mut cur = entity;
        loop
            invariant
                total == self@.len(),
                self.is_item(entity),
                self.is_item(cur),
                fuel <= total,
                self.find_owner(entity, kind, total) == self.find_owner(cur, kind, fuel as nat),
            decreases fuel,
        {
            let has = match kind {
                AttrKind::Name => self.table[cur.0].as_ref().unwrap().name.is_some(),
                AttrKind::Icon => self.table[cur.0].as_ref().unwrap().icon.is_some(),
                AttrKind::Count => self.table[cur.0].as_ref().unwrap().count.is_some(),
            };
            if has {
                return Ok(Some(cur));
            }
            match &self.table[cur.0].as_ref().unwrap().template {
                None => {
                    return Ok(None);
                },
                Some(t) => {
                    if fuel == 0 {
                        return Err(ModelError::TemplateCycle);
                    }
                    fuel = fuel - 1;
                    if !self.alive(*t) {
                        proof {
                            assert(self.find_owner(*t, kind, fuel as nat) == Found::Absent);
                        }
                        return Ok(None);
                    }
                    cur = *t;
                },
            }
        }
    }

    /// Resolves the requested attribute through the template chain: the
    /// value carried by the nearest owner, or `None` if no entity in the
    /// chain carries it.
    pub fn extended_get(&self, entity: EntityId, kind: AttrKind) -> (r: Result<
        Option<AttrValue>,
        ModelError,
    >)
        ensures
            match r {
                Ok(v) => self.is_item(entity) && match self.find_owner(entity, kind, self@.len()) {
                    Found::Owner(o) => v == self.attr_of(o, kind) && v is Some,
                    Found::Absent => v is None,
                    Found::Cycle => false,
                },
                Err(err) => if !self.is_item(entity) {
                    err == ModelError::EntityNotFound
                } else {
                    err == ModelError::TemplateCycle && self.find_owner(entity, kind, self@.len())
                        == Found::Cycle
                },
            },
    {
        let owner = match self.extend_find(entity, kind)? {
            Some(o) => o,
            None => {
                return Ok(None);
            },
        };
        proof {
            self.lemma_find_owner_is_owner(entity, kind, self@.len());
        }
        self.get(owner, kind)
    }

    /// `o` is the nearest owner of `kind` in `e`'s chain: it stands `k`
    /// template steps from `e`, carries the attribute, and no entity at an
    /// earlier position does.
    pub open spec fn nearest_at(self, e: EntityId, kind: AttrKind, o: EntityId, k: nat) -> bool {
        &&& self.chain_entity(e, k) == Some(o)
        &&& self.has_attr(o, kind)
        &&& forall|j: nat|
            j < k ==> (#[trigger] self.chain_entity(e, j)) is Some && !self.has_attr(
                self.chain_entity(e, j).unwrap(),
                kind,
            )
    }

    /// A chain that ends within the fuel bound never yields `Cycle`.
    proof fn lemma_chain_ends_no_cycle(self, e: EntityId, kind: AttrKind, fuel: nat)
        requires
            self.chain_ends(e, fuel),
        ensures
            self.find_owner(e, kind, fuel) != Found::Cycle,
        decreases fuel,
    {
        if self.is_item(e) && !self.has_attr(e, kind) {
            match self.template_of(e) {
                None => {},
                Some(t) => {
                    self.lemma_chain_ends_no_cycle(t, kind, (fuel - 1) as nat);
                },
            }
        }
    }

    /// An `Owner` outcome points at the nearest owner; the returned `k` is
    /// its distance from `e` along the chain.
    proof fn lemma_owner_nearest(self, e: EntityId, kind: AttrKind, fuel: nat) -> (k: nat)
        requires
            self.find_owner(e, kind, fuel) is Owner,
        ensures
            k <= fuel,
            self.nearest_at(e, kind, self.find_owner(e, kind, fuel)->Owner_0, k),
        decreases fuel,
    {
        let o = self.find_owner(e, kind, fuel)->Owner_0;
        if self.has_attr(e, kind) {
            0
        } else {
            let t = self.template_of(e).unwrap();
            let k0 = self.lemma_owner_nearest(t, kind, (fuel - 1) as nat);
            let k = k0 + 1;
            assert forall|j: nat| j < k implies (#[trigger] self.chain_entity(e, j)) is Some
                && !self.has_attr(self.chain_entity(e, j).unwrap(), kind) by {
                if j > 0 {
                    assert(self.chain_entity(e, j) == self.chain_entity(t, (j - 1) as nat));
                }
            }
            k
        }
    }

    /// An `Absent` outcome means no entity anywhere along the chain carries
    /// the attribute, up to and including a dangling-chain end.
    proof fn lemma_absent_no_owner(self, e: EntityId, kind: AttrKind, fuel: nat, k: nat)
        requires
            self.find_owner(e, kind, fuel) == Found::Absent,
            self.chain_entity(e, k) is Some,
        ensures
            !self.has_attr(self.chain_entity(e, k).unwrap(), kind),
        decreases k,
    {
        if self.is_item(e) && k > 0 {
            match self.template_of(e) {
                None => {},
                Some(t) => {
                    self.lemma_absent_no_owner(t, kind, (fuel - 1) as nat, (k - 1) as nat);
                },
            }
        }
    }

    /// No entity is reachable from itself along one or more template steps:
    /// the template links form a genuine forest.
    pub open spec fn no_template_cycle(self) -> bool {
        forall|e: EntityId, k: nat| 1 <= k ==> #[trigger] self.chain_entity(e, k) != Some(e)
    }

    /// The entity reached after `i + d` steps is the entity reached `d`
    /// steps past the one reached after `i` steps.
    proof fn lemma_chain_compose(self, e: EntityId, i: nat, d: nat)
        ensures
            self.chain_entity(e, i + d) == match self.chain_entity(e, i) {
                Some(c) => self.chain_entity(c, d),
                None => None::<EntityId>,
            },
        decreases i,
    {
        if self.is_item(e) && i > 0 {
            match self.template_of(e) {
                None => {},
                Some(t) => {
                    self.lemma_chain_compose(t, (i - 1) as nat, d);
                    assert(self.chain_entity(e, i + d) == self.chain_entity(
                        t,
                        ((i - 1) + d) as nat,
                    ));
                },
            }
        }
    }

    /// A chain that has not ended within `fuel` steps is defined at every
    /// step up to `fuel`.
    proof fn lemma_unended_chain_defined(self, e: EntityId, fuel: nat, k: nat)
        requires
            !self.chain_ends(e, fuel),
            k <= fuel,
        ensures
            self.chain_entity(e, k) is Some,
        decreases k,
    {
        if k > 0 {
            let t = self.template_of(e).unwrap();
            self.lemma_unended_chain_defined(t, (fuel - 1) as nat, (k - 1) as nat);
        }
    }

    /// A defined chain entity is a live item of the table.
    proof fn lemma_chain_entity_live(self, e: EntityId, k: nat)
        ensures
            self.chain_entity(e, k) matches Some(c) ==> self.is_item(c),
        decreases k,
    {
        if self.is_item(e) && k > 0 {
            match self.template_of(e) {
                None => {},
                Some(t) => {
                    self.lemma_chain_entity_live(t, (k - 1) as nat);
                },
            }
        }
    }

    /// A genuine forest satisfies the bounded form of cycle-freedom: every
    /// chain reaches an end within as many steps as the table has rows,
    /// because a longer walk would have to revisit an entity (there are only
    /// as many live entities as rows).
    pub proof fn lemma_no_cycle_is_acyclic(self)
        requires
            self.no_template_cycle(),
        ensures
            self.acyclic(),
    {
        assert forall|e: EntityId| #[trigger] self.chain_ends(e, self@.len()) by {
            if !self.chain_ends(e, self@.len()) {
                let len = self@.len() as int;
                let ids = Seq::<int>::new(
                    (len + 1) as nat,
                    |k: int| self.chain_entity(e, k as nat).unwrap().0 as int,
                );
                assert forall|k: int| 0 <= k < len + 1 implies 0 <= #[trigger] ids[k] < len by {
                    self.lemma_unended_chain_defined(e, self@.len(), k as nat);
                    self.lemma_chain_entity_live(e, k as nat);
                }
                if ids.no_duplicates() {
                    ids.unique_seq_to_set();
                    assert(ids.to_set().subset_of(vstd::set_lib::set_int_range(0, len))) by {
                        assert forall|x: int|
                            ids.to_set().contains(x) implies vstd::set_lib::set_int_range(
                            0,
                            len,
                        ).contains(x) by {
                            let k = choose|k: int| 0 <= k < ids.len() && ids[k] == x;
                            assert(0 <= ids[k] < len);
                        }
                    }
                    vstd::set_lib::lemma_int_range(0, len);
                    vstd::set_lib::lemma_len_subset(
                        ids.to_set(),
                        vstd::set_lib::set_int_range(0, len),
                    );
                    assert(false);
                } else {
                    let (i, j) = choose|i: int, j: int|
                        0 <= i < ids.len() && 0 <= j < ids.len() && i < j && #[trigger] ids[i]
                            == #[trigger] ids[j];
                    self.lemma_unended_chain_defined(e, self@.len(), i as nat);
                    self.lemma_unended_chain_defined(e, self@.len(), j as nat);
                    let c = self.chain_entity(e, i as nat).unwrap();
                    let c2 = self.chain_entity(e, j as nat).unwrap();
                    assert(c.0 == c2.0);
                    assert(c == c2);
                    self.lemma_chain_compose(e, i as nat, (j - i) as nat);
                    assert(self.chain_entity(c, (j - i) as nat) == Some(c));
                    assert(self.chain_entity(c, (j - i) as nat) != Some(c));
                    assert(false);
                }
            }
        }
    }

    /// Resolution terminates on a cycle-free forest of template links: the
    /// bounded search never reports a cycle, and it finds the nearest owner
    /// of the attribute, or establishes that no entity in the chain carries
    /// it.
    pub proof fn lemma_resolve_terminates(self, e: EntityId, kind: AttrKind)
        requires
            self.acyclic(),
        ensures
            self.resolution(e, kind) != Err::<Option<EntityId>, ModelError>(
                ModelError::TemplateCycle,
            ),
            match self.find_owner(e, kind, self@.len()) {
                Found::Owner(o) => exists|k: nat| self.nearest_at(e, kind, o, k),
                Found::Absent => forall|k: nat|
                    (#[trigger] self.chain_entity(e, k)) is Some ==> !self.has_attr(
                        self.chain_entity(e, k).unwrap(),
                        kind,
                    ),
                Found::Cycle => false,
            },
    {
        assert(self.chain_ends(e, self@.len()));
        self.lemma_chain_ends_no_cycle(e, kind, self@.len());
        match self.find_owner(e, kind, self@.len()) {
            Found::Owner(o) => {
                let k = self.lemma_owner_nearest(e, kind, self@.len());
                assert(self.nearest_at(e, kind, o, k));
            },
            Found::Absent => {
                assert forall|k: nat| (#[trigger] self.chain_entity(e, k)) is Some implies !self
                    .has_attr(self.chain_entity(e, k).unwrap(), kind) by {
                    self.lemma_absent_no_owner(e, kind, self@.len(), k);
                }
            },
            Found::Cycle => {},
        }
    }

    /// An `Owner` outcome names a live entity that carries the attribute.
    proof fn lemma_find_owner_is_owner(self, e: EntityId, kind: AttrKind, fuel: nat)
        ensures
            self.find_owner(e, kind, fuel) matches Found::Owner(o) ==> self.has_attr(o, kind),
        decreases fuel,
    {
        if self.is_item(e) && !self.has_attr(e, kind) {
            match self.template_of(e) {
                None => {},
                Some(t) => {
                    if fuel > 0 {
                        self.lemma_find_owner_is_owner(t, kind, (fuel - 1) as nat);
                    }
                },
            }
        }
    }
}

} // verus!
