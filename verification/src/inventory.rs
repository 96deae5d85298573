use vstd::prelude::*;

use crate::text::{dec_of, u32_to_string};
use vstd::string::StringExecFns;

verus! {

pub type IdType = u32;

/// Mathematical image of a `Tag`.
#[verifier::ext_equal]
pub ghost struct TagV {
    pub name: Seq<char>,
    pub id: IdType,
}

/// Mathematical image of a `Compartment`.
#[verifier::ext_equal]
pub ghost struct CompartmentV {
    pub name: Seq<char>,
    pub id: IdType,
    pub containers: Seq<IdType>,
}

/// Mathematical image of a `Container`.
#[verifier::ext_equal]
pub ghost struct ContainerV {
    pub name: Seq<char>,
    pub id: IdType,
    pub id_comp: IdType,
    pub items: Seq<IdType>,
    pub tags: Seq<IdType>,
}

/// Mathematical image of an `Item`.
#[verifier::ext_equal]
pub ghost struct ItemV {
    pub name: Seq<char>,
    pub id: IdType,
    pub id_cont: IdType,
}

/// Mathematical image of the whole store.
#[verifier::ext_equal]
pub ghost struct InventoryV {
    pub compartments: Seq<CompartmentV>,
    pub containers: Seq<ContainerV>,
    pub tags: Seq<TagV>,
    pub items: Seq<ItemV>,
    pub cnt_compartment: IdType,
    pub cnt_container: IdType,
    pub cnt_item: IdType,
    pub cnt_tag: IdType,
}

/// A named label, referenced by id from containers.
#[derive(Debug, Clone, PartialEq, Eq)]
pub struct Tag {
    pub name: String,
    pub id: IdType,
}

/// A root-level grouping that owns back-references to its containers.
#[derive(Debug, Clone, PartialEq, Eq)]
pub struct Compartment {
    pub name: String,
    pub id: IdType,
    pub containers: Vec<IdType>,
}

/// A storage unit inside exactly one compartment.
#[derive(Debug, Clone, PartialEq, Eq)]
pub struct Container {
    pub name: String,
    pub id: IdType,
    pub id_comp: IdType,
    pub items: Vec<IdType>,
    pub tags: Vec<IdType>,
}

/// A tracked object inside exactly one container.
#[derive(Debug, Clone, PartialEq, Eq)]
pub struct Item {
    pub name: String,
    pub id: IdType,
    pub id_cont: IdType,
}

/// The aggregate root: four flat entity sequences and one id counter per kind.
#[derive(Debug, Clone, PartialEq, Eq)]
pub struct Inventory {
    pub compartments: Vec<Compartment>,
    pub containers: Vec<Container>,
    pub tags: Vec<Tag>,
    pub items: Vec<Item>,
    pub cnt_compartment: IdType,
    pub cnt_container: IdType,
    pub cnt_item: IdType,
    pub cnt_tag: IdType,
}

impl View for Tag {
    type V = TagV;

    open spec fn view(&self) -> TagV {
        TagV { name: self.name@, id: self.id }
    }
}

impl View for Compartment {
    type V = CompartmentV;

    open spec fn view(&self) -> CompartmentV {
        CompartmentV { name: self.name@, id: self.id, containers: self.containers@ }
    }
}

impl View for Container {
    type V = ContainerV;

    open spec fn view(&self) -> ContainerV {
        ContainerV {
            name: self.name@,
            id: self.id,
            id_comp: self.id_comp,
            items: self.items@,
            tags: self.tags@,
        }
    }
}

impl View for Item {
    type V = ItemV;

    open spec fn view(&self) -> ItemV {
        ItemV { name: self.name@, id: self.id, id_cont: self.id_cont }
    }
}

impl View for Inventory {
    type V = InventoryV;

    open spec fn view(&self) -> InventoryV {
        InventoryV {
            compartments: self.compartments@.map_values(|c: Compartment| c@),
            containers: self.containers@.map_values(|c: Container| c@),
            tags: self.tags@.map_values(|t: Tag| t@),
            items: self.items@.map_values(|i: Item| i@),
            cnt_compartment: self.cnt_compartment,
            cnt_container: self.cnt_container,
            cnt_item: self.cnt_item,
            cnt_tag: self.cnt_tag,
        }
    }
}

/// Referential integrity of the store: each counter equals the length of its
/// sequence, every entity sits at the index equal to its id, and every
/// cross-reference (parent id, child id, tag id) names an entity that exists.
pub open spec fn inv_wf(v: InventoryV) -> bool {
    &&& v.compartments.len() == v.cnt_compartment as int
    &&& v.containers.len() == v.cnt_container as int
    &&& v.items.len() == v.cnt_item as int
    &&& v.tags.len() == v.cnt_tag as int
    &&& forall|i: int|
        0 <= i < v.compartments.len() ==> (#[trigger] v.compartments[i]).id as int == i
    &&& forall|i: int| 0 <= i < v.containers.len() ==> (#[trigger] v.containers[i]).id as int == i
    &&& forall|i: int| 0 <= i < v.items.len() ==> (#[trigger] v.items[i]).id as int == i
    &&& forall|i: int| 0 <= i < v.tags.len() ==> (#[trigger] v.tags[i]).id as int == i
    &&& forall|i: int|
        0 <= i < v.containers.len() ==> (#[trigger] v.containers[i]).id_comp
            < v.compartments.len()
    &&& forall|i: int|
        0 <= i < v.items.len() ==> (#[trigger] v.items[i]).id_cont < v.containers.len()
    &&& forall|i: int, j: int|
        0 <= i < v.containers.len() && 0 <= j < v.containers[i].tags.len() ==> (
        #[trigger] v.containers[i].tags[j]) < v.tags.len()
    &&& forall|i: int, j: int|
        0 <= i < v.compartments.len() && 0 <= j < v.compartments[i].containers.len() ==> (
        #[trigger] v.compartments[i].containers[j]) < v.containers.len()
    &&& forall|i: int, j: int|
        0 <= i < v.containers.len() && 0 <= j < v.containers[i].items.len() ==> (
        #[trigger] v.containers[i].items[j]) < v.items.len()
}

/// Whether some tag in the store carries the given id.
pub open spec fn tag_id_present(tags: Seq<TagV>, id: IdType) -> bool {
    exists|i: int| 0 <= i < tags.len() && tags[i].id == id
}

/// Whether some container in the store carries the given id.
pub open spec fn has_container_id(v: InventoryV, id: IdType) -> bool {
    exists|i: int| 0 <= i < v.containers.len() && v.containers[i].id == id
}

/// Whether some compartment in the store carries the given id.
pub open spec fn has_compartment_id(v: InventoryV, id: IdType) -> bool {
    exists|i: int| 0 <= i < v.compartments.len() && v.compartments[i].id == id
}

/// The first entry of `ids`, in order, that names no tag of the store.
pub open spec fn first_missing_tag(tags: Seq<TagV>, ids: Seq<IdType>) -> Option<IdType>
    decreases ids.len(),
{
    if ids.len() == 0 {
        None
    } else if !tag_id_present(tags, ids[0]) {
        Some(ids[0])
    } else {
        first_missing_tag(tags, ids.drop_first())
    }
}

proof fn lemma_first_missing_tag_skip(tags: Seq<TagV>, ids: Seq<IdType>, k: int)
    requires
        0 <= k <= ids.len(),
        forall|j: int| 0 <= j < k ==> tag_id_present(tags, #[trigger] ids[j]),
    ensures
        first_missing_tag(tags, ids) == first_missing_tag(tags, ids.skip(k)),
    decreases k,
{
    if k == 0 {
        assert(ids.skip(0) =~= ids);
    } else {
        assert(tag_id_present(tags, ids[0]));
        let rest = ids.drop_first();
        assert(forall|j: int| 0 <= j < k - 1 ==> tag_id_present(tags, #[trigger] rest[j]));
        lemma_first_missing_tag_skip(tags, rest, k - 1);
        assert(rest.skip(k - 1) =~= ids.skip(k));
    }
}

proof fn lemma_first_missing_tag_none(tags: Seq<TagV>, ids: Seq<IdType>)
    requires
        first_missing_tag(tags, ids) is None,
    ensures
        forall|j: int| 0 <= j < ids.len() ==> tag_id_present(tags, #[trigger] ids[j]),
    decreases ids.len(),
{
    if ids.len() > 0 {
        let rest = ids.drop_first();
        lemma_first_missing_tag_none(tags, rest);
        assert(forall|j: int|
            1 <= j < ids.len() ==> tag_id_present(tags, #[trigger] rest[j - 1]));
        assert(forall|j: int| 1 <= j < ids.len() ==> ids[j] == rest[j - 1]);
    }
}

/// The store after `add_tag`: the new tag appended under the next tag id.
pub open spec fn add_tag_spec(v: InventoryV, name: Seq<char>) -> InventoryV {
    InventoryV {
        tags: v.tags.push(TagV { name, id: v.cnt_tag }),
        cnt_tag: (v.cnt_tag + 1) as IdType,
        ..v
    }
}

/// The store after `add_compartment`: the new compartment appended under the
/// next compartment id, owning no containers yet.
pub open spec fn add_compartment_spec(v: InventoryV, name: Seq<char>) -> InventoryV {
    InventoryV {
        compartments: v.compartments.push(
            CompartmentV { name, id: v.cnt_compartment, containers: Seq::empty() },
        ),
        cnt_compartment: (v.cnt_compartment + 1) as IdType,
        ..v
    }
}

/// The store after a successful `add_item`: the new item appended under the
/// next item id, and that id appended to the owning container's list.
pub open spec fn add_item_spec(v: InventoryV, name: Seq<char>, con_id: IdType) -> InventoryV {
    let c = v.containers[con_id as int];
    InventoryV {
        items: v.items.push(ItemV { name, id: v.cnt_item, id_cont: con_id }),
        containers: v.containers.update(
            con_id as int,
            ContainerV { items: c.items.push(v.cnt_item), ..c },
        ),
        cnt_item: (v.cnt_item + 1) as IdType,
        ..v
    }
}

/// The store after a successful `add_container`: the new container appended
/// under the next container id, carrying the given tag ids, and that id
/// appended to the owning compartment's list.
pub open spec fn add_container_spec(
    v: InventoryV,
    name: Seq<char>,
    com_id: IdType,
    tags: Seq<IdType>,
) -> InventoryV {
    let c = v.compartments[com_id as int];
    InventoryV {
        containers: v.containers.push(
            ContainerV {
                name,
                id: v.cnt_container,
                id_comp: com_id,
                items: Seq::empty(),
                tags,
            },
        ),
        compartments: v.compartments.update(
            com_id as int,
            CompartmentV { containers: c.containers.push(v.cnt_container), ..c },
        ),
        cnt_container: (v.cnt_container + 1) as IdType,
        ..v
    }
}

/// The empty store: no entities, all counters at zero.
pub open spec fn empty_inventory() -> InventoryV {
    InventoryV {
        compartments: Seq::empty(),
        containers: Seq::empty(),
        tags: Seq::empty(),
        items: Seq::empty(),
        cnt_compartment: 0,
        cnt_container: 0,
        cnt_item: 0,
        cnt_tag: 0,
    }
}

/// Diagnostic for an `add_item` call naming an absent container.
pub open spec fn msg_container_not_found(id: IdType) -> Seq<char> {
    "The container with the id: "@ + dec_of(id as nat) + " was not found!!!"@
}

/// Diagnostic for an `add_container` call naming an absent compartment.
pub open spec fn msg_compartment_not_found(id: IdType) -> Seq<char> {
    "The compartment with the id: "@ + dec_of(id as nat) + " was not found!!!"@
}

/// Diagnostic for an `add_container` call naming an absent tag.
pub open spec fn msg_tag_not_found(id: IdType) -> Seq<char> {
    "Check the tag ids, "@ + dec_of(id as nat) + " was not found!!!"@
}

impl Inventory {
    /// Referential integrity of this store; established by `new` and kept by
    /// every mutator.
    pub open spec fn wf(&self) -> bool {
        inv_wf(self@)
    }

    /// A fresh, empty store.
    pub fn new() -> (r: Inventory)
        ensures
            r@ == empty_inventory(),
            r.wf(),
    {
        let r = Inventory {
            compartments: Vec::new(),
            containers: Vec::new(),
            tags: Vec::new(),
            items: Vec::new(),
            cnt_compartment: 0,
            cnt_container: 0,
            cnt_item: 0,
            cnt_tag: 0,
        };
        proof {
            assert(r@ =~= empty_inventory());
        }
        r
    }

    /// Whether some tag of this store carries the given id.
    pub fn has_tag_id(&self, id: IdType) -> (r: bool)
        ensures
            r == tag_id_present(self@.tags, id),
    {
        let mut i: usize = 0;
        while i < self.tags.len()
            invariant
                i <= self.tags.len(),
                self@.tags.len() == self.tags.len(),
                forall|j: int| 0 <= j < i ==> (#[trigger] self@.tags[j]).id != id,
            decreases self.tags.len() - i,
        {
            if self.tags[i].id == id {
                assert(self@.tags[i as int].id == id);
                return true;
            }
            i = i + 1;
        }
        false
    }

    /// Checks every supplied tag id against the store, in order, and reports
    /// the first absent one; nothing is modified.
    pub fn check_tags_ids(&self, ids: &Vec<IdType>) -> (r: Result<(), String>)
        ensures
            match first_missing_tag(self@.tags, ids@) {
                None => r is Ok,
                Some(m) => r is Err && r->Err_0@ == dec_of(m as nat),
            },
    {
        let mut i: usize = 0;
        while i < ids.len()
            invariant
                i <= ids.len(),
                forall|j: int| 0 <= j < i ==> tag_id_present(self@.tags, #[trigger] ids@[j]),
            decreases ids.len() - i,
        {
            if !self.has_tag_id(ids[i]) {
                proof {
                    lemma_first_missing_tag_skip(self@.tags, ids@, i as int);
                    assert(ids@.skip(i as int)[0] == ids@[i as int]);
                }
                return Err(u32_to_string(ids[i]));
            }
            i = i + 1;
        }
        proof {
            lemma_first_missing_tag_skip(self@.tags, ids@, ids@.len() as int);
        }
        Ok(())
    }

    /// Appends a new tag under the next tag id; always succeeds.
    pub fn add_tag(&mut self, name: &str)
        requires
            old(self).wf(),
            old(self)@.cnt_tag < IdType::MAX,
        ensures
            final(self)@ == add_tag_spec(old(self)@, name@),
            final(self).wf(),
    {
        let id = self.cnt_tag;
        self.tags.push(Tag { name: name.to_owned(), id });
        self.cnt_tag = self.cnt_tag + 1;
        proof {
            assert(self@.tags =~= add_tag_spec(old(self)@, name@).tags);
            assert(self@ =~= add_tag_spec(old(self)@, name@));
        }
    }

    /// Appends a new compartment under the next compartment id; always
    /// succeeds.
    pub fn add_compartment(&mut self, name: &str)
        requires
            old(self).wf(),
            old(self)@.cnt_compartment < IdType::MAX,
        ensures
            final(self)@ == add_compartment_spec(old(self)@, name@),
            final(self).wf(),
    {
        let id = self.cnt_compartment;
        self.compartments.push(Compartment { name: name.to_owned(), id, containers: Vec::new() });
        self.cnt_compartment = self.cnt_compartment + 1;
        proof {
            assert(self@.compartments =~= add_compartment_spec(old(self)@, name@).compartments);
            assert(self@ =~= add_compartment_spec(old(self)@, name@));
        }
    }

    /// Appends a new item under the next item id and records it in the owning
    /// container, or fails with a NotFound diagnostic and leaves the store
    /// unchanged.
    pub fn add_item(&mut self, name: &str, con_id: IdType) -> (r: Result<(), String>)
        requires
            old(self).wf(),
            old(self)@.cnt_item < IdType::MAX,
        ensures
            final(self).wf(),
            has_container_id(old(self)@, con_id) ==> r is Ok && final(self)@ == add_item_spec(
                old(self)@,
                name@,
                con_id,
            ),
            !has_container_id(old(self)@, con_id) ==> r is Err && *final(self) == *old(self)
                && r->Err_0@ == msg_container_not_found(con_id),
    {
        let cont_index = con_id as usize;
        if cont_index >= self.containers.len() {
            proof {
                assert(!has_container_id(self@, con_id));
            }
            let mut m = "The container with the id: ".to_owned();
            m.append(u32_to_string(con_id).as_str());
            m.append(" was not found!!!");
            return Err(m);
        }
        proof {
            assert(self@.containers[cont_index as int].id == con_id);
            assert(has_container_id(self@, con_id));
        }
        let id = self.cnt_item;
        self.items.push(Item { name: name.to_owned(), id, id_cont: con_id });
        self.containers[cont_index].items.push(id);
        self.cnt_item = self.cnt_item + 1;
        proof {
            let target = add_item_spec(old(self)@, name@, con_id);
            assert(self@.items =~= target.items);
            assert(self@.containers =~= target.containers);
            assert(self@ =~= target);
            assert(inv_wf(self@));
        }
        Ok(())
    }

    /// Validates every supplied tag id and the owning compartment, then
    /// appends a new container under the next container id and records it in
    /// the compartment; any failure leaves the store unchanged.
    pub fn add_container(&mut self, name: &str, com_id: IdType, tags: Vec<IdType>) -> (r: Result<
        (),
        String,
    >)
        requires
            old(self).wf(),
            old(self)@.cnt_container < IdType::MAX,
        ensures
            final(self).wf(),
            match first_missing_tag(old(self)@.tags, tags@) {
                Some(m) => r is Err && *final(self) == *old(self) && r->Err_0@ == msg_tag_not_found(
                    m,
                ),
                None => {
                    if has_compartment_id(old(self)@, com_id) {
                        r is Ok && final(self)@ == add_container_spec(
                            old(self)@,
                            name@,
                            com_id,
                            tags@,
                        )
                    } else {
                        r is Err && *final(self) == *old(self) && r->Err_0@
                            == msg_compartment_not_found(com_id)
                    }
                },
            },
    {
        let comp_index = com_id as usize;
        match self.check_tags_ids(&tags) {
            Err(e) => {
                let mut m = "Check the tag ids, ".to_owned();
                m.append(e.as_str());
                m.append(" was not found!!!");
                return Err(m);
            },
            _ => {},
        }
        if comp_index >= self.compartments.len() {
            proof {
                assert(!has_compartment_id(self@, com_id));
            }
            let mut m = "The compartment with the id: ".to_owned();
            m.append(u32_to_string(com_id).as_str());
            m.append(" was not found!!!");
            return Err(m);
        }
        proof {
            assert(self@.compartments[comp_index as int].id == com_id);
            assert(has_compartment_id(self@, com_id));
        }
        let cont_id = self.cnt_container;
        self.containers.push(
            Container {
                name: name.to_owned(),
                id: cont_id,
                id_comp: com_id,
                items: Vec::new(),
                tags,
            },
        );
        self.compartments[comp_index].containers.push(cont_id);
        self.cnt_container = self.cnt_container + 1;
        proof {
            let tags_v = self@.containers.last().tags;
            let target = add_container_spec(old(self)@, name@, com_id, tags_v);
            assert(self@.containers =~= target.containers);
            assert(self@.compartments =~= target.compartments);
            assert(self@ =~= target);
            lemma_first_missing_tag_none(old(self)@.tags, tags_v);
            assert(forall|j: int|
                0 <= j < tags_v.len() ==> tag_id_present(old(self)@.tags, #[trigger] tags_v[j]));
            assert forall|j: int| 0 <= j < tags_v.len() implies (((#[trigger] tags_v[j]) as int)
                < old(self)@.tags.len()) by {
                let w = choose|i: int|
                    0 <= i < old(self)@.tags.len() && old(self)@.tags[i].id == tags_v[j];
                assert(old(self)@.tags[w].id as int == w);
            };
            assert(inv_wf(self@));
        }
        Ok(())
    }
}

impl Inventory {
    /// Checks the store's referential integrity, as a loaded snapshot must be
    /// checked before the store is used.
    pub fn check_wf(&self) -> (r: bool)
        ensures
            r == self.wf(),
    {
        if self.compartments.len() != self.cnt_compartment as usize {
            return false;
        }
        if self.containers.len() != self.cnt_container as usize {
            return false;
        }
        if self.items.len() != self.cnt_item as usize {
            return false;
        }
        if self.tags.len() != self.cnt_tag as usize {
            return false;
        }
        let mut i: usize = 0;
        while i < self.tags.len()
            invariant
                i <= self@.tags.len(),
                self@.tags.len() == self.tags.len(),
                forall|j: int| 0 <= j < i ==> (#[trigger] self@.tags[j]).id as int == j,
            decreases self.tags.len() - i,
        {
            if self.tags[i].id as usize != i {
                proof {
                    assert(self@.tags[i as int].id as int != i as int);
                    assert(!inv_wf(self@));
                }
                return false;
            }
            i = i + 1;
        }
        let mut i: usize = 0;
        while i < self.items.len()
            invariant
                i <= self@.items.len(),
                self@.items.len() == self.items.len(),
                self@.containers.len() == self.containers.len(),
                forall|j: int| 0 <= j < i ==> (#[trigger] self@.items[j]).id as int == j,
                forall|j: int|
                    0 <= j < i ==> (#[trigger] self@.items[j]).id_cont < self@.containers.len(),
            decreases self.items.len() - i,
        {
            if self.items[i].id as usize != i {
                proof {
                    assert(self@.items[i as int].id as int != i as int);
                    assert(!inv_wf(self@));
                }
                return false;
            }
            if self.items[i].id_cont as usize >= self.containers.len() {
                proof {
                    assert(self@.items[i as int].id_cont as int >= self@.containers.len());
                    assert(!inv_wf(self@));
                }
                return false;
            }
            i = i + 1;
        }
        let mut i: usize = 0;
        while i < self.compartments.len()
            invariant
                i <= self@.compartments.len(),
                self@.compartments.len() == self.compartments.len(),
                self@.containers.len() == self.containers.len(),
                forall|j: int| 0 <= j < i ==> (#[trigger] self@.compartments[j]).id as int == j,
                forall|j: int, k: int|
                    0 <= j < i && 0 <= k < self@.compartments[j].containers.len() ==> (
                    #[trigger] self@.compartments[j].containers[k]) < self@.containers.len(),
            decreases self.compartments.len() - i,
        {
            if self.compartments[i].id as usize != i {
                proof {
                    assert(self@.compartments[i as int].id as int != i as int);
                    assert(!inv_wf(self@));
                }
                return false;
            }
            let mut k: usize = 0;
            while k < self.compartments[i].containers.len()
                invariant
                    i < self@.compartments.len(),
                    self@.compartments.len() == self.compartments.len(),
                    self@.containers.len() == self.containers.len(),
                    k <= self@.compartments[i as int].containers.len(),
                    self@.compartments[i as int].containers.len() == self.compartments[i as int].containers.len(),
                    forall|m: int|
                        0 <= m < k ==> (#[trigger] self@.compartments[i as int].containers[m])
                            < self@.containers.len(),
                decreases self.compartments[i as int].containers.len() - k,
            {
                if self.compartments[i].containers[k] as usize >= self.containers.len() {
                    proof {
                        assert(self@.compartments[i as int].containers[k as int] as int
                            >= self@.containers.len());
                        assert(!inv_wf(self@));
                    }
                    return false;
                }
                k = k + 1;
            }
            i = i + 1;
        }
        let mut i: usize = 0;
        while i < self.containers.len()
            invariant
                i <= self@.containers.len(),
                self@.containers.len() == self.containers.len(),
                self@.compartments.len() == self.compartments.len(),
                self@.tags.len() == self.tags.len(),
                self@.items.len() == self.items.len(),
                forall|j: int| 0 <= j < i ==> (#[trigger] self@.containers[j]).id as int == j,
                forall|j: int|
                    0 <= j < i ==> (#[trigger] self@.containers[j]).id_comp
                        < self@.compartments.len(),
                forall|j: int, k: int|
                    0 <= j < i && 0 <= k < self@.containers[j].tags.len() ==> (
                    #[trigger] self@.containers[j].tags[k]) < self@.tags.len(),
                forall|j: int, k: int|
                    0 <= j < i && 0 <= k < self@.containers[j].items.len() ==> (
                    #[trigger] self@.containers[j].items[k]) < self@.items.len(),
            decreases self.containers.len() - i,
        {
            if self.containers[i].id as usize != i {
                proof {
                    assert(self@.containers[i as int].id as int != i as int);
                    assert(!inv_wf(self@));
                }
                return false;
            }
            if self.containers[i].id_comp as usize >= self.compartments.len() {
                proof {
                    assert(self@.containers[i as int].id_comp as int >= self@.compartments.len());
                    assert(!inv_wf(self@));
                }
                return false;
            }
            let mut k: usize = 0;
            while k < self.containers[i].tags.len()
                invariant
                    i < self@.containers.len(),
                    self@.containers.len() == self.containers.len(),
                    self@.tags.len() == self.tags.len(),
                    k <= self@.containers[i as int].tags.len(),
                    self@.containers[i as int].tags.len() == self.containers[i as int].tags.len(),
                    forall|m: int|
                        0 <= m < k ==> (#[trigger] self@.containers[i as int].tags[m])
                            < self@.tags.len(),
                decreases self.containers[i as int].tags.len() - k,
            {
                if self.containers[i].tags[k] as usize >= self.tags.len() {
                    proof {
                        assert(self@.containers[i as int].tags[k as int] as int
                            >= self@.tags.len());
                        assert(!inv_wf(self@));
                    }
                    return false;
                }
                k = k + 1;
            }
            let mut k: usize = 0;
            while k < self.containers[i].items.len()
                invariant
                    i < self@.containers.len(),
                    self@.containers.len() == self.containers.len(),
                    self@.items.len() == self.items.len(),
                    k <= self@.containers[i as int].items.len(),
                    self@.containers[i as int].items.len() == self.containers[i as int].items.len(),
                    forall|m: int|
                        0 <= m < k ==> (#[trigger] self@.containers[i as int].items[m])
                            < self@.items.len(),
                decreases self.containers[i as int].items.len() - k,
            {
                if self.containers[i].items[k] as usize >= self.items.len() {
                    proof {
                        assert(self@.containers[i as int].items[k as int] as int
                            >= self@.items.len());
                        assert(!inv_wf(self@));
                    }
                    return false;
                }
                k = k + 1;
            }
            i = i + 1;
        }
        true
    }
}

/// Law: within one session, successive `add_tag` calls hand out strictly
/// increasing tag ids, and never an id already in use, so all tag ids stay
/// unique.
pub proof fn lemma_add_tag_ids_increase(v: InventoryV, n1: Seq<char>, n2: Seq<char>)
    requires
        inv_wf(v),
        v.cnt_tag + 1 < IdType::MAX,
    ensures
        ({
            let w1 = add_tag_spec(v, n1);
            let w2 = add_tag_spec(w1, n2);
            &&& w1.tags.last().id == v.cnt_tag
            &&& w2.tags.last().id == v.cnt_tag + 1
            &&& w1.tags.last().id < w2.tags.last().id
            &&& forall|i: int|
                0 <= i < v.tags.len() ==> (#[trigger] v.tags[i]).id < w1.tags.last().id
            &&& forall|i: int, j: int|
                0 <= i < j < w2.tags.len() ==> w2.tags[i].id != w2.tags[j].id
        }),
{
    let w1 = add_tag_spec(v, n1);
    let w2 = add_tag_spec(w1, n2);
    assert(forall|i: int| 0 <= i < w2.tags.len() ==> (#[trigger] w2.tags[i]).id as int == i);
}

/// Matches in the store for one search key; the lookup itself is an
/// unimplemented stub that only reports the first compartment.
pub struct SearchResult<'a> {
    pub compartments: Vec<&'a Compartment>,
    pub containers: Vec<&'a Container>,
    pub tags: Vec<&'a Tag>,
    pub items: Vec<&'a Item>,
}

/// Unimplemented stub of the search command: reports the first compartment
/// whatever the key.
pub fn search<'a>(key_word: &str, inv: &'a Inventory) -> (r: SearchResult<'a>)
    requires
        inv.compartments@.len() > 0,
    ensures
        r.compartments@.len() == 1,
        *r.compartments@[0] == inv.compartments@[0],
        r.containers@.len() == 0,
        r.tags@.len() == 0,
        r.items@.len() == 0,
{
    let mut compartments: Vec<&'a Compartment> = Vec::new();
    compartments.push(&inv.compartments[0]);
    SearchResult { compartments, containers: Vec::new(), tags: Vec::new(), items: Vec::new() }
}

} // verus!
