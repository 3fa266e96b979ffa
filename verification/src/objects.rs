//! The wayland objects that the program knows of, by id.

use vstd::prelude::*;
use waybackend::objman::ObjectManager;
use waybackend::types::ObjectId;

verus! {

/// The kinds of wayland object that the program deals with.
#[derive(Clone, Copy, Debug, PartialEq, Eq, Structural)]
pub enum WaylandObject {
    // standard stuff
    Display,
    Registry,
    Callback,
    Compositor,
    Seat,
    Shm,
    ShmPool,
    Buffer,
    Surface,
    Output,
    Pointer,
    // layer shell
    LayerShell,
    LayerSurface,
    // relative pointer
    RelativePointer,
    RelativePointerMgr,
}

/// Ids from here on belong to objects that the server made.
pub const FIRST_SERVER_ID: u32 = 0xff00_0000;

/// The largest id that the program ever gives to an object of its own.
pub const MAX_OBJECTS: u32 = 0x4000_0000;

/// `waybackend`'s table of object kinds by id.
#[verifier::external_type_specification]
#[verifier::external_body]
#[verifier::reject_recursive_types(T)]
pub struct ExObjectManager<T: Copy + PartialEq>(ObjectManager<T>);

/// `waybackend`'s non-null object id, as it comes off the wire.
#[verifier::external_type_specification]
#[verifier::external_body]
pub struct ExObjectId(ObjectId);

/// The kind of each live object in the table, by id.
pub uninterp spec fn held(manager: ObjectManager<WaylandObject>) -> Map<u32, WaylandObject>;

/// The number behind an id.
pub uninterp spec fn number(id: ObjectId) -> u32;

/// `id` is one that the program itself hands out.
pub open spec fn is_client_id(id: u32) -> bool {
    1 <= id < FIRST_SERVER_ID
}

/// `id` is the smallest id that no object has.
pub open spec fn is_first_free(objects: Map<u32, WaylandObject>, id: u32) -> bool {
    &&& 1 <= id
    &&& !objects.contains_key(id)
    &&& forall|low: u32| 1 <= low < id ==> objects.contains_key(low)
}

/// `id` is the smallest id of the program's own at which an object of the kind `kind` stands.
pub open spec fn is_first_of(objects: Map<u32, WaylandObject>, kind: WaylandObject, id: u32) -> bool {
    &&& is_client_id(id)
    &&& objects.contains_key(id)
    &&& objects[id] == kind
    &&& forall|low: u32| 1 <= low < id && objects.contains_key(low) ==> objects[low] != kind
}

/// Some object of the program's own has the kind `kind`.
pub open spec fn some_of(objects: Map<u32, WaylandObject>, kind: WaylandObject) -> bool {
    exists|id: u32| is_client_id(id) && objects.contains_key(id) && #[trigger] objects[id] == kind
}

/// `top` is the highest id among the program's own objects, or 0 where it has none.
pub open spec fn is_highest(objects: Map<u32, WaylandObject>, top: u32) -> bool {
    &&& top == 0 || (is_client_id(top) && objects.contains_key(top))
    &&& forall|id: u32| is_client_id(id) && objects.contains_key(id) ==> id <= top
}

/// How many ids there are above `top` for the program to hand out.
pub open spec fn room_above(top: u32) -> nat {
    if top < MAX_OBJECTS {
        (MAX_OBJECTS - top) as nat
    } else {
        0
    }
}

/// `ObjectManager::create`: puts the object at the smallest free id, and returns that id.
///
/// The table grows by doubling, so a free id below the bound keeps the growth within `u32`.
#[verifier::external_body]
fn manager_create(manager: &mut ObjectManager<WaylandObject>, kind: WaylandObject) -> (id: u32)
    requires
        exists|free: u32| 1 <= free <= MAX_OBJECTS && !held(*old(manager)).contains_key(free),
    ensures
        is_first_free(held(*old(manager)), id),
        held(*final(manager)) == held(*old(manager)).insert(id, kind),
    no_unwind
{
    manager.create(kind).get().get()
}

/// `ObjectManager::remove`: takes the object at `id` out of the table, and returns its kind; an
/// id that no object has changes nothing.
#[verifier::external_body]
fn manager_remove(manager: &mut ObjectManager<WaylandObject>, id: u32) -> (r: Option<WaylandObject>)
    ensures
        r == (if held(*old(manager)).contains_key(id) {
            Some(held(*old(manager))[id])
        } else {
            None
        }),
        held(*final(manager)) == held(*old(manager)).remove(id),
    no_unwind
{
    manager.remove(id)
}

/// `ObjectId::get`: the number behind an id. It is not 0.
#[verifier::external_body]
fn id_number(id: ObjectId) -> (r: u32)
    ensures
        r == number(id),
        r >= 1,
{
    id.get().get()
}

/// `ObjectManager::get`: the kind of the object at `id`, if there is one.
#[verifier::external_body]
fn manager_get(manager: &ObjectManager<WaylandObject>, id: ObjectId) -> (r: Option<WaylandObject>)
    ensures
        r == (if held(*manager).contains_key(number(id)) {
            Some(held(*manager)[number(id)])
        } else {
            None
        }),
{
    manager.get(id)
}

/// `ObjectManager::get_first`: the smallest id among the program's own objects of one kind.
#[verifier::external_body]
fn manager_get_first(manager: &ObjectManager<WaylandObject>, kind: WaylandObject) -> (r: Option<u32>)
    ensures
        match r {
            Some(id) => is_first_of(held(*manager), kind, id),
            None => !some_of(held(*manager), kind),
        },
{
    manager.get_first(kind).map(|id| id.get().get())
}

/// `ObjectManager::get_all`: the ids of the program's own objects of one kind, from the smallest
/// up.
#[verifier::external_body]
fn manager_get_all(manager: &ObjectManager<WaylandObject>, kind: WaylandObject) -> (r: Vec<u32>)
    ensures
        forall|id: u32| #[trigger]
            r@.contains(id) <==> (is_client_id(id) && held(*manager).contains_key(id)
                && held(*manager)[id] == kind),
        forall|i: int, j: int| 0 <= i < j < r@.len() ==> r@[i] < r@[j],
{
    manager.get_all(kind).map(|id| id.get().get()).collect()
}

/// Every kind of object there is.
fn all_kinds() -> (r: Vec<WaylandObject>)
    ensures
        forall|kind: WaylandObject| #[trigger] r@.contains(kind),
{
    let r: Vec<WaylandObject> = vec![
        WaylandObject::Display,
        WaylandObject::Registry,
        WaylandObject::Callback,
        WaylandObject::Compositor,
        WaylandObject::Seat,
        WaylandObject::Shm,
        WaylandObject::ShmPool,
        WaylandObject::Buffer,
        WaylandObject::Surface,
        WaylandObject::Output,
        WaylandObject::Pointer,
        WaylandObject::LayerShell,
        WaylandObject::LayerSurface,
        WaylandObject::RelativePointer,
        WaylandObject::RelativePointerMgr,
    ];
    proof {
        assert forall|kind: WaylandObject| #[trigger] r@.contains(kind) by {
            let at: int = match kind {
                WaylandObject::Display => 0,
                WaylandObject::Registry => 1,
                WaylandObject::Callback => 2,
                WaylandObject::Compositor => 3,
                WaylandObject::Seat => 4,
                WaylandObject::Shm => 5,
                WaylandObject::ShmPool => 6,
                WaylandObject::Buffer => 7,
                WaylandObject::Surface => 8,
                WaylandObject::Output => 9,
                WaylandObject::Pointer => 10,
                WaylandObject::LayerShell => 11,
                WaylandObject::LayerSurface => 12,
                WaylandObject::RelativePointer => 13,
                WaylandObject::RelativePointerMgr => 14,
            };
            assert(r@[at] == kind);
        }
    }
    r
}

/// The objects that the program knows of: a table of kinds by id, and how high its own ids go.
pub struct Objects {
    manager: ObjectManager<WaylandObject>,
    top: u32,
}

impl View for Objects {
    type V = Map<u32, WaylandObject>;

    closed spec fn view(&self) -> Map<u32, WaylandObject> {
        held(self.manager)
    }
}

impl Objects {
    /// No object of the program's own has an id above `top`.
    #[verifier::type_invariant]
    spec fn bounded(self) -> bool {
        forall|id: u32| self.top < id < FIRST_SERVER_ID ==> !held(self.manager).contains_key(id)
    }

    /// How many more objects are sure to find a free id.
    pub closed spec fn spec_room(self) -> nat {
        room_above(self.top)
    }

    /// Takes over a table of objects.
    pub fn new(manager: ObjectManager<WaylandObject>) -> (r: Objects)
        ensures
            r@ == held(manager),
            exists|top: u32| #[trigger] is_highest(r@, top) && r.spec_room() == room_above(top),
    {
        let kinds = all_kinds();
        let mut top: u32 = 0;
        let mut k: usize = 0;
        while k < kinds.len()
            invariant
                k <= kinds.len(),
                forall|kind: WaylandObject| #[trigger] kinds@.contains(kind),
                forall|i: int, id: u32|
                    #![trigger kinds@[i], held(manager)[id]]
                    0 <= i < k && is_client_id(id) && held(manager).contains_key(id)
                        && held(manager)[id] == kinds@[i] ==> id <= top,
                top == 0 || (is_client_id(top) && held(manager).contains_key(top)),
            decreases kinds.len() - k,
        {
            let ids = manager_get_all(&manager, kinds[k]);
            if ids.len() > 0 {
                let last: u32 = ids[ids.len() - 1];
                assert(ids@.contains(last));
                if last > top {
                    top = last;
                }
            }
            proof {
                assert forall|id: u32|
                    is_client_id(id) && held(manager).contains_key(id) && held(manager)[id]
                        == kinds@[k as int] implies id <= top by {
                    assert(ids@.contains(id));
                    let i = choose|i: int| 0 <= i < ids@.len() && ids@[i] == id;
                    assert(ids@[i] <= ids@[ids@.len() - 1]);
                }
            }
            k += 1;
        }
        proof {
            assert forall|id: u32| top < id < FIRST_SERVER_ID implies !held(manager).contains_key(
                id,
            ) by {
                if held(manager).contains_key(id) {
                    let kind = held(manager)[id];
                    assert(kinds@.contains(kind));
                    let i = choose|i: int| 0 <= i < kinds@.len() && kinds@[i] == kind;
                    assert(kinds@[i] == kind);
                }
            }
        }
        let r = Objects { manager, top };
        assert(is_highest(r@, top));
        r
    }

    /// How many more objects are sure to find a free id.
    pub fn room(&self) -> (r: u32)
        ensures
            r == self.spec_room(),
    {
        if self.top < MAX_OBJECTS {
            MAX_OBJECTS - self.top
        } else {
            0
        }
    }

    /// Makes an object of the kind `kind`, at the smallest id that is free.
    pub fn create(&mut self, kind: WaylandObject) -> (id: u32)
        requires
            old(self).spec_room() >= 1,
        ensures
            is_first_free(old(self)@, id),
            id <= MAX_OBJECTS,
            final(self)@ == old(self)@.insert(id, kind),
            final(self).spec_room() >= old(self).spec_room() - 1,
    {
        proof {
            use_type_invariant(&*self);
        }
        let top: u32 = self.top;
        let ghost next: u32 = (top + 1) as u32;
        assert(!held(self.manager).contains_key(next));
        self.top = top + 1;
        let id = manager_create(&mut self.manager, kind);
        assert(id <= next);
        if id <= top {
            self.top = top;
        }
        id
    }

    /// Forgets the object at `id`, and tells its kind, if there is one.
    pub fn remove(&mut self, id: u32) -> (r: Option<WaylandObject>)
        ensures
            r == (if old(self)@.contains_key(id) {
                Some(old(self)@[id])
            } else {
                None
            }),
            final(self)@ == old(self)@.remove(id),
            final(self).spec_room() == old(self).spec_room(),
    {
        proof {
            use_type_invariant(&*self);
        }
        manager_remove(&mut self.manager, id)
    }

    /// The number behind an id, and the kind of the object there, if there is one.
    pub fn get(&self, id: ObjectId) -> (r: (u32, Option<WaylandObject>))
        ensures
            r.0 == number(id),
            r.0 >= 1,
            r.1 == (if self@.contains_key(number(id)) {
                Some(self@[number(id)])
            } else {
                None
            }),
    {
        (id_number(id), manager_get(&self.manager, id))
    }

    /// The smallest id among the program's own objects of the kind `kind`.
    pub fn get_first(&self, kind: WaylandObject) -> (r: Option<u32>)
        ensures
            match r {
                Some(id) => is_first_of(self@, kind, id),
                None => !some_of(self@, kind),
            },
    {
        manager_get_first(&self.manager, kind)
    }
}

/// There is only one smallest free id.
pub proof fn first_free_is_unique(objects: Map<u32, WaylandObject>, a: u32, b: u32)
    requires
        is_first_free(objects, a),
        is_first_free(objects, b),
    ensures
        a == b,
{
}

/// Making an object and deleting it again leaves the table as it was.
pub proof fn remove_undoes_create(objects: Map<u32, WaylandObject>, id: u32, kind: WaylandObject)
    requires
        is_first_free(objects, id),
    ensures
        objects.insert(id, kind).remove(id) == objects,
{
    assert(objects.insert(id, kind).remove(id) =~= objects);
}

/// The id of a deleted object is the next one to be handed out, unless a smaller one is free.
pub proof fn deleted_id_is_reused(objects: Map<u32, WaylandObject>, id: u32)
    requires
        1 <= id,
        forall|low: u32| 1 <= low < id ==> objects.contains_key(low),
    ensures
        is_first_free(objects.remove(id), id),
{
}

/// After ids without a gap between them the next one is handed out, and an id within them never is.
pub proof fn next_id_follows(objects: Map<u32, WaylandObject>, n: u32, id: u32)
    requires
        n < u32::MAX,
        forall|low: u32| 1 <= low <= n ==> objects.contains_key(low),
        is_first_free(objects, id),
    ensures
        id > n,
        !objects.contains_key((n + 1) as u32) ==> id == n + 1,
        !objects.contains_key(id),
        forall|low: u32| 1 <= low < id ==> objects.contains_key(low),
{
    if id < n + 1 {
        assert(objects.contains_key(id));
    } else if id > n + 1 {
        let next = (n + 1) as u32;
        assert(1 <= next < id);
        assert(objects.contains_key(next));
    }
}

/// An object of a kind is found where the program has one, at an id below all others of that kind.
pub proof fn first_of_a_kind(
    objects: Map<u32, WaylandObject>,
    kind: WaylandObject,
    id: u32,
    other: u32,
)
    requires
        is_first_of(objects, kind, id),
        1 <= other < 0xff00_0000,
        objects.contains_key(other),
        objects[other] == kind,
    ensures
        some_of(objects, kind),
        objects.contains_key(id) && objects[id] == kind,
        1 <= id <= other,
{
    assert(is_client_id(other));
}

/// There is room for ids up to 2^30.
pub proof fn room_reaches_the_limit(top: u32)
    ensures
        top <= 0x4000_0000 ==> room_above(top) + top == 0x4000_0000,
        top > 0x4000_0000 ==> room_above(top) == 0,
{
}

} // verus!
