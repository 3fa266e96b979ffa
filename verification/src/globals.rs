//! The global objects that the compositor offers when the program starts.

use vstd::prelude::*;

use crate::objects::{is_first_free, Objects, WaylandObject};
use crate::protocol::{interface_names_differ, Interface, Request};

verus! {

/// A short list of globals: their names and versions.
#[verifier::external_body]
pub struct GlobalList {
    list: smallvec::SmallVec<[(u32, u32); 2]>,
}

/// The globals on a list, in their order.
pub uninterp spec fn listed(list: GlobalList) -> Seq<(u32, u32)>;

/// `SmallVec::new`: an empty list.
#[verifier::external_body]
fn new_list() -> (r: GlobalList)
    ensures
        listed(r) == Seq::<(u32, u32)>::empty(),
{
    GlobalList { list: smallvec::SmallVec::new() }
}

/// `SmallVec::push`: puts a global at the end of a list.
#[verifier::external_body]
fn push_global(list: &mut GlobalList, global: (u32, u32))
    ensures
        listed(*final(list)) == listed(*old(list)).push(global),
{
    list.list.push(global)
}

/// `SmallVec::into_vec`: the globals on a list, in their order.
#[verifier::external_body]
fn list_into_vec(list: GlobalList) -> (r: Vec<(u32, u32)>)
    ensures
        r@ == listed(list),
{
    list.list.into_vec()
}

/// The global objects that the compositor has offered: those that the program uses as they are
/// have become objects, outputs and seats are kept for later.
pub struct Globals {
    objects: Objects,
    outputs: GlobalList,
    seats: GlobalList,
}

/// The kind of object that a global of the interface `interface` becomes at once, if it does.
pub open spec fn bound_kind(interface: Interface) -> Option<WaylandObject> {
    match interface {
        Interface::WlCompositor => Some(WaylandObject::Compositor),
        Interface::WlShm => Some(WaylandObject::Shm),
        Interface::ZwlrLayerShellV1 => Some(WaylandObject::LayerShell),
        Interface::ZwpRelativePointerManagerV1 => Some(WaylandObject::RelativePointerMgr),
        Interface::WlOutput => None,
        Interface::WlSeat => None,
    }
}

/// `name` is the name of an interface whose globals become objects at once.
pub open spec fn binds(name: Seq<char>) -> bool {
    exists|interface: Interface| #[trigger] interface.spec_name() == name && bound_kind(interface) is Some
}

/// Whether `name` is the name of an interface whose globals become objects at once.
pub fn is_bound(name: &str) -> (r: bool)
    ensures
        r == binds(name@),
{
    let found = Interface::of_name(name);
    proof {
        lemma_interface_is_unique(name@);
        if let Some(interface) = found {
            assert(interface.spec_name() == name@);
        }
    }
    match found {
        Some(Interface::WlCompositor) => true,
        Some(Interface::WlShm) => true,
        Some(Interface::ZwlrLayerShellV1) => true,
        Some(Interface::ZwpRelativePointerManagerV1) => true,
        Some(Interface::WlOutput) => false,
        Some(Interface::WlSeat) => false,
        None => false,
    }
}

impl Globals {
    /// The objects that there are.
    pub closed spec fn spec_objects(self) -> Objects {
        self.objects
    }

    /// The outputs, by name and version.
    pub closed spec fn spec_outputs(self) -> Seq<(u32, u32)> {
        listed(self.outputs)
    }

    /// The seats, by name and version.
    pub closed spec fn spec_seats(self) -> Seq<(u32, u32)> {
        listed(self.seats)
    }

    /// No globals yet.
    pub fn new(objects: Objects) -> (r: Globals)
        ensures
            r.spec_objects() == objects,
            r.spec_outputs() == Seq::<(u32, u32)>::empty(),
            r.spec_seats() == Seq::<(u32, u32)>::empty(),
    {
        Globals { objects, outputs: new_list(), seats: new_list() }
    }

    /// How many more objects are sure to find a free id.
    pub fn room(&self) -> (r: u32)
        ensures
            r == self.spec_objects().spec_room(),
    {
        self.objects.room()
    }

    /// Takes in a global that the compositor offers: the request that binds it, where it becomes
    /// an object at once.
    pub fn add_global(&mut self, registry: u32, name: u32, interface: &str, version: u32) -> (r: Option<
        Request,
    >)
        requires
            binds(interface@) ==> old(self).spec_objects().spec_room() >= 1,
        ensures
            r is Some <==> binds(interface@),
            binds(interface@) ==> {
                &&& r->0 is Bind
                &&& r->0 == (Request::Bind {
                    registry,
                    name,
                    id: r->0->Bind_id,
                    interface: r->0->Bind_interface,
                    version,
                })
                &&& r->0->Bind_interface.spec_name() == interface@
                &&& bound_kind(r->0->Bind_interface) is Some
                &&& is_first_free(old(self).spec_objects()@, r->0->Bind_id)
                &&& final(self).spec_objects()@ == old(self).spec_objects()@.insert(
                    r->0->Bind_id,
                    bound_kind(r->0->Bind_interface)->0,
                )
                &&& final(self).spec_objects().spec_room() >= old(self).spec_objects().spec_room()
                    - 1
            },
            !binds(interface@) ==> final(self).spec_objects() == old(self).spec_objects(),
            final(self).spec_outputs() == (if interface@ == Interface::WlOutput.spec_name() {
                old(self).spec_outputs().push((name, version))
            } else {
                old(self).spec_outputs()
            }),
            final(self).spec_seats() == (if interface@ == Interface::WlSeat.spec_name() {
                old(self).spec_seats().push((name, version))
            } else {
                old(self).spec_seats()
            }),
    {
        let found = Interface::of_name(interface);
        proof {
            lemma_interface_is_unique(interface@);
        }
        let (bound, kind) = match found {
            Some(Interface::WlCompositor) => (Interface::WlCompositor, WaylandObject::Compositor),
            Some(Interface::WlShm) => (Interface::WlShm, WaylandObject::Shm),
            Some(Interface::ZwlrLayerShellV1) => (
                Interface::ZwlrLayerShellV1,
                WaylandObject::LayerShell,
            ),
            Some(Interface::ZwpRelativePointerManagerV1) => (
                Interface::ZwpRelativePointerManagerV1,
                WaylandObject::RelativePointerMgr,
            ),
            Some(Interface::WlOutput) => {
                push_global(&mut self.outputs, (name, version));
                return None;
            },
            Some(Interface::WlSeat) => {
                push_global(&mut self.seats, (name, version));
                return None;
            },
            None => {
                return None;
            },
        };
        assert(bound.spec_name() == interface@ && bound_kind(bound) == Some(kind));
        let id: u32 = self.objects.create(kind);
        Some(Request::Bind { registry, name, id, interface: bound, version })
    }

    /// The objects that there are, the outputs and the seats.
    pub fn finish(self) -> (r: (Objects, Vec<(u32, u32)>, Vec<(u32, u32)>))
        ensures
            r.0 == self.spec_objects(),
            r.1@ == self.spec_outputs(),
            r.2@ == self.spec_seats(),
    {
        (self.objects, list_into_vec(self.outputs), list_into_vec(self.seats))
    }
}

proof fn lemma_interface_is_unique(name: Seq<char>)
    ensures
        forall|a: Interface, b: Interface| #[trigger]
            a.spec_name() == name && #[trigger] b.spec_name() == name ==> a == b,
{
    assert forall|a: Interface, b: Interface| #[trigger]
        a.spec_name() == name && #[trigger] b.spec_name() == name implies a == b by {
        if a != b {
            interface_names_differ(a, b);
        }
    }
}

/// The globals of four interfaces become objects at once, each of its own kind; those of all others
/// do not.
pub proof fn four_interfaces_are_bound(name: Seq<char>, interface: Interface)
    ensures
        binds(name) <==> name == "wl_compositor"@ || name == "wl_shm"@ || name
            == "zwlr_layer_shell_v1"@ || name == "zwp_relative_pointer_manager_v1"@,
        interface.spec_name() == "wl_compositor"@ <==> bound_kind(interface) == Some(
            WaylandObject::Compositor,
        ),
        interface.spec_name() == "wl_shm"@ <==> bound_kind(interface) == Some(WaylandObject::Shm),
        interface.spec_name() == "zwlr_layer_shell_v1"@ <==> bound_kind(interface) == Some(
            WaylandObject::LayerShell,
        ),
        interface.spec_name() == "zwp_relative_pointer_manager_v1"@ <==> bound_kind(interface)
            == Some(WaylandObject::RelativePointerMgr),
        interface.spec_name() == "wl_output"@ <==> interface == Interface::WlOutput,
        interface.spec_name() == "wl_seat"@ <==> interface == Interface::WlSeat,
        bound_kind(Interface::WlOutput) is None,
        bound_kind(Interface::WlSeat) is None,
{
    reveal_strlit("wl_compositor");
    reveal_strlit("wl_shm");
    reveal_strlit("zwlr_layer_shell_v1");
    reveal_strlit("zwp_relative_pointer_manager_v1");
    reveal_strlit("wl_output");
    reveal_strlit("wl_seat");
    assert(Interface::WlCompositor.spec_name() == "wl_compositor"@);
    assert(Interface::WlShm.spec_name() == "wl_shm"@);
    assert(Interface::ZwlrLayerShellV1.spec_name() == "zwlr_layer_shell_v1"@);
    assert(Interface::ZwpRelativePointerManagerV1.spec_name()
        == "zwp_relative_pointer_manager_v1"@);
    assert(Interface::WlOutput.spec_name() == "wl_output"@);
    assert(Interface::WlSeat.spec_name() == "wl_seat"@);
    lemma_interface_is_unique(interface.spec_name());
}

} // verus!
