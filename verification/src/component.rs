//! The contract every behaviour unit of an entity fulfils.

use vstd::prelude::*;

verus! {

/// `wgpu::Device`, carried through to the components and never looked
/// into.
#[verifier::external_type_specification]
#[verifier::external_body]
pub struct ExDevice(wgpu::Device);

/// `wgpu::Queue`, carried through to the components and never looked into.
#[verifier::external_type_specification]
#[verifier::external_body]
pub struct ExQueue(wgpu::Queue);

/// `wgpu::SwapChainDescriptor`, carried through to the components and
/// never looked into.
#[verifier::external_type_specification]
#[verifier::external_body]
pub struct ExSwapChainDescriptor(wgpu::SwapChainDescriptor);

/// What a component is given when it sets up its resources.
pub struct InitNecessary<'a> {
    pub device: &'a wgpu::Device,
    pub queue: &'a wgpu::Queue,
    pub swap_chain_desc: &'a wgpu::SwapChainDescriptor,
}

/// What a component is given when it draws.
pub struct RenderNecessary<'a> {
    pub swap_chain_desc: &'a wgpu::SwapChainDescriptor,
}

/// What a component is given on each step.
pub struct UpdateNecessary<'a> {
    /// The seconds since the last step, as the bits of a single-precision
    /// number.
    pub delat: u32,
    pub device: &'a wgpu::Device,
    pub queue: &'a wgpu::Queue,
    pub swap_chain_desc: &'a wgpu::SwapChainDescriptor,
}

/// Where a component stands in its life with an entity.
#[derive(Clone, Copy, Debug, PartialEq, Eq, Structural)]
pub enum Stage {
    /// With no entity.
    Unregistered,
    /// Told of its entity, not yet in use.
    Registered,
    /// In use.
    Active,
    /// In use, and started.
    Started,
    /// Taken out of use, still knowing its entity.
    Inactive,
}

impl Stage {
    /// In use: the stages in which a component is stepped and drawn.
    pub open spec fn is_live(self) -> bool {
        self == Stage::Active || self == Stage::Started
    }
}

/// What a component that is registered with no entity answers when asked
/// for its entity.
#[derive(Clone, Copy, Debug, PartialEq, Eq, Structural)]
pub struct NotRegistered;

/// A behaviour unit that an entity can hold.
///
/// No lifecycle call changes the type or the priority of a component, and
/// each moves it along the one path `Unregistered`, `Registered`,
/// `Active`, optionally `Started`, `Inactive`, `Unregistered`.
pub trait Component {
    /// The identifier of the concrete component type.
    spec fn type_key(&self) -> u64;

    /// The priority: components of lower rank come first in an entity.
    spec fn rank(&self) -> i32;

    /// The identifier of the entity the component is registered with.
    spec fn owner(&self) -> Option<u64>;

    /// Where the component stands in its life.
    spec fn stage(&self) -> Stage;

    /// The identifier of the concrete component type.
    fn type_id(&self) -> (k: u64)
        ensures
            k == self.type_key(),
    ;

    /// The priority.
    fn priority(&self) -> (p: i32)
        ensures
            p == self.rank(),
    ;

    /// The entity `obj` takes the component in.
    fn on_reg(&mut self, obj: u64)
        requires
            old(self).stage() == Stage::Unregistered,
        ensures
            final(self).stage() == Stage::Registered,
            final(self).owner() == Some(obj),
            final(self).type_key() == old(self).type_key(),
            final(self).rank() == old(self).rank(),
    ;

    /// The entity lets the component go.
    fn on_unreg(&mut self)
        requires
            old(self).stage() == Stage::Inactive,
        ensures
            final(self).stage() == Stage::Unregistered,
            final(self).owner() is None,
            final(self).type_key() == old(self).type_key(),
            final(self).rank() == old(self).rank(),
    ;

    /// The component comes into use.
    fn on_add(&mut self)
        requires
            old(self).stage() == Stage::Registered,
        ensures
            final(self).stage() == Stage::Active,
            final(self).owner() == old(self).owner(),
            final(self).type_key() == old(self).type_key(),
            final(self).rank() == old(self).rank(),
    ;

    /// The component goes out of use.
    fn on_remove(&mut self)
        requires
            old(self).stage().is_live(),
        ensures
            final(self).stage() == Stage::Inactive,
            final(self).owner() == old(self).owner(),
            final(self).type_key() == old(self).type_key(),
            final(self).rank() == old(self).rank(),
    ;

    /// The identifier of the entity the component is registered with, or
    /// `NotRegistered` where it is registered with none.
    fn object(&self) -> (r: Result<u64, NotRegistered>)
        ensures
            match r {
                Ok(id) => self.owner() == Some(id),
                Err(_) => self.owner() is None,
            },
    ;

    /// Sets up the resources of the component.
    fn init(&mut self, nec: InitNecessary<'_>)
        ensures
            final(self).stage() == old(self).stage(),
            final(self).owner() == old(self).owner(),
            final(self).type_key() == old(self).type_key(),
            final(self).rank() == old(self).rank(),
    ;

    /// Draws the component.
    fn render(&mut self, nec: RenderNecessary<'_>)
        requires
            old(self).stage().is_live(),
        ensures
            final(self).stage() == old(self).stage(),
            final(self).owner() == old(self).owner(),
            final(self).type_key() == old(self).type_key(),
            final(self).rank() == old(self).rank(),
    ;

    /// Starts the component.
    fn start(&mut self)
        requires
            old(self).stage() == Stage::Active,
        ensures
            final(self).stage() == Stage::Started,
            final(self).owner() == old(self).owner(),
            final(self).type_key() == old(self).type_key(),
            final(self).rank() == old(self).rank(),
    ;

    /// Steps the component.
    fn update(&mut self, nec: UpdateNecessary<'_>)
        requires
            old(self).stage().is_live(),
        ensures
            final(self).stage() == old(self).stage(),
            final(self).owner() == old(self).owner(),
            final(self).type_key() == old(self).type_key(),
            final(self).rank() == old(self).rank(),
    ;

    /// Releases what the component holds, before it is dropped. This is
    /// not unregistering: the component stays where it stands.
    fn destroy(&mut self)
        ensures
            final(self).stage() == old(self).stage(),
            final(self).owner() == old(self).owner(),
            final(self).type_key() == old(self).type_key(),
            final(self).rank() == old(self).rank(),
    ;
}

/// A component of any type, for an entity whose components are of
/// different types: the entity holds each behind this one type, and every
/// call goes on to the component inside.
pub struct AnyComponent {
    pub inner: Box<dyn Component>,
}

impl Component for AnyComponent {
    open spec fn type_key(&self) -> u64 {
        self.inner.type_key()
    }

    open spec fn rank(&self) -> i32 {
        self.inner.rank()
    }

    open spec fn owner(&self) -> Option<u64> {
        self.inner.owner()
    }

    open spec fn stage(&self) -> Stage {
        self.inner.stage()
    }

    fn type_id(&self) -> (k: u64) {
        self.inner.type_id()
    }

    fn priority(&self) -> (p: i32) {
        self.inner.priority()
    }

    fn on_reg(&mut self, obj: u64) {
        self.inner.on_reg(obj)
    }

    fn on_unreg(&mut self) {
        self.inner.on_unreg()
    }

    fn on_add(&mut self) {
        self.inner.on_add()
    }

    fn on_remove(&mut self) {
        self.inner.on_remove()
    }

    fn object(&self) -> (r: Result<u64, NotRegistered>) {
        self.inner.object()
    }

    fn init(&mut self, nec: InitNecessary<'_>) {
        self.inner.init(nec)
    }

    fn render(&mut self, nec: RenderNecessary<'_>) {
        self.inner.render(nec)
    }

    fn start(&mut self) {
        self.inner.start()
    }

    fn update(&mut self, nec: UpdateNecessary<'_>) {
        self.inner.update(nec)
    }

    fn destroy(&mut self) {
        self.inner.destroy()
    }
}

} // verus!
