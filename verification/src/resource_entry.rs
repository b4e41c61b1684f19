//! The registry record for one logical resource, and the capability model
//! that lets the graph hold heterogeneous resources behind one non-generic
//! record.
//!
//! Type erasure is modelled as a tagged union over the closed set of resource
//! kinds the engine knows (textures and buffers).  The checked-downcast
//! contract is kept: recovering a typed view of a record goes through the
//! [`Resource`] trait, and asking for the wrong type is a programming error
//! excluded by precondition rather than a recoverable result.

use vstd::prelude::*;
use vstd::string::StringExecFns;

use crate::decimal::{spec_decimal, u64_to_decimal};
use crate::{ResourceAccess, ResourceBarrier};

verus! {

/// Who owns a resource's lifetime.
#[derive(Clone, Copy, PartialEq, Eq, Structural, Debug)]
pub enum Type {
    /// Owned and scheduled by the graph within one compilation cycle.
    Transient,
    /// Owned by an external collaborator (for example the swapchain image);
    /// the graph may reference it but never creates or destroys it.
    Imported,
}

/// Plain attributes of a texture.  The pixel format is carried as the
/// graphics API's raw format code.
#[derive(Clone, Copy, PartialEq, Eq, Structural, Debug)]
pub struct TextureDesc {
    pub width: u32,
    pub height: u32,
    pub format: u32,
}

/// Plain attributes of a buffer.
#[derive(Clone, Copy, PartialEq, Eq, Structural, Debug)]
pub struct BufferDesc {
    pub size: u64,
    pub usage: u32,
}

/// Descriptor for any resource kind the graph can carry.
#[derive(Clone, Copy, PartialEq, Eq, Structural, Debug)]
pub enum ResourceDesc {
    Texture(TextureDesc),
    Buffer(BufferDesc),
}

/// A texture as the graph sees it: the device image handle, `0` until the
/// executor's creation point fills it in.
#[derive(Clone, Copy, PartialEq, Eq, Structural, Debug)]
pub struct FrameGraphTexture {
    pub image: u64,
}

/// A buffer as the graph sees it: the device buffer handle, `0` until the
/// executor's creation point fills it in.
#[derive(Clone, Copy, PartialEq, Eq, Structural, Debug)]
pub struct FrameGraphBuffer {
    pub buffer: u64,
}

/// Payload for any resource kind the graph can carry.
#[derive(Clone, Copy, PartialEq, Eq, Structural, Debug)]
pub enum ResourceData {
    Texture(FrameGraphTexture),
    Buffer(FrameGraphBuffer),
}

/// A concrete resource kind: how its values and descriptors embed into the
/// graph's tagged unions, and how a typed view is recovered from them.
pub trait Resource: Sized {
    type Desc;

    spec fn spec_wrap_desc(d: Self::Desc) -> ResourceDesc;

    spec fn spec_desc_matches(d: ResourceDesc) -> bool;

    spec fn spec_desc_of(d: ResourceDesc) -> Self::Desc;

    spec fn spec_wrap(r: Self) -> ResourceData;

    spec fn spec_matches(d: ResourceData) -> bool;

    spec fn spec_of(d: ResourceData) -> Self;

    spec fn spec_initial() -> Self;

    /// Embed a descriptor into the union.
    fn wrap_desc(d: Self::Desc) -> (r: ResourceDesc)
        ensures
            r == Self::spec_wrap_desc(d),
            Self::spec_desc_matches(r),
            Self::spec_desc_of(r) == d,
    ;

    /// Embed a value into the union.
    fn wrap(r: Self) -> (d: ResourceData)
        ensures
            d == Self::spec_wrap(r),
            Self::spec_matches(d),
            Self::spec_of(d) == r,
    ;

    /// The value a fresh, not yet device-backed resource starts from.
    fn initial() -> (r: Self)
        ensures
            r == Self::spec_initial(),
            Self::spec_wrap(r) == Self::spec_wrap(Self::spec_initial()),
    ;

    /// Checked downcast of a payload; the wrong kind is excluded by
    /// precondition.
    fn of_data(d: &ResourceData) -> (r: &Self)
        requires
            Self::spec_matches(*d),
        ensures
            *r == Self::spec_of(*d),
    ;

    /// Mutable checked downcast of a payload.
    fn of_data_mut(d: &mut ResourceData) -> (r: &mut Self)
        requires
            Self::spec_matches(*old(d)),
        ensures
            *r == Self::spec_of(*old(d)),
            *final(d) == Self::spec_wrap(*final(r)),
    ;

    /// Checked downcast of a descriptor.
    fn of_desc(d: &ResourceDesc) -> (r: &Self::Desc)
        requires
            Self::spec_desc_matches(*d),
        ensures
            *r == Self::spec_desc_of(*d),
    ;
}

impl Resource for FrameGraphTexture {
    type Desc = TextureDesc;

    open spec fn spec_wrap_desc(d: TextureDesc) -> ResourceDesc {
        ResourceDesc::Texture(d)
    }

    open spec fn spec_desc_matches(d: ResourceDesc) -> bool {
        d is Texture
    }

    open spec fn spec_desc_of(d: ResourceDesc) -> TextureDesc {
        d->Texture_0
    }

    open spec fn spec_wrap(r: Self) -> ResourceData {
        ResourceData::Texture(r)
    }

    open spec fn spec_matches(d: ResourceData) -> bool {
        d is Texture
    }

    open spec fn spec_of(d: ResourceData) -> Self {
        d->Texture_0
    }

    open spec fn spec_initial() -> Self {
        FrameGraphTexture { image: 0 }
    }

    fn wrap_desc(d: TextureDesc) -> ResourceDesc {
        ResourceDesc::Texture(d)
    }

    fn wrap(r: Self) -> ResourceData {
        ResourceData::Texture(r)
    }

    fn initial() -> Self {
        FrameGraphTexture { image: 0 }
    }

    fn of_data(d: &ResourceData) -> &Self {
        match d {
            ResourceData::Texture(t) => t,
            ResourceData::Buffer(_) => vstd::pervasive::unreached(),
        }
    }

    fn of_data_mut(d: &mut ResourceData) -> &mut Self {
        match d {
            ResourceData::Texture(t) => t,
            ResourceData::Buffer(_) => vstd::pervasive::unreached(),
        }
    }

    fn of_desc(d: &ResourceDesc) -> &TextureDesc {
        match d {
            ResourceDesc::Texture(t) => t,
            ResourceDesc::Buffer(_) => vstd::pervasive::unreached(),
        }
    }
}

impl Resource for FrameGraphBuffer {
    type Desc = BufferDesc;

    open spec fn spec_wrap_desc(d: BufferDesc) -> ResourceDesc {
        ResourceDesc::Buffer(d)
    }

    open spec fn spec_desc_matches(d: ResourceDesc) -> bool {
        d is Buffer
    }

    open spec fn spec_desc_of(d: ResourceDesc) -> BufferDesc {
        d->Buffer_0
    }

    open spec fn spec_wrap(r: Self) -> ResourceData {
        ResourceData::Buffer(r)
    }

    open spec fn spec_matches(d: ResourceData) -> bool {
        d is Buffer
    }

    open spec fn spec_of(d: ResourceData) -> Self {
        d->Buffer_0
    }

    open spec fn spec_initial() -> Self {
        FrameGraphBuffer { buffer: 0 }
    }

    fn wrap_desc(d: BufferDesc) -> ResourceDesc {
        ResourceDesc::Buffer(d)
    }

    fn wrap(r: Self) -> ResourceData {
        ResourceData::Buffer(r)
    }

    fn initial() -> Self {
        FrameGraphBuffer { buffer: 0 }
    }

    fn of_data(d: &ResourceData) -> &Self {
        match d {
            ResourceData::Buffer(b) => b,
            ResourceData::Texture(_) => vstd::pervasive::unreached(),
        }
    }

    fn of_data_mut(d: &mut ResourceData) -> &mut Self {
        match d {
            ResourceData::Buffer(b) => b,
            ResourceData::Texture(_) => vstd::pervasive::unreached(),
        }
    }

    fn of_desc(d: &ResourceDesc) -> &BufferDesc {
        match d {
            ResourceDesc::Buffer(b) => b,
            ResourceDesc::Texture(_) => vstd::pervasive::unreached(),
        }
    }
}

/// Whether a kind overrides the pre-read barrier hook.  Optional hooks are a
/// per-kind capability flag; both current kinds install barriers.
pub open spec fn spec_has_pre_read(d: ResourceDesc) -> bool {
    match d {
        ResourceDesc::Texture(_) => true,
        ResourceDesc::Buffer(_) => true,
    }
}

/// Whether a kind overrides the pre-write barrier hook.
pub open spec fn spec_has_pre_write(d: ResourceDesc) -> bool {
    match d {
        ResourceDesc::Texture(_) => true,
        ResourceDesc::Buffer(_) => true,
    }
}

/// Whether a kind offers a diagnostic description.
pub open spec fn spec_has_to_string(d: ResourceDesc) -> bool {
    match d {
        ResourceDesc::Texture(_) => true,
        ResourceDesc::Buffer(_) => true,
    }
}

pub fn has_pre_read(d: &ResourceDesc) -> (b: bool)
    ensures
        b == spec_has_pre_read(*d),
{
    match d {
        ResourceDesc::Texture(_) => true,
        ResourceDesc::Buffer(_) => true,
    }
}

pub fn has_pre_write(d: &ResourceDesc) -> (b: bool)
    ensures
        b == spec_has_pre_write(*d),
{
    match d {
        ResourceDesc::Texture(_) => true,
        ResourceDesc::Buffer(_) => true,
    }
}

pub fn has_to_string(d: &ResourceDesc) -> (b: bool)
    ensures
        b == spec_has_to_string(*d),
{
    match d {
        ResourceDesc::Texture(_) => true,
        ResourceDesc::Buffer(_) => true,
    }
}

/// The diagnostic description of a descriptor.
pub open spec fn spec_describe(d: ResourceDesc) -> Seq<char> {
    match d {
        ResourceDesc::Texture(t) => "Texture("@ + spec_decimal(t.width as nat) + "x"@
            + spec_decimal(t.height as nat) + ", format "@ + spec_decimal(t.format as nat) + ")"@,
        ResourceDesc::Buffer(b) => "Buffer("@ + spec_decimal(b.size as nat) + " bytes, usage "@
            + spec_decimal(b.usage as nat) + ")"@,
    }
}

impl ResourceDesc {
    /// Render the description; diagnostics only.
    pub fn describe(&self) -> (s: String)
        ensures
            s@ == spec_describe(*self),
    {
        match self {
            ResourceDesc::Texture(t) => {
                let mut s = String::from_str("Texture(");
                s.append(u64_to_decimal(t.width as u64).as_str());
                s.append("x");
                s.append(u64_to_decimal(t.height as u64).as_str());
                s.append(", format ");
                s.append(u64_to_decimal(t.format as u64).as_str());
                s.append(")");
                proof {
                    assert(s@ =~= spec_describe(*self));
                }
                s
            },
            ResourceDesc::Buffer(b) => {
                let mut s = String::from_str("Buffer(");
                s.append(u64_to_decimal(b.size).as_str());
                s.append(" bytes, usage ");
                s.append(u64_to_decimal(b.usage as u64).as_str());
                s.append(")");
                proof {
                    assert(s@ =~= spec_describe(*self));
                }
                s
            },
        }
    }
}

/// The capability object: a descriptor paired with the (type-erased) value.
pub struct Model {
    pub descriptor: ResourceDesc,
    pub resource: ResourceData,
}

impl Model {
    pub fn new(descriptor: ResourceDesc, resource: ResourceData) -> (m: Model)
        ensures
            m.descriptor == descriptor,
            m.resource == resource,
    {
        Model { descriptor, resource }
    }

    /// The description, when the kind offers one; empty otherwise.
    pub fn to_string(&self) -> (s: String)
        ensures
            spec_has_to_string(self.descriptor) ==> s@ == spec_describe(self.descriptor),
            !spec_has_to_string(self.descriptor) ==> s@ == Seq::<char>::empty(),
    {
        if has_to_string(&self.descriptor) {
            self.descriptor.describe()
        } else {
            String::new()
        }
    }
}

/// Registry record for one logical resource.
pub struct ResourceEntry {
    kind: Type,
    id: u32,
    version: u32,
    name: String,
    concept: Model,
    producer: Option<u32>,
    last: Option<u32>,
    alive: bool,
}

/// The version every freshly registered resource starts from.
pub const INITIAL_VERSION: u32 = 1;

impl ResourceEntry {
    pub closed spec fn spec_kind(&self) -> Type {
        self.kind
    }

    pub closed spec fn spec_id(&self) -> u32 {
        self.id
    }

    pub closed spec fn spec_version(&self) -> u32 {
        self.version
    }

    pub closed spec fn spec_name(&self) -> Seq<char> {
        self.name@
    }

    pub closed spec fn spec_descriptor(&self) -> ResourceDesc {
        self.concept.descriptor
    }

    pub closed spec fn spec_data(&self) -> ResourceData {
        self.concept.resource
    }

    pub closed spec fn spec_producer(&self) -> Option<u32> {
        self.producer
    }

    pub closed spec fn spec_last(&self) -> Option<u32> {
        self.last
    }

    /// Whether the transient device object currently exists.
    pub closed spec fn spec_alive(&self) -> bool {
        self.alive
    }

    pub(crate) fn new_with_type<T: Resource>(
        resource_type: Type,
        id: u32,
        name: String,
        descriptor: T::Desc,
        resource: T,
    ) -> (entry: ResourceEntry)
        ensures
            entry.spec_kind() == resource_type,
            entry.spec_id() == id,
            entry.spec_version() == INITIAL_VERSION,
            entry.spec_name() == name@,
            entry.spec_descriptor() == T::spec_wrap_desc(descriptor),
            entry.spec_data() == T::spec_wrap(resource),
            entry.spec_producer() is None,
            entry.spec_last() is None,
            !entry.spec_alive(),
    {
        ResourceEntry {
            kind: resource_type,
            id,
            version: INITIAL_VERSION,
            name,
            concept: Model::new(T::wrap_desc(descriptor), T::wrap(resource)),
            producer: None,
            last: None,
            alive: false,
        }
    }

    /// The description of the underlying capability object.
    pub fn to_string(&self) -> (s: String)
        ensures
            spec_has_to_string(self.spec_descriptor()) ==> s@ == spec_describe(
                self.spec_descriptor(),
            ),
    {
        self.concept.to_string()
    }

    /// Bring the transient device object to life.  Only `Transient` entries
    /// may be created; calling this on an `Imported` entry is a programming
    /// error excluded by precondition, as is double creation.
    pub fn create(&mut self)
        requires
            old(self).spec_kind() == Type::Transient,
            !old(self).spec_alive(),
        ensures
            final(self).spec_alive(),
            final(self).spec_kind() == old(self).spec_kind(),
            final(self).spec_id() == old(self).spec_id(),
            final(self).spec_version() == old(self).spec_version(),
            final(self).spec_name() == old(self).spec_name(),
            final(self).spec_descriptor() == old(self).spec_descriptor(),
            final(self).spec_data() == old(self).spec_data(),
            final(self).spec_producer() == old(self).spec_producer(),
            final(self).spec_last() == old(self).spec_last(),
    {
        self.alive = true;
    }

    /// Tear the transient device object down.  Only `Transient` entries may
    /// be destroyed, and only while alive.
    pub fn destroy(&mut self)
        requires
            old(self).spec_kind() == Type::Transient,
            old(self).spec_alive(),
        ensures
            !final(self).spec_alive(),
            final(self).spec_kind() == old(self).spec_kind(),
            final(self).spec_id() == old(self).spec_id(),
            final(self).spec_version() == old(self).spec_version(),
            final(self).spec_name() == old(self).spec_name(),
            final(self).spec_descriptor() == old(self).spec_descriptor(),
            final(self).spec_data() == old(self).spec_data(),
            final(self).spec_producer() == old(self).spec_producer(),
            final(self).spec_last() == old(self).spec_last(),
    {
        self.alive = false;
    }

    /// The barrier to apply before this resource is read, when its kind
    /// installs a pre-read hook.
    pub fn pre_read(&self, flags: u32) -> (b: Option<ResourceBarrier>)
        ensures
            match b {
                Some(barrier) => spec_has_pre_read(self.spec_descriptor())
                    && barrier.resource_name@ == self.spec_name() && barrier.from
                    == ResourceAccess::Write && barrier.to == ResourceAccess::Read,
                None => !spec_has_pre_read(self.spec_descriptor()),
            },
    {
        let _ = flags;
        if has_pre_read(&self.concept.descriptor) {
            Some(
                ResourceBarrier {
                    resource_name: self.name.clone(),
                    from: ResourceAccess::Write,
                    to: ResourceAccess::Read,
                },
            )
        } else {
            None
        }
    }

    /// The barrier to apply before this resource is written, when its kind
    /// installs a pre-write hook.
    pub fn pre_write(&self, flags: u32) -> (b: Option<ResourceBarrier>)
        ensures
            match b {
                Some(barrier) => spec_has_pre_write(self.spec_descriptor())
                    && barrier.resource_name@ == self.spec_name() && barrier.from
                    == ResourceAccess::Read && barrier.to == ResourceAccess::Write,
                None => !spec_has_pre_write(self.spec_descriptor()),
            },
    {
        let _ = flags;
        if has_pre_write(&self.concept.descriptor) {
            Some(
                ResourceBarrier {
                    resource_name: self.name.clone(),
                    from: ResourceAccess::Read,
                    to: ResourceAccess::Write,
                },
            )
        } else {
            None
        }
    }

    pub fn id(&self) -> (id: u32)
        ensures
            id == self.spec_id(),
    {
        self.id
    }

    pub fn version(&self) -> (v: u32)
        ensures
            v == self.spec_version(),
    {
        self.version
    }

    pub fn is_imported(&self) -> (b: bool)
        ensures
            b == (self.spec_kind() == Type::Imported),
    {
        self.kind == Type::Imported
    }

    pub fn is_transient(&self) -> (b: bool)
        ensures
            b == (self.spec_kind() == Type::Transient),
    {
        self.kind == Type::Transient
    }

    /// Typed view of the stored value; requesting the wrong type is a
    /// programming error excluded by precondition.
    pub fn get<T: Resource>(&self) -> (r: &T)
        requires
            T::spec_matches(self.spec_data()),
        ensures
            *r == T::spec_of(self.spec_data()),
    {
        T::of_data(&self._get_model().resource)
    }

    /// Typed mutable view of the stored value.
    pub fn get_mut<T: Resource>(&mut self) -> (r: &mut T)
        requires
            T::spec_matches(old(self).spec_data()),
        ensures
            *r == T::spec_of(old(self).spec_data()),
            final(self).spec_data() == T::spec_wrap(*final(r)),
            final(self).spec_kind() == old(self).spec_kind(),
            final(self).spec_id() == old(self).spec_id(),
            final(self).spec_version() == old(self).spec_version(),
            final(self).spec_name() == old(self).spec_name(),
            final(self).spec_descriptor() == old(self).spec_descriptor(),
            final(self).spec_producer() == old(self).spec_producer(),
            final(self).spec_last() == old(self).spec_last(),
            final(self).spec_alive() == old(self).spec_alive(),
    {
        T::of_data_mut(&mut self._get_model_mut().resource)
    }

    /// Typed view of the stored descriptor.
    pub fn get_descriptor<T: Resource>(&self) -> (r: &T::Desc)
        requires
            T::spec_desc_matches(self.spec_descriptor()),
        ensures
            *r == T::spec_desc_of(self.spec_descriptor()),
    {
        T::of_desc(&self._get_model().descriptor)
    }

    /// The stored descriptor, kind-erased.
    pub fn descriptor(&self) -> (d: &ResourceDesc)
        ensures
            *d == self.spec_descriptor(),
    {
        &self.concept.descriptor
    }

    /// The stored payload, kind-erased.
    pub fn data(&self) -> (d: &ResourceData)
        ensures
            *d == self.spec_data(),
    {
        &self.concept.resource
    }

    fn _get_model(&self) -> (m: &Model)
        ensures
            m.descriptor == self.spec_descriptor(),
            m.resource == self.spec_data(),
    {
        &self.concept
    }

    fn _get_model_mut(&mut self) -> (m: &mut Model)
        ensures
            m.descriptor == old(self).spec_descriptor(),
            m.resource == old(self).spec_data(),
            final(self).spec_descriptor() == final(m).descriptor,
            final(self).spec_data() == final(m).resource,
            final(self).spec_kind() == old(self).spec_kind(),
            final(self).spec_id() == old(self).spec_id(),
            final(self).spec_version() == old(self).spec_version(),
            final(self).spec_name() == old(self).spec_name(),
            final(self).spec_producer() == old(self).spec_producer(),
            final(self).spec_last() == old(self).spec_last(),
            final(self).spec_alive() == old(self).spec_alive(),
    {
        &mut self.concept
    }

    /// Record the pass that currently produces this resource's latest
    /// version.
    pub(crate) fn set_producer(&mut self, pass: u32)
        ensures
            final(self).spec_producer() == Some(pass),
            final(self).spec_kind() == old(self).spec_kind(),
            final(self).spec_id() == old(self).spec_id(),
            final(self).spec_version() == old(self).spec_version(),
            final(self).spec_name() == old(self).spec_name(),
            final(self).spec_descriptor() == old(self).spec_descriptor(),
            final(self).spec_data() == old(self).spec_data(),
            final(self).spec_last() == old(self).spec_last(),
            final(self).spec_alive() == old(self).spec_alive(),
    {
        self.producer = Some(pass);
    }

    /// Record the last pass that consumes this resource in the compiled
    /// order.
    pub(crate) fn set_last(&mut self, pass: u32)
        ensures
            final(self).spec_last() == Some(pass),
            final(self).spec_kind() == old(self).spec_kind(),
            final(self).spec_id() == old(self).spec_id(),
            final(self).spec_version() == old(self).spec_version(),
            final(self).spec_name() == old(self).spec_name(),
            final(self).spec_descriptor() == old(self).spec_descriptor(),
            final(self).spec_data() == old(self).spec_data(),
            final(self).spec_producer() == old(self).spec_producer(),
            final(self).spec_alive() == old(self).spec_alive(),
    {
        self.last = Some(pass);
    }

    /// Advance the version after a write declaration.
    pub(crate) fn bump_version(&mut self)
        requires
            old(self).spec_version() < u32::MAX,
        ensures
            final(self).spec_version() == old(self).spec_version() + 1,
            final(self).spec_kind() == old(self).spec_kind(),
            final(self).spec_id() == old(self).spec_id(),
            final(self).spec_name() == old(self).spec_name(),
            final(self).spec_descriptor() == old(self).spec_descriptor(),
            final(self).spec_data() == old(self).spec_data(),
            final(self).spec_producer() == old(self).spec_producer(),
            final(self).spec_last() == old(self).spec_last(),
            final(self).spec_alive() == old(self).spec_alive(),
    {
        self.version = self.version + 1;
    }

    /// Replace the stored payload; used by the executor when the backend
    /// hands back a freshly created device object.
    pub(crate) fn set_data(&mut self, data: ResourceData)
        ensures
            final(self).spec_data() == data,
            final(self).spec_kind() == old(self).spec_kind(),
            final(self).spec_id() == old(self).spec_id(),
            final(self).spec_version() == old(self).spec_version(),
            final(self).spec_name() == old(self).spec_name(),
            final(self).spec_descriptor() == old(self).spec_descriptor(),
            final(self).spec_producer() == old(self).spec_producer(),
            final(self).spec_last() == old(self).spec_last(),
            final(self).spec_alive() == old(self).spec_alive(),
    {
        self.concept.resource = data;
    }
}

} // verus!
