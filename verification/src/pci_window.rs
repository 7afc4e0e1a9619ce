//! The two windowing capabilities the drivers run on: a configuration
//! space and a numbered resource, each byte/dword addressable with
//! little-endian dword semantics.
//!
//! The host-side implementations (sysfs config file, memory-mapped
//! resource) live outside the library; the traits record every access in
//! an operation history, and the drivers' contracts are stated over that
//! history.

use vstd::prelude::*;

verus! {

/// One access to a configuration-space window.
#[derive(Clone, Copy, PartialEq, Eq, Structural, Debug)]
pub enum ConfigOp {
    ReadDword { offset: usize, value: u32 },
    WriteDword { offset: usize, value: u32 },
}

/// The operation history of a configuration-space window, as its `ops`
/// view returns it.
pub type ConfigOps = Seq<ConfigOp>;

/// The operation history of a resource window, as its `ops` view returns
/// it.
pub type ResourceOps = Seq<ResourceOp>;

/// The length of a window, as its ghost length view returns it.
pub type WindowLength = nat;

/// Read access to one endpoint's configuration space.  Reads go to the
/// device and are recorded in the history; dwords are little-endian.
pub trait PciConfigSpaceReadOnly: Sized {
    spec fn ops(&self) -> Seq<ConfigOp>;

    spec fn cfg_len(&self) -> nat;

    fn len(&self) -> (r: usize)
        ensures
            r == self.cfg_len(),
    ;

    fn read_dword(&mut self, offset: usize) -> (r: u32)
        requires
            offset % 4 == 0,
            offset + 3 < old(self).cfg_len(),
        ensures
            final(self).ops() == old(self).ops().push(ConfigOp::ReadDword { offset, value: r }),
            final(self).cfg_len() == old(self).cfg_len(),
    ;
}

/// Write access to one endpoint's configuration space.
pub trait PciConfigSpace: PciConfigSpaceReadOnly {
    fn write_dword(&mut self, offset: usize, data: u32)
        requires
            offset % 4 == 0,
            offset + 3 < old(self).cfg_len(),
        ensures
            final(self).ops() == old(self).ops().push(
                ConfigOp::WriteDword { offset, value: data },
            ),
            final(self).cfg_len() == old(self).cfg_len(),
    ;
}

/// One access to a resource window.
#[derive(Clone, Copy, PartialEq, Eq, Structural, Debug)]
pub enum ResourceOp {
    ReadByte { offset: usize, value: u8 },
    WriteByte { offset: usize, value: u8 },
}

/// Read access to one numbered resource of an endpoint.
pub trait PciResourceReadOnly: Sized {
    spec fn ops(&self) -> Seq<ResourceOp>;

    spec fn res_len(&self) -> nat;

    fn len(&self) -> (r: usize)
        ensures
            r == self.res_len(),
    ;

    fn read_byte(&mut self, offset: usize) -> (r: u8)
        requires
            offset < old(self).res_len(),
        ensures
            final(self).ops() == old(self).ops().push(ResourceOp::ReadByte { offset, value: r }),
            final(self).res_len() == old(self).res_len(),
    ;
}

/// Write access to one numbered resource of an endpoint.
pub trait PciResource: PciResourceReadOnly {
    fn write_byte(&mut self, offset: usize, data: u8)
        requires
            offset < old(self).res_len(),
        ensures
            final(self).ops() == old(self).ops().push(
                ResourceOp::WriteByte { offset, value: data },
            ),
            final(self).res_len() == old(self).res_len(),
    ;
}

/// `h` extends `h0`: everything in `h0` has already happened, in order.
pub open spec fn cfg_extends(h: Seq<ConfigOp>, h0: Seq<ConfigOp>) -> bool {
    h0.is_prefix_of(h)
}

/// A history followed by more operations extends the original.
pub proof fn lemma_cfg_extends_app(h0: Seq<ConfigOp>, t: Seq<ConfigOp>)
    ensures
        cfg_extends(h0 + t, h0),
{
    assert(h0 =~= (h0 + t).subrange(0, h0.len() as int));
}

/// Extension of configuration histories is transitive.
pub proof fn lemma_cfg_extends_trans(h2: Seq<ConfigOp>, h1: Seq<ConfigOp>, h0: Seq<ConfigOp>)
    requires
        cfg_extends(h2, h1),
        cfg_extends(h1, h0),
    ensures
        cfg_extends(h2, h0),
{
    assert(h0 =~= h2.subrange(0, h0.len() as int));
}

/// Transitivity, available ambiently so that extension facts chain over a
/// sequence of calls.
pub broadcast proof fn lemma_cfg_extends_trans_auto(
    h2: Seq<ConfigOp>,
    h1: Seq<ConfigOp>,
    h0: Seq<ConfigOp>,
)
    requires
        cfg_extends(h2, h1),
        cfg_extends(h1, h0),
    ensures
        #![trigger cfg_extends(h2, h1), cfg_extends(h1, h0)]
        cfg_extends(h2, h0),
{
    lemma_cfg_extends_trans(h2, h1, h0);
}

/// Every configuration history extends itself.
pub proof fn lemma_cfg_extends_refl(h: Seq<ConfigOp>)
    ensures
        cfg_extends(h, h),
{
    assert(h =~= h.subrange(0, h.len() as int));
}

} // verus!
