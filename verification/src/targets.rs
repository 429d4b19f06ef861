//! The targets found in a manifest.

use vstd::prelude::*;
use vstd::slice::slice_to_vec;

verus! {

pub const TARGET_KIND_UNKNOWN: u8 = 0;

pub const TARGET_KIND_LIBRARY: u8 = 1;

pub const TARGET_KIND_BINARY: u8 = 2;

pub const TARGET_KIND_TEST: u8 = 3;

pub const TARGET_KIND_WEBAPP: u8 = 4;

pub const TARGET_KIND_WEBAPI: u8 = 5;

pub const TARGET_KIND_PROC_MACRO: u8 = 6;

pub const TARGET_KIND_PLUGIN: u8 = 7;

pub const TARGET_KIND_FRAMEWORK: u8 = 8;

pub const TARGET_KIND_EXTENSION: u8 = 9;

pub const TARGET_KIND_EXAMPLE: u8 = 10;

pub const TARGET_KIND_BENCHMARK: u8 = 11;

pub const TARGET_KIND_WORKER: u8 = 12;

pub const TARGET_KIND_AGGREGATOR: u8 = 13;

/// How many targets are kept; later ones are dropped.
pub const MAX_TARGETS: usize = 64;

/// How many bytes of a target's name are kept.
pub const MAX_NAME_LEN: usize = 128;

/// How many bytes of a target's subtype are kept.
pub const MAX_SUBTYPE_LEN: usize = 32;

/// One target, as a value.
#[verifier::ext_equal]
pub struct TargetModel {
    pub name: Seq<u8>,
    pub kind: u8,
    pub subtype: Seq<u8>,
}

/// The first `limit` bytes of `bytes`, or all of them where there are fewer.
pub open spec fn clip(bytes: Seq<u8>, limit: nat) -> Seq<u8> {
    if bytes.len() <= limit {
        bytes
    } else {
        bytes.take(limit as int)
    }
}

/// The target that is kept of a name, a kind and a subtype.
pub open spec fn clipped(name: Seq<u8>, kind: u8, subtype: Seq<u8>) -> TargetModel {
    TargetModel {
        name: clip(name, MAX_NAME_LEN as nat),
        kind,
        subtype: clip(subtype, MAX_SUBTYPE_LEN as nat),
    }
}

/// The targets that are kept of all those found: the first ones, up to the limit.
pub open spec fn kept(found: Seq<TargetModel>) -> Seq<TargetModel> {
    if found.len() <= MAX_TARGETS {
        found
    } else {
        found.take(MAX_TARGETS as int)
    }
}

/// Keeping targets one by one keeps the same ones as keeping them all at once.
pub proof fn law_kept_push(found: Seq<TargetModel>, target: TargetModel)
    ensures
        kept(found.push(target)) == if kept(found).len() >= MAX_TARGETS {
            kept(found)
        } else {
            kept(found).push(target)
        },
{
    assert(kept(found.push(target)) =~= if kept(found).len() >= MAX_TARGETS {
        kept(found)
    } else {
        kept(found).push(target)
    });
}

/// Of the targets found the first 64 are kept, each as it was found, and no others.
pub proof fn law_first_targets_are_kept(found: Seq<TargetModel>)
    ensures
        found.len() <= 64 ==> kept(found) == found,
        found.len() > 64 ==> kept(found).len() == 64,
        forall|i: int| 0 <= i < kept(found).len() ==> #[trigger] kept(found)[i] == found[i],
{
}

/// A name of up to 128 bytes and a subtype of up to 32 are kept whole; of a longer one so
/// many bytes are kept from its start. The kind is kept in any case.
pub proof fn law_target_is_cut(name: Seq<u8>, kind: u8, subtype: Seq<u8>)
    ensures
        clipped(name, kind, subtype).kind == kind,
        name.len() <= 128 ==> clipped(name, kind, subtype).name == name,
        name.len() > 128 ==> clipped(name, kind, subtype).name == name.subrange(0, 128),
        subtype.len() <= 32 ==> clipped(name, kind, subtype).subtype == subtype,
        subtype.len() > 32 ==> clipped(name, kind, subtype).subtype == subtype.subrange(0, 32),
{
}

/// The numbers of the kinds that are told apart.
pub proof fn law_kind_numbers()
    ensures
        TARGET_KIND_UNKNOWN == 0,
        TARGET_KIND_LIBRARY == 1,
        TARGET_KIND_BINARY == 2,
        TARGET_KIND_TEST == 3,
        TARGET_KIND_PROC_MACRO == 6,
        TARGET_KIND_PLUGIN == 7,
        TARGET_KIND_FRAMEWORK == 8,
        TARGET_KIND_EXTENSION == 9,
{
}

struct Target {
    name: Vec<u8>,
    kind: u8,
    subtype: Vec<u8>,
}

impl View for Target {
    type V = TargetModel;

    closed spec fn view(&self) -> TargetModel {
        TargetModel { name: self.name@, kind: self.kind, subtype: self.subtype@ }
    }
}

/// The targets found in one manifest, in the order in which they were found.
pub struct Targets {
    items: Vec<Target>,
}

impl View for Targets {
    type V = Seq<TargetModel>;

    closed spec fn view(&self) -> Seq<TargetModel> {
        Seq::new(self.items@.len(), |i: int| self.items@[i]@)
    }
}

/// At most so many targets, none longer than what is kept of one.
pub open spec fn within_limits(targets: Seq<TargetModel>) -> bool {
    &&& targets.len() <= MAX_TARGETS
    &&& forall|i: int|
        0 <= i < targets.len() ==> {
            &&& (#[trigger] targets[i]).name.len() <= MAX_NAME_LEN
            &&& targets[i].subtype.len() <= MAX_SUBTYPE_LEN
        }
}

/// Copies the first `limit` bytes, or all of them where there are fewer.
fn clip_bytes(bytes: &[u8], limit: usize) -> (copy: Vec<u8>)
    ensures
        copy@ == clip(bytes@, limit as nat),
{
    if bytes.len() <= limit {
        slice_to_vec(bytes)
    } else {
        assert(bytes@.subrange(0, limit as int) =~= bytes@.take(limit as int));
        slice_to_vec(&bytes[0..limit])
    }
}

impl Targets {
    #[verifier::type_invariant]
    closed spec fn wf(&self) -> bool {
        &&& self.items@.len() <= MAX_TARGETS
        &&& forall|i: int|
            0 <= i < self.items@.len() ==> {
                &&& (#[trigger] self.items@[i]).name@.len() <= MAX_NAME_LEN
                &&& self.items@[i].subtype@.len() <= MAX_SUBTYPE_LEN
            }
    }

    /// No targets.
    pub fn new() -> (targets: Self)
        ensures
            targets@ == Seq::<TargetModel>::empty(),
    {
        let targets = Targets { items: Vec::new() };
        assert(targets@ =~= Seq::<TargetModel>::empty());
        targets
    }

    /// Adds a target, cut to what is kept of one; a full collection stays as it is.
    pub fn push(&mut self, name: &[u8], kind: u8, subtype: &[u8])
        ensures
            final(self)@ == if old(self)@.len() >= MAX_TARGETS {
                old(self)@
            } else {
                old(self)@.push(clipped(name@, kind, subtype@))
            },
            old(self)@.len() >= 64 ==> final(self)@ == old(self)@,
            old(self)@.len() < 64 ==> {
                &&& final(self)@.len() == old(self)@.len() + 1
                &&& final(self)@.drop_last() == old(self)@
                &&& final(self)@.last().kind == kind
                &&& final(self)@.last().name == name@.take(
                    if name@.len() < 128 {
                        name@.len() as int
                    } else {
                        128
                    },
                )
                &&& final(self)@.last().subtype == subtype@.take(
                    if subtype@.len() < 32 {
                        subtype@.len() as int
                    } else {
                        32
                    },
                )
            },
    {
        proof {
            use_type_invariant(&*self);
        }
        if self.items.len() >= MAX_TARGETS {
            return ;
        }
        let item = Target {
            name: clip_bytes(name, MAX_NAME_LEN),
            kind,
            subtype: clip_bytes(subtype, MAX_SUBTYPE_LEN),
        };
        let mut items: Vec<Target> = Vec::new();
        std::mem::swap(&mut items, &mut self.items);
        items.push(item);
        self.items = items;
        assert(self@ =~= old(self)@.push(clipped(name@, kind, subtype@)));
        assert(self@.drop_last() =~= old(self)@);
        assert(name@.take(name@.len() as int) =~= name@);
        assert(subtype@.take(subtype@.len() as int) =~= subtype@);
    }

    /// How many targets there are.
    pub fn count(&self) -> (n: usize)
        ensures
            n == self@.len(),
            within_limits(self@),
    {
        proof {
            use_type_invariant(self);
        }
        self.items.len()
    }

    /// The name of target `i`; empty where there is no such target.
    pub fn name(&self, i: usize) -> (name: &[u8])
        requires
            i < MAX_TARGETS,
        ensures
            name@ == if i < self@.len() {
                self@[i as int].name
            } else {
                Seq::empty()
            },
    {
        if i < self.items.len() {
            self.items[i].name.as_slice()
        } else {
            &[]
        }
    }

    /// The kind of target `i`; unknown where there is no such target.
    pub fn kind(&self, i: usize) -> (kind: u8)
        requires
            i < MAX_TARGETS,
        ensures
            kind == if i < self@.len() {
                self@[i as int].kind
            } else {
                TARGET_KIND_UNKNOWN
            },
    {
        if i < self.items.len() {
            self.items[i].kind
        } else {
            TARGET_KIND_UNKNOWN
        }
    }

    /// The subtype of target `i`; empty where there is no such target.
    pub fn subtype(&self, i: usize) -> (subtype: &[u8])
        requires
            i < MAX_TARGETS,
        ensures
            subtype@ == if i < self@.len() {
                self@[i as int].subtype
            } else {
                Seq::empty()
            },
    {
        if i < self.items.len() {
            self.items[i].subtype.as_slice()
        } else {
            &[]
        }
    }
}

} // verus!
